use vstd::prelude::*;
use super::io::{BytesIO, BytesReadError, Decoded};
use super::module::{module_loaded, put_cell, ItemView, Module};
use crate::datamodel::tuple::nils;
use crate::datamodel::{Heap, HeapView, ObjectView, Tuple, Value};

verus! {

/// A program as it is stored: its modules in their order.
#[derive(Debug, PartialEq, Eq)]
pub struct Program {
    pub modules: Vec<Module>,
}

impl DeepView for Program {
    type V = Seq<Seq<ItemView>>;

    open spec fn deep_view(&self) -> Seq<Seq<ItemView>> {
        self.modules.deep_view()
    }
}

/// A program in the making: the arena, and for each module its tuple and
/// the cells of it that wait for another module.
pub struct ModulesLoaded {
    pub heap: HeapView,
    pub refs: Seq<(Tuple, Seq<(usize, usize)>)>,
}

/// The program after its modules were made tuples, one after the other, and
/// put into the cells of tuple `program`.
pub open spec fn modules_loaded(
    h: HeapView,
    program: Tuple,
    modules: Seq<Seq<ItemView>>,
) -> ModulesLoaded
    decreases modules.len(),
{
    if modules.len() == 0 {
        ModulesLoaded { heap: h, refs: Seq::empty() }
    } else {
        let before = modules_loaded(h, program, modules.drop_last());
        let module = Tuple { id: before.heap.slots.len() as usize };
        let loaded = module_loaded(before.heap, modules.last());
        ModulesLoaded {
            heap: put_cell(loaded.heap, program, modules.len() - 1, Value::Tuple(module)),
            refs: before.refs.push((module, loaded.refs)),
        }
    }
}

/// The arena after cell `l` of a module got a copy of module number `r` of
/// the program, or nothing if the program has no such module.
pub open spec fn cell_resolved(
    h: HeapView,
    program: Tuple,
    module: Tuple,
    l: usize,
    r: usize,
) -> HeapView {
    match h.tuple(program) {
        Some(cells) if r < cells.len() => put_cell(
            h.retained(cells[r as int]),
            module,
            l as int,
            cells[r as int],
        ),
        _ => put_cell(h, module, l as int, Value::Nil),
    }
}

/// The arena after the waiting cells of one module were resolved.
pub open spec fn refs_resolved(
    h: HeapView,
    program: Tuple,
    module: Tuple,
    refs: Seq<(usize, usize)>,
) -> HeapView
    decreases refs.len(),
{
    if refs.len() == 0 {
        h
    } else {
        cell_resolved(
            refs_resolved(h, program, module, refs.drop_last()),
            program,
            module,
            refs.last().0,
            refs.last().1,
        )
    }
}

/// The arena after the waiting cells of all modules were resolved.
pub open spec fn all_resolved(
    h: HeapView,
    program: Tuple,
    refs: Seq<(Tuple, Seq<(usize, usize)>)>,
) -> HeapView
    decreases refs.len(),
{
    if refs.len() == 0 {
        h
    } else {
        refs_resolved(
            all_resolved(h, program, refs.drop_last()),
            program,
            refs.last().0,
            refs.last().1,
        )
    }
}

/// The arena after a program was loaded: a new tuple holds one tuple for
/// each module, and every cell that names another module holds a handle to
/// that module's tuple.
pub open spec fn program_loaded(h: HeapView, modules: Seq<Seq<ItemView>>) -> HeapView {
    let program = Tuple { id: h.slots.len() as usize };
    let loaded = modules_loaded(
        h.allocated(ObjectView::Tuple(nils(modules.len()))),
        program,
        modules,
    );
    all_resolved(loaded.heap, program, loaded.refs)
}

impl Program {
    /// Makes the program a tuple of its modules in the arena.
#[verifier::rlimit(50)]
    pub fn into_tuple(self, heap: &mut Heap) -> (t: Tuple)
        requires
            old(heap).wf(),
        ensures
            t.id == old(heap)@.slots.len(),
            final(heap)@ == program_loaded(old(heap)@, self.deep_view()),
            final(heap).wf(),
    {
        let ghost all = self.deep_view();
        let mut modules = self.modules;
        let len = modules.len();
        let tuple = Tuple::empty(heap, len);
        let ghost start = heap@;
        let mut refs: Vec<(Tuple, Vec<(usize, usize)>)> = Vec::new();
        let mut i: usize = 0;
        assert(all.subrange(0, 0) =~= Seq::<Seq<ItemView>>::empty());
        while i < len
            invariant
                i <= len,
                len == modules@.len(),
                all.len() == len,
                heap.wf(),
                tuple.id == old(heap)@.slots.len(),
                forall|k: int| i <= k < len ==> (#[trigger] modules@[k]).deep_view() == all[k],
                heap@ == modules_loaded(start, tuple, all.subrange(0, i as int)).heap,
                refs@.len() == i,
                forall|k: int|
                    0 <= k < i ==> (#[trigger] refs@[k]).0 == modules_loaded(
                        start,
                        tuple,
                        all.subrange(0, i as int),
                    ).refs[k].0 && refs@[k].1@ == modules_loaded(
                        start,
                        tuple,
                        all.subrange(0, i as int),
                    ).refs[k].1,
                modules_loaded(start, tuple, all.subrange(0, i as int)).refs.len() == i,
            decreases len - i,
        {
            let mut module = Module { items: Vec::new() };
            std::mem::swap(&mut module, &mut modules[i]);
            proof {
                let sub = all.subrange(0, i + 1);
                assert(sub.drop_last() =~= all.subrange(0, i as int));
                assert(sub.last() == all[i as int]);
                assert(module.deep_view() == all[i as int]);
                assert(heap.slots.len() <= usize::MAX);
            }
            let (module, mrefs) = module.into_tuple(heap);
            refs.push((module, mrefs));
            tuple.set(heap, i, Value::Tuple(module));
            i += 1;
        }
        assert(all.subrange(0, len as int) =~= all);
        let ghost loaded = modules_loaded(start, tuple, all);
        let mut k: usize = 0;
        assert(loaded.refs.subrange(0, 0) =~= Seq::<(Tuple, Seq<(usize, usize)>)>::empty());
        while k < refs.len()
            invariant
                k <= refs.len(),
                heap.wf(),
                refs@.len() == loaded.refs.len(),
                forall|j: int|
                    0 <= j < refs@.len() ==> (#[trigger] refs@[j]).0 == loaded.refs[j].0
                        && refs@[j].1@ == loaded.refs[j].1,
                heap@ == all_resolved(loaded.heap, tuple, loaded.refs.subrange(0, k as int)),
            decreases refs.len() - k,
        {
            let module = refs[k].0;
            let ghost before = heap@;
            let ghost waiting = loaded.refs[k as int].1;
            let mut j: usize = 0;
            assert(waiting.subrange(0, 0) =~= Seq::<(usize, usize)>::empty());
            while j < refs[k].1.len()
                invariant
                    k < refs.len(),
                    j <= refs@[k as int].1@.len(),
                    heap.wf(),
                    module == refs@[k as int].0,
                    waiting == refs@[k as int].1@,
                    heap@ == refs_resolved(before, tuple, module, waiting.subrange(0, j as int)),
                decreases refs[k as int].1.len() - j,
            {
                let (l, r) = refs[k].1[j];
                proof {
                    let sub = waiting.subrange(0, j + 1);
                    assert(sub.drop_last() =~= waiting.subrange(0, j as int));
                    assert(sub.last() == waiting[j as int]);
                }
                let val = match tuple.get(heap, r) {
                    Some(v) => v,
                    None => Value::Nil,
                };
                module.set(heap, l, val);
                j += 1;
            }
            proof {
                assert(waiting.subrange(0, waiting.len() as int) =~= waiting);
                let sub = loaded.refs.subrange(0, k + 1);
                assert(sub.drop_last() =~= loaded.refs.subrange(0, k as int));
                assert(sub.last() == loaded.refs[k as int]);
            }
            k += 1;
        }
        assert(loaded.refs.subrange(0, loaded.refs.len() as int) =~= loaded.refs);
        tuple
    }
}

/// A program is laid out as the sequence of its modules.
impl BytesIO for Program {
    open spec fn encodable(v: Seq<Seq<ItemView>>) -> bool {
        Vec::<Module>::encodable(v)
    }

    open spec fn encoding(v: Seq<Seq<ItemView>>) -> Seq<u8> {
        Vec::<Module>::encoding(v)
    }

    open spec fn decoding(b: Seq<u8>) -> Decoded<Seq<Seq<ItemView>>> {
        Vec::<Module>::decoding(b)
    }

    proof fn lemma_decode_encode(v: Seq<Seq<ItemView>>, rest: Seq<u8>) {
        Vec::<Module>::lemma_decode_encode(v, rest);
    }

    proof fn lemma_encode_decode(b: Seq<u8>) {
        Vec::<Module>::lemma_encode_decode(b);
    }

    fn read<'a>(b: &'a [u8]) -> (r: Result<(&'a [u8], Self), BytesReadError<'a>>) {
        let (b, modules) = <Vec<Module> as BytesIO>::read(b)?;
        Ok((b, Program { modules }))
    }

    fn write<'a>(t: &Self, b: &'a mut [u8]) -> (r: Option<&'a mut [u8]>) {
        <Vec<Module> as BytesIO>::write(&t.modules, b)
    }
}

} // verus!
