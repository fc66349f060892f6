use vstd::prelude::*;
use super::function::Function;
use super::io::{behind, BytesIO, BytesReadError, Decoded};
use super::literal::LiteralValue;
use super::op::Op;
use super::opcodec::lemma_behind_twice;
use crate::datamodel::tuple::nils;
use crate::datamodel::{Buffer, Heap, HeapView, ObjectView, Tuple, Value};
use crate::datamodel::Function as FuncVal;

verus! {

/// A module as it is stored: its items in their order.
#[derive(Debug, PartialEq, Eq)]
pub struct Module {
    pub items: Vec<ModuleItem>,
}

/// One item of a module.
#[derive(Debug, PartialEq, Eq)]
pub enum ModuleItem {
    LiteralValue(LiteralValue),
    Buffer(Vec<u8>),
    /// The module with this number in the program.
    ModuleRef(u32),
    Function(Function),
}

/// A [`ModuleItem`] as contracts see it.
pub enum ItemView {
    LiteralValue(LiteralValue),
    Buffer(Seq<u8>),
    ModuleRef(u32),
    Function(Seq<Op>),
}

impl DeepView for ModuleItem {
    type V = ItemView;

    open spec fn deep_view(&self) -> ItemView {
        match self {
            ModuleItem::LiteralValue(l) => ItemView::LiteralValue(*l),
            ModuleItem::Buffer(v) => ItemView::Buffer(v.deep_view()),
            ModuleItem::ModuleRef(r) => ItemView::ModuleRef(*r),
            ModuleItem::Function(f) => ItemView::Function(f.deep_view()),
        }
    }
}

impl DeepView for Module {
    type V = Seq<ItemView>;

    open spec fn deep_view(&self) -> Seq<ItemView> {
        self.items.deep_view()
    }
}

/// The arena with `v` in cell `i` of a tuple.
pub open spec fn put_cell(h: HeapView, t: Tuple, i: int, v: Value) -> HeapView {
    match h.tuple(t) {
        Some(cells) if 0 <= i < cells.len() => h.with_object(
            t.id,
            ObjectView::Tuple(cells.update(i, v)),
        ),
        _ => h,
    }
}

/// A module in the making: the arena, and the cells that wait for another
/// module, each with the number of the module it waits for.
pub struct Loaded {
    pub heap: HeapView,
    pub refs: Seq<(usize, usize)>,
}

/// The module after its items were put into the cells of tuple `t`, one
/// after the other.
///
/// * A literal gives its value.
/// * Bytes give a new buffer.
/// * A function gives a new function whose module is `t`; the function holds
///   a handle of its own to `t`.
/// * The number of another module gives nothing for now, and is noted.
pub open spec fn items_loaded(h: HeapView, t: Tuple, items: Seq<ItemView>) -> Loaded
    decreases items.len(),
{
    if items.len() == 0 {
        Loaded { heap: h, refs: Seq::empty() }
    } else {
        let before = items_loaded(h, t, items.drop_last());
        let i = items.len() - 1;
        let next = before.heap.slots.len() as usize;
        match items.last() {
            ItemView::LiteralValue(l) => Loaded {
                heap: put_cell(before.heap, t, i, l.value()),
                refs: before.refs,
            },
            ItemView::Buffer(bytes) => Loaded {
                heap: put_cell(
                    before.heap.allocated(ObjectView::Buffer(bytes)),
                    t,
                    i,
                    Value::Buffer(Buffer { id: next }),
                ),
                refs: before.refs,
            },
            ItemView::ModuleRef(r) => Loaded {
                heap: put_cell(before.heap, t, i, Value::Nil),
                refs: before.refs.push((i as usize, r as usize)),
            },
            ItemView::Function(ops) => Loaded {
                heap: put_cell(
                    before.heap.retained(Value::Tuple(t)).allocated(ObjectView::Function(t, ops)),
                    t,
                    i,
                    Value::Function(FuncVal { id: next }),
                ),
                refs: before.refs,
            },
        }
    }
}

/// The module as a new tuple with one cell for each item.
pub open spec fn module_loaded(h: HeapView, items: Seq<ItemView>) -> Loaded {
    items_loaded(
        h.allocated(ObjectView::Tuple(nils(items.len()))),
        Tuple { id: h.slots.len() as usize },
        items,
    )
}

impl Module {
    /// Makes the module a tuple in the arena. Returns the tuple, and for
    /// each cell that waits for another module the number of the cell and
    /// the number of that module.
#[verifier::rlimit(50)]
    pub fn into_tuple(self, heap: &mut Heap) -> (r: (Tuple, Vec<(usize, usize)>))
        requires
            old(heap).wf(),
        ensures
            r.0.id == old(heap)@.slots.len(),
            final(heap)@ == module_loaded(old(heap)@, self.deep_view()).heap,
            r.1@ == module_loaded(old(heap)@, self.deep_view()).refs,
            final(heap).wf(),
    {
        let ghost all = self.deep_view();
        let mut items = self.items;
        let len = items.len();
        let tuple = Tuple::empty(heap, len);
        let ghost start = heap@;
        let mut refs: Vec<(usize, usize)> = Vec::new();
        let mut i: usize = 0;
        assert(all.subrange(0, 0) =~= Seq::<ItemView>::empty());
        while i < len
            invariant
                i <= len,
                len == items@.len(),
                all.len() == len,
                heap.wf(),
                tuple.id == old(heap)@.slots.len(),
                forall|k: int| i <= k < len ==> (#[trigger] items@[k]).deep_view() == all[k],
                heap@ == items_loaded(start, tuple, all.subrange(0, i as int)).heap,
                refs@ == items_loaded(start, tuple, all.subrange(0, i as int)).refs,
            decreases len - i,
        {
            let mut item = ModuleItem::ModuleRef(0);
            std::mem::swap(&mut item, &mut items[i]);
            proof {
                let sub = all.subrange(0, i + 1);
                assert(sub.drop_last() =~= all.subrange(0, i as int));
                assert(sub.last() == all[i as int]);
                assert(item.deep_view() == all[i as int]);
                assert(heap.slots.len() <= usize::MAX);
            }
            let val = match item {
                ModuleItem::LiteralValue(t) => t.into_val(),
                ModuleItem::Buffer(v) => {
                    assert(v.deep_view() =~= v@);
                    Value::Buffer(Buffer::new(heap, v))
                },
                ModuleItem::ModuleRef(r) => {
                    refs.push((i, r as usize));
                    Value::Nil
                },
                ModuleItem::Function(f) => {
                    heap.retain(&Value::Tuple(tuple));
                    assert(f.ops.deep_view() =~= f.ops@);
                    Value::Function(FuncVal::new(heap, tuple, f.ops))
                },
            };
            tuple.set(heap, i, val);
            i += 1;
        }
        assert(all.subrange(0, len as int) =~= all);
        (tuple, refs)
    }
}

/// An item is laid out as one byte for its kind, 0 for a literal, 1 for
/// bytes, 2 for the number of a module and 3 for a function, and then the
/// literal, the bytes as a sequence, the number in 32 bits, or the function.
impl BytesIO for ModuleItem {
    open spec fn encodable(v: ItemView) -> bool {
        match v {
            ItemView::LiteralValue(l) => true,
            ItemView::Buffer(bytes) => Vec::<u8>::encodable(bytes),
            ItemView::ModuleRef(r) => true,
            ItemView::Function(ops) => Function::encodable(ops),
        }
    }

    open spec fn encoding(v: ItemView) -> Seq<u8> {
        match v {
            ItemView::LiteralValue(l) => seq![0u8] + LiteralValue::encoding(l),
            ItemView::Buffer(bytes) => seq![1u8] + Vec::<u8>::encoding(bytes),
            ItemView::ModuleRef(r) => seq![2u8] + u32::encoding(r),
            ItemView::Function(ops) => seq![3u8] + Function::encoding(ops),
        }
    }

    open spec fn decoding(b: Seq<u8>) -> Decoded<ItemView> {
        if b.len() < 1 {
            Decoded::EndOfFile
        } else if b[0] == 0 {
            match LiteralValue::decoding(behind(b, 1)) {
                Decoded::Value(l, n) => Decoded::Value(ItemView::LiteralValue(l), n + 1),
                Decoded::EndOfFile => Decoded::EndOfFile,
                Decoded::InvalidValue(at) => Decoded::InvalidValue(at + 1),
            }
        } else if b[0] == 1 {
            match Vec::<u8>::decoding(behind(b, 1)) {
                Decoded::Value(bytes, n) => Decoded::Value(ItemView::Buffer(bytes), n + 1),
                Decoded::EndOfFile => Decoded::EndOfFile,
                Decoded::InvalidValue(at) => Decoded::InvalidValue(at + 1),
            }
        } else if b[0] == 2 {
            match u32::decoding(behind(b, 1)) {
                Decoded::Value(r, n) => Decoded::Value(ItemView::ModuleRef(r), n + 1),
                Decoded::EndOfFile => Decoded::EndOfFile,
                Decoded::InvalidValue(at) => Decoded::InvalidValue(at + 1),
            }
        } else if b[0] == 3 {
            match Function::decoding(behind(b, 1)) {
                Decoded::Value(ops, n) => Decoded::Value(ItemView::Function(ops), n + 1),
                Decoded::EndOfFile => Decoded::EndOfFile,
                Decoded::InvalidValue(at) => Decoded::InvalidValue(at + 1),
            }
        } else {
            Decoded::InvalidValue(0)
        }
    }

    proof fn lemma_decode_encode(v: ItemView, rest: Seq<u8>) {
        let all = Self::encoding(v) + rest;
        match v {
            ItemView::LiteralValue(l) => {
                assert(behind(all, 1) =~= LiteralValue::encoding(l) + rest);
                LiteralValue::lemma_decode_encode(l, rest);
            },
            ItemView::Buffer(bytes) => {
                assert(behind(all, 1) =~= Vec::<u8>::encoding(bytes) + rest);
                Vec::<u8>::lemma_decode_encode(bytes, rest);
            },
            ItemView::ModuleRef(r) => {
                assert(behind(all, 1) =~= u32::encoding(r) + rest);
                u32::lemma_decode_encode(r, rest);
            },
            ItemView::Function(ops) => {
                assert(behind(all, 1) =~= Function::encoding(ops) + rest);
                Function::lemma_decode_encode(ops, rest);
            },
        }
    }

    proof fn lemma_encode_decode(b: Seq<u8>) {
        if b.len() >= 1 {
            let tail = behind(b, 1);
            LiteralValue::lemma_encode_decode(tail);
            Vec::<u8>::lemma_encode_decode(tail);
            u32::lemma_encode_decode(tail);
            Function::lemma_encode_decode(tail);
            match Self::decoding(b) {
                Decoded::Value(v, n) => {
                    assert(b.subrange(0, n as int) =~= seq![b[0]] + tail.subrange(
                        0,
                        (n - 1) as int,
                    ));
                },
                _ => {},
            }
        }
    }

    fn read<'a>(b: &'a [u8]) -> (r: Result<(&'a [u8], Self), BytesReadError<'a>>) {
        let (b2, n) = <u8 as BytesIO>::read(b)?;
        proof {
            LiteralValue::lemma_encode_decode(b2@);
            Vec::<u8>::lemma_encode_decode(b2@);
            u32::lemma_encode_decode(b2@);
            Function::lemma_encode_decode(b2@);
            assert(b2@ =~= behind(b@, 1));
        }
        if n == 0 {
            match <LiteralValue as BytesIO>::read(b2) {
                Ok((b3, t)) => {
                    proof {
                        lemma_behind_twice(b@, 1, LiteralValue::decoding(b2@)->Value_1);
                    }
                    Ok((b3, ModuleItem::LiteralValue(t)))
                },
                Err(BytesReadError::EndOfFile) => Err(BytesReadError::EndOfFile),
                Err(BytesReadError::InvalidValue(s)) => {
                    proof {
                        lemma_behind_twice(b@, 1, LiteralValue::decoding(b2@)->InvalidValue_0);
                    }
                    Err(BytesReadError::InvalidValue(s))
                },
            }
        } else if n == 1 {
            match <Vec<u8> as BytesIO>::read(b2) {
                Ok((b3, t)) => {
                    proof {
                        lemma_behind_twice(b@, 1, Vec::<u8>::decoding(b2@)->Value_1);
                    }
                    Ok((b3, ModuleItem::Buffer(t)))
                },
                Err(BytesReadError::EndOfFile) => Err(BytesReadError::EndOfFile),
                Err(BytesReadError::InvalidValue(s)) => {
                    proof {
                        lemma_behind_twice(b@, 1, Vec::<u8>::decoding(b2@)->InvalidValue_0);
                    }
                    Err(BytesReadError::InvalidValue(s))
                },
            }
        } else if n == 2 {
            match <u32 as BytesIO>::read(b2) {
                Ok((b3, t)) => {
                    proof {
                        lemma_behind_twice(b@, 1, u32::decoding(b2@)->Value_1);
                    }
                    Ok((b3, ModuleItem::ModuleRef(t)))
                },
                Err(BytesReadError::EndOfFile) => Err(BytesReadError::EndOfFile),
                Err(BytesReadError::InvalidValue(s)) => {
                    proof {
                        lemma_behind_twice(b@, 1, u32::decoding(b2@)->InvalidValue_0);
                    }
                    Err(BytesReadError::InvalidValue(s))
                },
            }
        } else if n == 3 {
            match <Function as BytesIO>::read(b2) {
                Ok((b3, t)) => {
                    proof {
                        lemma_behind_twice(b@, 1, Function::decoding(b2@)->Value_1);
                    }
                    Ok((b3, ModuleItem::Function(t)))
                },
                Err(BytesReadError::EndOfFile) => Err(BytesReadError::EndOfFile),
                Err(BytesReadError::InvalidValue(s)) => {
                    proof {
                        lemma_behind_twice(b@, 1, Function::decoding(b2@)->InvalidValue_0);
                    }
                    Err(BytesReadError::InvalidValue(s))
                },
            }
        } else {
            assert(b@.subrange(0, b@.len() as int) =~= b@);
            Err(BytesReadError::InvalidValue(b))
        }
    }

    fn write<'a>(t: &Self, b: &'a mut [u8]) -> (r: Option<&'a mut [u8]>) {
        match t {
            ModuleItem::LiteralValue(t) => {
                let b = <u8 as BytesIO>::write(&0, b)?;
                let r = <LiteralValue as BytesIO>::write(t, b);
                proof {
                    if r is Some {
                        let enc = LiteralValue::encoding(*t);
                        let after = final(r->0)@;
                        assert(seq![0u8] + (enc + after) =~= (seq![0u8] + enc) + after);
                    }
                }
                r
            },
            ModuleItem::Buffer(t) => {
                let b = <u8 as BytesIO>::write(&1, b)?;
                let r = <Vec<u8> as BytesIO>::write(t, b);
                proof {
                    if r is Some {
                        let enc = Vec::<u8>::encoding(t.deep_view());
                        let after = final(r->0)@;
                        assert(seq![1u8] + (enc + after) =~= (seq![1u8] + enc) + after);
                    }
                }
                r
            },
            ModuleItem::ModuleRef(t) => {
                let b = <u8 as BytesIO>::write(&2, b)?;
                let r = <u32 as BytesIO>::write(t, b);
                proof {
                    if r is Some {
                        let enc = u32::encoding(*t);
                        let after = final(r->0)@;
                        assert(seq![2u8] + (enc + after) =~= (seq![2u8] + enc) + after);
                    }
                }
                r
            },
            ModuleItem::Function(t) => {
                let b = <u8 as BytesIO>::write(&3, b)?;
                let r = <Function as BytesIO>::write(t, b);
                proof {
                    if r is Some {
                        let enc = Function::encoding(t.deep_view());
                        let after = final(r->0)@;
                        assert(seq![3u8] + (enc + after) =~= (seq![3u8] + enc) + after);
                    }
                }
                r
            },
        }
    }
}

/// A module is laid out as the sequence of its items.
impl BytesIO for Module {
    open spec fn encodable(v: Seq<ItemView>) -> bool {
        Vec::<ModuleItem>::encodable(v)
    }

    open spec fn encoding(v: Seq<ItemView>) -> Seq<u8> {
        Vec::<ModuleItem>::encoding(v)
    }

    open spec fn decoding(b: Seq<u8>) -> Decoded<Seq<ItemView>> {
        Vec::<ModuleItem>::decoding(b)
    }

    proof fn lemma_decode_encode(v: Seq<ItemView>, rest: Seq<u8>) {
        Vec::<ModuleItem>::lemma_decode_encode(v, rest);
    }

    proof fn lemma_encode_decode(b: Seq<u8>) {
        Vec::<ModuleItem>::lemma_encode_decode(b);
    }

    fn read<'a>(b: &'a [u8]) -> (r: Result<(&'a [u8], Self), BytesReadError<'a>>) {
        let (b, items) = <Vec<ModuleItem> as BytesIO>::read(b)?;
        Ok((b, Module { items }))
    }

    fn write<'a>(t: &Self, b: &'a mut [u8]) -> (r: Option<&'a mut [u8]>) {
        <Vec<ModuleItem> as BytesIO>::write(&t.items, b)
    }
}

} // verus!
