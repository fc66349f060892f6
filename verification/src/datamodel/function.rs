use vstd::prelude::*;
use crate::bytecode::Op;
use super::heap::{Heap, HeapView, Object, ObjectView};
use super::value::{Buffer, Function, List, Table, Tuple, TupleWeak, Unknown};

verus! {

impl Function {
    /// Makes a function of a module and instructions. The function takes
    /// over the handle to the module.
    pub fn new(heap: &mut Heap, module: Tuple, ops: Vec<Op>) -> (f: Function)
        requires
            old(heap).wf(),
        ensures
            f.id == old(heap)@.slots.len(),
            final(heap)@ == old(heap)@.allocated(ObjectView::Function(module, ops@)),
            final(heap).wf(),
    {
        let id = heap.allocate(Object::Function(module, ops));
        Function { id }
    }

    /// The module of the function.
    pub fn module(&self, heap: &Heap) -> (r: Option<Tuple>)
        ensures
            r == (match heap@.function(*self) {
                Some(f) => Some(f.0),
                None => None,
            }),
    {
        if heap.is_live(self.id) {
            match &heap.slots[self.id].object {
                Object::Function(module, _) => Some(*module),
                _ => None,
            }
        } else {
            None
        }
    }

    /// Instruction `index` of the function.
    pub fn op_at(&self, heap: &Heap, index: usize) -> (r: Option<Op>)
        ensures
            r == (match heap@.function(*self) {
                Some(f) if index < f.1.len() => Some(f.1[index as int]),
                _ => None,
            }),
            r is Some ==> index < usize::MAX,
    {
        if heap.is_live(self.id) {
            match &heap.slots[self.id].object {
                Object::Function(_, ops) => {
                    if index < ops.len() {
                        Some(ops[index])
                    } else {
                        None
                    }
                },
                _ => None,
            }
        } else {
            None
        }
    }
}

impl Unknown {
    /// Makes a slot for an object of the host.
    pub fn new(heap: &mut Heap) -> (u: Unknown)
        requires
            old(heap).wf(),
        ensures
            u.id == old(heap)@.slots.len(),
            final(heap)@ == old(heap)@.allocated(ObjectView::Unknown),
            final(heap).wf(),
    {
        let id = heap.allocate(Object::Unknown);
        Unknown { id }
    }
}

/// A number that tells whether two handles lead to the same container.
pub trait Identity {
    /// The identity of the container in arena `heap`: not 0 while the
    /// container lives and equal for handles to the same container, and 0
    /// once it is gone.
    spec fn identity_in(&self, heap: HeapView) -> usize;

    fn identity(&self, heap: &Heap) -> (r: usize)
        ensures
            r == self.identity_in(heap@),
    ;
}

impl Identity for Tuple {
    open spec fn identity_in(&self, heap: HeapView) -> usize {
        heap.identity(self.id)
    }

    fn identity(&self, heap: &Heap) -> (r: usize) {
        heap.identity_of(self.id)
    }
}

impl Identity for TupleWeak {
    open spec fn identity_in(&self, heap: HeapView) -> usize {
        heap.identity(self.id)
    }

    fn identity(&self, heap: &Heap) -> (r: usize) {
        heap.identity_of(self.id)
    }
}

impl Identity for Table {
    open spec fn identity_in(&self, heap: HeapView) -> usize {
        heap.identity(self.id)
    }

    fn identity(&self, heap: &Heap) -> (r: usize) {
        heap.identity_of(self.id)
    }
}

impl Identity for List {
    open spec fn identity_in(&self, heap: HeapView) -> usize {
        heap.identity(self.id)
    }

    fn identity(&self, heap: &Heap) -> (r: usize) {
        heap.identity_of(self.id)
    }
}

impl Identity for Buffer {
    open spec fn identity_in(&self, heap: HeapView) -> usize {
        heap.identity(self.id)
    }

    fn identity(&self, heap: &Heap) -> (r: usize) {
        heap.identity_of(self.id)
    }
}

impl Identity for Function {
    open spec fn identity_in(&self, heap: HeapView) -> usize {
        heap.identity(self.id)
    }

    fn identity(&self, heap: &Heap) -> (r: usize) {
        heap.identity_of(self.id)
    }
}

impl Identity for Unknown {
    open spec fn identity_in(&self, heap: HeapView) -> usize {
        heap.identity(self.id)
    }

    fn identity(&self, heap: &Heap) -> (r: usize) {
        heap.identity_of(self.id)
    }
}

} // verus!
