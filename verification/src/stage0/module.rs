use vstd::prelude::*;
use crate::bytecode;
use crate::bytecode::{ItemView, LiteralValue};
use super::function::Function;
use super::scope::reversed;

verus! {

/// One item of a module before it is compiled.
pub enum ModuleItem {
    LiteralValue(LiteralValue),
    Buffer(Vec<u8>),
    /// The module with this number in the program.
    ModuleRef(u32),
    Function(Function),
}

/// A module before it is compiled: its items in their order.
pub struct Module {
    pub items: Vec<ModuleItem>,
}

/// A program before it is compiled: its modules in their order.
pub struct Program {
    pub modules: Vec<Module>,
}

impl ModuleItem {
    /// Whether the item can be compiled: a function must be one that can.
    pub open spec fn compilable(&self) -> bool {
        match self {
            ModuleItem::Function(f) => f.compilable(),
            _ => true,
        }
    }

    /// Whether `out` is what the item is compiled to: a function becomes its
    /// finished instructions, and every other item stays what it is.
    pub open spec fn compiles_to(&self, out: ItemView) -> bool {
        match self {
            ModuleItem::LiteralValue(l) => out == ItemView::LiteralValue(*l),
            ModuleItem::Buffer(bytes) => out == ItemView::Buffer(bytes@),
            ModuleItem::ModuleRef(r) => out == ItemView::ModuleRef(*r),
            ModuleItem::Function(f) => out matches ItemView::Function(ops) && f.lowered().wf()
                && f.lowered().finalizes_to(ops),
        }
    }

    /// Compiles the item.
    pub fn compile(self) -> (out: bytecode::ModuleItem)
        requires
            self.compilable(),
        ensures
            self.compiles_to(out.deep_view()),
    {
        self.try_compile().unwrap()
    }

    /// Compiles the item if it can be compiled, and gives nothing if it
    /// cannot.
    pub fn try_compile(self) -> (r: Option<bytecode::ModuleItem>)
        ensures
            r is Some <==> self.compilable(),
            r matches Some(out) ==> self.compiles_to(out.deep_view()),
    {
        match self {
            ModuleItem::LiteralValue(l) => Some(bytecode::ModuleItem::LiteralValue(l)),
            ModuleItem::Buffer(bytes) => {
                assert(bytes.deep_view() =~= bytes@);
                Some(bytecode::ModuleItem::Buffer(bytes))
            },
            ModuleItem::ModuleRef(r) => Some(bytecode::ModuleItem::ModuleRef(r)),
            ModuleItem::Function(f) => match f.try_compile() {
                Some(compiled) => {
                    assert(compiled.ops.deep_view() =~= compiled.ops@);
                    Some(bytecode::ModuleItem::Function(compiled))
                },
                None => None,
            },
        }
    }
}

impl Module {
    /// Whether every item of the module can be compiled.
    pub open spec fn compilable(&self) -> bool {
        forall|i: int| 0 <= i < self.items@.len() ==> (#[trigger] self.items@[i]).compilable()
    }

    /// Whether `out` is what the module is compiled to: item by item.
    pub open spec fn compiles_to(&self, out: Seq<ItemView>) -> bool {
        &&& out.len() == self.items@.len()
        &&& forall|i: int|
            0 <= i < self.items@.len() ==> (#[trigger] self.items@[i]).compiles_to(out[i])
    }

    /// Compiles the module: each function in it is compiled, and the items
    /// keep their order.
    pub fn compile(self) -> (out: bytecode::Module)
        requires
            self.compilable(),
        ensures
            self.compiles_to(out.deep_view()),
    {
        self.try_compile().unwrap()
    }

    /// Compiles the module if every item of it can be compiled, and gives
    /// nothing if one cannot.
    pub fn try_compile(self) -> (r: Option<bytecode::Module>)
        ensures
            r is Some <==> self.compilable(),
            r matches Some(out) ==> self.compiles_to(out.deep_view()),
    {
        // The items are compiled first to last. They are taken from the end
        // of the vector, so the vector is turned round first.
        let mut rev = reversed(self.items);
        let mut items: Vec<bytecode::ModuleItem> = Vec::new();
        while rev.len() > 0
            invariant
                rev@.len() + items@.len() == self.items@.len(),
                forall|k: int|
                    0 <= k < rev@.len() ==> rev@[k] == self.items@[self.items@.len() - 1 - k],
                forall|k: int|
                    0 <= k < items@.len() ==> (#[trigger] self.items@[k]).compilable()
                        && self.items@[k].compiles_to(items@[k].deep_view()),
            decreases rev.len(),
        {
            let item = rev.pop().unwrap();
            assert(item == self.items@[items@.len() as int]);
            match item.try_compile() {
                Some(compiled) => items.push(compiled),
                None => {
                    return None;
                },
            }
        }
        let out = bytecode::Module { items };
        assert forall|i: int| 0 <= i < self.items@.len() implies (#[trigger] self.items@[i]).compiles_to(
            out.deep_view()[i],
        ) by {
            assert(out.deep_view()[i] == out.items@[i].deep_view());
        }
        Some(out)
    }
}

impl Program {
    /// Whether every module of the program can be compiled.
    pub open spec fn compilable(&self) -> bool {
        forall|i: int| 0 <= i < self.modules@.len() ==> (#[trigger] self.modules@[i]).compilable()
    }

    /// Whether `out` is what the program is compiled to: module by module.
    pub open spec fn compiles_to(&self, out: Seq<Seq<ItemView>>) -> bool {
        &&& out.len() == self.modules@.len()
        &&& forall|i: int|
            0 <= i < self.modules@.len() ==> (#[trigger] self.modules@[i]).compiles_to(out[i])
    }

    /// Compiles the program: each module in it is compiled, and the modules
    /// keep their order.
    pub fn compile(self) -> (out: bytecode::Program)
        requires
            self.compilable(),
        ensures
            self.compiles_to(out.deep_view()),
    {
        self.try_compile().unwrap()
    }

    /// Compiles the program if every module of it can be compiled, and gives
    /// nothing if one cannot.
    pub fn try_compile(self) -> (r: Option<bytecode::Program>)
        ensures
            r is Some <==> self.compilable(),
            r matches Some(out) ==> self.compiles_to(out.deep_view()),
    {
        let mut rev = reversed(self.modules);
        let mut modules: Vec<bytecode::Module> = Vec::new();
        while rev.len() > 0
            invariant
                rev@.len() + modules@.len() == self.modules@.len(),
                forall|k: int|
                    0 <= k < rev@.len() ==> rev@[k] == self.modules@[self.modules@.len() - 1 - k],
                forall|k: int|
                    0 <= k < modules@.len() ==> (#[trigger] self.modules@[k]).compilable()
                        && self.modules@[k].compiles_to(modules@[k].deep_view()),
            decreases rev.len(),
        {
            let module = rev.pop().unwrap();
            assert(module == self.modules@[modules@.len() as int]);
            match module.try_compile() {
                Some(compiled) => modules.push(compiled),
                None => {
                    return None;
                },
            }
        }
        let out = bytecode::Program { modules };
        assert forall|i: int|
            0 <= i < self.modules@.len() implies (#[trigger] self.modules@[i]).compiles_to(
            out.deep_view()[i],
        ) by {
            assert(out.deep_view()[i] == out.modules@[i].deep_view());
        }
        Some(out)
    }
}

} // verus!
