use vstd::prelude::*;

verus! {

/// A type. A type with parameters stands for every type that comes from it
/// by putting types in the place of the parameters.
#[derive(Debug, PartialEq, Eq)]
pub enum Type {
    /// The parameter with this number.
    Parameter(usize),
    Alias(usize),
    GenericAlias(usize, Vec<Type>),
    Optional(Box<Type>),
    Weak(Box<Type>),
    Bool,
    Integer,
    Real,
    Tuple(Vec<Type>),
    Table,
    List(Box<Type>),
    Buffer,
    Function(Box<FunctionType>),
    NativeFn(Box<FunctionType>),
    Unknown,
}

/// The type of a function: the types of its arguments and of its result.
#[derive(Debug, PartialEq, Eq)]
pub struct FunctionType {
    pub args: Vec<Type>,
    pub ret: Type,
}

/// A [`Type`] as contracts see it.
pub enum TypeView {
    Parameter(usize),
    Alias(usize),
    GenericAlias(usize, Seq<TypeView>),
    Optional(Box<TypeView>),
    Weak(Box<TypeView>),
    Bool,
    Integer,
    Real,
    Tuple(Seq<TypeView>),
    Table,
    List(Box<TypeView>),
    Buffer,
    Function(Box<FunctionTypeView>),
    NativeFn(Box<FunctionTypeView>),
    Unknown,
}

/// A [`FunctionType`] as contracts see it.
pub struct FunctionTypeView {
    pub args: Seq<TypeView>,
    pub ret: TypeView,
}

/// A type as contracts see it.
pub open spec fn type_view(t: Type) -> TypeView
    decreases t,
{
    match t {
        Type::Parameter(i) => TypeView::Parameter(i),
        Type::Alias(i) => TypeView::Alias(i),
        Type::GenericAlias(i, items) => TypeView::GenericAlias(i, types_view(items@)),
        Type::Optional(t) => TypeView::Optional(Box::new(type_view(*t))),
        Type::Weak(t) => TypeView::Weak(Box::new(type_view(*t))),
        Type::Bool => TypeView::Bool,
        Type::Integer => TypeView::Integer,
        Type::Real => TypeView::Real,
        Type::Tuple(items) => TypeView::Tuple(types_view(items@)),
        Type::Table => TypeView::Table,
        Type::List(t) => TypeView::List(Box::new(type_view(*t))),
        Type::Buffer => TypeView::Buffer,
        Type::Function(f) => TypeView::Function(
            Box::new(FunctionTypeView { args: types_view(f.args@), ret: type_view(f.ret) }),
        ),
        Type::NativeFn(f) => TypeView::NativeFn(
            Box::new(FunctionTypeView { args: types_view(f.args@), ret: type_view(f.ret) }),
        ),
        Type::Unknown => TypeView::Unknown,
    }
}

impl View for Type {
    type V = TypeView;

    open spec fn view(&self) -> TypeView {
        type_view(*self)
    }
}

/// Types as contracts see them.
pub open spec fn types_view(items: Seq<Type>) -> Seq<TypeView>
    decreases items,
{
    Seq::new(
        items.len(),
        |i: int|
            if 0 <= i < items.len() {
                type_view(items[i])
            } else {
                arbitrary()
            },
    )
}

impl View for FunctionType {
    type V = FunctionTypeView;

    open spec fn view(&self) -> FunctionTypeView {
        FunctionTypeView { args: types_view(self.args@), ret: type_view(self.ret) }
    }
}

impl TypeView {
    /// Whether no parameter stands in the type.
    pub open spec fn concrete(self) -> bool
        decreases self,
    {
        match self {
            TypeView::Parameter(_) => false,
            TypeView::GenericAlias(_, items) => all_concrete(items),
            TypeView::Optional(t) => t.concrete(),
            TypeView::Weak(t) => t.concrete(),
            TypeView::Tuple(items) => all_concrete(items),
            TypeView::List(t) => t.concrete(),
            TypeView::Function(f) => all_concrete(f.args) && f.ret.concrete(),
            TypeView::NativeFn(f) => all_concrete(f.args) && f.ret.concrete(),
            _ => true,
        }
    }

    /// Whether every parameter in the type has a number below `count`.
    pub open spec fn closed_under(self, count: nat) -> bool
        decreases self,
    {
        match self {
            TypeView::Parameter(i) => i < count,
            TypeView::GenericAlias(_, items) => all_closed(items, count),
            TypeView::Optional(t) => t.closed_under(count),
            TypeView::Weak(t) => t.closed_under(count),
            TypeView::Tuple(items) => all_closed(items, count),
            TypeView::List(t) => t.closed_under(count),
            TypeView::Function(f) => all_closed(f.args, count) && f.ret.closed_under(count),
            TypeView::NativeFn(f) => all_closed(f.args, count) && f.ret.closed_under(count),
            _ => true,
        }
    }

    /// The type with `params[i]` in the place of parameter `i`.
    pub open spec fn substituted(self, params: Seq<TypeView>) -> TypeView
        decreases self,
    {
        match self {
            TypeView::Parameter(i) => if i < params.len() {
                params[i as int]
            } else {
                self
            },
            TypeView::GenericAlias(i, items) => TypeView::GenericAlias(
                i,
                all_substituted(items, params),
            ),
            TypeView::Optional(t) => TypeView::Optional(Box::new(t.substituted(params))),
            TypeView::Weak(t) => TypeView::Weak(Box::new(t.substituted(params))),
            TypeView::Tuple(items) => TypeView::Tuple(all_substituted(items, params)),
            TypeView::List(t) => TypeView::List(Box::new(t.substituted(params))),
            TypeView::Function(f) => TypeView::Function(
                Box::new(
                    FunctionTypeView {
                        args: all_substituted(f.args, params),
                        ret: f.ret.substituted(params),
                    },
                ),
            ),
            TypeView::NativeFn(f) => TypeView::NativeFn(
                Box::new(
                    FunctionTypeView {
                        args: all_substituted(f.args, params),
                        ret: f.ret.substituted(params),
                    },
                ),
            ),
            _ => self,
        }
    }
}

impl FunctionTypeView {
    pub open spec fn concrete(self) -> bool {
        all_concrete(self.args) && self.ret.concrete()
    }

    pub open spec fn closed_under(self, count: nat) -> bool {
        all_closed(self.args, count) && self.ret.closed_under(count)
    }

    pub open spec fn substituted(self, params: Seq<TypeView>) -> FunctionTypeView {
        FunctionTypeView {
            args: all_substituted(self.args, params),
            ret: self.ret.substituted(params),
        }
    }
}

/// Whether no parameter stands in any of the types.
pub open spec fn all_concrete(items: Seq<TypeView>) -> bool
    decreases items,
{
    forall|i: int| 0 <= i < items.len() ==> (#[trigger] items[i]).concrete()
}

/// Whether every parameter in the types has a number below `count`.
pub open spec fn all_closed(items: Seq<TypeView>, count: nat) -> bool
    decreases items,
{
    forall|i: int| 0 <= i < items.len() ==> (#[trigger] items[i]).closed_under(count)
}

/// The types with `params[i]` in the place of parameter `i`.
pub open spec fn all_substituted(items: Seq<TypeView>, params: Seq<TypeView>) -> Seq<TypeView>
    decreases items,
{
    Seq::new(
        items.len(),
        |i: int|
            if 0 <= i < items.len() {
                items[i].substituted(params)
            } else {
                arbitrary()
            },
    )
}

impl Type {
    /// Whether no parameter stands in the type.
    pub fn is_concrete(&self) -> (r: bool)
        ensures
            r == self@.concrete(),
        decreases self,
    {
        match self {
            Type::Parameter(_) => false,
            Type::GenericAlias(_, items) => are_concrete(items),
            Type::Optional(t) => t.is_concrete(),
            Type::Weak(t) => t.is_concrete(),
            Type::Tuple(items) => are_concrete(items),
            Type::List(t) => t.is_concrete(),
            Type::Function(f) => f.is_concrete(),
            Type::NativeFn(f) => f.is_concrete(),
            _ => true,
        }
    }

    /// A copy of the type.
    pub fn duplicate(&self) -> (r: Type)
        ensures
            r@ == self@,
        decreases self,
    {
        match self {
            Type::Parameter(i) => Type::Parameter(*i),
            Type::Alias(i) => Type::Alias(*i),
            Type::GenericAlias(i, items) => Type::GenericAlias(*i, duplicates(items)),
            Type::Optional(t) => Type::Optional(Box::new(t.duplicate())),
            Type::Weak(t) => Type::Weak(Box::new(t.duplicate())),
            Type::Bool => Type::Bool,
            Type::Integer => Type::Integer,
            Type::Real => Type::Real,
            Type::Tuple(items) => Type::Tuple(duplicates(items)),
            Type::Table => Type::Table,
            Type::List(t) => Type::List(Box::new(t.duplicate())),
            Type::Buffer => Type::Buffer,
            Type::Function(f) => Type::Function(
                Box::new(FunctionType { args: duplicates(&f.args), ret: f.ret.duplicate() }),
            ),
            Type::NativeFn(f) => Type::NativeFn(
                Box::new(FunctionType { args: duplicates(&f.args), ret: f.ret.duplicate() }),
            ),
            Type::Unknown => Type::Unknown,
        }
    }

    /// The type with `params[i]` in the place of parameter `i`, if `params`
    /// has a type for every parameter that stands in the type.
    pub fn resolve_params(&self, params: &[Type]) -> (r: Option<Type>)
        ensures
            r is Some <==> self@.closed_under(params@.len()),
            r matches Some(t) ==> t@ == self@.substituted(types_view(params@)),
        decreases self,
    {
        match self {
            Type::Parameter(i) => {
                if *i < params.len() {
                    Some(params[*i].duplicate())
                } else {
                    None
                }
            },
            Type::GenericAlias(i, items) => {
                let v = resolve_all(items, params)?;
                Some(Type::GenericAlias(*i, v))
            },
            Type::Optional(t) => Some(Type::Optional(Box::new(t.resolve_params(params)?))),
            Type::Weak(t) => Some(Type::Weak(Box::new(t.resolve_params(params)?))),
            Type::Tuple(items) => {
                let v = resolve_all(items, params)?;
                Some(Type::Tuple(v))
            },
            Type::List(t) => Some(Type::List(Box::new(t.resolve_params(params)?))),
            Type::Function(f) => Some(Type::Function(Box::new(f.resolve_params(params)?))),
            Type::NativeFn(f) => Some(Type::NativeFn(Box::new(f.resolve_params(params)?))),
            _ => Some(self.duplicate()),
        }
    }
}

impl FunctionType {
    /// Whether no parameter stands in the types of the arguments and of the
    /// result.
    pub fn is_concrete(&self) -> (r: bool)
        ensures
            r == self@.concrete(),
        decreases self,
    {
        are_concrete(&self.args) && self.ret.is_concrete()
    }

    /// The function type with `params[i]` in the place of parameter `i`.
    pub fn resolve_params(&self, params: &[Type]) -> (r: Option<FunctionType>)
        ensures
            r is Some <==> self@.closed_under(params@.len()),
            r matches Some(t) ==> t@ == self@.substituted(types_view(params@)),
        decreases self,
    {
        let args = resolve_all(&self.args, params)?;
        let ret = self.ret.resolve_params(params)?;
        Some(FunctionType { args, ret })
    }
}

fn are_concrete(items: &Vec<Type>) -> (r: bool)
    ensures
        r == all_concrete(types_view(items@)),
    decreases items,
{
    let mut i: usize = 0;
    while i < items.len()
        invariant
            i <= items.len(),
            forall|k: int| 0 <= k < i ==> (#[trigger] types_view(items@)[k]).concrete(),
        decreases items.len() - i,
    {
        if !items[i].is_concrete() {
            assert(!types_view(items@)[i as int].concrete());
            return false;
        }
        i += 1;
    }
    true
}

fn duplicates(items: &Vec<Type>) -> (r: Vec<Type>)
    ensures
        types_view(r@) == types_view(items@),
    decreases items,
{
    let mut r: Vec<Type> = Vec::new();
    let mut i: usize = 0;
    while i < items.len()
        invariant
            i <= items.len(),
            r@.len() == i,
            forall|k: int| 0 <= k < i ==> (#[trigger] r@[k])@ == items@[k]@,
        decreases items.len() - i,
    {
        r.push(items[i].duplicate());
        i += 1;
    }
    assert(types_view(r@) =~= types_view(items@));
    r
}

fn resolve_all(items: &Vec<Type>, params: &[Type]) -> (r: Option<Vec<Type>>)
    ensures
        r is Some <==> all_closed(types_view(items@), params@.len()),
        r matches Some(v) ==> types_view(v@) == all_substituted(
            types_view(items@),
            types_view(params@),
        ),
    decreases items,
{
    let mut v: Vec<Type> = Vec::new();
    let mut i: usize = 0;
    while i < items.len()
        invariant
            i <= items.len(),
            v@.len() == i,
            forall|k: int|
                0 <= k < i ==> (#[trigger] types_view(items@)[k]).closed_under(params@.len()),
            forall|k: int|
                0 <= k < i ==> (#[trigger] v@[k])@ == items@[k]@.substituted(types_view(params@)),
        decreases items.len() - i,
    {
        match items[i].resolve_params(params) {
            Some(t) => {
                v.push(t);
            },
            None => {
                assert(!types_view(items@)[i as int].closed_under(params@.len()));
                return None;
            },
        }
        i += 1;
    }
    assert(types_view(v@) =~= all_substituted(types_view(items@), types_view(params@)));
    Some(v)
}

} // verus!
