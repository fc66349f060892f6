use vstd::prelude::*;
use super::realnum::Real;

verus! {

pub type Integer = i64;

/// A handle to a fixed-length tuple of mutable cells.
#[derive(Clone, Copy, Debug, PartialEq, Eq, Structural)]
pub struct Tuple {
    pub id: usize,
}

/// A handle to a tuple that does not keep the tuple alive.
#[derive(Clone, Copy, Debug, PartialEq, Eq, Structural)]
pub struct TupleWeak {
    pub id: usize,
}

/// A handle to a table: pairs of key and value, ordered by key.
#[derive(Clone, Copy, Debug, PartialEq, Eq, Structural)]
pub struct Table {
    pub id: usize,
}

/// A handle to a growable list of values.
#[derive(Clone, Copy, Debug, PartialEq, Eq, Structural)]
pub struct List {
    pub id: usize,
}

/// A handle to a growable sequence of bytes.
#[derive(Clone, Copy, Debug, PartialEq, Eq, Structural)]
pub struct Buffer {
    pub id: usize,
}

/// A handle to a function: a module tuple and a vector of instructions.
#[derive(Clone, Copy, Debug, PartialEq, Eq, Structural)]
pub struct Function {
    pub id: usize,
}

/// The number under which the host knows one of its routines.
#[derive(Clone, Copy, Debug, PartialEq, Eq, Structural)]
pub struct NativeFn {
    pub id: usize,
}

/// A handle to an object of the host that the machine only passes around.
#[derive(Clone, Copy, Debug, PartialEq, Eq, Structural)]
pub struct Unknown {
    pub id: usize,
}

/// A dynamic value. Numbers are held directly; containers by handle.
#[derive(Clone, Copy, Debug, PartialEq, Eq, Structural)]
pub enum Value {
    /// The absence of a value.
    Nil,
    Integer(Integer),
    Real(Real),
    Tuple(Tuple),
    TupleWeak(TupleWeak),
    Table(Table),
    List(List),
    Buffer(Buffer),
    Function(Function),
    NativeFn(NativeFn),
    Unknown(Unknown),
}

/// The kind of a [`Value`].
#[derive(Clone, Copy, Debug, PartialEq, Eq, Structural)]
pub enum ValueType {
    Nil,
    Integer,
    Real,
    Tuple,
    TupleWeak,
    Table,
    List,
    Buffer,
    Function,
    NativeFn,
    Unknown,
}

/// A value was of one kind where another was needed.
#[derive(Clone, Copy, Debug, PartialEq, Eq, Structural)]
pub struct ValueTryIntoError {
    pub found: ValueType,
    pub expected: ValueType,
}

impl ValueType {
    /// The number of the kind, in the order of declaration.
    pub open spec fn spec_tag(self) -> i64 {
        match self {
            ValueType::Nil => 0,
            ValueType::Integer => 1,
            ValueType::Real => 2,
            ValueType::Tuple => 3,
            ValueType::TupleWeak => 4,
            ValueType::Table => 5,
            ValueType::List => 6,
            ValueType::Buffer => 7,
            ValueType::Function => 8,
            ValueType::NativeFn => 9,
            ValueType::Unknown => 10,
        }
    }

    pub fn tag(&self) -> (t: i64)
        ensures
            t == self.spec_tag(),
    {
        match self {
            ValueType::Nil => 0,
            ValueType::Integer => 1,
            ValueType::Real => 2,
            ValueType::Tuple => 3,
            ValueType::TupleWeak => 4,
            ValueType::Table => 5,
            ValueType::List => 6,
            ValueType::Buffer => 7,
            ValueType::Function => 8,
            ValueType::NativeFn => 9,
            ValueType::Unknown => 10,
        }
    }

    pub fn as_str(&self) -> (s: &'static str)
        ensures
            s@ == self.spec_name(),
    {
        match self {
            ValueType::Nil => "None",
            ValueType::Integer => "Integer",
            ValueType::Real => "Real",
            ValueType::Tuple => "Tuple",
            ValueType::TupleWeak => "TupleWeak",
            ValueType::Table => "Table",
            ValueType::List => "List",
            ValueType::Buffer => "Buffer",
            ValueType::Function => "Function",
            ValueType::NativeFn => "NativeFn",
            ValueType::Unknown => "Unknown",
        }
    }

    /// The name of the kind.
    pub open spec fn spec_name(self) -> Seq<char> {
        match self {
            ValueType::Nil => "None"@,
            ValueType::Integer => "Integer"@,
            ValueType::Real => "Real"@,
            ValueType::Tuple => "Tuple"@,
            ValueType::TupleWeak => "TupleWeak"@,
            ValueType::Table => "Table"@,
            ValueType::List => "List"@,
            ValueType::Buffer => "Buffer"@,
            ValueType::Function => "Function"@,
            ValueType::NativeFn => "NativeFn"@,
            ValueType::Unknown => "Unknown"@,
        }
    }
}

impl Value {
    /// The kind of the value.
    pub open spec fn kind(self) -> ValueType {
        match self {
            Value::Nil => ValueType::Nil,
            Value::Integer(_) => ValueType::Integer,
            Value::Real(_) => ValueType::Real,
            Value::Tuple(_) => ValueType::Tuple,
            Value::TupleWeak(_) => ValueType::TupleWeak,
            Value::Table(_) => ValueType::Table,
            Value::List(_) => ValueType::List,
            Value::Buffer(_) => ValueType::Buffer,
            Value::Function(_) => ValueType::Function,
            Value::NativeFn(_) => ValueType::NativeFn,
            Value::Unknown(_) => ValueType::Unknown,
        }
    }

    pub fn get_type(&self) -> (t: ValueType)
        ensures
            t == self.kind(),
    {
        match self {
            Value::Nil => ValueType::Nil,
            Value::Integer(_) => ValueType::Integer,
            Value::Real(_) => ValueType::Real,
            Value::Tuple(_) => ValueType::Tuple,
            Value::TupleWeak(_) => ValueType::TupleWeak,
            Value::Table(_) => ValueType::Table,
            Value::List(_) => ValueType::List,
            Value::Buffer(_) => ValueType::Buffer,
            Value::Function(_) => ValueType::Function,
            Value::NativeFn(_) => ValueType::NativeFn,
            Value::Unknown(_) => ValueType::Unknown,
        }
    }

    /// The error that a failed coercion of this value to `expected` reports.
    pub open spec fn mismatch(self, expected: ValueType) -> ValueTryIntoError {
        ValueTryIntoError { found: self.kind(), expected }
    }

    /// The slot whose strong count this value holds a share of, if any. Numbers,
    /// native routines and weak handles hold none.
    pub open spec fn strong_id(self) -> Option<usize> {
        match self {
            Value::Tuple(t) => Some(t.id),
            Value::Table(t) => Some(t.id),
            Value::List(t) => Some(t.id),
            Value::Buffer(t) => Some(t.id),
            Value::Function(t) => Some(t.id),
            Value::Unknown(t) => Some(t.id),
            _ => None,
        }
    }

    pub fn get_strong_id(&self) -> (r: Option<usize>)
        ensures
            r == self.strong_id(),
    {
        match self {
            Value::Tuple(t) => Some(t.id),
            Value::Table(t) => Some(t.id),
            Value::List(t) => Some(t.id),
            Value::Buffer(t) => Some(t.id),
            Value::Function(t) => Some(t.id),
            Value::Unknown(t) => Some(t.id),
            _ => None,
        }
    }

    /// `1` for `true` and `0` for `false`.
    pub fn from_bool(t: bool) -> (v: Value)
        ensures
            v == Value::Integer(if t { 1i64 } else { 0i64 }),
    {
        if t {
            Value::Integer(1)
        } else {
            Value::Integer(0)
        }
    }

    /// The value itself, or `Value::Nil` where there is none.
    pub fn from_option(t: Option<Value>) -> (v: Value)
        ensures
            v == (match t {
                Some(x) => x,
                None => Value::Nil,
            }),
    {
        match t {
            Some(x) => x,
            None => Value::Nil,
        }
    }

    pub fn try_integer(&self) -> (r: Result<Integer, ValueTryIntoError>)
        ensures
            r == (match *self {
                Value::Integer(i) => Ok::<Integer, ValueTryIntoError>(i),
                _ => Err(self.mismatch(ValueType::Integer)),
            }),
    {
        match self {
            Value::Integer(i) => Ok(*i),
            _ => Err(ValueTryIntoError { found: self.get_type(), expected: ValueType::Integer }),
        }
    }

    pub fn try_real(&self) -> (r: Result<Real, ValueTryIntoError>)
        ensures
            r == (match *self {
                Value::Real(x) => Ok::<Real, ValueTryIntoError>(x),
                _ => Err(self.mismatch(ValueType::Real)),
            }),
    {
        match self {
            Value::Real(x) => Ok(*x),
            _ => Err(ValueTryIntoError { found: self.get_type(), expected: ValueType::Real }),
        }
    }

    pub fn try_tuple(&self) -> (r: Result<Tuple, ValueTryIntoError>)
        ensures
            r == (match *self {
                Value::Tuple(x) => Ok::<Tuple, ValueTryIntoError>(x),
                _ => Err(self.mismatch(ValueType::Tuple)),
            }),
    {
        match self {
            Value::Tuple(x) => Ok(*x),
            _ => Err(ValueTryIntoError { found: self.get_type(), expected: ValueType::Tuple }),
        }
    }

    pub fn try_tuple_weak(&self) -> (r: Result<TupleWeak, ValueTryIntoError>)
        ensures
            r == (match *self {
                Value::TupleWeak(x) => Ok::<TupleWeak, ValueTryIntoError>(x),
                _ => Err(self.mismatch(ValueType::TupleWeak)),
            }),
    {
        match self {
            Value::TupleWeak(x) => Ok(*x),
            _ => Err(ValueTryIntoError { found: self.get_type(), expected: ValueType::TupleWeak }),
        }
    }

    pub fn try_table(&self) -> (r: Result<Table, ValueTryIntoError>)
        ensures
            r == (match *self {
                Value::Table(x) => Ok::<Table, ValueTryIntoError>(x),
                _ => Err(self.mismatch(ValueType::Table)),
            }),
    {
        match self {
            Value::Table(x) => Ok(*x),
            _ => Err(ValueTryIntoError { found: self.get_type(), expected: ValueType::Table }),
        }
    }

    pub fn try_list(&self) -> (r: Result<List, ValueTryIntoError>)
        ensures
            r == (match *self {
                Value::List(x) => Ok::<List, ValueTryIntoError>(x),
                _ => Err(self.mismatch(ValueType::List)),
            }),
    {
        match self {
            Value::List(x) => Ok(*x),
            _ => Err(ValueTryIntoError { found: self.get_type(), expected: ValueType::List }),
        }
    }

    pub fn try_buffer(&self) -> (r: Result<Buffer, ValueTryIntoError>)
        ensures
            r == (match *self {
                Value::Buffer(x) => Ok::<Buffer, ValueTryIntoError>(x),
                _ => Err(self.mismatch(ValueType::Buffer)),
            }),
    {
        match self {
            Value::Buffer(x) => Ok(*x),
            _ => Err(ValueTryIntoError { found: self.get_type(), expected: ValueType::Buffer }),
        }
    }

    pub fn try_function(&self) -> (r: Result<Function, ValueTryIntoError>)
        ensures
            r == (match *self {
                Value::Function(x) => Ok::<Function, ValueTryIntoError>(x),
                _ => Err(self.mismatch(ValueType::Function)),
            }),
    {
        match self {
            Value::Function(x) => Ok(*x),
            _ => Err(ValueTryIntoError { found: self.get_type(), expected: ValueType::Function }),
        }
    }

    pub fn try_native_fn(&self) -> (r: Result<NativeFn, ValueTryIntoError>)
        ensures
            r == (match *self {
                Value::NativeFn(x) => Ok::<NativeFn, ValueTryIntoError>(x),
                _ => Err(self.mismatch(ValueType::NativeFn)),
            }),
    {
        match self {
            Value::NativeFn(x) => Ok(*x),
            _ => Err(ValueTryIntoError { found: self.get_type(), expected: ValueType::NativeFn }),
        }
    }

    pub fn try_unknown(&self) -> (r: Result<Unknown, ValueTryIntoError>)
        ensures
            r == (match *self {
                Value::Unknown(x) => Ok::<Unknown, ValueTryIntoError>(x),
                _ => Err(self.mismatch(ValueType::Unknown)),
            }),
    {
        match self {
            Value::Unknown(x) => Ok(*x),
            _ => Err(ValueTryIntoError { found: self.get_type(), expected: ValueType::Unknown }),
        }
    }
}

} // verus!
