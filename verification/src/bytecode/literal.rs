use vstd::prelude::*;
use super::io::{behind, BytesIO, BytesReadError, DataIO, Decoded};
use crate::datamodel::{Real, Value};

verus! {

/// A value that an instruction or a module can carry in its encoding.
#[derive(Clone, Copy, Debug, PartialEq, Eq, Structural)]
pub enum LiteralValue {
    Nil,
    Integer(i64),
    Real(Real),
}

impl LiteralValue {
    /// The value that the literal stands for.
    pub open spec fn value(self) -> Value {
        match self {
            LiteralValue::Nil => Value::Nil,
            LiteralValue::Integer(i) => Value::Integer(i),
            LiteralValue::Real(r) => Value::Real(r),
        }
    }

    pub fn into_val(&self) -> (v: Value)
        ensures
            v == self.value(),
    {
        match self {
            LiteralValue::Nil => Value::Nil,
            LiteralValue::Integer(i) => Value::Integer(*i),
            LiteralValue::Real(r) => Value::Real(*r),
        }
    }

    pub fn from_integer(t: i64) -> (l: LiteralValue)
        ensures
            l == LiteralValue::Integer(t),
    {
        LiteralValue::Integer(t)
    }
}

impl DeepView for LiteralValue {
    type V = LiteralValue;

    open spec fn deep_view(&self) -> LiteralValue {
        *self
    }
}

/// A real is written as its pattern is: always, and in eight bytes.
pub proof fn lemma_real_layout(r: Real)
    ensures
        Real::encodable(r),
        Real::encoding(r) == u64::encoding(r.bits),
        forall|b: Seq<u8>|
            #[trigger] Real::decoding(b) == (match u64::decoding(b) {
                Decoded::Value(bits, n) => Decoded::Value(Real { bits }, n),
                Decoded::EndOfFile => Decoded::EndOfFile,
                Decoded::InvalidValue(at) => Decoded::InvalidValue(at),
            }),
{
    assert(<Real as DataIO>::into_target(r) == r.bits);
    assert forall|b: Seq<u8>|
        #[trigger] Real::decoding(b) == (match u64::decoding(b) {
            Decoded::Value(bits, n) => Decoded::Value(Real { bits }, n),
            Decoded::EndOfFile => Decoded::EndOfFile,
            Decoded::InvalidValue(at) => Decoded::InvalidValue(at),
        }) by {
        if u64::decoding(b) is Value {
            assert(<Real as DataIO>::from_target(u64::decoding(b)->Value_0) is Some);
        }
    }
}

/// A literal is laid out as one byte for its kind, 0 for nothing, 1 for an
/// integer and 2 for a real, and then the number in 64 bits.
impl BytesIO for LiteralValue {
    open spec fn encodable(v: LiteralValue) -> bool {
        true
    }

    open spec fn encoding(v: LiteralValue) -> Seq<u8> {
        match v {
            LiteralValue::Nil => seq![0u8],
            LiteralValue::Integer(i) => seq![1u8] + i64::encoding(i),
            LiteralValue::Real(r) => seq![2u8] + Real::encoding(r),
        }
    }

    open spec fn decoding(b: Seq<u8>) -> Decoded<LiteralValue> {
        if b.len() < 1 {
            Decoded::EndOfFile
        } else if b[0] == 0 {
            Decoded::Value(LiteralValue::Nil, 1)
        } else if b[0] == 1 {
            match i64::decoding(behind(b, 1)) {
                Decoded::Value(i, n) => Decoded::Value(LiteralValue::Integer(i), n + 1),
                Decoded::EndOfFile => Decoded::EndOfFile,
                Decoded::InvalidValue(at) => Decoded::InvalidValue(at + 1),
            }
        } else if b[0] == 2 {
            match Real::decoding(behind(b, 1)) {
                Decoded::Value(r, n) => Decoded::Value(LiteralValue::Real(r), n + 1),
                Decoded::EndOfFile => Decoded::EndOfFile,
                Decoded::InvalidValue(at) => Decoded::InvalidValue(at + 1),
            }
        } else {
            Decoded::InvalidValue(0)
        }
    }

    proof fn lemma_decode_encode(v: LiteralValue, rest: Seq<u8>) {
        let all = Self::encoding(v) + rest;
        match v {
            LiteralValue::Nil => {},
            LiteralValue::Integer(i) => {
                assert(behind(all, 1) =~= i64::encoding(i) + rest);
                i64::lemma_decode_encode(i, rest);
            },
            LiteralValue::Real(r) => {
                lemma_real_layout(r);
                assert(behind(all, 1) =~= Real::encoding(r) + rest);
                Real::lemma_decode_encode(r, rest);
            },
        }
    }

    proof fn lemma_encode_decode(b: Seq<u8>) {
        if b.len() >= 1 {
            let tail = behind(b, 1);
            if b[0] == 0 {
                assert(seq![0u8] =~= b.subrange(0, 1));
            } else if b[0] == 1 {
                i64::lemma_encode_decode(tail);
                if i64::decoding(tail) is Value {
                    let n = i64::decoding(tail)->Value_1;
                    assert(b.subrange(0, (n + 1) as int) =~= seq![1u8] + tail.subrange(0, n as int));
                }
            } else if b[0] == 2 {
                Real::lemma_encode_decode(tail);
                if Real::decoding(tail) is Value {
                    let n = Real::decoding(tail)->Value_1;
                    assert(b.subrange(0, (n + 1) as int) =~= seq![2u8] + tail.subrange(0, n as int));
                }
            }
        }
    }

    fn read<'a>(b: &'a [u8]) -> (r: Result<(&'a [u8], Self), BytesReadError<'a>>) {
        let (b2, n) = <u8 as BytesIO>::read(b)?;
        if n == 0 {
            Ok((b2, LiteralValue::Nil))
        } else if n == 1 {
            proof {
                i64::lemma_encode_decode(b2@);
            }
            match <i64 as BytesIO>::read(b2) {
                Ok((b3, i)) => {
                    assert(b3@ =~= behind(b@, i64::decoding(b2@)->Value_1 + 1));
                    Ok((b3, LiteralValue::Integer(i)))
                },
                Err(_) => Err(BytesReadError::EndOfFile),
            }
        } else if n == 2 {
            proof {
                Real::lemma_encode_decode(b2@);
            }
            match <Real as BytesIO>::read(b2) {
                Ok((b3, x)) => {
                    assert(b3@ =~= behind(b@, Real::decoding(b2@)->Value_1 + 1));
                    Ok((b3, LiteralValue::Real(x)))
                },
                Err(_) => Err(BytesReadError::EndOfFile),
            }
        } else {
            assert(b@.subrange(0, b@.len() as int) =~= b@);
            Err(BytesReadError::InvalidValue(b))
        }
    }

    fn write<'a>(t: &Self, b: &'a mut [u8]) -> (r: Option<&'a mut [u8]>) {
        match t {
            LiteralValue::Nil => <u8 as BytesIO>::write(&0, b),
            LiteralValue::Integer(i) => <(u8, i64) as BytesIO>::write(&(1, *i), b),
            LiteralValue::Real(x) => <(u8, Real) as BytesIO>::write(&(2, *x), b),
        }
    }
}

} // verus!
