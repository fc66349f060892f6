use vstd::prelude::*;
use super::io::{behind, BytesIO, BytesReadError, Decoded};
use super::literal::LiteralValue;
use super::op::{Op, OpType};

verus! {

impl DeepView for Op {
    type V = Op;

    open spec fn deep_view(&self) -> Op {
        *self
    }
}

/// The kind of instruction that a number on the wire stands for.
pub open spec fn op_type_of(code: u8) -> Option<OpType> {
    if code == 0 {
        Some(OpType::Add)
    }     else if code == 1 {
        Some(OpType::Sub)
    }     else if code == 2 {
        Some(OpType::Mul)
    }     else if code == 3 {
        Some(OpType::Div)
    }     else if code == 4 {
        Some(OpType::Rem)
    }     else if code == 5 {
        Some(OpType::Neg)
    }     else if code == 6 {
        Some(OpType::Shl)
    }     else if code == 7 {
        Some(OpType::Shr)
    }     else if code == 8 {
        Some(OpType::And)
    }     else if code == 9 {
        Some(OpType::Or)
    }     else if code == 10 {
        Some(OpType::Xor)
    }     else if code == 11 {
        Some(OpType::Not)
    }     else if code == 12 {
        Some(OpType::Cmp)
    }     else if code == 13 {
        Some(OpType::GetType)
    }     else if code == 14 {
        Some(OpType::IntToReal)
    }     else if code == 15 {
        Some(OpType::Floor)
    }     else if code == 16 {
        Some(OpType::Ceil)
    }     else if code == 17 {
        Some(OpType::Trunc)
    }     else if code == 18 {
        Some(OpType::Round)
    }     else if code == 19 {
        Some(OpType::Call)
    }     else if code == 20 {
        Some(OpType::Return)
    }     else if code == 21 {
        Some(OpType::Jump)
    }     else if code == 22 {
        Some(OpType::JumpZero)
    }     else if code == 23 {
        Some(OpType::JumpNeg)
    }     else if code == 24 {
        Some(OpType::LiteralCreate)
    }     else if code == 25 {
        Some(OpType::StackCopy)
    }     else if code == 26 {
        Some(OpType::StackPop)
    }     else if code == 27 {
        Some(OpType::StackLoad)
    }     else if code == 28 {
        Some(OpType::StackStore)
    }     else if code == 29 {
        Some(OpType::StackSwap)
    }     else if code == 30 {
        Some(OpType::TupleCreate)
    }     else if code == 31 {
        Some(OpType::TupleFromList)
    }     else if code == 32 {
        Some(OpType::TupleWeakRef)
    }     else if code == 33 {
        Some(OpType::TupleWeakUpgrade)
    }     else if code == 34 {
        Some(OpType::TableCreate)
    }     else if code == 35 {
        Some(OpType::ListCreate)
    }     else if code == 36 {
        Some(OpType::ListPush)
    }     else if code == 37 {
        Some(OpType::ListPop)
    }     else if code == 38 {
        Some(OpType::ListGetSlice)
    }     else if code == 39 {
        Some(OpType::BufferCreate)
    }     else if code == 40 {
        Some(OpType::BufferGetSlice)
    }     else if code == 41 {
        Some(OpType::BufferSetSlice)
    }     else if code == 42 {
        Some(OpType::SeqLen)
    }     else if code == 43 {
        Some(OpType::SeqResize)
    }     else if code == 44 {
        Some(OpType::SeqGet)
    }     else if code == 45 {
        Some(OpType::SeqSet)
    }     else if code == 46 {
        Some(OpType::SeqToList)
    }     else if code == 47 {
        Some(OpType::SeqAppend)
    } else {
        None
    }
}

impl Op {
    /// The bytes of what the instruction carries: a count or a slot in one
    /// byte, a jump distance in 32 bits, a literal in its own layout, and
    /// for most instructions nothing.
    pub open spec fn payload(self) -> Seq<u8> {
        match self {
            Op::Call(x) => u8::encoding(x),
            Op::Jump(x) => i32::encoding(x),
            Op::JumpZero(x) => i32::encoding(x),
            Op::JumpNeg(x) => i32::encoding(x),
            Op::LiteralCreate(x) => LiteralValue::encoding(x),
            Op::StackLoad(x) => u8::encoding(x),
            Op::StackStore(x) => u8::encoding(x),
            Op::StackSwap(x) => u8::encoding(x),
            Op::TupleCreate(x) => u8::encoding(x),
            Op::ListCreate(x) => u8::encoding(x),
            _ => Seq::empty(),
        }
    }
}

/// The instruction of kind `t` whose payload stands at the front of `b`.
pub open spec fn with_payload(t: OpType, b: Seq<u8>) -> Decoded<Op> {
    match t {
        OpType::Add => Decoded::Value(Op::Add, 0),
        OpType::Sub => Decoded::Value(Op::Sub, 0),
        OpType::Mul => Decoded::Value(Op::Mul, 0),
        OpType::Div => Decoded::Value(Op::Div, 0),
        OpType::Rem => Decoded::Value(Op::Rem, 0),
        OpType::Neg => Decoded::Value(Op::Neg, 0),
        OpType::Shl => Decoded::Value(Op::Shl, 0),
        OpType::Shr => Decoded::Value(Op::Shr, 0),
        OpType::And => Decoded::Value(Op::And, 0),
        OpType::Or => Decoded::Value(Op::Or, 0),
        OpType::Xor => Decoded::Value(Op::Xor, 0),
        OpType::Not => Decoded::Value(Op::Not, 0),
        OpType::Cmp => Decoded::Value(Op::Cmp, 0),
        OpType::GetType => Decoded::Value(Op::GetType, 0),
        OpType::IntToReal => Decoded::Value(Op::IntToReal, 0),
        OpType::Floor => Decoded::Value(Op::Floor, 0),
        OpType::Ceil => Decoded::Value(Op::Ceil, 0),
        OpType::Trunc => Decoded::Value(Op::Trunc, 0),
        OpType::Round => Decoded::Value(Op::Round, 0),
        OpType::Call => match u8::decoding(b) {
            Decoded::Value(x, n) => Decoded::Value(Op::Call(x), n),
            Decoded::EndOfFile => Decoded::EndOfFile,
            Decoded::InvalidValue(at) => Decoded::InvalidValue(at),
        },
        OpType::Return => Decoded::Value(Op::Return, 0),
        OpType::Jump => match i32::decoding(b) {
            Decoded::Value(x, n) => Decoded::Value(Op::Jump(x), n),
            Decoded::EndOfFile => Decoded::EndOfFile,
            Decoded::InvalidValue(at) => Decoded::InvalidValue(at),
        },
        OpType::JumpZero => match i32::decoding(b) {
            Decoded::Value(x, n) => Decoded::Value(Op::JumpZero(x), n),
            Decoded::EndOfFile => Decoded::EndOfFile,
            Decoded::InvalidValue(at) => Decoded::InvalidValue(at),
        },
        OpType::JumpNeg => match i32::decoding(b) {
            Decoded::Value(x, n) => Decoded::Value(Op::JumpNeg(x), n),
            Decoded::EndOfFile => Decoded::EndOfFile,
            Decoded::InvalidValue(at) => Decoded::InvalidValue(at),
        },
        OpType::LiteralCreate => match LiteralValue::decoding(b) {
            Decoded::Value(x, n) => Decoded::Value(Op::LiteralCreate(x), n),
            Decoded::EndOfFile => Decoded::EndOfFile,
            Decoded::InvalidValue(at) => Decoded::InvalidValue(at),
        },
        OpType::StackCopy => Decoded::Value(Op::StackCopy, 0),
        OpType::StackPop => Decoded::Value(Op::StackPop, 0),
        OpType::StackLoad => match u8::decoding(b) {
            Decoded::Value(x, n) => Decoded::Value(Op::StackLoad(x), n),
            Decoded::EndOfFile => Decoded::EndOfFile,
            Decoded::InvalidValue(at) => Decoded::InvalidValue(at),
        },
        OpType::StackStore => match u8::decoding(b) {
            Decoded::Value(x, n) => Decoded::Value(Op::StackStore(x), n),
            Decoded::EndOfFile => Decoded::EndOfFile,
            Decoded::InvalidValue(at) => Decoded::InvalidValue(at),
        },
        OpType::StackSwap => match u8::decoding(b) {
            Decoded::Value(x, n) => Decoded::Value(Op::StackSwap(x), n),
            Decoded::EndOfFile => Decoded::EndOfFile,
            Decoded::InvalidValue(at) => Decoded::InvalidValue(at),
        },
        OpType::TupleCreate => match u8::decoding(b) {
            Decoded::Value(x, n) => Decoded::Value(Op::TupleCreate(x), n),
            Decoded::EndOfFile => Decoded::EndOfFile,
            Decoded::InvalidValue(at) => Decoded::InvalidValue(at),
        },
        OpType::TupleFromList => Decoded::Value(Op::TupleFromList, 0),
        OpType::TupleWeakRef => Decoded::Value(Op::TupleWeakRef, 0),
        OpType::TupleWeakUpgrade => Decoded::Value(Op::TupleWeakUpgrade, 0),
        OpType::TableCreate => Decoded::Value(Op::TableCreate, 0),
        OpType::ListCreate => match u8::decoding(b) {
            Decoded::Value(x, n) => Decoded::Value(Op::ListCreate(x), n),
            Decoded::EndOfFile => Decoded::EndOfFile,
            Decoded::InvalidValue(at) => Decoded::InvalidValue(at),
        },
        OpType::ListPush => Decoded::Value(Op::ListPush, 0),
        OpType::ListPop => Decoded::Value(Op::ListPop, 0),
        OpType::ListGetSlice => Decoded::Value(Op::ListGetSlice, 0),
        OpType::BufferCreate => Decoded::Value(Op::BufferCreate, 0),
        OpType::BufferGetSlice => Decoded::Value(Op::BufferGetSlice, 0),
        OpType::BufferSetSlice => Decoded::Value(Op::BufferSetSlice, 0),
        OpType::SeqLen => Decoded::Value(Op::SeqLen, 0),
        OpType::SeqResize => Decoded::Value(Op::SeqResize, 0),
        OpType::SeqGet => Decoded::Value(Op::SeqGet, 0),
        OpType::SeqSet => Decoded::Value(Op::SeqSet, 0),
        OpType::SeqToList => Decoded::Value(Op::SeqToList, 0),
        OpType::SeqAppend => Decoded::Value(Op::SeqAppend, 0),
    }
}

/// An instruction is laid out as one byte for its kind and then what it
/// carries.
impl BytesIO for Op {
    open spec fn encodable(v: Op) -> bool {
        true
    }

    open spec fn encoding(v: Op) -> Seq<u8> {
        seq![v.kind().code()] + v.payload()
    }

    open spec fn decoding(b: Seq<u8>) -> Decoded<Op> {
        if b.len() < 1 {
            Decoded::EndOfFile
        } else {
            match op_type_of(b[0]) {
                Some(t) => with_payload(t, behind(b, 1)).shifted(1),
                None => Decoded::InvalidValue(0),
            }
        }
    }

    #[verifier::rlimit(50)]
    proof fn lemma_decode_encode(v: Op, rest: Seq<u8>) {
        let all = Self::encoding(v) + rest;
        assert(behind(all, 1) =~= v.payload() + rest);
        assert(all[0] == v.kind().code());
        match v {
            Op::Call(x) => {
                u8::lemma_decode_encode(x, rest);
            },
            Op::Jump(x) => {
                i32::lemma_decode_encode(x, rest);
            },
            Op::JumpZero(x) => {
                i32::lemma_decode_encode(x, rest);
            },
            Op::JumpNeg(x) => {
                i32::lemma_decode_encode(x, rest);
            },
            Op::LiteralCreate(x) => {
                LiteralValue::lemma_decode_encode(x, rest);
            },
            Op::StackLoad(x) => {
                u8::lemma_decode_encode(x, rest);
            },
            Op::StackStore(x) => {
                u8::lemma_decode_encode(x, rest);
            },
            Op::StackSwap(x) => {
                u8::lemma_decode_encode(x, rest);
            },
            Op::TupleCreate(x) => {
                u8::lemma_decode_encode(x, rest);
            },
            Op::ListCreate(x) => {
                u8::lemma_decode_encode(x, rest);
            },
            _ => {},
        }
    }

    #[verifier::rlimit(50)]
    proof fn lemma_encode_decode(b: Seq<u8>) {
        if b.len() >= 1 {
            let tail = behind(b, 1);
            u8::lemma_encode_decode(tail);
            i32::lemma_encode_decode(tail);
            LiteralValue::lemma_encode_decode(tail);
            match Self::decoding(b) {
                Decoded::Value(v, n) => {
                    assert(b.subrange(0, n as int) =~= seq![b[0]] + tail.subrange(
                        0,
                        (n - 1) as int,
                    ));
                    assert(tail.subrange(0, 0) =~= Seq::<u8>::empty());
                },
                _ => {},
            }
        }
    }

    #[verifier::rlimit(50)]
    fn read<'a>(b: &'a [u8]) -> (r: Result<(&'a [u8], Self), BytesReadError<'a>>) {
        let (b2, n) = <u8 as BytesIO>::read(b)?;
        proof {
            u8::lemma_encode_decode(b2@);
            i32::lemma_encode_decode(b2@);
            LiteralValue::lemma_encode_decode(b2@);
            assert(b2@ =~= behind(b@, 1));
        }
        if n == 0 {
            Ok((b2, Op::Add))
        } else if n == 1 {
            Ok((b2, Op::Sub))
        } else if n == 2 {
            Ok((b2, Op::Mul))
        } else if n == 3 {
            Ok((b2, Op::Div))
        } else if n == 4 {
            Ok((b2, Op::Rem))
        } else if n == 5 {
            Ok((b2, Op::Neg))
        } else if n == 6 {
            Ok((b2, Op::Shl))
        } else if n == 7 {
            Ok((b2, Op::Shr))
        } else if n == 8 {
            Ok((b2, Op::And))
        } else if n == 9 {
            Ok((b2, Op::Or))
        } else if n == 10 {
            Ok((b2, Op::Xor))
        } else if n == 11 {
            Ok((b2, Op::Not))
        } else if n == 12 {
            Ok((b2, Op::Cmp))
        } else if n == 13 {
            Ok((b2, Op::GetType))
        } else if n == 14 {
            Ok((b2, Op::IntToReal))
        } else if n == 15 {
            Ok((b2, Op::Floor))
        } else if n == 16 {
            Ok((b2, Op::Ceil))
        } else if n == 17 {
            Ok((b2, Op::Trunc))
        } else if n == 18 {
            Ok((b2, Op::Round))
        } else if n == 19 {
            match <u8 as BytesIO>::read(b2) {
                Ok((b3, x)) => {
                    proof {
                        lemma_behind_twice(b@, 1, u8::decoding(b2@)->Value_1);
                    }
                    Ok((b3, Op::Call(x)))
                },
                Err(BytesReadError::EndOfFile) => Err(BytesReadError::EndOfFile),
                Err(BytesReadError::InvalidValue(s)) => {
                    proof {
                        lemma_behind_twice(b@, 1, u8::decoding(b2@)->InvalidValue_0);
                    }
                    Err(BytesReadError::InvalidValue(s))
                },
            }
        } else if n == 20 {
            Ok((b2, Op::Return))
        } else if n == 21 {
            match <i32 as BytesIO>::read(b2) {
                Ok((b3, x)) => {
                    proof {
                        lemma_behind_twice(b@, 1, i32::decoding(b2@)->Value_1);
                    }
                    Ok((b3, Op::Jump(x)))
                },
                Err(BytesReadError::EndOfFile) => Err(BytesReadError::EndOfFile),
                Err(BytesReadError::InvalidValue(s)) => {
                    proof {
                        lemma_behind_twice(b@, 1, i32::decoding(b2@)->InvalidValue_0);
                    }
                    Err(BytesReadError::InvalidValue(s))
                },
            }
        } else if n == 22 {
            match <i32 as BytesIO>::read(b2) {
                Ok((b3, x)) => {
                    proof {
                        lemma_behind_twice(b@, 1, i32::decoding(b2@)->Value_1);
                    }
                    Ok((b3, Op::JumpZero(x)))
                },
                Err(BytesReadError::EndOfFile) => Err(BytesReadError::EndOfFile),
                Err(BytesReadError::InvalidValue(s)) => {
                    proof {
                        lemma_behind_twice(b@, 1, i32::decoding(b2@)->InvalidValue_0);
                    }
                    Err(BytesReadError::InvalidValue(s))
                },
            }
        } else if n == 23 {
            match <i32 as BytesIO>::read(b2) {
                Ok((b3, x)) => {
                    proof {
                        lemma_behind_twice(b@, 1, i32::decoding(b2@)->Value_1);
                    }
                    Ok((b3, Op::JumpNeg(x)))
                },
                Err(BytesReadError::EndOfFile) => Err(BytesReadError::EndOfFile),
                Err(BytesReadError::InvalidValue(s)) => {
                    proof {
                        lemma_behind_twice(b@, 1, i32::decoding(b2@)->InvalidValue_0);
                    }
                    Err(BytesReadError::InvalidValue(s))
                },
            }
        } else if n == 24 {
            match <LiteralValue as BytesIO>::read(b2) {
                Ok((b3, x)) => {
                    proof {
                        lemma_behind_twice(b@, 1, LiteralValue::decoding(b2@)->Value_1);
                    }
                    Ok((b3, Op::LiteralCreate(x)))
                },
                Err(BytesReadError::EndOfFile) => Err(BytesReadError::EndOfFile),
                Err(BytesReadError::InvalidValue(s)) => {
                    proof {
                        lemma_behind_twice(b@, 1, LiteralValue::decoding(b2@)->InvalidValue_0);
                    }
                    Err(BytesReadError::InvalidValue(s))
                },
            }
        } else if n == 25 {
            Ok((b2, Op::StackCopy))
        } else if n == 26 {
            Ok((b2, Op::StackPop))
        } else if n == 27 {
            match <u8 as BytesIO>::read(b2) {
                Ok((b3, x)) => {
                    proof {
                        lemma_behind_twice(b@, 1, u8::decoding(b2@)->Value_1);
                    }
                    Ok((b3, Op::StackLoad(x)))
                },
                Err(BytesReadError::EndOfFile) => Err(BytesReadError::EndOfFile),
                Err(BytesReadError::InvalidValue(s)) => {
                    proof {
                        lemma_behind_twice(b@, 1, u8::decoding(b2@)->InvalidValue_0);
                    }
                    Err(BytesReadError::InvalidValue(s))
                },
            }
        } else if n == 28 {
            match <u8 as BytesIO>::read(b2) {
                Ok((b3, x)) => {
                    proof {
                        lemma_behind_twice(b@, 1, u8::decoding(b2@)->Value_1);
                    }
                    Ok((b3, Op::StackStore(x)))
                },
                Err(BytesReadError::EndOfFile) => Err(BytesReadError::EndOfFile),
                Err(BytesReadError::InvalidValue(s)) => {
                    proof {
                        lemma_behind_twice(b@, 1, u8::decoding(b2@)->InvalidValue_0);
                    }
                    Err(BytesReadError::InvalidValue(s))
                },
            }
        } else if n == 29 {
            match <u8 as BytesIO>::read(b2) {
                Ok((b3, x)) => {
                    proof {
                        lemma_behind_twice(b@, 1, u8::decoding(b2@)->Value_1);
                    }
                    Ok((b3, Op::StackSwap(x)))
                },
                Err(BytesReadError::EndOfFile) => Err(BytesReadError::EndOfFile),
                Err(BytesReadError::InvalidValue(s)) => {
                    proof {
                        lemma_behind_twice(b@, 1, u8::decoding(b2@)->InvalidValue_0);
                    }
                    Err(BytesReadError::InvalidValue(s))
                },
            }
        } else if n == 30 {
            match <u8 as BytesIO>::read(b2) {
                Ok((b3, x)) => {
                    proof {
                        lemma_behind_twice(b@, 1, u8::decoding(b2@)->Value_1);
                    }
                    Ok((b3, Op::TupleCreate(x)))
                },
                Err(BytesReadError::EndOfFile) => Err(BytesReadError::EndOfFile),
                Err(BytesReadError::InvalidValue(s)) => {
                    proof {
                        lemma_behind_twice(b@, 1, u8::decoding(b2@)->InvalidValue_0);
                    }
                    Err(BytesReadError::InvalidValue(s))
                },
            }
        } else if n == 31 {
            Ok((b2, Op::TupleFromList))
        } else if n == 32 {
            Ok((b2, Op::TupleWeakRef))
        } else if n == 33 {
            Ok((b2, Op::TupleWeakUpgrade))
        } else if n == 34 {
            Ok((b2, Op::TableCreate))
        } else if n == 35 {
            match <u8 as BytesIO>::read(b2) {
                Ok((b3, x)) => {
                    proof {
                        lemma_behind_twice(b@, 1, u8::decoding(b2@)->Value_1);
                    }
                    Ok((b3, Op::ListCreate(x)))
                },
                Err(BytesReadError::EndOfFile) => Err(BytesReadError::EndOfFile),
                Err(BytesReadError::InvalidValue(s)) => {
                    proof {
                        lemma_behind_twice(b@, 1, u8::decoding(b2@)->InvalidValue_0);
                    }
                    Err(BytesReadError::InvalidValue(s))
                },
            }
        } else if n == 36 {
            Ok((b2, Op::ListPush))
        } else if n == 37 {
            Ok((b2, Op::ListPop))
        } else if n == 38 {
            Ok((b2, Op::ListGetSlice))
        } else if n == 39 {
            Ok((b2, Op::BufferCreate))
        } else if n == 40 {
            Ok((b2, Op::BufferGetSlice))
        } else if n == 41 {
            Ok((b2, Op::BufferSetSlice))
        } else if n == 42 {
            Ok((b2, Op::SeqLen))
        } else if n == 43 {
            Ok((b2, Op::SeqResize))
        } else if n == 44 {
            Ok((b2, Op::SeqGet))
        } else if n == 45 {
            Ok((b2, Op::SeqSet))
        } else if n == 46 {
            Ok((b2, Op::SeqToList))
        } else if n == 47 {
            Ok((b2, Op::SeqAppend))
        } else {
            assert(b@.subrange(0, b@.len() as int) =~= b@);
            Err(BytesReadError::InvalidValue(b))
        }
    }

    fn write<'a>(t: &Self, b: &'a mut [u8]) -> (r: Option<&'a mut [u8]>) {
        let code = t.get_type().get_code();
        match t {
            Op::Call(x) => <(u8, u8) as BytesIO>::write(&(code, *x), b),
            Op::Jump(x) => <(u8, i32) as BytesIO>::write(&(code, *x), b),
            Op::JumpZero(x) => <(u8, i32) as BytesIO>::write(&(code, *x), b),
            Op::JumpNeg(x) => <(u8, i32) as BytesIO>::write(&(code, *x), b),
            Op::LiteralCreate(x) => <(u8, LiteralValue) as BytesIO>::write(&(code, *x), b),
            Op::StackLoad(x) => <(u8, u8) as BytesIO>::write(&(code, *x), b),
            Op::StackStore(x) => <(u8, u8) as BytesIO>::write(&(code, *x), b),
            Op::StackSwap(x) => <(u8, u8) as BytesIO>::write(&(code, *x), b),
            Op::TupleCreate(x) => <(u8, u8) as BytesIO>::write(&(code, *x), b),
            Op::ListCreate(x) => <(u8, u8) as BytesIO>::write(&(code, *x), b),
            _ => {
                let r = <u8 as BytesIO>::write(&code, b);
                proof {
                    assert(seq![code] + Seq::<u8>::empty() =~= seq![code]);
                }
                r
            },
        }
    }
}

/// The bytes behind the first `n` of the bytes behind the first `m` are the
/// bytes behind the first `m + n`.
pub proof fn lemma_behind_twice(b: Seq<u8>, m: nat, n: nat)
    requires
        m + n <= b.len(),
    ensures
        behind(behind(b, m), n) == behind(b, m + n),
{
    assert(behind(behind(b, m), n) =~= behind(b, m + n));
}

} // verus!
