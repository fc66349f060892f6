use vstd::prelude::*;
use super::io::{BytesIO, BytesReadError, Decoded};
use super::op::Op;

verus! {

/// The instructions of one function, as a module holds them.
#[derive(Debug, PartialEq, Eq)]
pub struct Function {
    pub ops: Vec<Op>,
}

impl DeepView for Function {
    type V = Seq<Op>;

    open spec fn deep_view(&self) -> Seq<Op> {
        self.ops.deep_view()
    }
}

/// A function is laid out as the sequence of its instructions.
impl BytesIO for Function {
    open spec fn encodable(v: Seq<Op>) -> bool {
        Vec::<Op>::encodable(v)
    }

    open spec fn encoding(v: Seq<Op>) -> Seq<u8> {
        Vec::<Op>::encoding(v)
    }

    open spec fn decoding(b: Seq<u8>) -> Decoded<Seq<Op>> {
        Vec::<Op>::decoding(b)
    }

    proof fn lemma_decode_encode(v: Seq<Op>, rest: Seq<u8>) {
        Vec::<Op>::lemma_decode_encode(v, rest);
    }

    proof fn lemma_encode_decode(b: Seq<u8>) {
        Vec::<Op>::lemma_encode_decode(b);
    }

    fn read<'a>(b: &'a [u8]) -> (r: Result<(&'a [u8], Self), BytesReadError<'a>>) {
        let (b, ops) = <Vec<Op> as BytesIO>::read(b)?;
        Ok((b, Function { ops }))
    }

    fn write<'a>(t: &Self, b: &'a mut [u8]) -> (r: Option<&'a mut [u8]>) {
        <Vec<Op> as BytesIO>::write(&t.ops, b)
    }
}

} // verus!
