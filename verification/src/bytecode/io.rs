//! The wire format: how values are laid out in bytes, and how they are read
//! back.
//!
//! Every number is written with its most significant byte first. A sequence
//! is written as the number of its items, in 32 bits, and then its items. A
//! pair is written as its first and then its second part. Nothing separates
//! one value from the next: a reader takes what it needs from the front of
//! the bytes and hands back the rest.

use vstd::prelude::*;
use crate::datamodel::Real;

verus! {

/// Why bytes could not be read.
pub enum BytesReadError<'a> {
    /// The bytes end before the value does.
    EndOfFile,
    /// The bytes from here on start with no value of the kind that was asked
    /// for.
    InvalidValue(&'a [u8]),
}

/// What a reader finds at the front of some bytes.
pub enum Decoded<V> {
    /// The value, and the number of bytes that it takes.
    Value(V, nat),
    EndOfFile,
    /// The number of bytes before the place where no value starts.
    InvalidValue(nat),
}

impl<V> Decoded<V> {
    /// The same finding behind `by` bytes that were read before.
    pub open spec fn shifted(self, by: nat) -> Decoded<V> {
        match self {
            Decoded::Value(v, n) => Decoded::Value(v, n + by),
            Decoded::EndOfFile => Decoded::EndOfFile,
            Decoded::InvalidValue(at) => Decoded::InvalidValue(at + by),
        }
    }
}

/// The bytes behind the first `n`.
pub open spec fn behind(b: Seq<u8>, n: nat) -> Seq<u8> {
    b.subrange(n as int, b.len() as int)
}

/// A kind of value with a layout in bytes.
pub trait BytesIO: Sized + DeepView {
    /// Whether the value can be written: a sequence must not have more items
    /// than its count can say.
    spec fn encodable(v: Self::V) -> bool;

    /// The bytes of a value.
    spec fn encoding(v: Self::V) -> Seq<u8>;

    /// What stands at the front of the bytes.
    spec fn decoding(b: Seq<u8>) -> Decoded<Self::V>;

    /// Reading back what was written gives the value, whatever follows it.
    proof fn lemma_decode_encode(v: Self::V, rest: Seq<u8>)
        requires
            Self::encodable(v),
        ensures
            Self::decoding(Self::encoding(v) + rest) == Decoded::Value(
                v,
                Self::encoding(v).len(),
            ),
    ;

    /// Writing what was read gives the bytes that were read.
    proof fn lemma_encode_decode(b: Seq<u8>)
        ensures
            Self::decoding(b) matches Decoded::Value(v, n) ==> n <= b.len() && Self::encodable(v)
                && Self::encoding(v) == b.subrange(0, n as int),
            Self::decoding(b) matches Decoded::InvalidValue(at) ==> at <= b.len(),
    ;

    /// Reads a value from the front of the bytes and returns the rest with
    /// it.
    fn read<'a>(b: &'a [u8]) -> (r: Result<(&'a [u8], Self), BytesReadError<'a>>)
        ensures
            match Self::decoding(b@) {
                Decoded::Value(v, n) => r matches Ok((rest, t)) && t.deep_view() == v && n
                    <= b@.len() && rest@ == b@.subrange(n as int, b@.len() as int),
                Decoded::EndOfFile => r matches Err(BytesReadError::EndOfFile),
                Decoded::InvalidValue(at) => r matches Err(BytesReadError::InvalidValue(s)) && at
                    <= b@.len() && s@ == b@.subrange(at as int, b@.len() as int),
            },
    ;

    /// Writes a value to the front of the bytes and returns the rest of
    /// them, or nothing if the value cannot be written or does not fit.
    fn write<'a>(t: &Self, b: &'a mut [u8]) -> (r: Option<&'a mut [u8]>)
        ensures
            match r {
                Some(rest) => {
                    let enc = Self::encoding(t.deep_view());
                    &&& Self::encodable(t.deep_view())
                    &&& enc.len() <= old(b)@.len()
                    &&& rest@ == old(b)@.subrange(enc.len() as int, old(b)@.len() as int)
                    &&& final(b)@ == enc + final(rest)@
                },
                None => !Self::encodable(t.deep_view()) || Self::encoding(t.deep_view()).len()
                    > old(b)@.len(),
            },
    ;
}

/// A kind of value that is laid out as a value of another kind stands for
/// it.
pub trait DataIO: Sized + DeepView {
    /// The kind that stands for this one in bytes.
    type Target: BytesIO;

    /// The value that a value of the other kind stands for, if for any.
    spec fn from_target(t: <Self::Target as DeepView>::V) -> Option<Self::V>;

    /// The value of the other kind that stands for a value.
    spec fn into_target(v: Self::V) -> <Self::Target as DeepView>::V;

    /// What stands for a value stands for that value, and for nothing else.
    proof fn lemma_target(v: Self::V, t: <Self::Target as DeepView>::V)
        ensures
            Self::from_target(Self::into_target(v)) == Some(v),
            Self::from_target(t) == Some(v) ==> Self::into_target(v) == t,
    ;

    fn from_bytes(t: Self::Target) -> (r: Option<Self>)
        ensures
            match r {
                Some(x) => Self::from_target(t.deep_view()) == Some(x.deep_view()),
                None => Self::from_target(t.deep_view()) is None,
            },
    ;

    fn into_bytes(&self) -> (r: Self::Target)
        ensures
            r.deep_view() == Self::into_target(self.deep_view()),
    ;
}

impl<T: DataIO> BytesIO for T {
    open spec fn encodable(v: Self::V) -> bool {
        <T::Target as BytesIO>::encodable(T::into_target(v))
    }

    open spec fn encoding(v: Self::V) -> Seq<u8> {
        <T::Target as BytesIO>::encoding(T::into_target(v))
    }

    open spec fn decoding(b: Seq<u8>) -> Decoded<Self::V> {
        match <T::Target as BytesIO>::decoding(b) {
            Decoded::Value(t, n) => match T::from_target(t) {
                Some(v) => Decoded::Value(v, n),
                None => Decoded::InvalidValue(0),
            },
            Decoded::EndOfFile => Decoded::EndOfFile,
            Decoded::InvalidValue(at) => Decoded::InvalidValue(at),
        }
    }

    proof fn lemma_decode_encode(v: Self::V, rest: Seq<u8>) {
        <T::Target as BytesIO>::lemma_decode_encode(T::into_target(v), rest);
        T::lemma_target(v, T::into_target(v));
    }

    proof fn lemma_encode_decode(b: Seq<u8>) {
        <T::Target as BytesIO>::lemma_encode_decode(b);
        match <T::Target as BytesIO>::decoding(b) {
            Decoded::Value(t, n) => match T::from_target(t) {
                Some(v) => {
                    T::lemma_target(v, t);
                },
                None => {},
            },
            _ => {},
        }
    }

    fn read<'a>(b: &'a [u8]) -> (r: Result<(&'a [u8], Self), BytesReadError<'a>>) {
        let (b2, t) = <T::Target as BytesIO>::read(b)?;
        match T::from_bytes(t) {
            Some(t) => Ok((b2, t)),
            None => {
                assert(b@.subrange(0, b@.len() as int) =~= b@);
                Err(BytesReadError::InvalidValue(b))
            },
        }
    }

    fn write<'a>(t: &Self, b: &'a mut [u8]) -> (r: Option<&'a mut [u8]>) {
        let t = T::into_bytes(t);
        <T::Target as BytesIO>::write(&t, b)
    }
}

/// The number that bytes spell, the most significant byte first.
pub open spec fn be_value(s: Seq<u8>) -> nat
    decreases s.len(),
{
    if s.len() == 0 {
        0
    } else {
        be_value(s.drop_last()) * 256 + s.last() as nat
    }
}

/// The `n` bytes that spell a number, the most significant byte first.
pub open spec fn be_bytes(v: nat, n: nat) -> Seq<u8>
    decreases n,
{
    if n == 0 {
        Seq::empty()
    } else {
        be_bytes(v / 256, (n - 1) as nat).push((v % 256) as u8)
    }
}

/// The first number that `n` bytes cannot spell: 256 to the power of `n`.
pub open spec fn limit(n: nat) -> nat
    decreases n,
{
    if n == 0 {
        1
    } else {
        256 * limit((n - 1) as nat)
    }
}

/// The number without a sign that stands for a number with a sign in `n`
/// bytes: the number itself, or for a negative number its distance from the
/// limit.
pub open spec fn unsigned_of(v: int, n: nat) -> nat {
    if v >= 0 {
        v as nat
    } else {
        (v + limit(n)) as nat
    }
}

/// The number with a sign for which a number without a sign stands in `n`
/// bytes.
pub open spec fn signed_of(v: nat, n: nat) -> int {
    if 2 * v < limit(n) {
        v as int
    } else {
        v - limit(n)
    }
}

/// The limits of one, two, four and eight bytes.
pub proof fn lemma_limits()
    ensures
        limit(0) == 1,
        limit(1) == 0x100,
        limit(2) == 0x1_0000,
        limit(4) == 0x1_0000_0000,
        limit(8) == 0x1_0000_0000_0000_0000,
        forall|n: nat| n <= 8 ==> 0 < #[trigger] limit(n) <= 0x1_0000_0000_0000_0000,
{
    reveal_with_fuel(limit, 9);
    assert forall|n: nat| n <= 8 implies 0 < #[trigger] limit(n) <= 0x1_0000_0000_0000_0000 by {
        if n == 0 {
        } else if n == 1 {
        } else if n == 2 {
        } else if n == 3 {
        } else if n == 4 {
        } else if n == 5 {
        } else if n == 6 {
        } else if n == 7 {
        } else {
        }
    }
}

/// `n` bytes spell a number below the limit of `n` bytes.
pub proof fn lemma_be_value_bound(s: Seq<u8>)
    ensures
        be_value(s) < limit(s.len()),
    decreases s.len(),
{
    if s.len() > 0 {
        lemma_be_value_bound(s.drop_last());
    }
}

/// A number is spelt in as many bytes as are asked for.
pub proof fn lemma_be_bytes_len(v: nat, n: nat)
    ensures
        be_bytes(v, n).len() == n,
    decreases n,
{
    if n > 0 {
        lemma_be_bytes_len(v / 256, (n - 1) as nat);
    }
}

/// The bytes that spell a number below the limit spell that number.
pub proof fn lemma_be_value_of_bytes(v: nat, n: nat)
    requires
        v < limit(n),
    ensures
        be_value(be_bytes(v, n)) == v,
    decreases n,
{
    if n > 0 {
        lemma_be_value_of_bytes(v / 256, (n - 1) as nat);
        lemma_be_bytes_len(v / 256, (n - 1) as nat);
        assert(be_bytes(v, n).drop_last() =~= be_bytes(v / 256, (n - 1) as nat));
    }
}

/// The number that bytes spell is spelt by those bytes.
pub proof fn lemma_be_bytes_of_value(s: Seq<u8>)
    ensures
        be_bytes(be_value(s), s.len()) == s,
    decreases s.len(),
{
    if s.len() > 0 {
        lemma_be_bytes_of_value(s.drop_last());
        let v = be_value(s);
        assert(v / 256 == be_value(s.drop_last()));
        assert(v % 256 == s.last());
        assert(be_bytes(v, s.len()) =~= s);
    } else {
        assert(be_bytes(be_value(s), s.len()) =~= s);
    }
}

/// Standing for a number with a sign and being stood for undo each other.
pub proof fn lemma_signed_round_trip(n: nat)
    requires
        1 <= n <= 8,
    ensures
        forall|v: int|
            -(limit(n) as int) <= 2 * v < limit(n) ==> #[trigger] unsigned_of(v, n) < limit(n)
                && signed_of(unsigned_of(v, n), n) == v,
        forall|u: nat|
            u < limit(n) ==> -(limit(n) as int) <= 2 * #[trigger] signed_of(u, n) < limit(n)
                && unsigned_of(signed_of(u, n), n) == u,
{
    lemma_limits();
}

/// Reads a number of `n` bytes from the front of the bytes.
pub fn read_be<'a>(b: &'a [u8], n: usize) -> (r: Option<(&'a [u8], u64)>)
    requires
        1 <= n <= 8,
    ensures
        match r {
            Some((rest, v)) => n <= b@.len() && v == be_value(b@.subrange(0, n as int)) && v
                < limit(n as nat) && rest@ == b@.subrange(n as int, b@.len() as int),
            None => b@.len() < n,
        },
{
    if b.len() < n {
        return None;
    }
    let mut acc: u64 = 0;
    let mut i: usize = 0;
    proof {
        lemma_limits();
        assert(b@.subrange(0, 0) =~= Seq::<u8>::empty());
    }
    while i < n
        invariant
            i <= n <= 8,
            n <= b@.len(),
            acc == be_value(b@.subrange(0, i as int)),
            acc < limit(i as nat),
        decreases n - i,
    {
        proof {
            lemma_limits();
            let sub = b@.subrange(0, i + 1);
            assert(sub.drop_last() =~= b@.subrange(0, i as int));
            assert(sub.last() == b@[i as int]);
            assert(limit((i + 1) as nat) == 256 * limit(i as nat));
            assert(limit((i + 1) as nat) <= 0x1_0000_0000_0000_0000);
        }
        acc = acc * 256 + b[i] as u64;
        i += 1;
    }
    Some((vstd::slice::slice_subrange(b, n, b.len()), acc))
}

/// Writes a number in `n` bytes to the front of the bytes.
pub fn write_be<'a>(v: u64, n: usize, b: &'a mut [u8]) -> (r: Option<&'a mut [u8]>)
    requires
        1 <= n <= 8,
    ensures
        match r {
            Some(rest) => n <= old(b)@.len() && rest@ == old(b)@.subrange(
                n as int,
                old(b)@.len() as int,
            ) && final(b)@ == be_bytes(v as nat, n as nat) + final(rest)@,
            None => old(b)@.len() < n,
        },
{
    if b.len() < n {
        return None;
    }
    let (head, tail) = b.split_at_mut(n);
    let mut left: u64 = v;
    let mut i: usize = n;
    proof {
        lemma_be_bytes_len(v as nat, n as nat);
        assert(head@.subrange(n as int, n as int) =~= Seq::<u8>::empty());
        assert(be_bytes(v as nat, n as nat) =~= be_bytes(left as nat, i as nat) + head@.subrange(
            n as int,
            n as int,
        ));
    }
    while i > 0
        invariant
            i <= n,
            head@.len() == n,
            be_bytes(v as nat, n as nat) == be_bytes(left as nat, i as nat) + head@.subrange(
                i as int,
                n as int,
            ),
        decreases i,
    {
        i -= 1;
        let ghost before = head@;
        head[i] = (left % 256) as u8;
        proof {
            lemma_be_bytes_len((left / 256) as nat, i as nat);
            assert(head@.subrange(i as int, n as int) =~= seq![(left % 256) as u8]
                + before.subrange(i + 1, n as int));
            assert(be_bytes(left as nat, (i + 1) as nat) == be_bytes(
                (left / 256) as nat,
                i as nat,
            ).push((left % 256) as u8));
            assert(be_bytes(v as nat, n as nat) =~= be_bytes((left / 256) as nat, i as nat)
                + head@.subrange(i as int, n as int));
        }
        left = left / 256;
    }
    proof {
        assert(head@.subrange(0, n as int) =~= head@);
        assert(be_bytes(left as nat, 0) =~= Seq::<u8>::empty());
        assert(be_bytes(v as nat, n as nat) =~= head@);
    }
    Some(tail)
}

impl BytesIO for u8 {
    open spec fn encodable(v: u8) -> bool {
        true
    }

    open spec fn encoding(v: u8) -> Seq<u8> {
        seq![v]
    }

    open spec fn decoding(b: Seq<u8>) -> Decoded<u8> {
        if b.len() < 1 {
            Decoded::EndOfFile
        } else {
            Decoded::Value(b[0], 1)
        }
    }

    proof fn lemma_decode_encode(v: u8, rest: Seq<u8>) {
    }

    proof fn lemma_encode_decode(b: Seq<u8>) {
        if b.len() >= 1 {
            assert(seq![b[0]] =~= b.subrange(0, 1));
        }
    }

    fn read<'a>(b: &'a [u8]) -> (r: Result<(&'a [u8], Self), BytesReadError<'a>>) {
        if b.len() < 1 {
            return Err(BytesReadError::EndOfFile);
        }
        let v = b[0];
        let rest = vstd::slice::slice_subrange(b, 1, b.len());
        Ok((rest, v))
    }

    fn write<'a>(t: &Self, b: &'a mut [u8]) -> (r: Option<&'a mut [u8]>) {
        if b.len() < 1 {
            return None;
        }
        let (head, tail) = b.split_at_mut(1);
        head[0] = *t;
        assert(head@ =~= seq![*t]);
        Some(tail)
    }
}

impl BytesIO for u16 {
    open spec fn encodable(v: u16) -> bool {
        true
    }

    open spec fn encoding(v: u16) -> Seq<u8> {
        be_bytes(v as nat, 2)
    }

    open spec fn decoding(b: Seq<u8>) -> Decoded<u16> {
        if b.len() < 2 {
            Decoded::EndOfFile
        } else {
            Decoded::Value(be_value(b.subrange(0, 2)) as u16, 2)
        }
    }

    proof fn lemma_decode_encode(v: u16, rest: Seq<u8>) {
        lemma_limits();
        lemma_be_bytes_len(v as nat, 2);
        lemma_be_value_of_bytes(v as nat, 2);
        assert((be_bytes(v as nat, 2) + rest).subrange(0, 2) =~= be_bytes(v as nat, 2));
    }

    proof fn lemma_encode_decode(b: Seq<u8>) {
        if b.len() >= 2 {
            lemma_limits();
            lemma_be_value_bound(b.subrange(0, 2));
            lemma_be_bytes_of_value(b.subrange(0, 2));
        }
    }

    fn read<'a>(b: &'a [u8]) -> (r: Result<(&'a [u8], Self), BytesReadError<'a>>) {
        match read_be(b, 2) {
            Some((rest, v)) => {
                proof {
                    lemma_limits();
                }
                Ok((rest, v as u16))
            },
            None => Err(BytesReadError::EndOfFile),
        }
    }

    fn write<'a>(t: &Self, b: &'a mut [u8]) -> (r: Option<&'a mut [u8]>) {
        proof {
            lemma_be_bytes_len(*t as nat, 2);
        }
        write_be(*t as u64, 2, b)
    }
}

impl BytesIO for u32 {
    open spec fn encodable(v: u32) -> bool {
        true
    }

    open spec fn encoding(v: u32) -> Seq<u8> {
        be_bytes(v as nat, 4)
    }

    open spec fn decoding(b: Seq<u8>) -> Decoded<u32> {
        if b.len() < 4 {
            Decoded::EndOfFile
        } else {
            Decoded::Value(be_value(b.subrange(0, 4)) as u32, 4)
        }
    }

    proof fn lemma_decode_encode(v: u32, rest: Seq<u8>) {
        lemma_limits();
        lemma_be_bytes_len(v as nat, 4);
        lemma_be_value_of_bytes(v as nat, 4);
        assert((be_bytes(v as nat, 4) + rest).subrange(0, 4) =~= be_bytes(v as nat, 4));
    }

    proof fn lemma_encode_decode(b: Seq<u8>) {
        if b.len() >= 4 {
            lemma_limits();
            lemma_be_value_bound(b.subrange(0, 4));
            lemma_be_bytes_of_value(b.subrange(0, 4));
        }
    }

    fn read<'a>(b: &'a [u8]) -> (r: Result<(&'a [u8], Self), BytesReadError<'a>>) {
        match read_be(b, 4) {
            Some((rest, v)) => {
                proof {
                    lemma_limits();
                }
                Ok((rest, v as u32))
            },
            None => Err(BytesReadError::EndOfFile),
        }
    }

    fn write<'a>(t: &Self, b: &'a mut [u8]) -> (r: Option<&'a mut [u8]>) {
        proof {
            lemma_be_bytes_len(*t as nat, 4);
        }
        write_be(*t as u64, 4, b)
    }
}

impl BytesIO for u64 {
    open spec fn encodable(v: u64) -> bool {
        true
    }

    open spec fn encoding(v: u64) -> Seq<u8> {
        be_bytes(v as nat, 8)
    }

    open spec fn decoding(b: Seq<u8>) -> Decoded<u64> {
        if b.len() < 8 {
            Decoded::EndOfFile
        } else {
            Decoded::Value(be_value(b.subrange(0, 8)) as u64, 8)
        }
    }

    proof fn lemma_decode_encode(v: u64, rest: Seq<u8>) {
        lemma_limits();
        lemma_be_bytes_len(v as nat, 8);
        lemma_be_value_of_bytes(v as nat, 8);
        assert((be_bytes(v as nat, 8) + rest).subrange(0, 8) =~= be_bytes(v as nat, 8));
    }

    proof fn lemma_encode_decode(b: Seq<u8>) {
        if b.len() >= 8 {
            lemma_limits();
            lemma_be_value_bound(b.subrange(0, 8));
            lemma_be_bytes_of_value(b.subrange(0, 8));
        }
    }

    fn read<'a>(b: &'a [u8]) -> (r: Result<(&'a [u8], Self), BytesReadError<'a>>) {
        match read_be(b, 8) {
            Some((rest, v)) => {
                proof {
                    lemma_limits();
                }
                Ok((rest, v as u64))
            },
            None => Err(BytesReadError::EndOfFile),
        }
    }

    fn write<'a>(t: &Self, b: &'a mut [u8]) -> (r: Option<&'a mut [u8]>) {
        proof {
            lemma_be_bytes_len(*t as nat, 8);
        }
        write_be(*t as u64, 8, b)
    }
}

impl BytesIO for i8 {
    open spec fn encodable(v: i8) -> bool {
        true
    }

    open spec fn encoding(v: i8) -> Seq<u8> {
        be_bytes(unsigned_of(v as int, 1), 1)
    }

    open spec fn decoding(b: Seq<u8>) -> Decoded<i8> {
        if b.len() < 1 {
            Decoded::EndOfFile
        } else {
            Decoded::Value(signed_of(be_value(b.subrange(0, 1)), 1) as i8, 1)
        }
    }

    proof fn lemma_decode_encode(v: i8, rest: Seq<u8>) {
        lemma_limits();
        lemma_signed_round_trip(1);
        let u = unsigned_of(v as int, 1);
        assert(u < limit(1));
        lemma_be_bytes_len(u, 1);
        lemma_be_value_of_bytes(u, 1);
        assert((be_bytes(u, 1) + rest).subrange(0, 1) =~= be_bytes(u, 1));
    }

    proof fn lemma_encode_decode(b: Seq<u8>) {
        if b.len() >= 1 {
            lemma_limits();
            lemma_signed_round_trip(1);
            lemma_be_value_bound(b.subrange(0, 1));
            lemma_be_bytes_of_value(b.subrange(0, 1));
            let u = be_value(b.subrange(0, 1));
            assert(u < limit(1));
            assert(unsigned_of(signed_of(u, 1), 1) == u);
        }
    }

    fn read<'a>(b: &'a [u8]) -> (r: Result<(&'a [u8], Self), BytesReadError<'a>>) {
        match read_be(b, 1) {
            Some((rest, raw)) => {
                proof {
                    lemma_limits();
                }
                let u = raw as u8;
                let v = u as i8;
                assert(u < 0x80 ==> v == u) by (bit_vector)
                    requires
                        v == u as i8,
                ;
                assert(u >= 0x80 ==> v == u - 0x100) by (bit_vector)
                    requires
                        v == u as i8,
                ;
                Ok((rest, v))
            },
            None => Err(BytesReadError::EndOfFile),
        }
    }

    fn write<'a>(t: &Self, b: &'a mut [u8]) -> (r: Option<&'a mut [u8]>) {
        let v = *t;
        let u = v as u8;
        assert(v >= 0 ==> u == v) by (bit_vector)
            requires
                u == v as u8,
        ;
        assert(v < 0 ==> u == v + 0x100) by (bit_vector)
            requires
                u == v as u8,
        ;
        proof {
            lemma_limits();
            lemma_be_bytes_len(u as nat, 1);
        }
        write_be(u as u64, 1, b)
    }
}

impl BytesIO for i16 {
    open spec fn encodable(v: i16) -> bool {
        true
    }

    open spec fn encoding(v: i16) -> Seq<u8> {
        be_bytes(unsigned_of(v as int, 2), 2)
    }

    open spec fn decoding(b: Seq<u8>) -> Decoded<i16> {
        if b.len() < 2 {
            Decoded::EndOfFile
        } else {
            Decoded::Value(signed_of(be_value(b.subrange(0, 2)), 2) as i16, 2)
        }
    }

    proof fn lemma_decode_encode(v: i16, rest: Seq<u8>) {
        lemma_limits();
        lemma_signed_round_trip(2);
        let u = unsigned_of(v as int, 2);
        assert(u < limit(2));
        lemma_be_bytes_len(u, 2);
        lemma_be_value_of_bytes(u, 2);
        assert((be_bytes(u, 2) + rest).subrange(0, 2) =~= be_bytes(u, 2));
    }

    proof fn lemma_encode_decode(b: Seq<u8>) {
        if b.len() >= 2 {
            lemma_limits();
            lemma_signed_round_trip(2);
            lemma_be_value_bound(b.subrange(0, 2));
            lemma_be_bytes_of_value(b.subrange(0, 2));
            let u = be_value(b.subrange(0, 2));
            assert(u < limit(2));
            assert(unsigned_of(signed_of(u, 2), 2) == u);
        }
    }

    fn read<'a>(b: &'a [u8]) -> (r: Result<(&'a [u8], Self), BytesReadError<'a>>) {
        match read_be(b, 2) {
            Some((rest, raw)) => {
                proof {
                    lemma_limits();
                }
                let u = raw as u16;
                let v = u as i16;
                assert(u < 0x8000 ==> v == u) by (bit_vector)
                    requires
                        v == u as i16,
                ;
                assert(u >= 0x8000 ==> v == u - 0x1_0000) by (bit_vector)
                    requires
                        v == u as i16,
                ;
                Ok((rest, v))
            },
            None => Err(BytesReadError::EndOfFile),
        }
    }

    fn write<'a>(t: &Self, b: &'a mut [u8]) -> (r: Option<&'a mut [u8]>) {
        let v = *t;
        let u = v as u16;
        assert(v >= 0 ==> u == v) by (bit_vector)
            requires
                u == v as u16,
        ;
        assert(v < 0 ==> u == v + 0x1_0000) by (bit_vector)
            requires
                u == v as u16,
        ;
        proof {
            lemma_limits();
            lemma_be_bytes_len(u as nat, 2);
        }
        write_be(u as u64, 2, b)
    }
}

impl BytesIO for i32 {
    open spec fn encodable(v: i32) -> bool {
        true
    }

    open spec fn encoding(v: i32) -> Seq<u8> {
        be_bytes(unsigned_of(v as int, 4), 4)
    }

    open spec fn decoding(b: Seq<u8>) -> Decoded<i32> {
        if b.len() < 4 {
            Decoded::EndOfFile
        } else {
            Decoded::Value(signed_of(be_value(b.subrange(0, 4)), 4) as i32, 4)
        }
    }

    proof fn lemma_decode_encode(v: i32, rest: Seq<u8>) {
        lemma_limits();
        lemma_signed_round_trip(4);
        let u = unsigned_of(v as int, 4);
        assert(u < limit(4));
        lemma_be_bytes_len(u, 4);
        lemma_be_value_of_bytes(u, 4);
        assert((be_bytes(u, 4) + rest).subrange(0, 4) =~= be_bytes(u, 4));
    }

    proof fn lemma_encode_decode(b: Seq<u8>) {
        if b.len() >= 4 {
            lemma_limits();
            lemma_signed_round_trip(4);
            lemma_be_value_bound(b.subrange(0, 4));
            lemma_be_bytes_of_value(b.subrange(0, 4));
            let u = be_value(b.subrange(0, 4));
            assert(u < limit(4));
            assert(unsigned_of(signed_of(u, 4), 4) == u);
        }
    }

    fn read<'a>(b: &'a [u8]) -> (r: Result<(&'a [u8], Self), BytesReadError<'a>>) {
        match read_be(b, 4) {
            Some((rest, raw)) => {
                proof {
                    lemma_limits();
                }
                let u = raw as u32;
                let v = u as i32;
                assert(u < 0x8000_0000 ==> v == u) by (bit_vector)
                    requires
                        v == u as i32,
                ;
                assert(u >= 0x8000_0000 ==> v == u - 0x1_0000_0000) by (bit_vector)
                    requires
                        v == u as i32,
                ;
                Ok((rest, v))
            },
            None => Err(BytesReadError::EndOfFile),
        }
    }

    fn write<'a>(t: &Self, b: &'a mut [u8]) -> (r: Option<&'a mut [u8]>) {
        let v = *t;
        let u = v as u32;
        assert(v >= 0 ==> u == v) by (bit_vector)
            requires
                u == v as u32,
        ;
        assert(v < 0 ==> u == v + 0x1_0000_0000) by (bit_vector)
            requires
                u == v as u32,
        ;
        proof {
            lemma_limits();
            lemma_be_bytes_len(u as nat, 4);
        }
        write_be(u as u64, 4, b)
    }
}

impl BytesIO for i64 {
    open spec fn encodable(v: i64) -> bool {
        true
    }

    open spec fn encoding(v: i64) -> Seq<u8> {
        be_bytes(unsigned_of(v as int, 8), 8)
    }

    open spec fn decoding(b: Seq<u8>) -> Decoded<i64> {
        if b.len() < 8 {
            Decoded::EndOfFile
        } else {
            Decoded::Value(signed_of(be_value(b.subrange(0, 8)), 8) as i64, 8)
        }
    }

    proof fn lemma_decode_encode(v: i64, rest: Seq<u8>) {
        lemma_limits();
        lemma_signed_round_trip(8);
        let u = unsigned_of(v as int, 8);
        assert(u < limit(8));
        lemma_be_bytes_len(u, 8);
        lemma_be_value_of_bytes(u, 8);
        assert((be_bytes(u, 8) + rest).subrange(0, 8) =~= be_bytes(u, 8));
    }

    proof fn lemma_encode_decode(b: Seq<u8>) {
        if b.len() >= 8 {
            lemma_limits();
            lemma_signed_round_trip(8);
            lemma_be_value_bound(b.subrange(0, 8));
            lemma_be_bytes_of_value(b.subrange(0, 8));
            let u = be_value(b.subrange(0, 8));
            assert(u < limit(8));
            assert(unsigned_of(signed_of(u, 8), 8) == u);
        }
    }

    fn read<'a>(b: &'a [u8]) -> (r: Result<(&'a [u8], Self), BytesReadError<'a>>) {
        match read_be(b, 8) {
            Some((rest, raw)) => {
                proof {
                    lemma_limits();
                }
                let u = raw as u64;
                let v = u as i64;
                assert(u < 0x8000_0000_0000_0000 ==> v == u) by (bit_vector)
                    requires
                        v == u as i64,
                ;
                assert(u >= 0x8000_0000_0000_0000 ==> v == u - 0x1_0000_0000_0000_0000) by (bit_vector)
                    requires
                        v == u as i64,
                ;
                Ok((rest, v))
            },
            None => Err(BytesReadError::EndOfFile),
        }
    }

    fn write<'a>(t: &Self, b: &'a mut [u8]) -> (r: Option<&'a mut [u8]>) {
        let v = *t;
        let u = v as u64;
        assert(v >= 0 ==> u == v) by (bit_vector)
            requires
                u == v as u64,
        ;
        assert(v < 0 ==> u == v + 0x1_0000_0000_0000_0000) by (bit_vector)
            requires
                u == v as u64,
        ;
        proof {
            lemma_limits();
            lemma_be_bytes_len(u as nat, 8);
        }
        write_be(u as u64, 8, b)
    }
}

impl DeepView for Real {
    type V = Real;

    open spec fn deep_view(&self) -> Real {
        *self
    }
}

/// A real is laid out as the 64 bits of its pattern.
impl DataIO for Real {
    type Target = u64;

    open spec fn from_target(t: u64) -> Option<Real> {
        Some(Real { bits: t })
    }

    open spec fn into_target(v: Real) -> u64 {
        v.bits
    }

    proof fn lemma_target(v: Real, t: u64) {
    }

    fn from_bytes(t: u64) -> (r: Option<Real>) {
        Some(Real { bits: t })
    }

    fn into_bytes(&self) -> (r: u64) {
        self.bits
    }
}

/// A pair is laid out as its first and then its second part.
impl<A: BytesIO, B: BytesIO> BytesIO for (A, B) {
    open spec fn encodable(v: (A::V, B::V)) -> bool {
        A::encodable(v.0) && B::encodable(v.1)
    }

    open spec fn encoding(v: (A::V, B::V)) -> Seq<u8> {
        A::encoding(v.0) + B::encoding(v.1)
    }

    open spec fn decoding(b: Seq<u8>) -> Decoded<(A::V, B::V)> {
        match A::decoding(b) {
            Decoded::Value(x, n) => match B::decoding(b.subrange(n as int, b.len() as int)) {
                Decoded::Value(y, m) => Decoded::Value((x, y), n + m),
                Decoded::EndOfFile => Decoded::EndOfFile,
                Decoded::InvalidValue(at) => Decoded::InvalidValue(n + at),
            },
            Decoded::EndOfFile => Decoded::EndOfFile,
            Decoded::InvalidValue(at) => Decoded::InvalidValue(at),
        }
    }

    proof fn lemma_decode_encode(v: (A::V, B::V), rest: Seq<u8>) {
        let all = A::encoding(v.0) + B::encoding(v.1) + rest;
        assert(all =~= A::encoding(v.0) + (B::encoding(v.1) + rest));
        A::lemma_decode_encode(v.0, B::encoding(v.1) + rest);
        B::lemma_decode_encode(v.1, rest);
        assert(all.subrange(A::encoding(v.0).len() as int, all.len() as int) =~= B::encoding(v.1)
            + rest);
    }

    proof fn lemma_encode_decode(b: Seq<u8>) {
        A::lemma_encode_decode(b);
        match A::decoding(b) {
            Decoded::Value(x, n) => {
                let tail = b.subrange(n as int, b.len() as int);
                B::lemma_encode_decode(tail);
                match B::decoding(tail) {
                    Decoded::Value(y, m) => {
                        assert(b.subrange(0, (n + m) as int) =~= b.subrange(0, n as int)
                            + tail.subrange(0, m as int));
                    },
                    _ => {},
                }
            },
            _ => {},
        }
    }

    fn read<'a>(b: &'a [u8]) -> (r: Result<(&'a [u8], Self), BytesReadError<'a>>) {
        proof {
            A::lemma_encode_decode(b@);
            if A::decoding(b@) is Value {
                let n = A::decoding(b@)->Value_1;
                B::lemma_encode_decode(b@.subrange(n as int, b@.len() as int));
            }
        }
        let (b1, x) = A::read(b)?;
        match B::read(b1) {
            Ok((b2, y)) => {
                assert(b2@ =~= b@.subrange(
                    (A::decoding(b@)->Value_1 + B::decoding(b1@)->Value_1) as int,
                    b@.len() as int,
                ));
                Ok((b2, (x, y)))
            },
            Err(BytesReadError::EndOfFile) => Err(BytesReadError::EndOfFile),
            Err(BytesReadError::InvalidValue(s)) => {
                assert(s@ =~= b@.subrange(
                    (A::decoding(b@)->Value_1 + B::decoding(b1@)->InvalidValue_0) as int,
                    b@.len() as int,
                ));
                Err(BytesReadError::InvalidValue(s))
            },
        }
    }

    fn write<'a>(t: &Self, b: &'a mut [u8]) -> (r: Option<&'a mut [u8]>) {
        assert(t.deep_view() == (t.0.deep_view(), t.1.deep_view()));
        assert(Self::encoding(t.deep_view()) == A::encoding(t.0.deep_view()) + B::encoding(
            t.1.deep_view(),
        ));
        assert(Self::encodable(t.deep_view()) == (A::encodable(t.0.deep_view()) && B::encodable(
            t.1.deep_view(),
        )));
        let b1 = A::write(&t.0, b)?;
        let r = B::write(&t.1, b1);
        proof {
            if r is Some {
                let enc_a = A::encoding(t.0.deep_view());
                let enc_b = B::encoding(t.1.deep_view());
                assert(r->0@ =~= old(b)@.subrange(
                    (enc_a.len() + enc_b.len()) as int,
                    old(b)@.len() as int,
                ));
                assert(enc_a + (enc_b + final(r->0)@) =~= (enc_a + enc_b) + final(r->0)@);
            }
        }
        r
    }
}

/// Whether each of the items can be written.
pub open spec fn items_encodable<T: BytesIO>(s: Seq<T::V>) -> bool {
    forall|i: int| 0 <= i < s.len() ==> T::encodable(#[trigger] s[i])
}

/// The bytes of the items, one item after the other.
pub open spec fn items_encoding<T: BytesIO>(s: Seq<T::V>) -> Seq<u8>
    decreases s.len(),
{
    if s.len() == 0 {
        Seq::empty()
    } else {
        items_encoding::<T>(s.drop_last()) + T::encoding(s.last())
    }
}

/// What stands at the front of the bytes, read as `count` items.
pub open spec fn items_decoding<T: BytesIO>(b: Seq<u8>, count: nat) -> Decoded<Seq<T::V>>
    decreases count,
{
    if count == 0 {
        Decoded::Value(Seq::empty(), 0)
    } else {
        match items_decoding::<T>(b, (count - 1) as nat) {
            Decoded::Value(items, n) => match T::decoding(b.subrange(n as int, b.len() as int)) {
                Decoded::Value(item, m) => Decoded::Value(items.push(item), n + m),
                Decoded::EndOfFile => Decoded::EndOfFile,
                Decoded::InvalidValue(at) => Decoded::InvalidValue(n + at),
            },
            Decoded::EndOfFile => Decoded::EndOfFile,
            Decoded::InvalidValue(at) => Decoded::InvalidValue(at),
        }
    }
}

/// Reading back the items that were written gives the items.
pub proof fn lemma_items_decode_encode<T: BytesIO>(s: Seq<T::V>, rest: Seq<u8>)
    requires
        items_encodable::<T>(s),
    ensures
        items_decoding::<T>(items_encoding::<T>(s) + rest, s.len()) == Decoded::Value(
            s,
            items_encoding::<T>(s).len(),
        ),
    decreases s.len(),
{
    if s.len() > 0 {
        let init = s.drop_last();
        let enc_init = items_encoding::<T>(init);
        let enc_last = T::encoding(s.last());
        let all = items_encoding::<T>(s) + rest;
        assert(all =~= enc_init + (enc_last + rest));
        assert forall|i: int| 0 <= i < init.len() implies T::encodable(#[trigger] init[i]) by {
            assert(init[i] == s[i]);
        }
        assert(T::encodable(s[s.len() - 1]));
        lemma_items_decode_encode::<T>(init, enc_last + rest);
        T::lemma_decode_encode(s.last(), rest);
        assert(all.subrange(enc_init.len() as int, all.len() as int) =~= enc_last + rest);
        assert(init.push(s.last()) =~= s);
        assert(items_decoding::<T>(all, init.len()) == Decoded::Value(init, enc_init.len()));
    } else {
        assert(s =~= Seq::<T::V>::empty());
    }
}

/// Writing the items that were read gives the bytes that were read.
pub proof fn lemma_items_encode_decode<T: BytesIO>(b: Seq<u8>, count: nat)
    ensures
        items_decoding::<T>(b, count) matches Decoded::Value(s, n) ==> n <= b.len() && s.len()
            == count && items_encodable::<T>(s) && items_encoding::<T>(s) == b.subrange(
            0,
            n as int,
        ),
        items_decoding::<T>(b, count) matches Decoded::InvalidValue(at) ==> at <= b.len(),
    decreases count,
{
    if count > 0 {
        lemma_items_encode_decode::<T>(b, (count - 1) as nat);
        match items_decoding::<T>(b, (count - 1) as nat) {
            Decoded::Value(items, n) => {
                let tail = b.subrange(n as int, b.len() as int);
                T::lemma_encode_decode(tail);
                match T::decoding(tail) {
                    Decoded::Value(item, m) => {
                        let s = items.push(item);
                        assert(s.drop_last() =~= items);
                        assert(b.subrange(0, (n + m) as int) =~= b.subrange(0, n as int)
                            + tail.subrange(0, m as int));
                    },
                    _ => {},
                }
            },
            _ => {},
        }
    } else {
        assert(b.subrange(0, 0) =~= Seq::<u8>::empty());
    }
}

/// A sequence is laid out as the number of its items, in 32 bits, and then
/// its items.
impl<T: BytesIO> BytesIO for Vec<T> {
    open spec fn encodable(v: Seq<T::V>) -> bool {
        v.len() <= u32::MAX && items_encodable::<T>(v)
    }

    open spec fn encoding(v: Seq<T::V>) -> Seq<u8> {
        u32::encoding(v.len() as u32) + items_encoding::<T>(v)
    }

    open spec fn decoding(b: Seq<u8>) -> Decoded<Seq<T::V>> {
        match u32::decoding(b) {
            Decoded::Value(count, n) => match items_decoding::<T>(
                b.subrange(n as int, b.len() as int),
                count as nat,
            ) {
                Decoded::Value(items, m) => Decoded::Value(items, n + m),
                Decoded::EndOfFile => Decoded::EndOfFile,
                Decoded::InvalidValue(at) => Decoded::InvalidValue(n + at),
            },
            Decoded::EndOfFile => Decoded::EndOfFile,
            Decoded::InvalidValue(at) => Decoded::InvalidValue(at),
        }
    }

    proof fn lemma_decode_encode(v: Seq<T::V>, rest: Seq<u8>) {
        let head = u32::encoding(v.len() as u32);
        let body = items_encoding::<T>(v);
        let all = head + body + rest;
        assert(all =~= head + (body + rest));
        u32::lemma_decode_encode(v.len() as u32, body + rest);
        assert(all.subrange(head.len() as int, all.len() as int) =~= body + rest);
        lemma_items_decode_encode::<T>(v, rest);
    }

    proof fn lemma_encode_decode(b: Seq<u8>) {
        u32::lemma_encode_decode(b);
        match u32::decoding(b) {
            Decoded::Value(count, n) => {
                let tail = b.subrange(n as int, b.len() as int);
                lemma_items_encode_decode::<T>(tail, count as nat);
                match items_decoding::<T>(tail, count as nat) {
                    Decoded::Value(items, m) => {
                        assert(b.subrange(0, (n + m) as int) =~= b.subrange(0, n as int)
                            + tail.subrange(0, m as int));
                    },
                    _ => {},
                }
            },
            _ => {},
        }
    }

    #[verifier::loop_isolation(false)]
    fn read<'a>(b: &'a [u8]) -> (r: Result<(&'a [u8], Self), BytesReadError<'a>>) {
        proof {
            u32::lemma_encode_decode(b@);
        }
        let (start, len) = <u32 as BytesIO>::read(b)?;
        let ghost head = u32::decoding(b@)->Value_1;
        let mut cur = start;
        let mut acc: Vec<T> = Vec::new();
        let mut i: u32 = 0;
        let ghost mut used: nat = 0;
        assert(acc.deep_view() =~= Seq::<T::V>::empty());
        assert(start@.subrange(0, start@.len() as int) =~= start@);
        while i < len
            invariant
                i <= len,
                used <= start@.len(),
                cur@ == start@.subrange(used as int, start@.len() as int),
                items_decoding::<T>(start@, i as nat) == Decoded::Value(acc.deep_view(), used),
            decreases len - i,
        {
            proof {
                T::lemma_encode_decode(cur@);
            }
            match <T as BytesIO>::read(cur) {
                Ok((next, t)) => {
                    let ghost before = acc.deep_view();
                    acc.push(t);
                    proof {
                        let m = T::decoding(cur@)->Value_1;
                        assert(acc.deep_view() =~= before.push(t.deep_view()));
                        assert(next@ =~= start@.subrange((used + m) as int, start@.len() as int));
                        used = used + m;
                    }
                    cur = next;
                },
                Err(BytesReadError::EndOfFile) => {
                    proof {
                        lemma_items_decoding_fails::<T>(start@, (i + 1) as nat, len as nat);
                    }
                    return Err(BytesReadError::EndOfFile);
                },
                Err(BytesReadError::InvalidValue(s)) => {
                    proof {
                        lemma_items_decoding_fails::<T>(start@, (i + 1) as nat, len as nat);
                        let at = T::decoding(cur@)->InvalidValue_0;
                        assert(s@ =~= b@.subrange((head + used + at) as int, b@.len() as int));
                    }
                    return Err(BytesReadError::InvalidValue(s));
                },
            }
            i += 1;
        }
        assert(cur@ =~= b@.subrange((head + used) as int, b@.len() as int));
        Ok((cur, acc))
    }

    #[verifier::loop_isolation(false)]
    fn write<'a>(t: &Self, b: &'a mut [u8]) -> (r: Option<&'a mut [u8]>) {
        let len = t.len();
        if len > u32::MAX as usize {
            return None;
        }
        let ghost items = t.deep_view();
        let ghost head = u32::encoding(len as u32);
        let ghost total = old(b)@.len();
        let ghost whole = final(b)@;
        let mut cur = <u32 as BytesIO>::write(&(len as u32), b)?;
        let mut i: usize = 0;
        let ghost mut done: Seq<u8> = Seq::empty();
        proof {
            assert(items.subrange(0, 0) =~= Seq::<T::V>::empty());
            assert(head + done =~= head);
        }
        while i < len
            invariant
                i <= len,
                len == t@.len(),
                items == t.deep_view(),
                items.len() == len,
                done == items_encoding::<T>(items.subrange(0, i as int)),
                forall|k: int| 0 <= k < i ==> T::encodable(#[trigger] items[k]),
                head.len() + done.len() + cur@.len() == total,
                cur@ == old(b)@.subrange((head.len() + done.len()) as int, total as int),
                whole == head + done + final(cur)@,
            decreases len - i,
        {
            let ghost enc = T::encoding(items[i as int]);
            proof {
                let sub = items.subrange(0, i + 1);
                assert(sub.drop_last() =~= items.subrange(0, i as int));
                assert(sub.last() == items[i as int]);
                assert(t@[i as int].deep_view() == items[i as int]);
            }
            match <T as BytesIO>::write(&t[i], cur) {
                Some(next) => {
                    proof {
                        assert(next@ =~= old(b)@.subrange(
                            (head.len() + done.len() + enc.len()) as int,
                            total as int,
                        ));
                        let after = final(next)@;
                        assert(head + done + (enc + after) =~= head + (done + enc) + after);
                        done = done + enc;
                    }
                    cur = next;
                },
                None => {
                    proof {
                        if items_encodable::<T>(items) {
                            lemma_items_encoding_grows::<T>(items, (i + 1) as nat);
                        }
                    }
                    return None;
                },
            }
            i += 1;
        }
        proof {
            assert(items.subrange(0, len as int) =~= items);
            assert(head + done + final(cur)@ =~= (head + done) + final(cur)@);
        }
        Some(cur)
    }
}

/// Where fewer items cannot be read, more cannot be read either, for the
/// same reason.
pub proof fn lemma_items_decoding_fails<T: BytesIO>(b: Seq<u8>, k: nat, count: nat)
    requires
        k <= count,
        !(items_decoding::<T>(b, k) is Value),
    ensures
        items_decoding::<T>(b, count) == items_decoding::<T>(b, k),
    decreases count,
{
    if k < count {
        lemma_items_decoding_fails::<T>(b, k, (count - 1) as nat);
    }
}

/// The bytes of the first items are no more than the bytes of all items.
pub proof fn lemma_items_encoding_grows<T: BytesIO>(s: Seq<T::V>, k: nat)
    requires
        k <= s.len(),
    ensures
        items_encoding::<T>(s.subrange(0, k as int)).len() <= items_encoding::<T>(s).len(),
    decreases s.len(),
{
    if k < s.len() {
        lemma_items_encoding_grows::<T>(s.drop_last(), k);
        assert(s.drop_last().subrange(0, k as int) =~= s.subrange(0, k as int));
    } else {
        assert(s.subrange(0, k as int) =~= s);
    }
}

} // verus!
