//! Binary codec: reversible encoding of values to bytes.
//!
//! Integers are written little-endian at their full width, `bool` as one
//! byte `0` or `1`, an optional value as a one-byte tag (`0` absent, `1`
//! present) followed by the payload, and a pair as the concatenation of its
//! fields. Sequences and strings carry their length as a `u32` before their
//! items or UTF-8 bytes. Every encoding is non-empty and no encoding is a
//! proper prefix of another of the same type, so decoding a truncated
//! buffer fails.

use vstd::prelude::*;
use vstd::utf8::{
    decode_utf8, encode_utf8, encode_utf8_decode_utf8, encode_utf8_valid_utf8, valid_utf8,
};

use crate::time::{Instant, Time};

verus! {

/// Decoding met a truncated or corrupted buffer.
#[derive(Debug, Clone, Copy, PartialEq, Eq, Structural)]
pub struct MalformedData;

/// `256` raised to `n`.
pub open spec fn byte_bound(n: nat) -> nat
    decreases n,
{
    if n == 0 {
        1
    } else {
        256 * byte_bound((n - 1) as nat)
    }
}

/// The `n` low-order bytes of `v`, least significant first.
pub open spec fn le_bytes(v: nat, n: nat) -> Seq<u8>
    decreases n,
{
    if n == 0 {
        Seq::empty()
    } else {
        seq![(v % 256) as u8] + le_bytes(v / 256, (n - 1) as nat)
    }
}

/// The number whose little-endian bytes are `b`.
pub open spec fn le_value(b: Seq<u8>) -> nat
    decreases b.len(),
{
    if b.len() == 0 {
        0
    } else {
        b[0] as nat + 256 * le_value(b.subrange(1, b.len() as int))
    }
}

proof fn lemma_le_bytes_len(v: nat, n: nat)
    ensures
        le_bytes(v, n).len() == n,
    decreases n,
{
    if n > 0 {
        lemma_le_bytes_len(v / 256, (n - 1) as nat);
    }
}

proof fn lemma_le_round_trip(v: nat, n: nat)
    requires
        v < byte_bound(n),
    ensures
        le_value(le_bytes(v, n)) == v,
    decreases n,
{
    if n > 0 {
        let b = le_bytes(v, n);
        let tail = le_bytes(v / 256, (n - 1) as nat);
        assert(v / 256 < byte_bound((n - 1) as nat));
        lemma_le_round_trip(v / 256, (n - 1) as nat);
        lemma_le_bytes_len(v / 256, (n - 1) as nat);
        assert(b.subrange(1, b.len() as int) =~= tail);
    }
}

proof fn lemma_le_value_bound(b: Seq<u8>)
    ensures
        le_value(b) < byte_bound(b.len()),
    decreases b.len(),
{
    if b.len() > 0 {
        lemma_le_value_bound(b.subrange(1, b.len() as int));
    }
}

/// Appends the `n` low-order bytes of `v`, least significant first.
fn write_le(out: &mut Vec<u8>, v: u64, n: usize)
    requires
        n <= 8,
    ensures
        final(out)@ == old(out)@ + le_bytes(v as nat, n as nat),
{
    let mut x = v;
    let mut i: usize = 0;
    while i < n
        invariant
            i <= n <= 8,
            out@ + le_bytes(x as nat, (n - i) as nat) == old(out)@ + le_bytes(v as nat, n as nat),
        decreases n - i,
    {
        let ghost before = out@;
        out.push((x % 256) as u8);
        assert(le_bytes(x as nat, (n - i) as nat) == seq![(x % 256) as u8] + le_bytes(
            (x / 256) as nat,
            (n - i - 1) as nat,
        ));
        assert(before + le_bytes(x as nat, (n - i) as nat) =~= out@ + le_bytes(
            (x / 256) as nat,
            (n - i - 1) as nat,
        ));
        x = x / 256;
        i = i + 1;
    }
    assert(out@ + le_bytes(x as nat, 0) =~= out@);
}

/// Reads `n` little-endian bytes starting at `pos`.
fn read_le(bytes: &[u8], pos: usize, n: usize) -> (r: u64)
    requires
        n <= 8,
        pos + n <= bytes@.len(),
    ensures
        r == le_value(bytes@.subrange(pos as int, pos + n)),
{
    let len = bytes.len();
    let mut acc: u64 = 0;
    let mut i: usize = n;
    while i > 0
        invariant
            i <= n <= 8,
            len == bytes@.len(),
            pos + n <= bytes@.len(),
            acc == le_value(bytes@.subrange(pos + i, pos + n)),
        decreases i,
    {
        let ghost rest = bytes@.subrange(pos + i, pos + n);
        let ghost cur = bytes@.subrange(pos + i - 1, pos + n);
        proof {
            lemma_le_value_bound(rest);
            lemma_byte_bound_max((n - i) as nat);
            assert(cur.subrange(1, cur.len() as int) =~= rest);
        }
        acc = acc * 256 + bytes[pos + i - 1] as u64;
        i = i - 1;
    }
    acc
}

proof fn lemma_byte_bound_max(n: nat)
    requires
        n <= 7,
    ensures
        byte_bound(n) * 256 <= 0x1_0000_0000_0000_0000,
{
    reveal_with_fuel(byte_bound, 9);
    assert(byte_bound(n) <= byte_bound(7)) by {
        lemma_byte_bound_mono(n, 7);
    }
}

proof fn lemma_byte_bound_mono(a: nat, b: nat)
    requires
        a <= b,
    ensures
        byte_bound(a) <= byte_bound(b),
    decreases b,
{
    if a < b {
        lemma_byte_bound_mono(a, (b - 1) as nat);
    }
}

proof fn lemma_fixed_round_trip(v: nat, n: nat, rest: Seq<u8>)
    requires
        v < byte_bound(n),
    ensures
        le_bytes(v, n).len() == n,
        (le_bytes(v, n) + rest).subrange(0, n as int) == le_bytes(v, n),
        le_value(le_bytes(v, n)) == v,
{
    lemma_le_bytes_len(v, n);
    lemma_le_round_trip(v, n);
    assert((le_bytes(v, n) + rest).subrange(0, n as int) =~= le_bytes(v, n));
}

/// A type whose values have a binary encoding.
///
/// `spec_encode` gives the bytes of a value; `spec_decode` reads a value
/// from the start of a buffer and gives it with the number of bytes it
/// took, or `None` when the buffer is malformed.
pub trait BinCodec: Sized {
    /// The bytes that encode `self`.
    spec fn spec_encode(&self) -> Seq<u8>;

    /// The value at the start of `bytes` and its length in bytes.
    spec fn spec_decode(bytes: Seq<u8>) -> Option<(Self, nat)>;

    /// Appends the encoding of `self` to `out`.
    fn encode(&self, out: &mut Vec<u8>)
        ensures
            final(out)@ == old(out)@ + self.spec_encode(),
    ;

    /// Reads a value from `bytes` starting at `pos`; on success gives the
    /// value and the position just past it.
    fn decode_at(bytes: &[u8], pos: usize) -> (r: Result<(Self, usize), MalformedData>)
        requires
            pos <= bytes@.len(),
        ensures
            Self::spec_decode(bytes@.subrange(pos as int, bytes@.len() as int)) == match r {
                Ok((v, end)) => Some((v, (end - pos) as nat)),
                Err(_) => None::<(Self, nat)>,
            },
            r matches Ok((_, end)) ==> pos <= end <= bytes@.len(),
    ;

    /// Decoding an encoding followed by any bytes gives the value back and
    /// takes exactly its encoding.
    proof fn lemma_round_trip(v: Self, rest: Seq<u8>)
        ensures
            Self::spec_decode(v.spec_encode() + rest) == Some((v, v.spec_encode().len())),
    ;

    /// The encoding is non-empty and decoding any proper prefix of it fails.
    proof fn lemma_truncated_fails(v: Self, k: int)
        requires
            0 <= k < v.spec_encode().len(),
        ensures
            Self::spec_decode(v.spec_encode().subrange(0, k)) is None,
    ;
}

/// The decoding of a fixed-width unsigned integer of `n` bytes.
pub open spec fn decode_fixed(bytes: Seq<u8>, n: nat) -> Option<(nat, nat)> {
    if bytes.len() >= n {
        Some((le_value(bytes.subrange(0, n as int)), n))
    } else {
        None
    }
}

fn decode_fixed_at(bytes: &[u8], pos: usize, n: usize) -> (r: Result<(u64, usize), MalformedData>)
    requires
        pos <= bytes@.len(),
        n <= 8,
    ensures
        decode_fixed(bytes@.subrange(pos as int, bytes@.len() as int), n as nat) == match r {
            Ok((v, end)) => Some((v as nat, (end - pos) as nat)),
            Err(_) => None::<(nat, nat)>,
        },
        r matches Ok((v, end)) ==> end == pos + n && v < byte_bound(n as nat),
{
    if bytes.len() - pos < n {
        return Err(MalformedData);
    }
    let v = read_le(bytes, pos, n);
    proof {
        let s = bytes@.subrange(pos as int, bytes@.len() as int);
        assert(s.subrange(0, n as int) =~= bytes@.subrange(pos as int, pos + n));
        lemma_le_value_bound(bytes@.subrange(pos as int, pos + n));
    }
    Ok((v, pos + n))
}

proof fn lemma_fixed_truncated(v: nat, n: nat, k: int)
    requires
        0 <= k < le_bytes(v, n).len(),
    ensures
        decode_fixed(le_bytes(v, n).subrange(0, k), n) is None,
{
    lemma_le_bytes_len(v, n);
}

impl BinCodec for u8 {
    open spec fn spec_encode(&self) -> Seq<u8> {
        le_bytes(*self as nat, 1)
    }

    open spec fn spec_decode(bytes: Seq<u8>) -> Option<(u8, nat)> {
        match decode_fixed(bytes, 1) {
            Some((v, n)) => Some((v as u8, n)),
            None => None,
        }
    }

    fn encode(&self, out: &mut Vec<u8>) {
        write_le(out, *self as u64, 1);
    }

    fn decode_at(bytes: &[u8], pos: usize) -> (r: Result<(u8, usize), MalformedData>) {
        match decode_fixed_at(bytes, pos, 1) {
            Ok((v, end)) => {
                proof {
                    reveal_with_fuel(byte_bound, 2);
                }
                Ok((v as u8, end))
            },
            Err(e) => Err(e),
        }
    }

    proof fn lemma_round_trip(v: u8, rest: Seq<u8>) {
        reveal_with_fuel(byte_bound, 2);
        lemma_fixed_round_trip(v as nat, 1, rest);
    }

    proof fn lemma_truncated_fails(v: u8, k: int) {
        lemma_fixed_truncated(v as nat, 1, k);
    }
}

impl BinCodec for u16 {
    open spec fn spec_encode(&self) -> Seq<u8> {
        le_bytes(*self as nat, 2)
    }

    open spec fn spec_decode(bytes: Seq<u8>) -> Option<(u16, nat)> {
        match decode_fixed(bytes, 2) {
            Some((v, n)) => Some((v as u16, n)),
            None => None,
        }
    }

    fn encode(&self, out: &mut Vec<u8>) {
        write_le(out, *self as u64, 2);
    }

    fn decode_at(bytes: &[u8], pos: usize) -> (r: Result<(u16, usize), MalformedData>) {
        match decode_fixed_at(bytes, pos, 2) {
            Ok((v, end)) => {
                proof {
                    reveal_with_fuel(byte_bound, 3);
                }
                Ok((v as u16, end))
            },
            Err(e) => Err(e),
        }
    }

    proof fn lemma_round_trip(v: u16, rest: Seq<u8>) {
        reveal_with_fuel(byte_bound, 3);
        lemma_fixed_round_trip(v as nat, 2, rest);
    }

    proof fn lemma_truncated_fails(v: u16, k: int) {
        lemma_fixed_truncated(v as nat, 2, k);
    }
}

impl BinCodec for u32 {
    open spec fn spec_encode(&self) -> Seq<u8> {
        le_bytes(*self as nat, 4)
    }

    open spec fn spec_decode(bytes: Seq<u8>) -> Option<(u32, nat)> {
        match decode_fixed(bytes, 4) {
            Some((v, n)) => Some((v as u32, n)),
            None => None,
        }
    }

    fn encode(&self, out: &mut Vec<u8>) {
        write_le(out, *self as u64, 4);
    }

    fn decode_at(bytes: &[u8], pos: usize) -> (r: Result<(u32, usize), MalformedData>) {
        match decode_fixed_at(bytes, pos, 4) {
            Ok((v, end)) => {
                proof {
                    reveal_with_fuel(byte_bound, 5);
                }
                Ok((v as u32, end))
            },
            Err(e) => Err(e),
        }
    }

    proof fn lemma_round_trip(v: u32, rest: Seq<u8>) {
        reveal_with_fuel(byte_bound, 5);
        lemma_fixed_round_trip(v as nat, 4, rest);
    }

    proof fn lemma_truncated_fails(v: u32, k: int) {
        lemma_fixed_truncated(v as nat, 4, k);
    }
}

impl BinCodec for u64 {
    open spec fn spec_encode(&self) -> Seq<u8> {
        le_bytes(*self as nat, 8)
    }

    open spec fn spec_decode(bytes: Seq<u8>) -> Option<(u64, nat)> {
        match decode_fixed(bytes, 8) {
            Some((v, n)) => Some((v as u64, n)),
            None => None,
        }
    }

    fn encode(&self, out: &mut Vec<u8>) {
        write_le(out, *self, 8);
    }

    fn decode_at(bytes: &[u8], pos: usize) -> (r: Result<(u64, usize), MalformedData>) {
        decode_fixed_at(bytes, pos, 8)
    }

    proof fn lemma_round_trip(v: u64, rest: Seq<u8>) {
        reveal_with_fuel(byte_bound, 9);
        lemma_fixed_round_trip(v as nat, 8, rest);
    }

    proof fn lemma_truncated_fails(v: u64, k: int) {
        lemma_fixed_truncated(v as nat, 8, k);
    }
}

impl BinCodec for i64 {
    open spec fn spec_encode(&self) -> Seq<u8> {
        (*self as u64).spec_encode()
    }

    open spec fn spec_decode(bytes: Seq<u8>) -> Option<(i64, nat)> {
        match u64::spec_decode(bytes) {
            Some((v, n)) => Some((v as i64, n)),
            None => None,
        }
    }

    fn encode(&self, out: &mut Vec<u8>) {
        (*self as u64).encode(out);
    }

    fn decode_at(bytes: &[u8], pos: usize) -> (r: Result<(i64, usize), MalformedData>) {
        match u64::decode_at(bytes, pos) {
            Ok((v, end)) => Ok((v as i64, end)),
            Err(e) => Err(e),
        }
    }

    proof fn lemma_round_trip(v: i64, rest: Seq<u8>) {
        u64::lemma_round_trip(v as u64, rest);
        assert(((v as u64) as i64) == v) by (bit_vector);
    }

    proof fn lemma_truncated_fails(v: i64, k: int) {
        u64::lemma_truncated_fails(v as u64, k);
    }
}

impl BinCodec for bool {
    open spec fn spec_encode(&self) -> Seq<u8> {
        if *self {
            seq![1u8]
        } else {
            seq![0u8]
        }
    }

    open spec fn spec_decode(bytes: Seq<u8>) -> Option<(bool, nat)> {
        if bytes.len() == 0 {
            None
        } else if bytes[0] == 0 {
            Some((false, 1))
        } else if bytes[0] == 1 {
            Some((true, 1))
        } else {
            None
        }
    }

    fn encode(&self, out: &mut Vec<u8>) {
        if *self {
            out.push(1);
        } else {
            out.push(0);
        }
    }

    fn decode_at(bytes: &[u8], pos: usize) -> (r: Result<(bool, usize), MalformedData>) {
        if pos == bytes.len() {
            return Err(MalformedData);
        }
        let b = bytes[pos];
        if b == 0 {
            Ok((false, pos + 1))
        } else if b == 1 {
            Ok((true, pos + 1))
        } else {
            Err(MalformedData)
        }
    }

    proof fn lemma_round_trip(v: bool, rest: Seq<u8>) {
    }

    proof fn lemma_truncated_fails(v: bool, k: int) {
    }
}

impl BinCodec for Time {
    open spec fn spec_encode(&self) -> Seq<u8> {
        self.0.spec_encode()
    }

    open spec fn spec_decode(bytes: Seq<u8>) -> Option<(Time, nat)> {
        match u32::spec_decode(bytes) {
            Some((v, n)) => Some((Time(v), n)),
            None => None,
        }
    }

    fn encode(&self, out: &mut Vec<u8>) {
        self.0.encode(out);
    }

    fn decode_at(bytes: &[u8], pos: usize) -> (r: Result<(Time, usize), MalformedData>) {
        match u32::decode_at(bytes, pos) {
            Ok((v, end)) => Ok((Time(v), end)),
            Err(e) => Err(e),
        }
    }

    proof fn lemma_round_trip(v: Time, rest: Seq<u8>) {
        u32::lemma_round_trip(v.0, rest);
    }

    proof fn lemma_truncated_fails(v: Time, k: int) {
        u32::lemma_truncated_fails(v.0, k);
    }
}

impl BinCodec for Instant {
    open spec fn spec_encode(&self) -> Seq<u8> {
        self.0.spec_encode()
    }

    open spec fn spec_decode(bytes: Seq<u8>) -> Option<(Instant, nat)> {
        match Time::spec_decode(bytes) {
            Some((t, n)) => Some((Instant(t), n)),
            None => None,
        }
    }

    fn encode(&self, out: &mut Vec<u8>) {
        self.0.encode(out);
    }

    fn decode_at(bytes: &[u8], pos: usize) -> (r: Result<(Instant, usize), MalformedData>) {
        match Time::decode_at(bytes, pos) {
            Ok((t, end)) => Ok((Instant(t), end)),
            Err(e) => Err(e),
        }
    }

    proof fn lemma_round_trip(v: Instant, rest: Seq<u8>) {
        Time::lemma_round_trip(v.0, rest);
    }

    proof fn lemma_truncated_fails(v: Instant, k: int) {
        Time::lemma_truncated_fails(v.0, k);
    }
}

impl<T: BinCodec> BinCodec for Option<T> {
    open spec fn spec_encode(&self) -> Seq<u8> {
        match self {
            None => seq![0u8],
            Some(v) => seq![1u8] + v.spec_encode(),
        }
    }

    open spec fn spec_decode(bytes: Seq<u8>) -> Option<(Option<T>, nat)> {
        if bytes.len() == 0 {
            None
        } else if bytes[0] == 0 {
            Some((None, 1))
        } else if bytes[0] == 1 {
            match T::spec_decode(bytes.subrange(1, bytes.len() as int)) {
                Some((v, n)) => Some((Some(v), n + 1)),
                None => None,
            }
        } else {
            None
        }
    }

    fn encode(&self, out: &mut Vec<u8>) {
        match self {
            None => out.push(0),
            Some(v) => {
                out.push(1);
                v.encode(out);
                assert(out@ =~= old(out)@ + self.spec_encode());
            },
        }
    }

    fn decode_at(bytes: &[u8], pos: usize) -> (r: Result<(Option<T>, usize), MalformedData>) {
        if pos == bytes.len() {
            return Err(MalformedData);
        }
        let tag = bytes[pos];
        let ghost s = bytes@.subrange(pos as int, bytes@.len() as int);
        if tag == 0 {
            Ok((None, pos + 1))
        } else if tag == 1 {
            assert(s.subrange(1, s.len() as int) =~= bytes@.subrange(pos + 1, bytes@.len() as int));
            match T::decode_at(bytes, pos + 1) {
                Ok((v, end)) => Ok((Some(v), end)),
                Err(e) => Err(e),
            }
        } else {
            Err(MalformedData)
        }
    }

    proof fn lemma_round_trip(v: Option<T>, rest: Seq<u8>) {
        if let Some(x) = v {
            let b = v.spec_encode() + rest;
            assert(b.subrange(1, b.len() as int) =~= x.spec_encode() + rest);
            T::lemma_round_trip(x, rest);
        }
    }

    proof fn lemma_truncated_fails(v: Option<T>, k: int) {
        if let Some(x) = v {
            if k > 0 {
                let p = v.spec_encode().subrange(0, k);
                assert(p.subrange(1, p.len() as int) =~= x.spec_encode().subrange(0, k - 1));
                T::lemma_truncated_fails(x, k - 1);
            }
        }
    }
}

impl<A: BinCodec, B: BinCodec> BinCodec for (A, B) {
    open spec fn spec_encode(&self) -> Seq<u8> {
        self.0.spec_encode() + self.1.spec_encode()
    }

    open spec fn spec_decode(bytes: Seq<u8>) -> Option<((A, B), nat)> {
        match A::spec_decode(bytes) {
            Some((a, n)) => match B::spec_decode(bytes.subrange(n as int, bytes.len() as int)) {
                Some((b, m)) => Some(((a, b), n + m)),
                None => None,
            },
            None => None,
        }
    }

    fn encode(&self, out: &mut Vec<u8>) {
        self.0.encode(out);
        self.1.encode(out);
        assert(out@ =~= old(out)@ + self.spec_encode());
    }

    fn decode_at(bytes: &[u8], pos: usize) -> (r: Result<((A, B), usize), MalformedData>) {
        let ghost s = bytes@.subrange(pos as int, bytes@.len() as int);
        match A::decode_at(bytes, pos) {
            Ok((a, mid)) => {
                assert(s.subrange((mid - pos) as int, s.len() as int) =~= bytes@.subrange(
                    mid as int,
                    bytes@.len() as int,
                ));
                match B::decode_at(bytes, mid) {
                    Ok((b, end)) => Ok(((a, b), end)),
                    Err(e) => Err(e),
                }
            },
            Err(e) => Err(e),
        }
    }

    proof fn lemma_round_trip(v: (A, B), rest: Seq<u8>) {
        let ea = v.0.spec_encode();
        let eb = v.1.spec_encode();
        let bytes = v.spec_encode() + rest;
        assert(bytes =~= ea + (eb + rest));
        A::lemma_round_trip(v.0, eb + rest);
        assert(bytes.subrange(ea.len() as int, bytes.len() as int) =~= eb + rest);
        B::lemma_round_trip(v.1, rest);
    }

    proof fn lemma_truncated_fails(v: (A, B), k: int) {
        let ea = v.0.spec_encode();
        let eb = v.1.spec_encode();
        let p = v.spec_encode().subrange(0, k);
        if k < ea.len() {
            assert(p =~= ea.subrange(0, k));
            A::lemma_truncated_fails(v.0, k);
        } else {
            let tail = eb.subrange(0, k - ea.len());
            assert(p =~= ea + tail);
            A::lemma_round_trip(v.0, tail);
            assert(p.subrange(ea.len() as int, p.len() as int) =~= tail);
            B::lemma_truncated_fails(v.1, k - ea.len());
        }
    }
}

/// The concatenated encodings of `items`, first item first.
pub open spec fn encode_items<T: BinCodec>(items: Seq<T>) -> Seq<u8>
    decreases items.len(),
{
    if items.len() == 0 {
        Seq::empty()
    } else {
        items[0].spec_encode() + encode_items(items.subrange(1, items.len() as int))
    }
}

/// Reads `count` values one after another from the start of `bytes`.
pub open spec fn decode_items<T: BinCodec>(bytes: Seq<u8>, count: nat) -> Option<(Seq<T>, nat)>
    decreases count,
{
    if count == 0 {
        Some((Seq::empty(), 0))
    } else {
        match T::spec_decode(bytes) {
            Some((v, n)) => match decode_items::<T>(
                bytes.subrange(n as int, bytes.len() as int),
                (count - 1) as nat,
            ) {
                Some((vs, m)) => Some((seq![v] + vs, n + m)),
                None => None,
            },
            None => None,
        }
    }
}

/// The encoding of a sequence: its length as a `u32`, then its items.
pub open spec fn encode_seq_spec<T: BinCodec>(items: Seq<T>) -> Seq<u8> {
    (items.len() as u32).spec_encode() + encode_items(items)
}

/// The sequence at the start of `bytes` and its length in bytes.
pub open spec fn decode_seq_spec<T: BinCodec>(bytes: Seq<u8>) -> Option<(Seq<T>, nat)> {
    match u32::spec_decode(bytes) {
        Some((count, n)) => match decode_items::<T>(
            bytes.subrange(n as int, bytes.len() as int),
            count as nat,
        ) {
            Some((vs, m)) => Some((vs, n + m)),
            None => None,
        },
        None => None,
    }
}

proof fn lemma_items_round_trip<T: BinCodec>(items: Seq<T>, rest: Seq<u8>)
    ensures
        decode_items::<T>(encode_items(items) + rest, items.len()) == Some(
            (items, encode_items(items).len()),
        ),
    decreases items.len(),
{
    if items.len() > 0 {
        let tail = items.subrange(1, items.len() as int);
        let e0 = items[0].spec_encode();
        let bytes = encode_items(items) + rest;
        assert(bytes =~= e0 + (encode_items(tail) + rest));
        T::lemma_round_trip(items[0], encode_items(tail) + rest);
        assert(bytes.subrange(e0.len() as int, bytes.len() as int) =~= encode_items(tail) + rest);
        lemma_items_round_trip(tail, rest);
        assert(seq![items[0]] + tail =~= items);
    }
}

proof fn lemma_items_truncated<T: BinCodec>(items: Seq<T>, k: int)
    requires
        0 <= k < encode_items(items).len(),
    ensures
        decode_items::<T>(encode_items(items).subrange(0, k), items.len()) is None,
    decreases items.len(),
{
    let tail = items.subrange(1, items.len() as int);
    let e0 = items[0].spec_encode();
    let p = encode_items(items).subrange(0, k);
    if k < e0.len() {
        assert(p =~= e0.subrange(0, k));
        T::lemma_truncated_fails(items[0], k);
    } else {
        let rest = encode_items(tail).subrange(0, k - e0.len());
        assert(p =~= e0 + rest);
        T::lemma_round_trip(items[0], rest);
        assert(p.subrange(e0.len() as int, p.len() as int) =~= rest);
        lemma_items_truncated(tail, k - e0.len());
    }
}

/// Appends the encoding of the sequence `items`: its length, then each item.
pub fn encode_seq<T: BinCodec>(items: &Vec<T>, out: &mut Vec<u8>)
    requires
        items@.len() <= u32::MAX,
    ensures
        final(out)@ == old(out)@ + encode_seq_spec(items@),
{
    let count = items.len() as u32;
    count.encode(out);
    let ghost start = out@;
    assert(items@.subrange(0, items@.len() as int) =~= items@);
    let mut i: usize = 0;
    while i < items.len()
        invariant
            i <= items@.len(),
            start + encode_items(items@) == out@ + encode_items(
                items@.subrange(i as int, items@.len() as int),
            ),
        decreases items@.len() - i,
    {
        let ghost before = out@;
        let ghost rest = items@.subrange(i as int, items@.len() as int);
        items[i].encode(out);
        assert(rest.subrange(1, rest.len() as int) =~= items@.subrange(
            i + 1,
            items@.len() as int,
        ));
        assert(before + encode_items(rest) =~= out@ + encode_items(
            items@.subrange(i + 1, items@.len() as int),
        ));
        i = i + 1;
    }
    assert(out@ + encode_items(items@.subrange(i as int, items@.len() as int)) =~= out@);
    assert(items@.subrange(0, items@.len() as int) =~= items@);
    assert(out@ =~= old(out)@ + encode_seq_spec(items@));
}

/// Reads a sequence from `bytes` starting at `pos`; on success gives the
/// items and the position just past them.
pub fn decode_seq<T: BinCodec>(bytes: &[u8], pos: usize) -> (r: Result<(Vec<T>, usize), MalformedData>)
    requires
        pos <= bytes@.len(),
    ensures
        decode_seq_spec::<T>(bytes@.subrange(pos as int, bytes@.len() as int)) == match r {
            Ok((items, end)) => Some((items@, (end - pos) as nat)),
            Err(_) => None::<(Seq<T>, nat)>,
        },
        r matches Ok((_, end)) ==> pos <= end <= bytes@.len(),
{
    let ghost whole = bytes@.subrange(pos as int, bytes@.len() as int);
    let (count, first) = match u32::decode_at(bytes, pos) {
        Ok(found) => found,
        Err(e) => return Err(e),
    };
    assert(whole.subrange((first - pos) as int, whole.len() as int) =~= bytes@.subrange(
        first as int,
        bytes@.len() as int,
    ));
    let ghost items_start = first;
    let mut items: Vec<T> = Vec::new();
    let mut at = first;
    let mut i: u32 = 0;
    while i < count
        invariant
            i <= count,
            pos <= items_start <= at <= bytes@.len(),
            whole == bytes@.subrange(pos as int, bytes@.len() as int),
            u32::spec_decode(whole) == Some((count, (items_start - pos) as nat)),
            whole.subrange((items_start - pos) as int, whole.len() as int) == bytes@.subrange(
                items_start as int,
                bytes@.len() as int,
            ),
            decode_items::<T>(bytes@.subrange(items_start as int, bytes@.len() as int), count as nat)
                == match decode_items::<T>(
                bytes@.subrange(at as int, bytes@.len() as int),
                (count - i) as nat,
            ) {
                Some((vs, m)) => Some((items@ + vs, ((at - items_start) + m) as nat)),
                None => None::<(Seq<T>, nat)>,
            },
        decreases count - i,
    {
        let ghost here = bytes@.subrange(at as int, bytes@.len() as int);
        match T::decode_at(bytes, at) {
            Ok((v, next)) => {
                assert(here.subrange((next - at) as int, here.len() as int) =~= bytes@.subrange(
                    next as int,
                    bytes@.len() as int,
                ));
                let ghost before = items@;
                items.push(v);
                assert(forall|vs: Seq<T>| before + (seq![v] + vs) =~= items@ + vs);
                at = next;
                i = i + 1;
            },
            Err(e) => {
                assert(decode_items::<T>(here, (count - i) as nat) is None);
                return Err(e);
            },
        }
    }
    assert(items@ + Seq::<T>::empty() =~= items@);
    Ok((items, at))
}

/// For every sequence of at most `u32::MAX` values of a type with a codec:
/// decoding its encoding gives the sequence back with an empty remainder,
/// and decoding any proper prefix of its encoding fails.
pub proof fn lemma_seq_round_trip<T: BinCodec>(items: Seq<T>)
    requires
        items.len() <= u32::MAX,
    ensures
        decode_seq_spec::<T>(encode_seq_spec(items)) == Some(
            (items, encode_seq_spec(items).len()),
        ),
        forall|k: int|
            0 <= k < encode_seq_spec(items).len() ==> (#[trigger] decode_seq_spec::<T>(
                encode_seq_spec(items).subrange(0, k),
            )) is None,
{
    let n = items.len() as u32;
    let e = encode_seq_spec(items);
    let body = encode_items(items);
    u32::lemma_round_trip(n, body);
    assert(e.subrange(n.spec_encode().len() as int, e.len() as int) =~= body);
    assert(body + Seq::<u8>::empty() =~= body);
    lemma_items_round_trip(items, Seq::empty());
    assert forall|k: int| 0 <= k < e.len() implies (#[trigger] decode_seq_spec::<T>(
        e.subrange(0, k),
    )) is None by {
        let p = e.subrange(0, k);
        if k < n.spec_encode().len() {
            assert(p =~= n.spec_encode().subrange(0, k));
            u32::lemma_truncated_fails(n, k);
        } else {
            let rest = body.subrange(0, k - n.spec_encode().len());
            assert(p =~= n.spec_encode() + rest);
            u32::lemma_round_trip(n, rest);
            assert(p.subrange(n.spec_encode().len() as int, p.len() as int) =~= rest);
            lemma_items_truncated(items, k - n.spec_encode().len());
        }
    }
}

/// Relies on `String::from_utf8`: succeeds exactly when the bytes are valid
/// UTF-8, and the string then holds the characters that they encode.
#[verifier::external_body]
fn string_from_utf8(bytes: Vec<u8>) -> (r: Option<String>)
    ensures
        r is Some <==> valid_utf8(bytes@),
        r matches Some(s) ==> s@ == decode_utf8(bytes@),
{
    match String::from_utf8(bytes) {
        Ok(s) => Some(s),
        Err(_) => None,
    }
}

/// The encoding of a string: the length of its UTF-8 bytes as a `u32`,
/// then those bytes.
pub open spec fn encode_string_spec(chars: Seq<char>) -> Seq<u8> {
    (encode_utf8(chars).len() as u32).spec_encode() + encode_utf8(chars)
}

/// The string at the start of `bytes` and its length in bytes; `None` when
/// the buffer is too short or its bytes are not valid UTF-8.
pub open spec fn decode_string_spec(bytes: Seq<u8>) -> Option<(Seq<char>, nat)> {
    match u32::spec_decode(bytes) {
        Some((n, k)) => if bytes.len() >= k + n && valid_utf8(
            bytes.subrange(k as int, k + n),
        ) {
            Some((decode_utf8(bytes.subrange(k as int, k + n)), (k + n) as nat))
        } else {
            None
        },
        None => None,
    }
}

/// Appends the encoding of the string `s`.
pub fn encode_string(s: &str, out: &mut Vec<u8>)
    requires
        encode_utf8(s@).len() <= u32::MAX,
    ensures
        final(out)@ == old(out)@ + encode_string_spec(s@),
{
    let b = s.as_bytes();
    let n = b.len() as u32;
    n.encode(out);
    let ghost mid = out@;
    let mut i: usize = 0;
    while i < b.len()
        invariant
            i <= b@.len(),
            out@ == mid + b@.subrange(0, i as int),
        decreases b@.len() - i,
    {
        out.push(b[i]);
        i = i + 1;
        assert(out@ =~= mid + b@.subrange(0, i as int));
    }
    assert(b@.subrange(0, i as int) =~= b@);
    assert(out@ =~= old(out)@ + encode_string_spec(s@));
}

/// Reads a string from `bytes` starting at `pos`; on success gives the
/// string and the position just past it.
pub fn decode_string(bytes: &[u8], pos: usize) -> (r: Result<(String, usize), MalformedData>)
    requires
        pos <= bytes@.len(),
    ensures
        decode_string_spec(bytes@.subrange(pos as int, bytes@.len() as int)) == match r {
            Ok((s, end)) => Some((s@, (end - pos) as nat)),
            Err(_) => None::<(Seq<char>, nat)>,
        },
        r matches Ok((_, end)) ==> pos <= end <= bytes@.len(),
{
    let ghost whole = bytes@.subrange(pos as int, bytes@.len() as int);
    let (n, at) = match u32::decode_at(bytes, pos) {
        Ok(found) => found,
        Err(e) => return Err(e),
    };
    let len = n as usize;
    if bytes.len() - at < len {
        return Err(MalformedData);
    }
    let total = bytes.len();
    let mut body: Vec<u8> = Vec::new();
    let mut i: usize = 0;
    while i < len
        invariant
            i <= len,
            total == bytes@.len(),
            at + len <= bytes@.len(),
            body@ == bytes@.subrange(at as int, at + i),
        decreases len - i,
    {
        body.push(bytes[at + i]);
        i = i + 1;
        assert(body@ =~= bytes@.subrange(at as int, at + i));
    }
    assert(whole.subrange((at - pos) as int, (at - pos) + len) =~= bytes@.subrange(
        at as int,
        at + len,
    ));
    match string_from_utf8(body) {
        Some(s) => Ok((s, at + len)),
        None => Err(MalformedData),
    }
}

/// For every string whose UTF-8 bytes fit a `u32` length: decoding its
/// encoding gives the string back with an empty remainder, and decoding
/// any proper prefix of its encoding fails.
pub proof fn lemma_string_round_trip(chars: Seq<char>)
    requires
        encode_utf8(chars).len() <= u32::MAX,
    ensures
        decode_string_spec(encode_string_spec(chars)) == Some(
            (chars, encode_string_spec(chars).len()),
        ),
        forall|k: int|
            0 <= k < encode_string_spec(chars).len() ==> (#[trigger] decode_string_spec(
                encode_string_spec(chars).subrange(0, k),
            )) is None,
{
    let body = encode_utf8(chars);
    let n = body.len() as u32;
    let e = encode_string_spec(chars);
    let w = n.spec_encode().len();
    u32::lemma_round_trip(n, body);
    assert(e.subrange(w as int, w + n) =~= body);
    encode_utf8_valid_utf8(chars);
    encode_utf8_decode_utf8(chars);
    assert forall|k: int| 0 <= k < e.len() implies (#[trigger] decode_string_spec(
        e.subrange(0, k),
    )) is None by {
        let p = e.subrange(0, k);
        if k < w {
            assert(p =~= n.spec_encode().subrange(0, k));
            u32::lemma_truncated_fails(n, k);
        } else {
            let rest = body.subrange(0, k - w);
            assert(p =~= n.spec_encode() + rest);
            u32::lemma_round_trip(n, rest);
        }
    }
}

/// The encoding of `value`.
pub fn encode<T: BinCodec>(value: &T) -> (r: Vec<u8>)
    ensures
        r@ == value.spec_encode(),
{
    let mut out: Vec<u8> = Vec::new();
    value.encode(&mut out);
    assert(out@ =~= value.spec_encode());
    out
}

/// Decodes a value from the start of `bytes`; on success gives the value
/// and the number of bytes it took (the rest of `bytes` is left unread).
pub fn decode<T: BinCodec>(bytes: &[u8]) -> (r: Result<(T, usize), MalformedData>)
    ensures
        T::spec_decode(bytes@) == match r {
            Ok((v, n)) => Some((v, n as nat)),
            Err(_) => None::<(T, nat)>,
        },
{
    assert(bytes@.subrange(0, bytes@.len() as int) =~= bytes@);
    T::decode_at(bytes, 0)
}

/// For every value of a type with a codec: decoding its encoding gives the
/// value back with an empty remainder, and decoding any proper prefix of
/// its encoding (the empty one included) fails.
pub proof fn lemma_codec_round_trip<T: BinCodec>(v: T)
    ensures
        T::spec_decode(v.spec_encode()) == Some((v, v.spec_encode().len())),
        forall|k: int|
            0 <= k < v.spec_encode().len() ==> (#[trigger] T::spec_decode(
                v.spec_encode().subrange(0, k),
            )) is None,
{
    T::lemma_round_trip(v, Seq::empty());
    assert(v.spec_encode() + Seq::<u8>::empty() =~= v.spec_encode());
    assert forall|k: int| 0 <= k < v.spec_encode().len() implies (#[trigger] T::spec_decode(
        v.spec_encode().subrange(0, k),
    )) is None by {
        T::lemma_truncated_fails(v, k);
    }
}

} // verus!
