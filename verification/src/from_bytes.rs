use vstd::prelude::*;
use vstd::arithmetic::div_mod::{lemma_breakdown, lemma_small_mod};
use vstd::slice::slice_subrange;
use crate::endianness::{endianness_resolves, resolve_order, Endianness};

verus! {

/// 256^n: the number of distinct values an `n`-byte field can carry.
pub open spec fn pow256(n: nat) -> nat
    decreases n,
{
    if n == 0 {
        1
    } else {
        256 * pow256((n - 1) as nat)
    }
}

/// The unsigned integer encoded by `bytes` in little-endian order:
/// the first byte is the least significant.
pub open spec fn le_to_nat(bytes: Seq<u8>) -> nat
    decreases bytes.len(),
{
    if bytes.len() == 0 {
        0
    } else {
        (bytes[0] + 256 * le_to_nat(bytes.drop_first())) as nat
    }
}

/// The unsigned integer encoded by `bytes` under a concrete byte order:
/// little-endian as given, big-endian as the reverse.
pub open spec fn int_from_bytes(bytes: Seq<u8>, little: bool) -> nat {
    if little {
        le_to_nat(bytes)
    } else {
        le_to_nat(bytes.reverse())
    }
}

/// The two's-complement reading of the unsigned value `v` taken from a
/// `len`-byte field.
pub open spec fn signed_of(v: nat, len: nat) -> int {
    if 2 * v < pow256(len) {
        v as int
    } else {
        v as int - pow256(len) as int
    }
}

/// The unsigned `len`-byte image of a signed value: negative values wrap
/// around 256^len (two's complement).
pub open spec fn to_unsigned(x: int, len: nat) -> nat {
    if x >= 0 {
        x as nat
    } else {
        (x + pow256(len)) as nat
    }
}

/// The canonical `len`-byte little-endian encoding of `v` (taken mod 256^len).
pub open spec fn nat_to_le_bytes(v: nat, len: nat) -> Seq<u8>
    decreases len,
{
    if len == 0 {
        Seq::empty()
    } else {
        seq![(v % 256) as u8] + nat_to_le_bytes(v / 256, (len - 1) as nat)
    }
}

/// The canonical `len`-byte encoding of `v` under a concrete byte order.
pub open spec fn encode_int(v: nat, len: nat, little: bool) -> Seq<u8> {
    if little {
        nat_to_le_bytes(v, len)
    } else {
        nat_to_le_bytes(v, len).reverse()
    }
}

/// Concrete powers of 256 at the widths the numeric decoders use.
pub proof fn lemma_pow256_values()
    ensures
        pow256(0) == 1,
        pow256(1) == 0x100,
        pow256(2) == 0x1_0000,
        pow256(4) == 0x1_0000_0000,
        pow256(8) == 0x1_0000_0000_0000_0000,
        pow256(15) == 0x1_000000_000000_000000_000000_000000,
        pow256(16) == 0x1_00000000_00000000_00000000_00000000,
{
    reveal_with_fuel(pow256, 17);
}

/// 256^n grows with n (and is always positive).
pub proof fn lemma_pow256_le(a: nat, b: nat)
    requires
        a <= b,
    ensures
        0 < pow256(a) <= pow256(b),
    decreases b,
{
    if a == b {
        if a == 0 {
        } else {
            lemma_pow256_le((a - 1) as nat, (b - 1) as nat);
        }
    } else {
        lemma_pow256_le(a, (b - 1) as nat);
    }
}

/// An `n`-byte field never encodes a value as large as 256^n.
pub proof fn lemma_le_to_nat_bound(bytes: Seq<u8>)
    ensures
        le_to_nat(bytes) < pow256(bytes.len()),
    decreases bytes.len(),
{
    if bytes.len() == 0 {
    } else {
        lemma_le_to_nat_bound(bytes.drop_first());
    }
}

/// The decoded unsigned value fits the field's width under either order.
pub proof fn lemma_int_from_bytes_bound(bytes: Seq<u8>, little: bool)
    ensures
        int_from_bytes(bytes, little) < pow256(bytes.len()),
{
    if little {
        lemma_le_to_nat_bound(bytes);
    } else {
        lemma_le_to_nat_bound(bytes.reverse());
    }
}

proof fn lemma_nat_to_le_bytes_len(v: nat, len: nat)
    ensures
        nat_to_le_bytes(v, len).len() == len,
    decreases len,
{
    if len > 0 {
        lemma_nat_to_le_bytes_len(v / 256, (len - 1) as nat);
    }
}

proof fn lemma_le_round_trip(v: nat, len: nat)
    ensures
        le_to_nat(nat_to_le_bytes(v, len)) == v % pow256(len),
    decreases len,
{
    if len == 0 {
        lemma_small_mod(0, 1);
        assert(v % 1 == 0) by (nonlinear_arith);
    } else {
        let rest = nat_to_le_bytes(v / 256, (len - 1) as nat);
        let enc = nat_to_le_bytes(v, len);
        assert(enc == seq![(v % 256) as u8] + rest);
        assert(enc.len() > 0) by {
            lemma_nat_to_le_bytes_len(v, len);
        }
        assert(enc[0] == (v % 256) as u8);
        assert(enc.drop_first() =~= rest);
        lemma_le_round_trip(v / 256, (len - 1) as nat);
        lemma_pow256_le(0, (len - 1) as nat);
        lemma_breakdown(v as int, 256, pow256((len - 1) as nat) as int);
    }
}

/// Round trip at every width: decoding the canonical `len`-byte encoding of
/// `v` under the matching byte order yields `v` again, for any `v` that fits
/// in `len` bytes and for either concrete order.
pub proof fn lemma_int_round_trip(v: nat, len: nat, little: bool)
    requires
        v < pow256(len),
    ensures
        encode_int(v, len, little).len() == len,
        int_from_bytes(encode_int(v, len, little), little) == v,
{
    lemma_nat_to_le_bytes_len(v, len);
    lemma_le_round_trip(v, len);
    lemma_small_mod(v, pow256(len));
    if !little {
        let enc = nat_to_le_bytes(v, len);
        assert(enc.reverse().reverse() =~= enc);
    }
}

/// Signed round trip at every width: a signed value in the `len`-byte
/// two's-complement range survives encoding of its unsigned image and
/// signed reinterpretation of the decoded result, under either order.
pub proof fn lemma_signed_round_trip(x: int, len: nat, little: bool)
    requires
        len > 0,
        -(pow256(len) as int) <= 2 * x < pow256(len) as int,
    ensures
        signed_of(int_from_bytes(encode_int(to_unsigned(x, len), len, little), little), len) == x,
{
    lemma_pow256_le(0, len);
    lemma_int_round_trip(to_unsigned(x, len), len, little);
}

/// Round trip at the `u8` decoder: the canonical one-byte encoding decodes
/// back to the value under either concrete order.
pub proof fn lemma_u8_decode_round_trip(v: u8, little: bool)
    ensures
        <u8 as FromBytes>::spec_from_bytes(encode_int(v as nat, 1, little), little) == v,
{
    let enc = nat_to_le_bytes(v as nat, 1);
    assert(enc == seq![(v as nat % 256) as u8] + nat_to_le_bytes(v as nat / 256, 0));
    assert(enc[0] == v);
    if !little {
        assert(enc.reverse()[0] == enc[0]);
    }
}

/// Round trip at the `i8` decoder: the canonical one-byte two's-complement
/// encoding decodes back to the value under either concrete order.
pub proof fn lemma_i8_decode_round_trip(x: i8, little: bool)
    ensures
        <i8 as FromBytes>::spec_from_bytes(encode_int(to_unsigned(x as int, 1), 1, little), little)
            == x,
{
    lemma_pow256_values();
    let v = to_unsigned(x as int, 1);
    let enc = nat_to_le_bytes(v, 1);
    assert(enc == seq![(v % 256) as u8] + nat_to_le_bytes(v / 256, 0));
    assert(enc[0] == v);
    if !little {
        assert(enc.reverse()[0] == enc[0]);
    }
}

/// Round trip at the `u16` decoder under either concrete order.
pub proof fn lemma_u16_decode_round_trip(v: u16, little: bool)
    ensures
        <u16 as FromBytes>::spec_from_bytes(encode_int(v as nat, 2, little), little) == v,
{
    lemma_pow256_values();
    lemma_int_round_trip(v as nat, 2, little);
}

/// Round trip at the `u32` decoder under either concrete order.
pub proof fn lemma_u32_decode_round_trip(v: u32, little: bool)
    ensures
        <u32 as FromBytes>::spec_from_bytes(encode_int(v as nat, 4, little), little) == v,
{
    lemma_pow256_values();
    lemma_int_round_trip(v as nat, 4, little);
}

/// Round trip at the `u64` decoder under either concrete order.
pub proof fn lemma_u64_decode_round_trip(v: u64, little: bool)
    ensures
        <u64 as FromBytes>::spec_from_bytes(encode_int(v as nat, 8, little), little) == v,
{
    lemma_pow256_values();
    lemma_int_round_trip(v as nat, 8, little);
}

/// Round trip at the `u128` decoder under either concrete order.
pub proof fn lemma_u128_decode_round_trip(v: u128, little: bool)
    ensures
        <u128 as FromBytes>::spec_from_bytes(encode_int(v as nat, 16, little), little) == v,
{
    lemma_pow256_values();
    lemma_int_round_trip(v as nat, 16, little);
}

/// Round trip at the `i16` decoder: the canonical two's-complement encoding
/// decodes back to the value under either concrete order.
pub proof fn lemma_i16_decode_round_trip(x: i16, little: bool)
    ensures
        <i16 as FromBytes>::spec_from_bytes(encode_int(to_unsigned(x as int, 2), 2, little), little)
            == x,
{
    lemma_pow256_values();
    lemma_signed_round_trip(x as int, 2, little);
}

/// Round trip at the `i32` decoder: the canonical two's-complement encoding
/// decodes back to the value under either concrete order.
pub proof fn lemma_i32_decode_round_trip(x: i32, little: bool)
    ensures
        <i32 as FromBytes>::spec_from_bytes(encode_int(to_unsigned(x as int, 4), 4, little), little)
            == x,
{
    lemma_pow256_values();
    lemma_signed_round_trip(x as int, 4, little);
}

/// Round trip at the `i64` decoder: the canonical two's-complement encoding
/// decodes back to the value under either concrete order.
pub proof fn lemma_i64_decode_round_trip(x: i64, little: bool)
    ensures
        <i64 as FromBytes>::spec_from_bytes(encode_int(to_unsigned(x as int, 8), 8, little), little)
            == x,
{
    lemma_pow256_values();
    lemma_signed_round_trip(x as int, 8, little);
}

/// Round trip at the `i128` decoder: the canonical two's-complement encoding
/// decodes back to the value under either concrete order.
pub proof fn lemma_i128_decode_round_trip(x: i128, little: bool)
    ensures
        <i128 as FromBytes>::spec_from_bytes(
            encode_int(to_unsigned(x as int, 16), 16, little),
            little,
        ) == x,
{
    lemma_pow256_values();
    lemma_signed_round_trip(x as int, 16, little);
}

/// A type with a byte footprint known before any data is read, and a total
/// decode function over an exactly-sized input. Decoding never fails: the
/// caller pre-sizes the input.
pub trait FromBytes: View + Sized {
    /// Byte footprint, known from the type alone.
    spec fn spec_size() -> nat;

    /// The value an exactly `spec_size()`-byte input decodes to under a
    /// concrete byte order (`little` true for little-endian).
    spec fn spec_from_bytes(bytes: Seq<u8>, little: bool) -> Self::V;

    /// The byte footprint as a runtime value.
    fn size() -> (n: usize)
        requires
            Self::spec_size() <= usize::MAX as nat,
        ensures
            n as nat == Self::spec_size(),
    ;

    /// Decodes from an exactly-sized input under an already-resolved order.
    fn from_bytes_ordered(bytes: &[u8], little: bool) -> (r: Self)
        requires
            bytes@.len() == Self::spec_size(),
        ensures
            r@ == Self::spec_from_bytes(bytes@, little),
    ;

    /// Decodes from an exactly-sized input, resolving `Native` against the
    /// executing platform.
    fn from_bytes(bytes: &[u8], e: Endianness) -> (r: Self)
        requires
            bytes@.len() == Self::spec_size(),
        ensures
            exists|little: bool|
                endianness_resolves(e, little) && r@ == Self::spec_from_bytes(bytes@, little),
    {
        let little = resolve_order(e);
        Self::from_bytes_ordered(bytes, little)
    }
}

/// Accumulates up to 16 bytes into the unsigned integer they encode under
/// the given order.
fn bytes_to_u128(bytes: &[u8], little: bool) -> (r: u128)
    requires
        bytes@.len() <= 16,
    ensures
        r as nat == int_from_bytes(bytes@, little),
{
    let len = bytes.len();
    let mut acc: u128 = 0;
    if little {
        let mut i: usize = len;
        while i > 0
            invariant
                i <= len,
                len == bytes@.len() <= 16,
                acc as nat == le_to_nat(bytes@.skip(i as int)),
            decreases i,
        {
            let b = bytes[i - 1];
            proof {
                let shorter = bytes@.skip(i as int);
                let longer = bytes@.skip(i as int - 1);
                assert(longer.drop_first() =~= shorter);
                assert(longer[0] == bytes@[i as int - 1]);
                lemma_le_to_nat_bound(shorter);
                lemma_pow256_le(shorter.len(), 15);
                lemma_pow256_values();
            }
            acc = acc * 256 + (b as u128);
            i = i - 1;
        }
        proof {
            assert(bytes@.skip(0) =~= bytes@);
        }
    } else {
        let mut i: usize = 0;
        while i < len
            invariant
                i <= len,
                len == bytes@.len() <= 16,
                acc as nat == le_to_nat(bytes@.take(i as int).reverse()),
            decreases len - i,
        {
            let b = bytes[i];
            proof {
                let shorter = bytes@.take(i as int).reverse();
                let longer = bytes@.take(i as int + 1).reverse();
                assert(longer.len() == i + 1);
                assert(longer[0] == bytes@[i as int]);
                assert(longer.drop_first() =~= shorter);
                lemma_le_to_nat_bound(shorter);
                lemma_pow256_le(shorter.len(), 15);
                lemma_pow256_values();
            }
            acc = acc * 256 + (b as u128);
            i = i + 1;
        }
        proof {
            assert(bytes@.take(len as int) =~= bytes@);
        }
    }
    acc
}

impl FromBytes for u8 {
    open spec fn spec_size() -> nat {
        1
    }

    open spec fn spec_from_bytes(bytes: Seq<u8>, little: bool) -> u8 {
        bytes[0]
    }

    fn size() -> usize {
        1
    }

    fn from_bytes_ordered(bytes: &[u8], little: bool) -> u8 {
        bytes[0]
    }
}

impl FromBytes for i8 {
    open spec fn spec_size() -> nat {
        1
    }

    open spec fn spec_from_bytes(bytes: Seq<u8>, little: bool) -> i8 {
        signed_of(bytes[0] as nat, 1) as i8
    }

    fn size() -> usize {
        1
    }

    fn from_bytes_ordered(bytes: &[u8], little: bool) -> (r: i8) {
        proof {
            lemma_pow256_values();
        }
        let b = bytes[0];
        if b < 0x80 {
            b as i8
        } else {
            -((0xFFu8 - b) as i8) - 1
        }
    }
}

impl FromBytes for u16 {
    open spec fn spec_size() -> nat {
        2
    }

    open spec fn spec_from_bytes(bytes: Seq<u8>, little: bool) -> u16 {
        int_from_bytes(bytes, little) as u16
    }

    fn size() -> usize {
        2
    }

    fn from_bytes_ordered(bytes: &[u8], little: bool) -> (r: u16) {
        proof {
            lemma_int_from_bytes_bound(bytes@, little);
            lemma_pow256_values();
        }
        bytes_to_u128(bytes, little) as u16
    }
}

impl FromBytes for u32 {
    open spec fn spec_size() -> nat {
        4
    }

    open spec fn spec_from_bytes(bytes: Seq<u8>, little: bool) -> u32 {
        int_from_bytes(bytes, little) as u32
    }

    fn size() -> usize {
        4
    }

    fn from_bytes_ordered(bytes: &[u8], little: bool) -> (r: u32) {
        proof {
            lemma_int_from_bytes_bound(bytes@, little);
            lemma_pow256_values();
        }
        bytes_to_u128(bytes, little) as u32
    }
}

impl FromBytes for u64 {
    open spec fn spec_size() -> nat {
        8
    }

    open spec fn spec_from_bytes(bytes: Seq<u8>, little: bool) -> u64 {
        int_from_bytes(bytes, little) as u64
    }

    fn size() -> usize {
        8
    }

    fn from_bytes_ordered(bytes: &[u8], little: bool) -> (r: u64) {
        proof {
            lemma_int_from_bytes_bound(bytes@, little);
            lemma_pow256_values();
        }
        bytes_to_u128(bytes, little) as u64
    }
}

impl FromBytes for u128 {
    open spec fn spec_size() -> nat {
        16
    }

    open spec fn spec_from_bytes(bytes: Seq<u8>, little: bool) -> u128 {
        int_from_bytes(bytes, little) as u128
    }

    fn size() -> usize {
        16
    }

    fn from_bytes_ordered(bytes: &[u8], little: bool) -> (r: u128) {
        proof {
            lemma_int_from_bytes_bound(bytes@, little);
            lemma_pow256_values();
        }
        bytes_to_u128(bytes, little)
    }
}

impl FromBytes for i16 {
    open spec fn spec_size() -> nat {
        2
    }

    open spec fn spec_from_bytes(bytes: Seq<u8>, little: bool) -> i16 {
        signed_of(int_from_bytes(bytes, little), 2) as i16
    }

    fn size() -> usize {
        2
    }

    fn from_bytes_ordered(bytes: &[u8], little: bool) -> (r: i16) {
        proof {
            lemma_int_from_bytes_bound(bytes@, little);
            lemma_pow256_values();
        }
        let v = bytes_to_u128(bytes, little) as u16;
        if v < 0x8000 {
            v as i16
        } else {
            -((0xFFFFu16 - v) as i16) - 1
        }
    }
}

impl FromBytes for i32 {
    open spec fn spec_size() -> nat {
        4
    }

    open spec fn spec_from_bytes(bytes: Seq<u8>, little: bool) -> i32 {
        signed_of(int_from_bytes(bytes, little), 4) as i32
    }

    fn size() -> usize {
        4
    }

    fn from_bytes_ordered(bytes: &[u8], little: bool) -> (r: i32) {
        proof {
            lemma_int_from_bytes_bound(bytes@, little);
            lemma_pow256_values();
        }
        let v = bytes_to_u128(bytes, little) as u32;
        if v < 0x8000_0000 {
            v as i32
        } else {
            -((0xFFFF_FFFFu32 - v) as i32) - 1
        }
    }
}

impl FromBytes for i64 {
    open spec fn spec_size() -> nat {
        8
    }

    open spec fn spec_from_bytes(bytes: Seq<u8>, little: bool) -> i64 {
        signed_of(int_from_bytes(bytes, little), 8) as i64
    }

    fn size() -> usize {
        8
    }

    fn from_bytes_ordered(bytes: &[u8], little: bool) -> (r: i64) {
        proof {
            lemma_int_from_bytes_bound(bytes@, little);
            lemma_pow256_values();
        }
        let v = bytes_to_u128(bytes, little) as u64;
        if v < 0x8000_0000_0000_0000 {
            v as i64
        } else {
            -((0xFFFF_FFFF_FFFF_FFFFu64 - v) as i64) - 1
        }
    }
}

impl FromBytes for i128 {
    open spec fn spec_size() -> nat {
        16
    }

    open spec fn spec_from_bytes(bytes: Seq<u8>, little: bool) -> i128 {
        signed_of(int_from_bytes(bytes, little), 16) as i128
    }

    fn size() -> usize {
        16
    }

    fn from_bytes_ordered(bytes: &[u8], little: bool) -> (r: i128) {
        proof {
            lemma_int_from_bytes_bound(bytes@, little);
            lemma_pow256_values();
        }
        let v = bytes_to_u128(bytes, little);
        if v < 0x8000_0000_0000_0000_0000_0000_0000_0000 {
            v as i128
        } else {
            -((0xFFFF_FFFF_FFFF_FFFF_FFFF_FFFF_FFFF_FFFFu128 - v) as i128) - 1
        }
    }
}

impl FromBytes for () {
    open spec fn spec_size() -> nat {
        0
    }

    open spec fn spec_from_bytes(bytes: Seq<u8>, little: bool) -> () {
        ()
    }

    fn size() -> usize {
        0
    }

    fn from_bytes_ordered(bytes: &[u8], little: bool) -> () {
        ()
    }
}

impl<A: FromBytes, B: FromBytes> FromBytes for (A, B) {
    open spec fn spec_size() -> nat {
        A::spec_size() + B::spec_size()
    }

    open spec fn spec_from_bytes(bytes: Seq<u8>, little: bool) -> (A::V, B::V) {
        (
            A::spec_from_bytes(bytes.take(A::spec_size() as int), little),
            B::spec_from_bytes(bytes.skip(A::spec_size() as int), little),
        )
    }

    fn size() -> usize {
        A::size() + B::size()
    }

    fn from_bytes_ordered(bytes: &[u8], little: bool) -> (r: (A, B)) {
        let total = bytes.len();
        proof {
            assert(A::spec_size() + B::spec_size() == total as nat);
        }
        let a_size = A::size();
        let first = slice_subrange(bytes, 0, a_size);
        let second = slice_subrange(bytes, a_size, bytes.len());
        proof {
            assert(first@ =~= bytes@.take(A::spec_size() as int));
            assert(second@ =~= bytes@.skip(A::spec_size() as int));
        }
        let a = A::from_bytes_ordered(first, little);
        let b = B::from_bytes_ordered(second, little);
        (a, b)
    }
}

/// An aggregate's footprint is the sum of its members' footprints, and its
/// decoding partitions the input into the members' adjacent slices: each
/// member's value is a function of its own slice alone, the slices have
/// exactly the members' sizes, and together they cover the whole input with
/// no gap and no overlap.
pub proof fn lemma_aggregate_partition<A: FromBytes, B: FromBytes>(bytes: Seq<u8>, little: bool)
    requires
        bytes.len() == <(A, B) as FromBytes>::spec_size(),
    ensures
        <(A, B) as FromBytes>::spec_size() == A::spec_size() + B::spec_size(),
        <(A, B) as FromBytes>::spec_from_bytes(bytes, little).0 == A::spec_from_bytes(
            bytes.subrange(0, A::spec_size() as int),
            little,
        ),
        <(A, B) as FromBytes>::spec_from_bytes(bytes, little).1 == B::spec_from_bytes(
            bytes.subrange(A::spec_size() as int, bytes.len() as int),
            little,
        ),
        bytes.subrange(0, A::spec_size() as int).len() == A::spec_size(),
        bytes.subrange(A::spec_size() as int, bytes.len() as int).len() == B::spec_size(),
        bytes.subrange(0, A::spec_size() as int) + bytes.subrange(
            A::spec_size() as int,
            bytes.len() as int,
        ) == bytes,
{
    assert(bytes.take(A::spec_size() as int) =~= bytes.subrange(0, A::spec_size() as int));
    assert(bytes.skip(A::spec_size() as int) =~= bytes.subrange(
        A::spec_size() as int,
        bytes.len() as int,
    ));
    assert(bytes.subrange(0, A::spec_size() as int) + bytes.subrange(
        A::spec_size() as int,
        bytes.len() as int,
    ) =~= bytes);
}

} // verus!
