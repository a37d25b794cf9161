//! The wire format of the fixed-width integers, as arithmetic on sequences of
//! bytes, and the executable conversions proved against it.

use vstd::prelude::*;

verus! {

/// 256 raised to the power `n`: the number of values that `n` bytes can hold.
pub open spec fn pow256(n: nat) -> nat
    decreases n,
{
    if n == 0 {
        1
    } else {
        256 * pow256((n - 1) as nat)
    }
}

/// The big-endian encoding of `v` in exactly `width` bytes: the last byte
/// holds `v % 256`, the bytes before it encode `v / 256`.
pub open spec fn be_bytes(v: nat, width: nat) -> Seq<u8>
    decreases width,
{
    if width == 0 {
        Seq::empty()
    } else {
        be_bytes(v / 256, (width - 1) as nat).push((v % 256) as u8)
    }
}

/// The number that a big-endian byte sequence stands for.
pub open spec fn be_value(bytes: Seq<u8>) -> nat
    decreases bytes.len(),
{
    if bytes.len() == 0 {
        0
    } else {
        256 * be_value(bytes.drop_last()) + bytes.last() as nat
    }
}

/// The unsigned number whose `width`-byte pattern is the two's complement
/// representation of `v`.
pub open spec fn twos_complement(v: int, width: nat) -> nat {
    if v >= 0 {
        v as nat
    } else {
        (v + pow256(width)) as nat
    }
}

/// The signed number that the `width`-byte pattern of `u` stands for in
/// two's complement.
pub open spec fn from_twos_complement(u: nat, width: nat) -> int {
    if 2 * u < pow256(width) {
        u as int
    } else {
        u - pow256(width)
    }
}

/// The values of `pow256` at the widths of the integer types.
pub proof fn lemma_pow256_values()
    ensures
        pow256(0) == 1,
        pow256(1) == 0x100,
        pow256(2) == 0x1_0000,
        pow256(4) == 0x1_0000_0000,
        pow256(8) == 0x1_0000_0000_0000_0000,
        pow256(15) == 0x1_0000_0000_0000_0000_0000_0000_0000_00,
        pow256(16) == 0x1_0000_0000_0000_0000_0000_0000_0000_0000,
{
    reveal_with_fuel(pow256, 17);
}

/// `pow256` never decreases.
pub proof fn lemma_pow256_monotonic(a: nat, b: nat)
    requires
        a <= b,
    ensures
        0 < pow256(a) <= pow256(b),
    decreases b,
{
    if a == 0 && b == 0 {
    } else if a == b {
        lemma_pow256_monotonic((a - 1) as nat, (b - 1) as nat);
    } else {
        lemma_pow256_monotonic(a, (b - 1) as nat);
    }
}

/// An encoding has exactly the width asked for.
pub proof fn lemma_be_bytes_len(v: nat, width: nat)
    ensures
        be_bytes(v, width).len() == width,
    decreases width,
{
    if width > 0 {
        lemma_be_bytes_len(v / 256, (width - 1) as nat);
    }
}

/// A sequence of `n` bytes stands for a number below `256^n`.
pub proof fn lemma_be_value_bound(bytes: Seq<u8>)
    ensures
        be_value(bytes) < pow256(bytes.len()),
    decreases bytes.len(),
{
    if bytes.len() > 0 {
        lemma_be_value_bound(bytes.drop_last());
    }
}

/// Decoding the encoding of a number that fits in `width` bytes gives the
/// number back.
pub proof fn lemma_be_value_of_bytes(v: nat, width: nat)
    requires
        v < pow256(width),
    ensures
        be_value(be_bytes(v, width)) == v,
    decreases width,
{
    if width > 0 {
        let rest = be_bytes(v / 256, (width - 1) as nat);
        lemma_be_value_of_bytes(v / 256, (width - 1) as nat);
        assert(be_bytes(v, width).drop_last() =~= rest);
    }
}

/// Encoding the number that a byte sequence stands for, in as many bytes,
/// gives the sequence back.
pub proof fn lemma_be_bytes_of_value(bytes: Seq<u8>)
    ensures
        be_bytes(be_value(bytes), bytes.len()) == bytes,
    decreases bytes.len(),
{
    if bytes.len() > 0 {
        lemma_be_bytes_of_value(bytes.drop_last());
        assert(be_bytes(be_value(bytes), bytes.len()) =~= bytes);
    } else {
        assert(be_bytes(be_value(bytes), bytes.len()) =~= bytes);
    }
}

/// Two's complement is undone by its inverse on every number that `width`
/// bytes can hold as a signed value.
pub proof fn lemma_twos_complement_inverse(v: int, width: nat)
    requires
        width > 0,
        -(pow256(width) as int) <= 2 * v < pow256(width),
    ensures
        twos_complement(v, width) < pow256(width),
        from_twos_complement(twos_complement(v, width), width) == v,
{
}

/// The weight of the flag at index `i` of a packed byte: the first flag sits
/// in the most significant bit.
pub open spec fn bit_weight(i: int) -> nat {
    if i == 0 {
        128
    } else if i == 1 {
        64
    } else if i == 2 {
        32
    } else if i == 3 {
        16
    } else if i == 4 {
        8
    } else if i == 5 {
        4
    } else if i == 6 {
        2
    } else if i == 7 {
        1
    } else {
        0
    }
}

/// What the flag at index `i` adds to the packed byte.
pub open spec fn bit_at(values: Seq<bool>, i: int) -> nat {
    if 0 <= i < values.len() && values[i] {
        bit_weight(i)
    } else {
        0
    }
}

/// The sum of what the first `n` flags add to the packed byte.
pub open spec fn pack_bools_upto(values: Seq<bool>, n: nat) -> nat
    decreases n,
{
    if n == 0 {
        0
    } else {
        pack_bools_upto(values, (n - 1) as nat) + bit_at(values, n - 1)
    }
}

/// The byte that packs up to eight flags, most significant bit first. Bits
/// past the last flag are 0.
pub open spec fn pack_bools(values: Seq<bool>) -> nat {
    pack_bools_upto(values, values.len())
}

/// The first `count` flags of a packed byte, most significant bit first.
pub open spec fn unpack_bools(byte: u8, count: nat) -> Seq<bool> {
    Seq::new(count, |i: int| (byte as nat / bit_weight(i)) % 2 == 1)
}

/// A packed byte of `n` flags has its low `8 - n` bits clear and fits in a
/// byte.
pub proof fn lemma_pack_bools_bound(values: Seq<bool>, n: nat)
    requires
        n <= 8,
    ensures
        pack_bools_upto(values, n) + (if n == 0 {
            256
        } else {
            bit_weight(n - 1)
        }) <= 256,
    decreases n,
{
    if n > 0 {
        lemma_pack_bools_bound(values, (n - 1) as nat);
    }
}

/// The flags of a byte in the order of their weights: each flag is 1
/// exactly if its bit is set.
proof fn lemma_bits_of_sum(x0: u32, x1: u32, x2: u32, x3: u32, x4: u32, x5: u32, x6: u32, x7: u32)
    by (bit_vector)
    requires
        x0 <= 1,
        x1 <= 1,
        x2 <= 1,
        x3 <= 1,
        x4 <= 1,
        x5 <= 1,
        x6 <= 1,
        x7 <= 1,
    ensures
        ({
            let p = 128 * x0 + 64 * x1 + 32 * x2 + 16 * x3 + 8 * x4 + 4 * x5 + 2 * x6 + x7;
            &&& p / 128 % 2 == x0
            &&& p / 64 % 2 == x1
            &&& p / 32 % 2 == x2
            &&& p / 16 % 2 == x3
            &&& p / 8 % 2 == x4
            &&& p / 4 % 2 == x5
            &&& p / 2 % 2 == x6
            &&& p / 1 % 2 == x7
        }),
{
}

/// 1 if the flag at index `i` is there and set, else 0.
spec fn flag_at(values: Seq<bool>, i: int) -> u32 {
    if 0 <= i < values.len() && values[i] {
        1
    } else {
        0
    }
}

/// Packed bools: unpacking the byte that packs up to eight flags, with their
/// count, gives the flags back.
pub proof fn lemma_unpack_pack_bools(values: Seq<bool>)
    requires
        values.len() <= 8,
    ensures
        pack_bools(values) < 256,
        unpack_bools(pack_bools(values) as u8, values.len()) == values,
{
    let x0 = flag_at(values, 0);
    let x1 = flag_at(values, 1);
    let x2 = flag_at(values, 2);
    let x3 = flag_at(values, 3);
    let x4 = flag_at(values, 4);
    let x5 = flag_at(values, 5);
    let x6 = flag_at(values, 6);
    let x7 = flag_at(values, 7);
    lemma_bits_of_sum(x0, x1, x2, x3, x4, x5, x6, x7);
    lemma_pack_bools_bound(values, values.len());
    reveal_with_fuel(pack_bools_upto, 9);
    let p = 128 * x0 + 64 * x1 + 32 * x2 + 16 * x3 + 8 * x4 + 4 * x5 + 2 * x6 + x7;
    assert(pack_bools_upto(values, 8) == p);
    assert(pack_bools(values) == p) by {
        lemma_pack_bools_past_end(values, 8);
    }
    let unpacked = unpack_bools(pack_bools(values) as u8, values.len());
    assert forall|i: int| 0 <= i < values.len() implies unpacked[i] == values[i] by {
        assert(unpacked[i] == ((p as nat / bit_weight(i)) % 2 == 1));
    }
    assert(unpacked =~= values);
}

/// Indexes past the last flag add nothing to the packed byte.
proof fn lemma_pack_bools_past_end(values: Seq<bool>, n: nat)
    requires
        values.len() <= n,
    ensures
        pack_bools_upto(values, n) == pack_bools_upto(values, values.len()),
    decreases n,
{
    if values.len() < n {
        lemma_pack_bools_past_end(values, (n - 1) as nat);
    }
}

/// The weight of the flag at index `i`.
pub(crate) fn bit_weight_of(i: usize) -> (w: u8)
    requires
        i < 8,
    ensures
        w == bit_weight(i as int),
{
    if i == 0 {
        128
    } else if i == 1 {
        64
    } else if i == 2 {
        32
    } else if i == 3 {
        16
    } else if i == 4 {
        8
    } else if i == 5 {
        4
    } else if i == 6 {
        2
    } else {
        1
    }
}

/// The big-endian bytes of `value` in `width` bytes.
pub(crate) fn be_encode(value: u128, width: usize) -> (out: Vec<u8>)
    requires
        width <= 16,
    ensures
        out@ == be_bytes(value as nat, width as nat),
{
    let mut out: Vec<u8> = Vec::new();
    let mut filled: usize = 0;
    while filled < width
        invariant
            filled <= width,
            out@.len() == filled,
        decreases width - filled,
    {
        out.push(0u8);
        filled = filled + 1;
    }
    let mut rest: u128 = value;
    let mut at: usize = width;
    while at > 0
        invariant
            at <= width,
            out@.len() == width,
            be_bytes(value as nat, width as nat) =~= be_bytes(rest as nat, at as nat)
                + out@.subrange(at as int, width as int),
        decreases at,
    {
        let digit: u8 = (rest % 256) as u8;
        out.set(at - 1, digit);
        rest = rest / 256;
        at = at - 1;
    }
    out
}

/// The number that at most sixteen big-endian bytes stand for.
pub(crate) fn be_decode(bytes: &[u8]) -> (value: u128)
    requires
        bytes@.len() <= 16,
    ensures
        value as nat == be_value(bytes@),
{
    let mut value: u128 = 0;
    let mut at: usize = 0;
    while at < bytes.len()
        invariant
            at <= bytes@.len() <= 16,
            value as nat == be_value(bytes@.subrange(0, at as int)),
        decreases bytes@.len() - at,
    {
        proof {
            let seen = bytes@.subrange(0, at as int);
            lemma_be_value_bound(seen);
            lemma_pow256_monotonic(at as nat, 15);
            lemma_pow256_values();
            assert(bytes@.subrange(0, at + 1).drop_last() =~= seen);
        }
        value = value * 256 + bytes[at] as u128;
        at = at + 1;
    }
    assert(bytes@.subrange(0, at as int) =~= bytes@);
    value
}

} // verus!
