//! Little-endian integers in byte sequences.

use vstd::prelude::*;

verus! {

/// 256 to the power `n`: the number of values that `n` bytes can hold.
pub open spec fn pow256(n: nat) -> nat
    decreases n,
{
    if n == 0 {
        1
    } else {
        256 * pow256((n - 1) as nat)
    }
}

/// The number whose little-endian bytes are `s`.
pub open spec fn le_value(s: Seq<u8>) -> nat
    decreases s.len(),
{
    if s.len() == 0 {
        0
    } else {
        s[0] as nat + 256 * le_value(s.drop_first())
    }
}

/// The `width` lowest bytes of `v`, least significant first.
pub open spec fn le_bytes(v: nat, width: nat) -> Seq<u8>
    decreases width,
{
    if width == 0 {
        Seq::empty()
    } else {
        seq![(v % 256) as u8] + le_bytes(v / 256, (width - 1) as nat)
    }
}

/// The four little-endian bytes of a block number or a count.
pub open spec fn u32_bytes(v: u32) -> Seq<u8> {
    le_bytes(v as nat, 4)
}

/// The 32-bit number in the first four bytes of `s`.
pub open spec fn u32_at(s: Seq<u8>, at: int) -> u32 {
    le_value(s.subrange(at, at + 4)) as u32
}

/// `width` bytes are written for a number of that width.
pub proof fn lemma_le_bytes_len(v: nat, width: nat)
    ensures
        le_bytes(v, width).len() == width,
    decreases width,
{
    if width > 0 {
        lemma_le_bytes_len(v / 256, (width - 1) as nat);
    }
}

/// `n` bytes hold a number below `pow256(n)`.
pub proof fn lemma_le_value_bound(s: Seq<u8>)
    ensures
        le_value(s) < pow256(s.len()),
    decreases s.len(),
{
    if s.len() > 0 {
        lemma_le_value_bound(s.drop_first());
    }
}

/// Reading back the little-endian bytes of a number gives the number.
pub proof fn law_le_read_after_write(v: nat, width: nat)
    requires
        v < pow256(width),
    ensures
        le_value(le_bytes(v, width)) == v,
    decreases width,
{
    if width > 0 {
        law_le_read_after_write(v / 256, (width - 1) as nat);
        let s = le_bytes(v, width);
        assert(s.drop_first() =~= le_bytes(v / 256, (width - 1) as nat));
        assert(s[0] == (v % 256) as u8);
    }
}

/// Writing the number that some bytes hold gives the same bytes.
pub proof fn law_le_write_after_read(s: Seq<u8>)
    ensures
        le_bytes(le_value(s), s.len()) == s,
    decreases s.len(),
{
    if s.len() > 0 {
        let t = s.drop_first();
        law_le_write_after_read(t);
        assert(le_value(s) % 256 == s[0] as nat);
        assert(le_value(s) / 256 == le_value(t));
        assert(seq![s[0]] + t =~= s);
    }
}

/// The powers of 256 that bound the integer types.
pub proof fn lemma_pow256_values()
    ensures
        pow256(1) == 0x100,
        pow256(4) == 0x1_0000_0000,
        pow256(8) == 0x1_0000_0000_0000_0000,
        pow256(16) == 0x1_0000_0000_0000_0000_0000_0000_0000_0000,
{
    reveal_with_fuel(pow256, 17);
}

/// More bytes hold more values.
proof fn lemma_pow256_increases(a: nat, b: nat)
    requires
        a <= b,
    ensures
        pow256(a) <= pow256(b),
    decreases b,
{
    if a < b {
        lemma_pow256_increases(a, (b - 1) as nat);
    }
}

/// Four bytes of a 32-bit number, and the number read back from them.
pub proof fn lemma_u32_bytes(v: u32)
    ensures
        u32_bytes(v).len() == 4,
        le_value(u32_bytes(v)) == v,
{
    lemma_pow256_values();
    lemma_le_bytes_len(v as nat, 4);
    law_le_read_after_write(v as nat, 4);
}

/// Four bytes hold a number that fits 32 bits.
pub proof fn lemma_u32_at(s: Seq<u8>, at: int)
    requires
        0 <= at,
        at + 4 <= s.len(),
    ensures
        u32_at(s, at) == le_value(s.subrange(at, at + 4)),
{
    lemma_pow256_values();
    lemma_le_value_bound(s.subrange(at, at + 4));
}

/// The number whose little-endian bytes are `bytes`.
pub fn read_le(bytes: &[u8]) -> (v: u128)
    requires
        bytes@.len() <= 16,
    ensures
        v == le_value(bytes@),
{
    let n: usize = bytes.len();
    let mut i: usize = n;
    let mut v: u128 = 0;
    assert(bytes@.skip(n as int) =~= Seq::empty());
    while i > 0
        invariant
            i <= n <= 16,
            n == bytes@.len(),
            v == le_value(bytes@.skip(i as int)),
        decreases i,
    {
        let ghost rest = bytes@.skip(i as int);
        let ghost more = bytes@.skip(i - 1);
        proof {
            assert(more.drop_first() =~= rest);
            assert(more[0] == bytes@[i - 1]);
            lemma_le_value_bound(more);
            lemma_pow256_increases(more.len(), 16);
            lemma_pow256_values();
        }
        i -= 1;
        v = v * 256 + bytes[i] as u128;
    }
    assert(bytes@.skip(0) =~= bytes@);
    v
}

/// The 32-bit number at `bytes[at..at + 4]`.
pub fn read_u32(bytes: &[u8], at: usize) -> (v: u32)
    requires
        at + 4 <= bytes@.len(),
    ensures
        v == u32_at(bytes@, at as int),
        v == le_value(bytes@.subrange(at as int, at + 4)),
{
    let _len: usize = bytes.len();
    let four = vstd::slice::slice_subrange(bytes, at, at + 4);
    let v: u128 = read_le(four);
    proof {
        lemma_u32_at(bytes@, at as int);
        lemma_le_value_bound(four@);
        lemma_pow256_values();
    }
    v as u32
}

/// Appends the four little-endian bytes of `v`.
pub fn push_u32(out: &mut Vec<u8>, v: u32)
    ensures
        final(out)@ == old(out)@ + u32_bytes(v),
{
    proof {
        reveal_with_fuel(le_bytes, 5);
    }
    out.push((v % 256) as u8);
    out.push((v / 256 % 256) as u8);
    out.push((v / 65536 % 256) as u8);
    out.push((v / 16777216 % 256) as u8);
    assert(u32_bytes(v) =~= seq![
        (v % 256) as u8,
        (v / 256 % 256) as u8,
        (v / 65536 % 256) as u8,
        (v / 16777216 % 256) as u8,
    ]) by {
        let n = v as nat;
        assert(n / 256 / 256 == n / 65536);
        assert(n / 256 / 256 / 256 == n / 16777216);
    }
}

/// Appends a whole byte slice.
pub fn push_bytes(out: &mut Vec<u8>, bytes: &[u8])
    ensures
        final(out)@ == old(out)@ + bytes@,
{
    out.extend_from_slice(bytes);
    assert(out@ =~= old(out)@ + bytes@);
}

/// The 32-bit number at `at` is made of four bytes, the least significant first.
pub proof fn law_u32_at_bytes(s: Seq<u8>, at: int)
    requires
        0 <= at,
        at + 4 <= s.len(),
    ensures
        u32_at(s, at) == s[at] + 0x100 * s[at + 1] + 0x1_0000 * s[at + 2] + 0x100_0000 * s[at + 3],
{
    let four = s.subrange(at, at + 4);
    reveal_with_fuel(le_value, 5);
    assert(four.drop_first()[0] == s[at + 1]);
    assert(four.drop_first().drop_first()[0] == s[at + 2]);
    assert(four.drop_first().drop_first().drop_first()[0] == s[at + 3]);
    assert(four.drop_first().drop_first().drop_first().drop_first().len() == 0);
    lemma_u32_at(s, at);
}

/// A number is the sum of its bytes, each worth 256 times the one before it.
pub proof fn law_le_value_of_parts(low: Seq<u8>, high: Seq<u8>)
    ensures
        le_value(low + high) == le_value(low) + pow256(low.len()) * le_value(high),
        low.len() == 1 ==> le_value(low) == low[0],
    decreases low.len(),
{
    let s = low + high;
    if low.len() == 0 {
        assert(s =~= high);
        assert(1 * le_value(high) == le_value(high));
    } else {
        law_le_value_of_parts(low.drop_first(), high);
        assert(s.drop_first() =~= low.drop_first() + high);
        let (p, h) = (pow256((low.len() - 1) as nat), le_value(high));
        assert(256 * (p * h) == (256 * p) * h) by (nonlinear_arith);
        if low.len() == 1 {
            assert(low.drop_first().len() == 0);
        }
    }
}

} // verus!
