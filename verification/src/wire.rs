//! Big-endian integers of one to eight bytes.

use vstd::prelude::*;

verus! {

/// `256` to the power `n`.
pub open spec fn pow256(n: nat) -> nat
    decreases n,
{
    if n == 0 {
        1
    } else {
        256 * pow256((n - 1) as nat)
    }
}

/// The number that `bytes` denote, most significant byte first.
pub open spec fn be_value(bytes: Seq<u8>) -> nat
    decreases bytes.len(),
{
    if bytes.len() == 0 {
        0
    } else {
        be_value(bytes.drop_last()) * 256 + bytes.last() as nat
    }
}

/// The `width` low-order bytes of `v`, most significant byte first.
pub open spec fn be_bytes(v: nat, width: nat) -> Seq<u8>
    decreases width,
{
    if width == 0 {
        Seq::empty()
    } else {
        be_bytes(v / 256, (width - 1) as nat).push((v % 256) as u8)
    }
}

/// The two's-complement reading of `bytes`: numbers in the upper half of the
/// range stand for negative ones.
pub open spec fn be_signed(bytes: Seq<u8>) -> int {
    if 2 * be_value(bytes) >= pow256(bytes.len()) {
        be_value(bytes) - pow256(bytes.len())
    } else {
        be_value(bytes) as int
    }
}

/// The 64-bit two's-complement pattern of `v`, as a natural number.
pub open spec fn twos_complement(v: i64) -> nat {
    if v >= 0 {
        v as nat
    } else {
        (v + pow256(8)) as nat
    }
}

/// A width that a fixed-width integer chunk may declare.
pub open spec fn valid_width(width: int) -> bool {
    1 <= width <= 8
}

/// `v` can be written in `width` bytes as an unsigned number without loss.
pub open spec fn fits_unsigned(v: int, width: nat) -> bool {
    0 <= v < pow256(width)
}

/// `v` can be written in `width` bytes as a two's-complement number without loss.
pub open spec fn fits_signed(v: int, width: nat) -> bool {
    width >= 1 && -(pow256(width) / 2) <= v < pow256(width) / 2
}

pub proof fn lemma_pow256_values()
    ensures
        pow256(0) == 1,
        pow256(1) == 0x100,
        pow256(2) == 0x1_0000,
        pow256(3) == 0x100_0000,
        pow256(4) == 0x1_0000_0000,
        pow256(5) == 0x100_0000_0000,
        pow256(6) == 0x1_0000_0000_0000,
        pow256(7) == 0x100_0000_0000_0000,
        pow256(8) == 0x1_0000_0000_0000_0000,
{
    reveal_with_fuel(pow256, 9);
}

pub proof fn lemma_pow256_positive(n: nat)
    ensures
        pow256(n) >= 1,
    decreases n,
{
    if n > 0 {
        lemma_pow256_positive((n - 1) as nat);
    }
}

pub proof fn lemma_pow256_monotonic(a: nat, b: nat)
    requires
        a <= b,
    ensures
        pow256(a) <= pow256(b),
    decreases b,
{
    if a < b {
        lemma_pow256_monotonic(a, (b - 1) as nat);
        lemma_pow256_positive((b - 1) as nat);
    }
}

pub proof fn lemma_be_bytes_len(v: nat, width: nat)
    ensures
        be_bytes(v, width).len() == width,
    decreases width,
{
    if width > 0 {
        lemma_be_bytes_len(v / 256, (width - 1) as nat);
    }
}

/// Big-endian bytes denote a number below `256` to their count.
pub proof fn lemma_be_value_bound(bytes: Seq<u8>)
    ensures
        be_value(bytes) < pow256(bytes.len()),
    decreases bytes.len(),
{
    if bytes.len() > 0 {
        lemma_be_value_bound(bytes.drop_last());
    }
}

/// Reading back what was written gives the number, reduced to the width.
pub proof fn lemma_be_value_of_bytes(v: nat, width: nat)
    ensures
        be_value(be_bytes(v, width)) == v % pow256(width),
    decreases width,
{
    if width > 0 {
        let w = (width - 1) as nat;
        let head = be_bytes(v / 256, w);
        lemma_be_value_of_bytes(v / 256, w);
        lemma_pow256_positive(w);
        assert(be_bytes(v, width).drop_last() =~= head);
        assert(be_bytes(v, width).last() == (v % 256) as u8);
        vstd::arithmetic::div_mod::lemma_breakdown(v as int, 256, pow256(w) as int);
    }
}

/// A number that fits in `width` bytes survives being written and read back.
pub proof fn lemma_unsigned_round_trip(v: nat, width: nat)
    requires
        fits_unsigned(v as int, width),
    ensures
        be_value(be_bytes(v, width)) == v,
{
    lemma_be_value_of_bytes(v, width);
    vstd::arithmetic::div_mod::lemma_small_mod(v, pow256(width));
}

/// A number that fits in `width` bytes as a signed one survives being written and
/// read back.
pub proof fn lemma_signed_round_trip(v: i64, width: nat)
    requires
        valid_width(width as int),
        fits_signed(v as int, width),
    ensures
        be_signed(be_bytes(twos_complement(v), width)) == v,
{
    lemma_pow256_values();
    let t = twos_complement(v);
    let m = pow256(width);
    lemma_be_value_of_bytes(t, width);
    lemma_be_bytes_len(t, width);
    let expected: int = if v >= 0 {
        v as int
    } else {
        v + m
    };
    assert(m == 0x100 || m == 0x1_0000 || m == 0x100_0000 || m == 0x1_0000_0000 || m
        == 0x100_0000_0000 || m == 0x1_0000_0000_0000 || m == 0x100_0000_0000_0000 || m
        == 0x1_0000_0000_0000_0000);
    let q: int = if v >= 0 {
        0
    } else {
        0x1_0000_0000_0000_0000int / (m as int) - 1
    };
    assert(t == q * m + expected);
    vstd::arithmetic::div_mod::lemma_fundamental_div_mod_converse_mod(
        t as int,
        m as int,
        q,
        expected,
    );
}

/// Appends the `width` low-order bytes of `v` to `buf`, most significant first.
pub fn push_be(buf: &mut Vec<u8>, v: u64, width: usize)
    ensures
        final(buf)@ == old(buf)@ + be_bytes(v as nat, width as nat),
    decreases width,
{
    if width > 0 {
        push_be(buf, v / 256, width - 1);
        buf.push((v % 256) as u8);
    }
}

/// The 64-bit pattern of a signed number.
pub fn to_unsigned(v: i64) -> (u: u64)
    ensures
        u == twos_complement(v),
{
    proof {
        lemma_pow256_values();
    }
    if v >= 0 {
        v as u64
    } else {
        let low: u64 = (v - i64::MIN) as u64;
        low + 0x8000_0000_0000_0000u64
    }
}

/// Reads `width` bytes of `bytes` from `start` as one big-endian number.
pub(crate) fn read_be(bytes: &[u8], start: usize, width: usize) -> (v: u64)
    requires
        width <= 8,
        start + width <= bytes@.len(),
    ensures
        v == be_value(bytes@.subrange(start as int, start + width)),
{
    let total = bytes.len();
    let mut acc: u64 = 0;
    let mut i: usize = 0;
    while i < width
        invariant
            i <= width <= 8,
            start + width <= bytes@.len() == total,
            acc == be_value(bytes@.subrange(start as int, start + i)),
        decreases width - i,
    {
        proof {
            let before = bytes@.subrange(start as int, start + i);
            let now = bytes@.subrange(start as int, start + i + 1);
            assert(now.drop_last() =~= before);
            lemma_be_value_bound(before);
            lemma_pow256_monotonic(i as nat, 7);
            lemma_pow256_values();
        }
        acc = acc * 256 + bytes[start + i] as u64;
        i += 1;
    }
    acc
}

/// The signed number that the `width`-byte pattern `u` stands for.
pub(crate) fn to_signed(u: u64, width: usize) -> (v: i64)
    requires
        valid_width(width as int),
        u < pow256(width as nat),
    ensures
        v == (if 2 * u >= pow256(width as nat) {
            u - pow256(width as nat)
        } else {
            u as int
        }),
{
    proof {
        lemma_pow256_values();
    }
    if width == 8 {
        if u >= 0x8000_0000_0000_0000u64 {
            let low: i64 = (u - 0x8000_0000_0000_0000u64) as i64;
            low + i64::MIN
        } else {
            u as i64
        }
    } else {
        let mut modulus: u64 = 1;
        let mut i: usize = 0;
        while i < width
            invariant
                i <= width < 8,
                modulus == pow256(i as nat),
            decreases width - i,
        {
            proof {
                lemma_pow256_monotonic(i as nat, 6);
                lemma_pow256_values();
            }
            modulus = modulus * 256;
            i += 1;
        }
        proof {
            lemma_pow256_monotonic(width as nat, 7);
        }
        if u >= modulus / 2 {
            u as i64 - modulus as i64
        } else {
            u as i64
        }
    }
}

} // verus!
