//! Unsigned integers as byte sequences, in either byte order.
//!
//! Everything here is ghost code: what number a byte sequence spells, which
//! bytes spell a number, and that the two are inverse to each other on
//! sequences of a fixed length.
use vstd::prelude::*;

use crate::utils::Endianness;

verus! {

/// 256 to the power `n`: the number of values that `n` bytes can spell.
pub open spec fn radix(n: nat) -> nat
    decreases n,
{
    if n == 0 {
        1
    } else {
        256 * radix((n - 1) as nat)
    }
}

/// The number that `b` spells with its least significant byte first.
#[verifier::opaque]
pub open spec fn le_value(b: Seq<u8>) -> nat
    decreases b.len(),
{
    if b.len() == 0 {
        0
    } else {
        b[0] as nat + 256 * le_value(b.skip(1))
    }
}

/// The number that `b` spells with its most significant byte first.
#[verifier::opaque]
pub open spec fn be_value(b: Seq<u8>) -> nat
    decreases b.len(),
{
    if b.len() == 0 {
        0
    } else {
        256 * be_value(b.drop_last()) + b.last() as nat
    }
}

/// The number that `b` spells in the given byte order.
pub open spec fn value_of(b: Seq<u8>, order: Endianness) -> nat {
    match order {
        Endianness::Little => le_value(b),
        Endianness::Big => be_value(b),
    }
}

/// The `n` low bytes of `v`, least significant first.
#[verifier::opaque]
pub open spec fn le_bytes(v: nat, n: nat) -> Seq<u8>
    decreases n,
{
    if n == 0 {
        Seq::empty()
    } else {
        seq![(v % 256) as u8] + le_bytes(v / 256, (n - 1) as nat)
    }
}

/// The `n` low bytes of `v`, most significant first.
#[verifier::opaque]
pub open spec fn be_bytes(v: nat, n: nat) -> Seq<u8>
    decreases n,
{
    if n == 0 {
        Seq::empty()
    } else {
        be_bytes(v / 256, (n - 1) as nat).push((v % 256) as u8)
    }
}

/// The `n` low bytes of `v` in the given byte order.
pub open spec fn bytes_of(v: nat, n: nat, order: Endianness) -> Seq<u8> {
    match order {
        Endianness::Little => le_bytes(v, n),
        Endianness::Big => be_bytes(v, n),
    }
}

/// The value of four 64-bit limbs, least significant limb first.
pub open spec fn limbs_value(l: Seq<u64>) -> nat {
    l[0] as nat + l[1] as nat * 0x1_0000_0000_0000_0000 + l[2] as nat
        * 0x1_0000_0000_0000_0000_0000_0000_0000_0000 + l[3] as nat
        * 0x1_0000_0000_0000_0000_0000_0000_0000_0000_0000_0000_0000_0000
}

/// The widths this crate uses, written out.
pub proof fn lemma_radix_values()
    ensures
        radix(1) == 0x100,
        radix(2) == 0x1_0000,
        radix(4) == 0x1_0000_0000,
        radix(8) == 0x1_0000_0000_0000_0000,
        radix(32) == 0x1_0000_0000_0000_0000_0000_0000_0000_0000_0000_0000_0000_0000_0000_0000_0000_0000,
{
    reveal_with_fuel(radix, 9);
    assert(radix(8) == 0x1_0000_0000_0000_0000);
    assert(radix(16) == radix(8) * 0x1_0000_0000_0000_0000);
    assert(radix(24) == radix(16) * 0x1_0000_0000_0000_0000);
    assert(radix(32) == radix(24) * 0x1_0000_0000_0000_0000);
}

/// A sequence of `n` bytes spells a number below 256 to the `n`.
pub proof fn lemma_value_bound(b: Seq<u8>, order: Endianness)
    ensures
        value_of(b, order) < radix(b.len()),
    decreases b.len(),
{
    reveal(le_value);
    reveal(be_value);
    if b.len() > 0 {
        match order {
            Endianness::Little => lemma_value_bound(b.skip(1), order),
            Endianness::Big => lemma_value_bound(b.drop_last(), order),
        }
    }
}

/// `bytes_of` gives as many bytes as it is asked for.
pub proof fn lemma_bytes_len(v: nat, n: nat, order: Endianness)
    ensures
        bytes_of(v, n, order).len() == n,
    decreases n,
{
    reveal(le_bytes);
    reveal(be_bytes);
    if n > 0 {
        lemma_bytes_len(v / 256, (n - 1) as nat, order);
    }
}

/// The bytes of a number that fits in `n` bytes spell that number.
pub proof fn lemma_value_of_bytes(v: nat, n: nat, order: Endianness)
    requires
        v < radix(n),
    ensures
        value_of(bytes_of(v, n, order), order) == v,
    decreases n,
{
    reveal(le_value);
    reveal(be_value);
    reveal(le_bytes);
    reveal(be_bytes);
    if n > 0 {
        let rest = (n - 1) as nat;
        lemma_value_of_bytes(v / 256, rest, order);
        lemma_bytes_len(v / 256, rest, order);
        match order {
            Endianness::Little => {
                assert(le_bytes(v, n).skip(1) =~= le_bytes(v / 256, rest));
            },
            Endianness::Big => {
                assert(be_bytes(v, n).drop_last() =~= be_bytes(v / 256, rest));
            },
        }
    }
}

/// The bytes of the number that `b` spells, at the length of `b`, are `b`.
pub proof fn lemma_bytes_of_value(b: Seq<u8>, order: Endianness)
    ensures
        bytes_of(value_of(b, order), b.len(), order) == b,
    decreases b.len(),
{
    reveal(le_value);
    reveal(be_value);
    reveal(le_bytes);
    reveal(be_bytes);
    if b.len() > 0 {
        match order {
            Endianness::Little => {
                let rest = b.skip(1);
                lemma_bytes_of_value(rest, order);
                let v = le_value(b);
                assert(v % 256 == b[0] as nat);
                assert(v / 256 == le_value(rest));
                assert(le_bytes(v, b.len()) =~= b);
            },
            Endianness::Big => {
                let rest = b.drop_last();
                lemma_bytes_of_value(rest, order);
                let v = be_value(b);
                assert(v % 256 == b.last() as nat);
                assert(v / 256 == be_value(rest));
                assert(be_bytes(v, b.len()) =~= b);
            },
        }
    } else {
        assert(bytes_of(value_of(b, order), 0, order) =~= b);
    }
}

/// Two sets of four limbs that spell one number are equal.
pub proof fn lemma_limbs_injective(a: Seq<u64>, b: Seq<u64>)
    requires
        a.len() == 4,
        b.len() == 4,
        limbs_value(a) == limbs_value(b),
    ensures
        a == b,
{
    let w: int = 0x1_0000_0000_0000_0000;
    let hi_a: int = a[1] + a[2] * w + a[3] * (w * w);
    let hi_b: int = b[1] + b[2] * w + b[3] * (w * w);
    assert(w * w == 0x1_0000_0000_0000_0000_0000_0000_0000_0000);
    assert(w * (w * w) == 0x1_0000_0000_0000_0000_0000_0000_0000_0000_0000_0000_0000_0000);
    assert(limbs_value(a) == a[0] + w * hi_a) by (nonlinear_arith)
        requires
            limbs_value(a) == a[0] + a[1] * w + a[2] * (w * w) + a[3] * (w * (w * w)),
            hi_a == a[1] + a[2] * w + a[3] * (w * w),
    ;
    assert(limbs_value(b) == b[0] + w * hi_b) by (nonlinear_arith)
        requires
            limbs_value(b) == b[0] + b[1] * w + b[2] * (w * w) + b[3] * (w * (w * w)),
            hi_b == b[1] + b[2] * w + b[3] * (w * w),
    ;
    assert(a[0] == b[0] && hi_a == hi_b);
    let top_a: int = a[2] + a[3] * w;
    let top_b: int = b[2] + b[3] * w;
    assert(hi_a == a[1] + w * top_a) by (nonlinear_arith)
        requires
            hi_a == a[1] + a[2] * w + a[3] * (w * w),
            top_a == a[2] + a[3] * w,
    ;
    assert(hi_b == b[1] + w * top_b) by (nonlinear_arith)
        requires
            hi_b == b[1] + b[2] * w + b[3] * (w * w),
            top_b == b[2] + b[3] * w,
    ;
    assert(a[1] == b[1] && top_a == top_b);
    assert(a[2] == b[2] && a[3] == b[3]);
    assert(a =~= b);
}

/// What stands behind a prefix of a concatenation is its second part.
pub proof fn lemma_skip_prefix(a: Seq<u8>, rest: Seq<u8>)
    ensures
        (a + rest).skip(a.len() as int) == rest,
        (a + rest).subrange(0, a.len() as int) == a,
{
    assert((a + rest).skip(a.len() as int) =~= rest);
    assert((a + rest).subrange(0, a.len() as int) =~= a);
}

} // verus!
