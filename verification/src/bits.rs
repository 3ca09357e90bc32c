//! Bitmask reasoning for `u64` sets of card identities and deck positions.
use vstd::prelude::*;
use vstd::std_specs::bits::{axiom_u64_trailing_zeros, u64_trailing_zeros};

verus! {

/// Bit `i` of `m` is set.
pub open spec fn in_mask(m: u64, i: int) -> bool {
    0 <= i < 64 && (m >> (i as u64)) & 1u64 == 1u64
}

/// The mask with exactly bit `i` set.
pub open spec fn single(i: int) -> u64 {
    1u64 << (i as u64)
}

pub broadcast proof fn lemma_in_mask_or(a: u64, b: u64, i: int)
    ensures
        #[trigger] in_mask(a | b, i) <==> (in_mask(a, i) || in_mask(b, i)),
{
    if 0 <= i < 64 {
        let j = i as u64;
        assert(((a | b) >> j) & 1u64 == 1u64 <==> ((a >> j) & 1u64 == 1u64 || (b >> j) & 1u64
            == 1u64)) by (bit_vector)
            requires
                j < 64,
        ;
    }
}

pub broadcast proof fn lemma_in_mask_and(a: u64, b: u64, i: int)
    ensures
        #[trigger] in_mask(a & b, i) <==> (in_mask(a, i) && in_mask(b, i)),
{
    if 0 <= i < 64 {
        let j = i as u64;
        assert(((a & b) >> j) & 1u64 == 1u64 <==> ((a >> j) & 1u64 == 1u64 && (b >> j) & 1u64
            == 1u64)) by (bit_vector)
            requires
                j < 64,
        ;
    }
}

pub broadcast proof fn lemma_in_mask_not(a: u64, i: int)
    ensures
        #[trigger] in_mask(!a, i) <==> (0 <= i < 64 && !in_mask(a, i)),
{
    if 0 <= i < 64 {
        let j = i as u64;
        assert(((!a) >> j) & 1u64 == 1u64 <==> !((a >> j) & 1u64 == 1u64)) by (bit_vector)
            requires
                j < 64,
        ;
    }
}

pub broadcast proof fn lemma_in_mask_single(k: int, i: int)
    requires
        0 <= k < 64,
    ensures
        #[trigger] in_mask(single(k), i) <==> i == k,
{
    if 0 <= i < 64 {
        let j = i as u64;
        let l = k as u64;
        assert(((1u64 << l) >> j) & 1u64 == 1u64 <==> j == l) by (bit_vector)
            requires
                j < 64,
                l < 64,
        ;
    }
}

pub broadcast proof fn lemma_in_mask_zero(i: int)
    ensures
        !(#[trigger] in_mask(0u64, i)),
{
    if 0 <= i < 64 {
        let j = i as u64;
        assert((0u64 >> j) & 1u64 != 1u64) by (bit_vector);
    }
}

pub broadcast group group_bits {
    lemma_in_mask_or,
    lemma_in_mask_and,
    lemma_in_mask_not,
    lemma_in_mask_single,
    lemma_in_mask_zero,
}

/// `m & single(k) != 0` tests bit `k`.
pub proof fn lemma_test_bit(m: u64, k: u64)
    requires
        k < 64,
    ensures
        (m & (1u64 << k) != 0) <==> in_mask(m, k as int),
        ((m >> k) & 1u64 != 0) <==> in_mask(m, k as int),
        ((m >> k) & 1u64 == 0) <==> !in_mask(m, k as int),
{
    assert((m & (1u64 << k) != 0) <==> (m >> k) & 1u64 == 1u64) by (bit_vector)
        requires
            k < 64,
    ;
    assert(((m >> k) & 1u64 != 0) <==> (m >> k) & 1u64 == 1u64) by (bit_vector);
}

/// A mask is zero exactly when it has no bit set.
pub proof fn lemma_zero_iff(m: u64)
    ensures
        m == 0 <==> (forall|i: int| !#[trigger] in_mask(m, i)),
{
    broadcast use lemma_in_mask_zero;

    if m != 0 {
        axiom_u64_trailing_zeros(m);
        let t = u64_trailing_zeros(m);
        assert(in_mask(m, t as int));
    }
}

/// Two masks with the same bits are equal.
pub proof fn lemma_ext(a: u64, b: u64)
    requires
        forall|i: int| 0 <= i < 64 ==> in_mask(a, i) == in_mask(b, i),
    ensures
        a == b,
{
    let x = a ^ b;
    if x != 0 {
        axiom_u64_trailing_zeros(x);
        let t = u64_trailing_zeros(x) as u64;
        assert(in_mask(a, t as int) == in_mask(b, t as int));
        assert(t < 64 && ((a ^ b) >> t) & 1u64 == 1u64 ==> ((a >> t) & 1u64 == 1u64) != ((b
            >> t) & 1u64 == 1u64)) by (bit_vector);
    } else {
        assert(a ^ b == 0 ==> a == b) by (bit_vector);
    }
}

/// `a & !b == 0` exactly when every bit of `a` is a bit of `b`.
pub proof fn lemma_subset_iff(a: u64, b: u64)
    ensures
        (a & !b == 0) <==> (forall|i: int| in_mask(a, i) ==> in_mask(b, i)),
{
    broadcast use group_bits;

    lemma_zero_iff(a & !b);
    if a & !b == 0 {
        assert forall|i: int| in_mask(a, i) implies in_mask(b, i) by {
            assert(!in_mask(a & !b, i));
        }
    }
}

/// `a & b == a` exactly when every bit of `a` is a bit of `b`.
pub proof fn lemma_and_eq_iff(a: u64, b: u64)
    ensures
        (a & b == a) <==> (forall|i: int| in_mask(a, i) ==> in_mask(b, i)),
{
    broadcast use group_bits;

    if forall|i: int| in_mask(a, i) ==> in_mask(b, i) {
        lemma_ext(a & b, a);
    }
    if a & b == a {
        assert forall|i: int| in_mask(a, i) implies in_mask(b, i) by {
            assert(in_mask(a & b, i));
        }
    }
}

/// The mask of the identities below `n` (and below 64) that satisfy `p`.
pub open spec fn mask_of(n: int, p: spec_fn(int) -> bool) -> u64
    decreases n,
{
    if n <= 0 {
        0u64
    } else if p(n - 1) && n - 1 < 64 {
        mask_of(n - 1, p) | single(n - 1)
    } else {
        mask_of(n - 1, p)
    }
}

pub proof fn lemma_mask_of(n: int, p: spec_fn(int) -> bool)
    ensures
        forall|i: int| #[trigger] in_mask(mask_of(n, p), i) <==> (0 <= i < n && i < 64 && p(i)),
    decreases n,
{
    broadcast use group_bits;

    if n > 0 {
        lemma_mask_of(n - 1, p);
        assert forall|i: int| #[trigger] in_mask(mask_of(n, p), i) <==> (0 <= i < n && i < 64 && p(i)) by {
            assert(in_mask(mask_of(n - 1, p), i) <==> (0 <= i < n - 1 && i < 64 && p(i)));
            if p(n - 1) && n - 1 < 64 {
                assert(in_mask(single(n - 1), i) <==> i == n - 1);
            }
        }
    }
}

/// A mask equals `mask_of(n, p)` when it has exactly the bits below `n` satisfying `p`.
pub proof fn lemma_mask_of_eq(m: u64, n: int, p: spec_fn(int) -> bool)
    requires
        forall|i: int| 0 <= i < 64 ==> (#[trigger] in_mask(m, i) <==> (i < n && p(i))),
    ensures
        m == mask_of(n, p),
{
    lemma_mask_of(n, p);
    assert forall|i: int| 0 <= i < 64 implies in_mask(m, i) == in_mask(mask_of(n, p), i) by {}
    lemma_ext(m, mask_of(n, p));
}

/// The lowest `n` bits.
pub open spec fn low_mask(n: int) -> u64 {
    if n >= 64 {
        0xffff_ffff_ffff_ffffu64
    } else {
        ((1u64 << (n as u64)) - 1) as u64
    }
}

pub proof fn lemma_low_mask(n: u64)
    requires
        n < 64,
    ensures
        forall|i: int| #[trigger] in_mask(low_mask(n as int), i) <==> 0 <= i < n,
{
    assert forall|i: int| #[trigger] in_mask(low_mask(n as int), i) <==> 0 <= i < n by {
        if 0 <= i < 64 {
            let j = i as u64;
            assert(((((1u64 << n) - 1) as u64) >> j) & 1u64 == 1u64 <==> j < n) by (bit_vector)
                requires
                    n < 64,
                    j < 64,
            ;
        }
    }
}

/// Exec helper: the mask with exactly bit `i` set.
pub fn bit(i: u8) -> (r: u64)
    requires
        i < 64,
    ensures
        r == single(i as int),
        forall|j: int| in_mask(r, j) <==> j == i,
{
    broadcast use lemma_in_mask_single;

    1u64 << (i as u64)
}

/// Exec helper: is bit `i` set in `m`.
pub fn test_bit(m: u64, i: u8) -> (r: bool)
    requires
        i < 64,
    ensures
        r == in_mask(m, i as int),
{
    proof {
        lemma_test_bit(m, i as u64);
    }
    m & (1u64 << (i as u64)) != 0
}

/// Exec helper: the unique identity of a singleton mask.
pub open spec fn is_singleton(m: u64) -> bool {
    exists|i: int| 0 <= i < 64 && m == single(i)
}

pub fn singleton_of(m: u64) -> (r: Option<u8>)
    ensures
        r matches Some(i) ==> i < 64 && m == single(i as int),
        r is None ==> !is_singleton(m),
{
    let mut i: u8 = 0;
    while i < 64
        invariant
            i <= 64,
            forall|j: int| 0 <= j < i ==> m != single(j),
        decreases 64 - i,
    {
        if m == 1u64 << (i as u64) {
            return Some(i);
        }
        i += 1;
    }
    None
}

/// Mask of the positions below 64 in `s`.
pub open spec fn positions_mask(s: Seq<u8>) -> u64
    decreases s.len(),
{
    if s.len() == 0 {
        0
    } else if s.last() < 64 {
        positions_mask(s.drop_last()) | single(s.last() as int)
    } else {
        positions_mask(s.drop_last())
    }
}

pub proof fn lemma_positions_mask(s: Seq<u8>)
    ensures
        forall|i: int| #[trigger] in_mask(positions_mask(s), i) <==> (0 <= i < 64 && s.contains(i as u8)),
    decreases s.len(),
{
    broadcast use group_bits;

    if s.len() > 0 {
        lemma_positions_mask(s.drop_last());
        assert forall|i: int| #[trigger] in_mask(positions_mask(s), i) <==> (0 <= i < 64 && s.contains(i as u8)) by {
            let t = s.drop_last();
            assert(s == t.push(s.last()));
            if 0 <= i < 64 && t.contains(i as u8) {
                let k = choose|k: int| 0 <= k < t.len() && t[k] == i as u8;
                assert(s[k] == i as u8);
            }
            if 0 <= i < 64 && s.contains(i as u8) && i as u8 != s.last() {
                let k = choose|k: int| 0 <= k < s.len() && s[k] == i as u8;
                assert(t[k] == i as u8);
            }
            if 0 <= i < 64 && i as u8 == s.last() {
                assert(s[s.len() - 1] == i as u8);
            }
            if s.last() < 64 {
                assert(in_mask(positions_mask(s), i) == (in_mask(positions_mask(t), i) || in_mask(single(s.last() as int), i)));
                assert(in_mask(single(s.last() as int), i) <==> i == s.last() as int);
            } else {
                assert(positions_mask(s) == positions_mask(t));
            }
        }
    }
}

} // verus!
