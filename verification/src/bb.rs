//! Bitboards: a set of board squares held in the 64 bits of a `u64`.
use vstd::prelude::*;
use vstd::std_specs::bits::*;

verus! {

/// A set of squares, bit `i` standing for square `i`.
pub type BB = u64;

/// Square `sq` is a member of `bb`.
pub open spec fn holds(bb: u64, sq: int) -> bool {
    0 <= sq < 64 && (bb >> (sq as u64)) & 1 == 1
}

/// The members of `bb` as a mathematical set.
pub open spec fn squares(bb: u64) -> Set<int> {
    Set::new(|sq: int| holds(bb, sq))
}

/// The smallest member of a non-empty `bb`; 64 for the empty set.
pub open spec fn lowest(bb: u64) -> int {
    u64_trailing_zeros(bb) as int
}

proof fn lemma_bit_set(bb: u64, k: u64, t: u64)
    by (bit_vector)
    requires
        k < 64,
        t < 64,
    ensures
        (((bb | (1u64 << k)) >> t) & 1 == 1) <==> (((bb >> t) & 1 == 1) || t == k),
{
}

proof fn lemma_bit_clear(bb: u64, k: u64, t: u64)
    by (bit_vector)
    requires
        k < 64,
        t < 64,
    ensures
        (((bb & !(1u64 << k)) >> t) & 1 == 1) <==> (((bb >> t) & 1 == 1) && t != k),
{
}

proof fn lemma_bit_or(a: u64, b: u64, t: u64)
    by (bit_vector)
    requires
        t < 64,
    ensures
        (((a | b) >> t) & 1 == 1) <==> (((a >> t) & 1 == 1) || ((b >> t) & 1 == 1)),
{
}

proof fn lemma_bit_and(a: u64, b: u64, t: u64)
    by (bit_vector)
    requires
        t < 64,
    ensures
        (((a & b) >> t) & 1 == 1) <==> (((a >> t) & 1 == 1) && ((b >> t) & 1 == 1)),
{
}

proof fn lemma_bit_not(a: u64, t: u64)
    by (bit_vector)
    requires
        t < 64,
    ensures
        (((!a) >> t) & 1 == 1) <==> !((a >> t) & 1 == 1),
{
}

proof fn lemma_bit_xor(a: u64, b: u64, t: u64)
    by (bit_vector)
    requires
        t < 64,
    ensures
        (((a ^ b) >> t) & 1 == 1) <==> (((a >> t) & 1 == 1) != ((b >> t) & 1 == 1)),
{
}

proof fn lemma_bit_zero(t: u64)
    by (bit_vector)
    requires
        t < 64,
    ensures
        (0u64 >> t) & 1 == 0,
{
}

proof fn lemma_xor_zero(a: u64, b: u64)
    by (bit_vector)
    ensures
        a ^ b == 0 <==> a == b,
{
}

/// The empty bitboard has no member.
pub proof fn lemma_holds_empty()
    ensures
        forall|t: int| !#[trigger] holds(0u64, t),
{
    assert forall|t: int| !#[trigger] holds(0u64, t) by {
        if 0 <= t < 64 {
            lemma_bit_zero(t as u64);
        }
    }
}

/// Union, intersection and complement of bitboards act member by member.
pub proof fn lemma_holds_ops(a: u64, b: u64)
    ensures
        forall|t: int| #[trigger] holds(a | b, t) == (holds(a, t) || holds(b, t)),
        forall|t: int| #[trigger] holds(a & b, t) == (holds(a, t) && holds(b, t)),
        forall|t: int| #[trigger] holds(a & !b, t) == (holds(a, t) && !holds(b, t)),
        forall|t: int| 0 <= t < 64 ==> #[trigger] holds(!a, t) == !holds(a, t),
{
    assert forall|t: int| #[trigger] holds(a | b, t) == (holds(a, t) || holds(b, t)) by {
        if 0 <= t < 64 {
            lemma_bit_or(a, b, t as u64);
        }
    }
    assert forall|t: int| #[trigger] holds(a & b, t) == (holds(a, t) && holds(b, t)) by {
        if 0 <= t < 64 {
            lemma_bit_and(a, b, t as u64);
        }
    }
    assert forall|t: int| #[trigger] holds(a & !b, t) == (holds(a, t) && !holds(b, t)) by {
        if 0 <= t < 64 {
            lemma_bit_and(a, !b, t as u64);
            lemma_bit_not(b, t as u64);
        }
    }
    assert forall|t: int| 0 <= t < 64 implies #[trigger] holds(!a, t) == !holds(a, t) by {
        lemma_bit_not(a, t as u64);
    }
}

/// A non-empty bitboard holds its lowest member, and nothing below it.
pub proof fn lemma_lowest(bb: u64)
    requires
        bb != 0,
    ensures
        0 <= lowest(bb) < 64,
        holds(bb, lowest(bb)),
        forall|t: int| 0 <= t < lowest(bb) ==> !#[trigger] holds(bb, t),
{
    axiom_u64_trailing_zeros(bb);
    let k = u64_trailing_zeros(bb);
    assert forall|t: int| 0 <= t < lowest(bb) implies !#[trigger] holds(bb, t) by {
        let j = t as u64;
        assert((bb >> j) & 1u64 == 0u64);
    }
}

/// Two bitboards with the same members are the same number.
pub proof fn lemma_same_members(a: u64, b: u64)
    requires
        forall|t: int| 0 <= t < 64 ==> holds(a, t) == holds(b, t),
    ensures
        a == b,
{
    let x = a ^ b;
    lemma_xor_zero(a, b);
    if x != 0 {
        lemma_lowest(x);
        let k = lowest(x);
        lemma_bit_xor(a, b, k as u64);
        assert(holds(a, k) == holds(b, k));
    }
}

/// The members of any bitboard are finitely many, at most 64.
pub proof fn lemma_squares_finite(bb: u64)
    ensures
        squares(bb).finite(),
        squares(bb).len() <= 64,
        bb == 0 <==> squares(bb).len() == 0,
{
    let all = vstd::set_lib::set_int_range(0, 64);
    vstd::set_lib::lemma_int_range(0, 64);
    assert(squares(bb).subset_of(all));
    vstd::set_lib::lemma_len_subset(squares(bb), all);
    if bb == 0 {
        lemma_holds_empty();
        assert(squares(bb) =~= Set::<int>::empty());
    } else {
        lemma_lowest(bb);
        assert(squares(bb).contains(lowest(bb)));
        if squares(bb).len() == 0 {
            squares(bb).lemma_len0_is_empty();
        }
    }
}

/// Tests whether `sq` is a member of `bb`.
pub fn get(bb: u64, sq: usize) -> (r: bool)
    requires
        sq < 64,
    ensures
        r == holds(bb, sq as int),
{
    (bb >> (sq as u64)) & 1 == 1
}

/// `bb` with `sq` added.
pub fn insert(bb: u64, sq: usize) -> (r: u64)
    requires
        sq < 64,
    ensures
        forall|t: int| #[trigger] holds(r, t) == (holds(bb, t) || t == sq),
{
    let r: u64 = bb | (1u64 << (sq as u64));
    proof {
        assert forall|t: int| #[trigger] holds(r, t) == (holds(bb, t) || t == sq) by {
            if 0 <= t < 64 {
                lemma_bit_set(bb, sq as u64, t as u64);
            }
        }
    }
    r
}

/// `bb` with `sq` removed.
pub fn remove(bb: u64, sq: usize) -> (r: u64)
    requires
        sq < 64,
    ensures
        forall|t: int| #[trigger] holds(r, t) == (holds(bb, t) && t != sq),
{
    let r: u64 = bb & !(1u64 << (sq as u64));
    proof {
        assert forall|t: int| #[trigger] holds(r, t) == (holds(bb, t) && t != sq) by {
            if 0 <= t < 64 {
                lemma_bit_clear(bb, sq as u64, t as u64);
            }
        }
    }
    r
}

/// The squares that are in `a` or in `b`.
pub fn union(a: u64, b: u64) -> (r: u64)
    ensures
        r == a | b,
        forall|t: int| #[trigger] holds(r, t) == (holds(a, t) || holds(b, t)),
{
    proof {
        lemma_holds_ops(a, b);
    }
    a | b
}

/// The squares that are in `a` and in `b`.
pub fn intersect(a: u64, b: u64) -> (r: u64)
    ensures
        r == a & b,
        forall|t: int| #[trigger] holds(r, t) == (holds(a, t) && holds(b, t)),
{
    proof {
        lemma_holds_ops(a, b);
    }
    a & b
}

/// The squares that are in `a` and not in `b`.
pub fn minus(a: u64, b: u64) -> (r: u64)
    ensures
        r == a & !b,
        forall|t: int| #[trigger] holds(r, t) == (holds(a, t) && !holds(b, t)),
{
    proof {
        lemma_holds_ops(a, b);
    }
    a & !b
}

/// The lowest member of a non-empty bitboard.
pub fn lsb(bb: u64) -> (r: usize)
    requires
        bb != 0,
    ensures
        r == lowest(bb),
        r < 64,
        holds(bb, r as int),
        forall|t: int| 0 <= t < r ==> !#[trigger] holds(bb, t),
{
    proof {
        lemma_lowest(bb);
    }
    bb.trailing_zeros() as usize
}

/// Removes the lowest member of a non-empty bitboard and returns it.
pub fn pop_lsb(bb: &mut u64) -> (r: usize)
    requires
        *old(bb) != 0,
    ensures
        r == lowest(*old(bb)),
        r < 64,
        holds(*old(bb), r as int),
        forall|t: int| #[trigger] holds(*final(bb), t) == (holds(*old(bb), t) && t != r),
        squares(*final(bb)).len() + 1 == squares(*old(bb)).len(),
{
    let k: usize = lsb(*bb);
    let next: u64 = remove(*bb, k);
    proof {
        lemma_squares_finite(*bb);
        assert(squares(next) =~= squares(*bb).remove(k as int));
    }
    *bb = next;
    k
}

/// The number of members of `bb`.
pub fn count(bb: u64) -> (n: u32)
    ensures
        n == squares(bb).len(),
        n <= 64,
{
    let mut rest: u64 = bb;
    let mut n: u32 = 0;
    proof {
        lemma_squares_finite(bb);
    }
    while rest != 0
        invariant
            n + squares(rest).len() == squares(bb).len(),
            squares(bb).len() <= 64,
        decreases squares(rest).len(),
    {
        let _ = pop_lsb(&mut rest);
        n = n + 1;
    }
    proof {
        lemma_squares_finite(rest);
    }
    n
}

} // verus!
