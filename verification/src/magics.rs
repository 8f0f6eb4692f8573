//! Lookup tables for the sliding pieces, indexed by multiplicative hashing.
//!
//! For every square the table of a piece holds one attack set for each way
//! of occupying the squares that matter to the piece there. The slot of an
//! occupancy is found by multiplying it with the square's multiplier and
//! keeping the top bits of the product. A multiplier is usable if no two
//! occupancies with different attack sets share a slot; that is checked
//! while the table is filled. A square whose multiplier fails the check is
//! answered by walking the lines instead, so every answer is right whatever
//! the multipliers are.
use vstd::prelude::*;
use crate::bb::{count, holds, intersect, lemma_holds_ops, lemma_same_members, squares};
use crate::geometry::{bishop_inner, bishop_reach, lemma_slide_local, rook_inner, rook_reach};
use crate::magic_consts::{BISHOP_MAGICS, ROOK_MAGICS};
use crate::rays::{bishop_relevant, bishop_rays, rook_relevant, rook_rays};

verus! {

/// What a bishop (`diagonal`) or a rook on `from` attacks.
pub open spec fn line_reach(diagonal: bool, from: int, to: int, occ: Set<int>) -> bool {
    if diagonal {
        bishop_reach(from, to, occ)
    } else {
        rook_reach(from, to, occ)
    }
}

/// The squares whose occupancy matters to a bishop (`diagonal`) or a rook
/// on `from`.
pub open spec fn line_inner(diagonal: bool, from: int, m: int) -> bool {
    if diagonal {
        bishop_inner(from, m)
    } else {
        rook_inner(from, m)
    }
}

/// The slot of occupancy `x` in a table with the given multiplier and shift.
pub open spec fn magic_index(x: u64, magic: u64, shift: u64) -> int {
    (x.wrapping_mul(magic) >> shift) as int
}

/// `e` is the attack set of the piece on `sq` when the board is occupied at `x`.
pub open spec fn entry_ok(e: u64, diagonal: bool, sq: int, x: u64) -> bool {
    forall|t: int| #[trigger] holds(e, t) == line_reach(diagonal, sq, t, squares(x))
}

/// The slot of occupancy `x` exists in `table` and holds the attack set for `x`.
pub open spec fn slot_ok(
    table: Seq<u64>,
    diagonal: bool,
    sq: int,
    magic: u64,
    shift: u64,
    x: u64,
) -> bool {
    let i = magic_index(x, magic, shift);
    0 <= i < table.len() && entry_ok(table[i], diagonal, sq, x)
}

/// `table` answers every occupancy of the squares in `mask` for the piece on `sq`.
pub open spec fn table_ok(
    table: Seq<u64>,
    diagonal: bool,
    sq: int,
    mask: u64,
    magic: u64,
    shift: u64,
) -> bool {
    shift < 64 && forall|x: u64|
        x & !mask == 0 ==> #[trigger] slot_ok(table, diagonal, sq, magic, shift, x)
}

/// A piece on `sq` attacks the same squares whether the board is occupied
/// at `x` or at `y`.
pub open spec fn same_reach(diagonal: bool, sq: int, x: u64, y: u64) -> bool {
    forall|t: int|
        line_reach(diagonal, sq, t, squares(x)) == line_reach(diagonal, sq, t, squares(y))
}

/// The multiplier is usable: no two occupancies of the squares in `mask`
/// with different attack sets share a slot.
pub open spec fn collision_free(diagonal: bool, sq: int, mask: u64, magic: u64, shift: u64) -> bool {
    forall|x: u64, y: u64|
        x & !mask == 0 && y & !mask == 0 && #[trigger] magic_index(x, magic, shift)
            == #[trigger] magic_index(y, magic, shift) ==> same_reach(diagonal, sq, x, y)
}

/// A multiplier is accepted for a square exactly if the square has between
/// 1 and 12 relevant squares and the multiplier is usable with the shift
/// that leaves as many bits as there are relevant squares.
pub open spec fn accepted(diagonal: bool, sq: int, mask: u64, magic: u64) -> bool {
    let bits = squares(mask).len();
    1 <= bits <= 12 && collision_free(diagonal, sq, mask, magic, (64 - bits) as u64)
}

proof fn lemma_index_bound(v: u64, bits: u64)
    by (bit_vector)
    requires
        1 <= bits <= 12,
    ensures
        (v >> ((64 - bits) as u64)) < (1u64 << bits),
        (1u64 << bits) <= 4096,
{
}

proof fn lemma_next_subset(s: u64, m: u64, x: u64)
    by (bit_vector)
    requires
        s & !m == 0,
        s != m,
    ensures
        (s | !m) < 0xffff_ffff_ffff_ffffu64,
        ((((s | !m) + 1) as u64) & m) & !m == 0,
        ((((s | !m) + 1) as u64) & m) > s,
        x & !m == 0 && x > s ==> ((((s | !m) + 1) as u64) & m) <= x,
{
}

proof fn lemma_subset(x: u64, m: u64)
    by (bit_vector)
    ensures
        x & !m == 0 ==> x <= m,
        (x & m) & !m == 0,
        0u64 & !m == 0,
{
}

/// A vector of `n` copies of `v`.
fn filled(n: usize, v: u64) -> (r: Vec<u64>)
    ensures
        r@.len() == n,
        forall|i: int| 0 <= i < n ==> r@[i] == v,
{
    let mut r: Vec<u64> = Vec::new();
    let mut i: usize = 0;
    while i < n
        invariant
            i <= n,
            r@.len() == i,
            forall|j: int| 0 <= j < i ==> r@[j] == v,
        decreases n - i,
    {
        r.push(v);
        i = i + 1;
    }
    r
}

/// A vector of `n` times `false`.
fn unmarked(n: usize) -> (r: Vec<bool>)
    ensures
        r@.len() == n,
        forall|i: int| 0 <= i < n ==> !r@[i],
{
    let mut r: Vec<bool> = Vec::new();
    let mut i: usize = 0;
    while i < n
        invariant
            i <= n,
            r@.len() == i,
            forall|j: int| 0 <= j < i ==> !r@[j],
        decreases n - i,
    {
        r.push(false);
        i = i + 1;
    }
    r
}

/// The slot of `x` was filled, with the attack set for `x`.
spec fn seen(
    table: Seq<u64>,
    used: Seq<bool>,
    diagonal: bool,
    sq: int,
    magic: u64,
    shift: u64,
    x: u64,
) -> bool {
    let i = magic_index(x, magic, shift);
    0 <= i < table.len() && i < used.len() && used[i] && entry_ok(table[i], diagonal, sq, x)
}

/// What `build_square` hands back for one square.
pub struct SquareTable {
    pub mask: u64,
    pub shift: u64,
    pub exact: bool,
    pub attacks: Vec<u64>,
}

/// Fills the table of one square with the given multiplier, and checks the
/// multiplier on the way: `exact` is set only if every occupancy of the
/// relevant squares finds its own attack set in its slot.
pub fn build_square(diagonal: bool, sq: usize, magic: u64) -> (r: SquareTable)
    requires
        sq < 64,
    ensures
        forall|m: int| #[trigger] holds(r.mask, m) == line_inner(diagonal, sq as int, m),
        r.exact == accepted(diagonal, sq as int, r.mask, magic),
        r.exact ==> r.shift == 64 - squares(r.mask).len(),
        r.exact ==> table_ok(r.attacks@, diagonal, sq as int, r.mask, magic, r.shift),
{
    let mask: u64 = if diagonal {
        bishop_relevant(sq)
    } else {
        rook_relevant(sq)
    };
    let bits: u32 = count(mask);
    if bits == 0 || bits > 12 {
        return SquareTable { mask, shift: 0, exact: false, attacks: Vec::new() };
    }
    let shift: u64 = 64 - bits as u64;
    proof {
        lemma_index_bound(0, bits as u64);
    }
    let size: usize = (1u64 << (bits as u64)) as usize;
    let mut table: Vec<u64> = filled(size, 0);
    let mut used: Vec<bool> = unmarked(size);
    let mut subset: u64 = 0;
    let mut ok: bool = true;
    let mut going: bool = true;
    let ghost mut owner: Seq<u64> = Seq::new(size as nat, |j: int| 0u64);
    proof {
        lemma_subset(0, mask);
    }
    while going
        invariant
            sq < 64,
            1 <= bits <= 12,
            shift == 64 - bits,
            owner.len() == size,
            forall|j: int|
                0 <= j < size && used@[j] ==> (#[trigger] owner[j]) & !mask == 0 && magic_index(
                    owner[j],
                    magic,
                    shift,
                ) == j && entry_ok(table@[j], diagonal, sq as int, owner[j]),
            !ok ==> !collision_free(diagonal, sq as int, mask, magic, shift),
            size == (1u64 << (bits as u64)),
            table@.len() == size,
            used@.len() == size,
            subset & !mask == 0,
            going ==> ok,
            ok ==> forall|x: u64|
                x & !mask == 0 && x < subset ==> #[trigger] seen(
                    table@,
                    used@,
                    diagonal,
                    sq as int,
                    magic,
                    shift,
                    x,
                ),
            !going && ok ==> forall|x: u64|
                x & !mask == 0 ==> #[trigger] seen(
                    table@,
                    used@,
                    diagonal,
                    sq as int,
                    magic,
                    shift,
                    x,
                ),
        decreases
                (if going {
                    mask - subset + 1
                } else {
                    0
                }),
    {
        let attack: u64 = if diagonal {
            bishop_rays(sq, subset)
        } else {
            rook_rays(sq, subset)
        };
        let i: usize = (subset.wrapping_mul(magic) >> shift) as usize;
        proof {
            lemma_index_bound(subset.wrapping_mul(magic), bits as u64);
            lemma_subset(subset, mask);
        }
        let ghost table0 = table@;
        let ghost used0 = used@;
        if !used[i] {
            table.set(i, attack);
            used.set(i, true);
            proof {
                owner = owner.update(i as int, subset);
            }
        } else if table[i] != attack {
            ok = false;
            proof {
                let x = owner[i as int];
                if same_reach(diagonal, sq as int, x, subset) {
                    lemma_same_members(table@[i as int], attack);
                }
                assert(magic_index(x, magic, shift) == magic_index(subset, magic, shift));
            }
        }
        proof {
            if ok {
                assert(seen(table@, used@, diagonal, sq as int, magic, shift, subset));
                assert forall|x: u64| x & !mask == 0 && x < subset implies #[trigger] seen(
                    table@,
                    used@,
                    diagonal,
                    sq as int,
                    magic,
                    shift,
                    x,
                ) by {
                    assert(seen(table0, used0, diagonal, sq as int, magic, shift, x));
                }
            }
        }
        if !ok || subset == mask {
            going = false;
            proof {
                if ok {
                    assert forall|x: u64| x & !mask == 0 implies #[trigger] seen(
                        table@,
                        used@,
                        diagonal,
                        sq as int,
                        magic,
                        shift,
                        x,
                    ) by {
                        lemma_subset(x, mask);
                    }
                }
            }
        } else {
            proof {
                lemma_next_subset(subset, mask, 0);
            }
            let next: u64 = ((subset | !mask) + 1) & mask;
            proof {
                lemma_subset(next, mask);
                assert forall|x: u64| x & !mask == 0 && x < next implies #[trigger] seen(
                    table@,
                    used@,
                    diagonal,
                    sq as int,
                    magic,
                    shift,
                    x,
                ) by {
                    lemma_next_subset(subset, mask, x);
                }
            }
            subset = next;
        }
    }
    proof {
        if ok {
            assert forall|x: u64| x & !mask == 0 implies #[trigger] slot_ok(
                table@,
                diagonal,
                sq as int,
                magic,
                shift,
                x,
            ) by {
                assert(seen(table@, used@, diagonal, sq as int, magic, shift, x));
            }
            assert forall|x: u64, y: u64|
                x & !mask == 0 && y & !mask == 0 && #[trigger] magic_index(x, magic, shift)
                    == #[trigger] magic_index(y, magic, shift) implies same_reach(
                diagonal,
                sq as int,
                x,
                y,
            ) by {
                assert(slot_ok(table@, diagonal, sq as int, magic, shift, x));
                assert(slot_ok(table@, diagonal, sq as int, magic, shift, y));
                let e = table@[magic_index(x, magic, shift)];
                assert forall|t: int|
                    line_reach(diagonal, sq as int, t, squares(x)) == line_reach(
                        diagonal,
                        sq as int,
                        t,
                        squares(y),
                    ) by {
                    assert(holds(e, t) == line_reach(diagonal, sq as int, t, squares(x)));
                    assert(holds(e, t) == line_reach(diagonal, sq as int, t, squares(y)));
                }
            }
        }
    }
    SquareTable { mask, shift, exact: ok, attacks: table }
}

/// The multiplier of square `sq` for the bishop (`diagonal`) or the rook.
pub open spec fn multiplier(diagonal: bool, sq: int) -> u64 {
    if diagonal {
        BISHOP_MAGICS[sq]
    } else {
        ROOK_MAGICS[sq]
    }
}

/// The attack tables of the bishop or of the rook, for all squares.
pub struct SliderTable {
    pub diagonal: bool,
    pub magics: Vec<u64>,
    pub squares: Vec<SquareTable>,
}

impl SliderTable {
    /// The table of square `sq` is sound.
    pub open spec fn square_ok(&self, sq: int) -> bool {
        let t = self.squares@[sq];
        &&& forall|m: int| #[trigger] holds(t.mask, m) == line_inner(self.diagonal, sq, m)
        &&& t.exact == accepted(self.diagonal, sq, t.mask, self.magics@[sq])
        &&& t.exact ==> t.shift == 64 - squares(t.mask).len()
        &&& t.exact ==> table_ok(t.attacks@, self.diagonal, sq, t.mask, self.magics@[sq], t.shift)
    }

    /// Every square has a sound table.
    pub open spec fn wf(&self) -> bool {
        &&& self.magics@.len() == 64
        &&& self.squares@.len() == 64
        &&& forall|sq: int| 0 <= sq < 64 ==> #[trigger] self.square_ok(sq)
    }

    /// Builds the tables of the bishop (`diagonal`) or of the rook, with
    /// the multipliers of `BISHOP_MAGICS` or `ROOK_MAGICS`.
    pub fn new(diagonal: bool) -> (r: SliderTable)
        ensures
            r.wf(),
            r.diagonal == diagonal,
            forall|sq: int| 0 <= sq < 64 ==> #[trigger] r.magics@[sq] == multiplier(diagonal, sq),
    {
        let mut magics: Vec<u64> = Vec::new();
        let mut tables: Vec<SquareTable> = Vec::new();
        let mut sq: usize = 0;
        while sq < 64
            invariant
                sq <= 64,
                magics@.len() == sq,
                tables@.len() == sq,
                forall|s: int| 0 <= s < sq ==> #[trigger] magics@[s] == multiplier(diagonal, s),
                forall|s: int|
                    0 <= s < sq ==> #[trigger] (SliderTable {
                        diagonal,
                        magics,
                        squares: tables,
                    }).square_ok(s),
            decreases 64 - sq,
        {
            let magic: u64 = if diagonal {
                BISHOP_MAGICS[sq]
            } else {
                ROOK_MAGICS[sq]
            };
            let t = build_square(diagonal, sq, magic);
            let ghost before = SliderTable { diagonal, magics, squares: tables };
            magics.push(magic);
            tables.push(t);
            proof {
                let after = SliderTable { diagonal, magics, squares: tables };
                assert forall|s: int| 0 <= s < sq + 1 implies #[trigger] after.square_ok(s) by {
                    if s < sq {
                        assert(before.square_ok(s));
                    }
                }
            }
            sq = sq + 1;
        }
        SliderTable { diagonal, magics, squares: tables }
    }

    /// Whether the multiplier of `sq` passed its check, so that `sq` is
    /// answered from the table.
    pub fn is_exact(&self, sq: usize) -> (r: bool)
        requires
            self.wf(),
            sq < 64,
        ensures
            r == self.squares@[sq as int].exact,
    {
        self.squares[sq].exact
    }

    /// The squares that the piece on `sq` attacks on a board occupied at `occ`.
    pub fn attacks(&self, sq: usize, occ: u64) -> (bb: u64)
        requires
            self.wf(),
            sq < 64,
        ensures
            forall|t: int| #[trigger]
                holds(bb, t) == line_reach(self.diagonal, sq as int, t, squares(occ)),
    {
        assert(self.square_ok(sq as int));
        let entry = &self.squares[sq];
        if entry.exact {
            let x: u64 = intersect(occ, entry.mask);
            let h: u64 = x.wrapping_mul(self.magics[sq]) >> entry.shift;
            let n: usize = entry.attacks.len();
            proof {
                lemma_subset(occ, entry.mask);
                assert(slot_ok(
                    entry.attacks@,
                    self.diagonal,
                    sq as int,
                    self.magics@[sq as int],
                    entry.shift,
                    x,
                ));
                lemma_masked_reach(self.diagonal, sq as int, occ, entry.mask);
                assert(h < n);
            }
            entry.attacks[h as usize]
        } else if self.diagonal {
            bishop_rays(sq, occ)
        } else {
            rook_rays(sq, occ)
        }
    }
}

/// Only the relevant squares decide an attack set: masking the occupancy
/// with them changes nothing.
pub proof fn lemma_masked_reach(diagonal: bool, sq: int, occ: u64, mask: u64)
    requires
        0 <= sq < 64,
        forall|m: int| #[trigger] holds(mask, m) == line_inner(diagonal, sq, m),
    ensures
        forall|t: int|
            line_reach(diagonal, sq, t, squares(occ)) == line_reach(
                diagonal,
                sq,
                t,
                squares(occ & mask),
            ),
{
    lemma_holds_ops(occ, mask);
    let o1 = squares(occ);
    let o2 = squares(occ & mask);
    assert forall|t: int|
        line_reach(diagonal, sq, t, o1) == line_reach(diagonal, sq, t, o2) by {
        if diagonal {
            lemma_slide_local(sq, t, o1, o2, -1, -1);
            lemma_slide_local(sq, t, o1, o2, -1, 1);
            lemma_slide_local(sq, t, o1, o2, 1, -1);
            lemma_slide_local(sq, t, o1, o2, 1, 1);
        } else {
            lemma_slide_local(sq, t, o1, o2, -1, 0);
            lemma_slide_local(sq, t, o1, o2, 1, 0);
            lemma_slide_local(sq, t, o1, o2, 0, -1);
            lemma_slide_local(sq, t, o1, o2, 0, 1);
        }
    }
}

} // verus!
