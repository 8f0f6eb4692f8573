//! The attack tables: for every piece and square, the squares attacked.
use vstd::prelude::*;
use crate::bb::{holds, squares, union};
use crate::consts::{PieceColor, PieceType};
use crate::geometry::{
    attacks, bishop_reach, king_step, knight_step, pawn_attack, queen_reach, rook_reach,
};
use crate::magics::SliderTable;
use crate::rays::{king_mask, knight_mask, pawn_mask};

verus! {

/// One attack set per square, each computed by `mask`.
fn leaper_table(kind: PieceType, color: PieceColor) -> (r: Vec<u64>)
    requires
        kind == PieceType::Pawn || kind == PieceType::Knight || kind == PieceType::King,
    ensures
        r@.len() == 64,
        forall|sq: int, t: int|
            0 <= sq < 64 ==> #[trigger] holds(r@[sq], t) == attacks(
                kind,
                color,
                sq,
                t,
                Set::empty(),
            ),
{
    let mut r: Vec<u64> = Vec::new();
    let mut sq: usize = 0;
    while sq < 64
        invariant
            sq <= 64,
            r@.len() == sq,
            kind == PieceType::Pawn || kind == PieceType::Knight || kind == PieceType::King,
            forall|s: int, t: int|
                0 <= s < sq ==> #[trigger] holds(r@[s], t) == attacks(
                    kind,
                    color,
                    s,
                    t,
                    Set::empty(),
                ),
        decreases 64 - sq,
    {
        let bb: u64 = match kind {
            PieceType::Pawn => pawn_mask(color, sq),
            PieceType::Knight => knight_mask(sq),
            _ => king_mask(sq),
        };
        r.push(bb);
        sq = sq + 1;
    }
    r
}

/// All attack tables. Built once, never changed.
pub struct AttackInfo {
    /// The attacks of a light pawn on each square.
    pub light_pawn: Vec<u64>,
    /// The attacks of a dark pawn on each square.
    pub dark_pawn: Vec<u64>,
    /// The attacks of a knight on each square.
    pub knight: Vec<u64>,
    /// The attacks of a king on each square.
    pub king: Vec<u64>,
    /// The tables of the bishop.
    pub bishop: SliderTable,
    /// The tables of the rook.
    pub rook: SliderTable,
}

impl AttackInfo {
    /// Every table holds, for every square, exactly the squares attacked.
    pub open spec fn wf(&self) -> bool {
        &&& self.light_pawn@.len() == 64
        &&& self.dark_pawn@.len() == 64
        &&& self.knight@.len() == 64
        &&& self.king@.len() == 64
        &&& forall|sq: int, t: int|
            0 <= sq < 64 ==> #[trigger] holds(self.light_pawn@[sq], t) == pawn_attack(
                PieceColor::Light,
                sq,
                t,
            )
        &&& forall|sq: int, t: int|
            0 <= sq < 64 ==> #[trigger] holds(self.dark_pawn@[sq], t) == pawn_attack(
                PieceColor::Dark,
                sq,
                t,
            )
        &&& forall|sq: int, t: int|
            0 <= sq < 64 ==> #[trigger] holds(self.knight@[sq], t) == knight_step(sq, t)
        &&& forall|sq: int, t: int|
            0 <= sq < 64 ==> #[trigger] holds(self.king@[sq], t) == king_step(sq, t)
        &&& self.bishop.wf()
        &&& self.bishop.diagonal
        &&& self.rook.wf()
        &&& !self.rook.diagonal
    }

    /// Builds all tables.
    pub fn new() -> (r: AttackInfo)
        ensures
            r.wf(),
    {
        AttackInfo {
            light_pawn: leaper_table(PieceType::Pawn, PieceColor::Light),
            dark_pawn: leaper_table(PieceType::Pawn, PieceColor::Dark),
            knight: leaper_table(PieceType::Knight, PieceColor::Both),
            king: leaper_table(PieceType::King, PieceColor::Both),
            bishop: SliderTable::new(true),
            rook: SliderTable::new(false),
        }
    }

    /// The squares that a pawn of `color` on `sq` attacks; `Both` counts as dark.
    pub fn get_pawn_attack(&self, color: PieceColor, sq: usize) -> (bb: u64)
        requires
            self.wf(),
            sq < 64,
        ensures
            forall|t: int| #[trigger] holds(bb, t) == pawn_attack(color, sq as int, t),
    {
        match color {
            PieceColor::Light => self.light_pawn[sq],
            _ => self.dark_pawn[sq],
        }
    }

    /// The squares that a knight on `sq` attacks.
    pub fn get_knight_attack(&self, sq: usize) -> (bb: u64)
        requires
            self.wf(),
            sq < 64,
        ensures
            forall|t: int| #[trigger] holds(bb, t) == knight_step(sq as int, t),
    {
        self.knight[sq]
    }

    /// The squares that a king on `sq` attacks.
    pub fn get_king_attack(&self, sq: usize) -> (bb: u64)
        requires
            self.wf(),
            sq < 64,
        ensures
            forall|t: int| #[trigger] holds(bb, t) == king_step(sq as int, t),
    {
        self.king[sq]
    }

    /// The squares that a bishop on `sq` attacks on a board occupied at `occ`.
    pub fn get_bishop_attack(&self, sq: usize, occ: u64) -> (bb: u64)
        requires
            self.wf(),
            sq < 64,
        ensures
            forall|t: int| #[trigger] holds(bb, t) == bishop_reach(sq as int, t, squares(occ)),
    {
        self.bishop.attacks(sq, occ)
    }

    /// The squares that a rook on `sq` attacks on a board occupied at `occ`.
    pub fn get_rook_attack(&self, sq: usize, occ: u64) -> (bb: u64)
        requires
            self.wf(),
            sq < 64,
        ensures
            forall|t: int| #[trigger] holds(bb, t) == rook_reach(sq as int, t, squares(occ)),
    {
        self.rook.attacks(sq, occ)
    }

    /// The squares that a queen on `sq` attacks on a board occupied at `occ`:
    /// those of a bishop together with those of a rook.
    pub fn get_queen_attack(&self, sq: usize, occ: u64) -> (bb: u64)
        requires
            self.wf(),
            sq < 64,
        ensures
            forall|t: int| #[trigger] holds(bb, t) == queen_reach(sq as int, t, squares(occ)),
    {
        union(self.bishop.attacks(sq, occ), self.rook.attacks(sq, occ))
    }

    /// The squares that a piece of the given kind and colour on `sq` attacks
    /// on a board occupied at `occ`.
    pub fn get_attack(&self, kind: PieceType, color: PieceColor, sq: usize, occ: u64) -> (bb: u64)
        requires
            self.wf(),
            sq < 64,
        ensures
            forall|t: int| #[trigger]
                holds(bb, t) == attacks(kind, color, sq as int, t, squares(occ)),
    {
        match kind {
            PieceType::Pawn => self.get_pawn_attack(color, sq),
            PieceType::Knight => self.get_knight_attack(sq),
            PieceType::Bishop => self.get_bishop_attack(sq, occ),
            PieceType::Rook => self.get_rook_attack(sq, occ),
            PieceType::Queen => self.get_queen_attack(sq, occ),
            PieceType::King => self.get_king_attack(sq),
        }
    }
}

} // verus!
