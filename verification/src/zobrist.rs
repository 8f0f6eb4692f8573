//! Position hashing: every feature of a position has a fixed random number,
//! and the hash of a position is the exclusive or of the numbers of its
//! features. Two independent tables give two hashes, `key` and `lock`.
use vstd::prelude::*;
use crate::board::{Board, BoardView};
use crate::consts::{col_of, Piece, PieceColor};

verus! {

/// The seed of the table behind `key`.
pub const KEY_SEED: u64 = 0x9E37_79B9_7F4A_7C15;

/// The seed of the table behind `lock`.
pub const LOCK_SEED: u64 = 0xD1B5_4A32_D192_ED03;

/// The number that follows `x` in the pseudo-random sequence.
pub open spec fn next_random(x: u64) -> u64 {
    let a = x ^ (x << 13);
    let b = a ^ (a >> 7);
    b ^ (b << 17)
}

/// The `n`-th number of the pseudo-random sequence that starts after `seed`.
pub open spec fn stream(seed: u64, n: nat) -> u64
    decreases n,
{
    if n == 0 {
        seed
    } else {
        next_random(stream(seed, (n - 1) as nat))
    }
}

/// The next number of the sequence.
fn advance(x: u64) -> (r: u64)
    ensures
        r == next_random(x),
{
    let a: u64 = x ^ (x << 13);
    let b: u64 = a ^ (a >> 7);
    b ^ (b << 17)
}

/// The numbers `from + 1` to `from + n` of the sequence of `seed`, and the
/// last of them again.
fn draw(Ghost(seed): Ghost<u64>, from: usize, n: usize, state: u64) -> (r: (Vec<u64>, u64))
    requires
        state == stream(seed, from as nat),
        from + n <= usize::MAX,
    ensures
        r.0@.len() == n,
        forall|i: int| 0 <= i < n ==> #[trigger] r.0@[i] == stream(seed, (from + i + 1) as nat),
        r.1 == stream(seed, (from + n) as nat),
{
    let mut v: Vec<u64> = Vec::new();
    let mut x: u64 = state;
    let mut i: usize = 0;
    while i < n
        invariant
            i <= n,
            from + n <= usize::MAX,
            v@.len() == i,
            x == stream(seed, (from + i) as nat),
            forall|j: int| 0 <= j < i ==> #[trigger] v@[j] == stream(seed, (from + j + 1) as nat),
        decreases n - i,
    {
        x = advance(x);
        v.push(x);
        i = i + 1;
    }
    (v, x)
}

/// One random number for every feature of a position.
pub struct ZobristTable {
    /// For piece number `p` on square `s`, entry `64 * p + s`.
    pub pieces: Vec<u64>,
    /// For every value of the castling-rights mask.
    pub castling: Vec<u64>,
    /// For every file on which an en-passant square can lie.
    pub enpassant: Vec<u64>,
    /// For the dark side being to move.
    pub side: u64,
}

impl ZobristTable {
    /// The table has an entry for every feature.
    pub open spec fn wf(&self) -> bool {
        &&& self.pieces@.len() == 768
        &&& self.castling@.len() == 16
        &&& self.enpassant@.len() == 8
    }

    /// The table holds the first 793 numbers of the sequence of `seed`: the
    /// pieces first, then the castling rights, the files, and the side.
    pub open spec fn drawn_from(&self, seed: u64) -> bool {
        &&& self.wf()
        &&& forall|i: int| 0 <= i < 768 ==> #[trigger] self.pieces@[i] == stream(seed, (i + 1) as nat)
        &&& forall|i: int|
            0 <= i < 16 ==> #[trigger] self.castling@[i] == stream(seed, (i + 769) as nat)
        &&& forall|i: int|
            0 <= i < 8 ==> #[trigger] self.enpassant@[i] == stream(seed, (i + 785) as nat)
        &&& self.side == stream(seed, 793)
    }

    /// The number of what stands on square `sq`: 0 for an empty square.
    pub open spec fn square_term(&self, men: Seq<Option<Piece>>, sq: int) -> u64 {
        match men[sq] {
            Some(p) => self.pieces@[64 * p.idx() + sq],
            None => 0,
        }
    }

    /// The exclusive or of the numbers of the men on the first `n` squares.
    pub open spec fn placement_hash(&self, men: Seq<Option<Piece>>, n: int) -> u64
        decreases n,
    {
        if n <= 0 {
            0
        } else {
            self.placement_hash(men, n - 1) ^ self.square_term(men, n - 1)
        }
    }

    /// The number of the en-passant file, 0 if there is no en-passant square.
    pub open spec fn enpassant_term(&self, enpassant: usize) -> u64 {
        if enpassant < 64 {
            self.enpassant@[col_of(enpassant as int)]
        } else {
            0
        }
    }

    /// The number of the side to move: 0 for light.
    pub open spec fn side_term(&self, side: PieceColor) -> u64 {
        if side == PieceColor::Dark {
            self.side
        } else {
            0
        }
    }

    /// The hash of a position: the exclusive or of the numbers of its men,
    /// its castling rights, its en-passant file and its side to move.
    pub open spec fn hash(&self, v: BoardView) -> u64 {
        self.placement_hash(v.men, 64) ^ self.castling@[v.castling as int] ^ self.enpassant_term(
            v.enpassant,
        ) ^ self.side_term(v.side)
    }

    /// The table drawn from the pseudo-random sequence of `seed`.
    pub fn new(seed: u64) -> (r: ZobristTable)
        ensures
            r.drawn_from(seed),
    {
        let (pieces, x) = draw(Ghost(seed), 0, 768, seed);
        let (castling, y) = draw(Ghost(seed), 768, 16, x);
        let (enpassant, z) = draw(Ghost(seed), 784, 8, y);
        let side: u64 = advance(z);
        ZobristTable { pieces, castling, enpassant, side }
    }
}

/// The two tables from which `key` and `lock` are computed.
pub struct ZobristInfo {
    pub key: ZobristTable,
    pub lock: ZobristTable,
}

impl ZobristInfo {
    /// Both tables have an entry for every feature.
    pub open spec fn wf(&self) -> bool {
        self.key.wf() && self.lock.wf()
    }

    /// `board` carries the two hashes of its own contents.
    pub open spec fn hashes(&self, board: Board) -> bool {
        board.state.key == self.key.hash(board@) && board.state.lock == self.lock.hash(board@)
    }

    /// The two tables, each drawn from the sequence of its own seed. Every
    /// call gives the same tables.
    pub fn new() -> (r: ZobristInfo)
        ensures
            r.wf(),
            r.key.drawn_from(KEY_SEED),
            r.lock.drawn_from(LOCK_SEED),
    {
        ZobristInfo { key: ZobristTable::new(KEY_SEED), lock: ZobristTable::new(LOCK_SEED) }
    }
}

/// The hash of `board` by `table`.
pub fn gen_board_key(table: &ZobristTable, board: &Board) -> (h: u64)
    requires
        table.wf(),
        board.state.castling < 16,
    ensures
        h == table.hash(board@),
{
    let ghost men = board@.men;
    let mut h: u64 = 0;
    let mut sq: usize = 0;
    while sq < 64
        invariant
            sq <= 64,
            table.wf(),
            men == board@.men,
            h == table.placement_hash(men, sq as int),
        decreases 64 - sq,
    {
        let term: u64 = match board.find_piece(sq) {
            Some(p) => table.pieces[64 * p.index() + sq],
            None => 0,
        };
        h = h ^ term;
        sq = sq + 1;
    }
    let ep: usize = board.state.enpassant;
    let file: u64 = if ep < 64 {
        table.enpassant[ep % 8]
    } else {
        0
    };
    let turn: u64 = match board.state.side {
        PieceColor::Dark => table.side,
        _ => 0,
    };
    h ^ table.castling[board.state.castling as usize] ^ file ^ turn
}

/// The second hash of `board`: computed as the first, by the other table.
pub fn gen_board_lock(table: &ZobristTable, board: &Board) -> (h: u64)
    requires
        table.wf(),
        board.state.castling < 16,
    ensures
        h == table.hash(board@),
{
    gen_board_key(table, board)
}

/// The hash depends on nothing but the men, the castling rights, the file of
/// the en-passant square and the side to move: two positions that agree in
/// these have the same hash, whatever their move counters are and however
/// they came about.
pub proof fn lemma_hash_by_contents(table: ZobristTable, a: BoardView, b: BoardView)
    requires
        a.men == b.men,
        a.castling == b.castling,
        a.side == b.side,
        (a.enpassant >= 64 && b.enpassant >= 64) || (a.enpassant < 64 && b.enpassant < 64 && col_of(
            a.enpassant as int,
        ) == col_of(b.enpassant as int)),
    ensures
        table.hash(a) == table.hash(b),
{
}

} // verus!
