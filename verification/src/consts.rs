//! Squares, colours and pieces.
//!
//! Squares are numbered 0 to 63 row by row, starting with a8: square 0 is a8,
//! square 7 is h8 and square 63 is h1. Light pawns therefore advance towards
//! lower numbers.
use vstd::prelude::*;

verus! {

/// The value that stands for "no square".
pub const NO_SQ: usize = 64;

/// The row of a square, counted from the eighth rank downwards.
pub open spec fn row_of(sq: int) -> int {
    sq / 8
}

/// The column (file) of a square, counted from the a-file.
pub open spec fn col_of(sq: int) -> int {
    sq % 8
}

/// The square in row `r` and column `c`.
pub open spec fn square_at(r: int, c: int) -> int {
    r * 8 + c
}

/// Row `r` and column `c` name a square of the board.
pub open spec fn on_board(r: int, c: int) -> bool {
    0 <= r < 8 && 0 <= c < 8
}

/// The row of a square.
pub fn row(sq: usize) -> (r: usize)
    ensures
        r == row_of(sq as int),
{
    sq / 8
}

/// The column of a square.
pub fn col(sq: usize) -> (c: usize)
    ensures
        c == col_of(sq as int),
{
    sq % 8
}

/// The square in row `r` and column `c`.
pub fn sq(r: usize, c: usize) -> (s: usize)
    requires
        r < 8,
        c < 8,
    ensures
        s == square_at(r as int, c as int),
        s < 64,
        row_of(s as int) == r,
        col_of(s as int) == c,
{
    r * 8 + c
}

#[derive(Clone, Copy, Debug, PartialEq, Eq, Structural)]
/// The two sides, and `Both` for what belongs to either.
pub enum PieceColor {
    Light,
    Dark,
    Both,
}

impl PieceColor {
    /// 0 for light, 1 for dark, 2 for both.
    pub open spec fn idx(self) -> int {
        match self {
            PieceColor::Light => 0,
            PieceColor::Dark => 1,
            PieceColor::Both => 2,
        }
    }

    /// The other side; `Both` has no other side and stays.
    pub open spec fn other(self) -> PieceColor {
        match self {
            PieceColor::Light => PieceColor::Dark,
            PieceColor::Dark => PieceColor::Light,
            PieceColor::Both => PieceColor::Both,
        }
    }

    pub fn index(self) -> (i: usize)
        ensures
            i == self.idx(),
    {
        match self {
            PieceColor::Light => 0,
            PieceColor::Dark => 1,
            PieceColor::Both => 2,
        }
    }

    /// The other side.
    pub fn opposite(self) -> (c: PieceColor)
        ensures
            c == self.other(),
    {
        match self {
            PieceColor::Light => PieceColor::Dark,
            PieceColor::Dark => PieceColor::Light,
            PieceColor::Both => PieceColor::Both,
        }
    }
}

#[derive(Clone, Copy, Debug, PartialEq, Eq, Structural)]
/// The six kinds of pieces.
pub enum PieceType {
    Pawn,
    Knight,
    Bishop,
    Rook,
    Queen,
    King,
}

impl PieceType {
    pub open spec fn idx(self) -> int {
        match self {
            PieceType::Pawn => 0,
            PieceType::Knight => 1,
            PieceType::Bishop => 2,
            PieceType::Rook => 3,
            PieceType::Queen => 4,
            PieceType::King => 5,
        }
    }

    pub fn index(self) -> (i: usize)
        ensures
            i == self.idx(),
    {
        match self {
            PieceType::Pawn => 0,
            PieceType::Knight => 1,
            PieceType::Bishop => 2,
            PieceType::Rook => 3,
            PieceType::Queen => 4,
            PieceType::King => 5,
        }
    }
}

/// The twelve men: light (`L`) and dark (`D`) pawn, knight, bishop, rook,
/// queen and king.
#[derive(Clone, Copy, Debug, PartialEq, Eq, Structural)]
pub enum Piece {
    LP,
    LN,
    LB,
    LR,
    LQ,
    LK,
    DP,
    DN,
    DB,
    DR,
    DQ,
    DK,
}

impl Piece {
    /// The kind of the piece, whatever its colour.
    pub open spec fn kind_of(self) -> PieceType {
        match self {
            Piece::LP | Piece::DP => PieceType::Pawn,
            Piece::LN | Piece::DN => PieceType::Knight,
            Piece::LB | Piece::DB => PieceType::Bishop,
            Piece::LR | Piece::DR => PieceType::Rook,
            Piece::LQ | Piece::DQ => PieceType::Queen,
            Piece::LK | Piece::DK => PieceType::King,
        }
    }

    /// The colour of the piece: never `Both`.
    pub open spec fn color_of(self) -> PieceColor {
        match self {
            Piece::LP | Piece::LN | Piece::LB | Piece::LR | Piece::LQ | Piece::LK => {
                PieceColor::Light
            },
            _ => PieceColor::Dark,
        }
    }

    /// The piece of the given colour and kind; `Both` counts as dark.
    pub open spec fn of(color: PieceColor, kind: PieceType) -> Piece {
        if color == PieceColor::Light {
            match kind {
                PieceType::Pawn => Piece::LP,
                PieceType::Knight => Piece::LN,
                PieceType::Bishop => Piece::LB,
                PieceType::Rook => Piece::LR,
                PieceType::Queen => Piece::LQ,
                PieceType::King => Piece::LK,
            }
        } else {
            match kind {
                PieceType::Pawn => Piece::DP,
                PieceType::Knight => Piece::DN,
                PieceType::Bishop => Piece::DB,
                PieceType::Rook => Piece::DR,
                PieceType::Queen => Piece::DQ,
                PieceType::King => Piece::DK,
            }
        }
    }

    /// The number of the piece, 0 to 11: six times the colour plus the kind.
    pub open spec fn idx(self) -> int {
        6 * self.color_of().idx() + self.kind_of().idx()
    }

    /// The piece with number `i`, if `i` is below 12.
    pub open spec fn numbered(i: int) -> Option<Piece> {
        if i == 0 {
            Some(Piece::LP)
        } else if i == 1 {
            Some(Piece::LN)
        } else if i == 2 {
            Some(Piece::LB)
        } else if i == 3 {
            Some(Piece::LR)
        } else if i == 4 {
            Some(Piece::LQ)
        } else if i == 5 {
            Some(Piece::LK)
        } else if i == 6 {
            Some(Piece::DP)
        } else if i == 7 {
            Some(Piece::DN)
        } else if i == 8 {
            Some(Piece::DB)
        } else if i == 9 {
            Some(Piece::DR)
        } else if i == 10 {
            Some(Piece::DQ)
        } else if i == 11 {
            Some(Piece::DK)
        } else {
            None
        }
    }

    /// The letter that stands for the piece: upper case for light, lower
    /// case for dark.
    pub open spec fn letter(self) -> char {
        match self {
            Piece::LP => 'P',
            Piece::LN => 'N',
            Piece::LB => 'B',
            Piece::LR => 'R',
            Piece::LQ => 'Q',
            Piece::LK => 'K',
            Piece::DP => 'p',
            Piece::DN => 'n',
            Piece::DB => 'b',
            Piece::DR => 'r',
            Piece::DQ => 'q',
            Piece::DK => 'k',
        }
    }

    /// The piece that a letter stands for, if any.
    pub open spec fn lettered(c: char) -> Option<Piece> {
        if c == 'P' {
            Some(Piece::LP)
        } else if c == 'N' {
            Some(Piece::LN)
        } else if c == 'B' {
            Some(Piece::LB)
        } else if c == 'R' {
            Some(Piece::LR)
        } else if c == 'Q' {
            Some(Piece::LQ)
        } else if c == 'K' {
            Some(Piece::LK)
        } else if c == 'p' {
            Some(Piece::DP)
        } else if c == 'n' {
            Some(Piece::DN)
        } else if c == 'b' {
            Some(Piece::DB)
        } else if c == 'r' {
            Some(Piece::DR)
        } else if c == 'q' {
            Some(Piece::DQ)
        } else if c == 'k' {
            Some(Piece::DK)
        } else {
            None
        }
    }

    /// The kind of the piece.
    pub fn kind(self) -> (k: PieceType)
        ensures
            k == self.kind_of(),
    {
        match self {
            Piece::LP | Piece::DP => PieceType::Pawn,
            Piece::LN | Piece::DN => PieceType::Knight,
            Piece::LB | Piece::DB => PieceType::Bishop,
            Piece::LR | Piece::DR => PieceType::Rook,
            Piece::LQ | Piece::DQ => PieceType::Queen,
            Piece::LK | Piece::DK => PieceType::King,
        }
    }

    /// The colour of the piece.
    pub fn color(self) -> (c: PieceColor)
        ensures
            c == self.color_of(),
    {
        match self {
            Piece::LP | Piece::LN | Piece::LB | Piece::LR | Piece::LQ | Piece::LK => {
                PieceColor::Light
            },
            _ => PieceColor::Dark,
        }
    }

    /// The piece of the given colour and kind; `Both` counts as dark.
    pub fn make(color: PieceColor, kind: PieceType) -> (p: Piece)
        ensures
            p == Piece::of(color, kind),
            color != PieceColor::Both ==> p.color_of() == color,
            p.kind_of() == kind,
    {
        match color {
            PieceColor::Light => match kind {
                PieceType::Pawn => Piece::LP,
                PieceType::Knight => Piece::LN,
                PieceType::Bishop => Piece::LB,
                PieceType::Rook => Piece::LR,
                PieceType::Queen => Piece::LQ,
                PieceType::King => Piece::LK,
            },
            _ => match kind {
                PieceType::Pawn => Piece::DP,
                PieceType::Knight => Piece::DN,
                PieceType::Bishop => Piece::DB,
                PieceType::Rook => Piece::DR,
                PieceType::Queen => Piece::DQ,
                PieceType::King => Piece::DK,
            },
        }
    }

    pub fn index(self) -> (i: usize)
        ensures
            i == self.idx(),
            i < 12,
            Piece::numbered(i as int) == Some(self),
    {
        match self {
            Piece::LP => 0,
            Piece::LN => 1,
            Piece::LB => 2,
            Piece::LR => 3,
            Piece::LQ => 4,
            Piece::LK => 5,
            Piece::DP => 6,
            Piece::DN => 7,
            Piece::DB => 8,
            Piece::DR => 9,
            Piece::DQ => 10,
            Piece::DK => 11,
        }
    }

    /// The piece with number `i`, if `i` is below 12.
    pub fn from_num(i: usize) -> (p: Option<Piece>)
        ensures
            p == Piece::numbered(i as int),
            p matches Some(q) ==> q.idx() == i,
            i < 12 ==> p is Some,
    {
        match i {
            0 => Some(Piece::LP),
            1 => Some(Piece::LN),
            2 => Some(Piece::LB),
            3 => Some(Piece::LR),
            4 => Some(Piece::LQ),
            5 => Some(Piece::LK),
            6 => Some(Piece::DP),
            7 => Some(Piece::DN),
            8 => Some(Piece::DB),
            9 => Some(Piece::DR),
            10 => Some(Piece::DQ),
            11 => Some(Piece::DK),
            _ => None,
        }
    }

    /// The piece that a letter stands for, if any.
    pub fn from_char(c: char) -> (p: Option<Piece>)
        ensures
            p == Piece::lettered(c),
    {
        match c {
            'P' => Some(Piece::LP),
            'N' => Some(Piece::LN),
            'B' => Some(Piece::LB),
            'R' => Some(Piece::LR),
            'Q' => Some(Piece::LQ),
            'K' => Some(Piece::LK),
            'p' => Some(Piece::DP),
            'n' => Some(Piece::DN),
            'b' => Some(Piece::DB),
            'r' => Some(Piece::DR),
            'q' => Some(Piece::DQ),
            'k' => Some(Piece::DK),
            _ => None,
        }
    }

    /// The letter of a piece, or a dot for none.
    pub fn to_char(p: Option<Piece>) -> (c: char)
        ensures
            c == (match p {
                Some(q) => q.letter(),
                None => '.',
            }),
    {
        match p {
            Some(Piece::LP) => 'P',
            Some(Piece::LN) => 'N',
            Some(Piece::LB) => 'B',
            Some(Piece::LR) => 'R',
            Some(Piece::LQ) => 'Q',
            Some(Piece::LK) => 'K',
            Some(Piece::DP) => 'p',
            Some(Piece::DN) => 'n',
            Some(Piece::DB) => 'b',
            Some(Piece::DR) => 'r',
            Some(Piece::DQ) => 'q',
            Some(Piece::DK) => 'k',
            None => '.',
        }
    }

    /// The numbers of a piece's colour and kind; for none, the number of
    /// `Both` and 0.
    pub fn to_tuple(p: Option<Piece>) -> (t: (usize, usize))
        ensures
            t == (match p {
                Some(q) => (q.color_of().idx() as usize, q.kind_of().idx() as usize),
                None => (2usize, 0usize),
            }),
    {
        match p {
            Some(q) => (q.color().index(), q.kind().index()),
            None => (2, 0),
        }
    }
}

/// Every piece is the one that its number names, and the one that its letter
/// names.
pub proof fn lemma_piece_numbering(p: Piece)
    ensures
        0 <= p.idx() < 12,
        Piece::numbered(p.idx()) == Some(p),
        Piece::lettered(p.letter()) == Some(p),
        Piece::of(p.color_of(), p.kind_of()) == p,
        p.color_of() != PieceColor::Both,
{
}

} // verus!
