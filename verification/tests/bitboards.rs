use chess_core::bb;
use chess_core::consts::{col, row, sq, Piece, PieceColor, PieceType, NO_SQ};
use chess_core::text::{sq_from_str, sq_to_string};

#[test]
fn membership() {
    assert!(bb::get(0b101, 0));
    assert!(!bb::get(0b101, 1));
    assert!(bb::get(0b101, 2));
    assert!(bb::get(1u64 << 63, 63));
    assert!(!bb::get(0, 63));
}

#[test]
fn insert_and_remove() {
    assert_eq!(bb::insert(0, 63), 1u64 << 63);
    assert_eq!(bb::insert(0b100, 0), 0b101);
    assert_eq!(bb::insert(0b101, 0), 0b101);
    assert_eq!(bb::remove(0b101, 0), 0b100);
    assert_eq!(bb::remove(0b101, 1), 0b101);
    assert_eq!(bb::remove(u64::MAX, 63), u64::MAX >> 1);
}

#[test]
fn set_operations() {
    assert_eq!(bb::union(0b1100, 0b1010), 0b1110);
    assert_eq!(bb::intersect(0b1100, 0b1010), 0b1000);
    assert_eq!(bb::minus(0b1100, 0b1010), 0b0100);
}

#[test]
fn lowest_member() {
    assert_eq!(bb::lsb(0b1000), 3);
    assert_eq!(bb::lsb(1), 0);
    assert_eq!(bb::lsb(1u64 << 63), 63);
    assert_eq!(bb::lsb(0b1011_0000), 4);
}

#[test]
fn pop_lowest_member() {
    let mut b: u64 = 0b1011_0000;
    assert_eq!(bb::pop_lsb(&mut b), 4);
    assert_eq!(b, 0b1010_0000);
    assert_eq!(bb::pop_lsb(&mut b), 5);
    assert_eq!(bb::pop_lsb(&mut b), 7);
    assert_eq!(b, 0);
}

#[test]
fn counting() {
    assert_eq!(bb::count(0), 0);
    assert_eq!(bb::count(0xFF), 8);
    assert_eq!(bb::count(u64::MAX), 64);
    assert_eq!(bb::count(0x8000_0000_0000_0001), 2);
}

#[test]
fn rows_and_columns() {
    assert_eq!(sq(0, 0), 0);
    assert_eq!(sq(7, 7), 63);
    assert_eq!(sq(4, 3), 35);
    assert_eq!(row(35), 4);
    assert_eq!(col(35), 3);
    assert_eq!(row(63), 7);
    assert_eq!(col(56), 0);
    assert_eq!(NO_SQ, 64);
}

#[test]
fn square_names() {
    assert_eq!(sq_from_str("a8"), 0);
    assert_eq!(sq_from_str("h8"), 7);
    assert_eq!(sq_from_str("a1"), 56);
    assert_eq!(sq_from_str("h1"), 63);
    assert_eq!(sq_from_str("e4"), 36);
    assert_eq!(sq_to_string(36), "e4");
    assert_eq!(sq_to_string(0), "a8");
    assert_eq!(sq_to_string(63), "h1");
    for s in 0..64 {
        assert_eq!(sq_from_str(&sq_to_string(s)), s);
    }
}

#[test]
fn names_of_no_square() {
    assert_eq!(sq_from_str("i9"), NO_SQ);
    assert_eq!(sq_from_str("e"), NO_SQ);
    assert_eq!(sq_from_str("e44"), NO_SQ);
    assert_eq!(sq_from_str("E4"), NO_SQ);
    assert_eq!(sq_from_str("e0"), NO_SQ);
    assert_eq!(sq_from_str("-"), NO_SQ);
    assert_eq!(sq_from_str(""), NO_SQ);
    assert_eq!(sq_to_string(NO_SQ), "-");
}

#[test]
fn piece_numbers_and_letters() {
    let all = [
        (Piece::LP, 'P'),
        (Piece::LN, 'N'),
        (Piece::LB, 'B'),
        (Piece::LR, 'R'),
        (Piece::LQ, 'Q'),
        (Piece::LK, 'K'),
        (Piece::DP, 'p'),
        (Piece::DN, 'n'),
        (Piece::DB, 'b'),
        (Piece::DR, 'r'),
        (Piece::DQ, 'q'),
        (Piece::DK, 'k'),
    ];
    for (i, (piece, letter)) in all.iter().enumerate() {
        assert_eq!(piece.index(), i);
        assert_eq!(Piece::from_num(i), Some(*piece));
        assert_eq!(Piece::from_char(*letter), Some(*piece));
        assert_eq!(Piece::to_char(Some(*piece)), *letter);
        assert_eq!(piece.color().index(), i / 6);
        assert_eq!(piece.kind().index(), i % 6);
        assert_eq!(Piece::make(piece.color(), piece.kind()), *piece);
        assert_eq!(Piece::to_tuple(Some(*piece)), (i / 6, i % 6));
    }
    assert_eq!(Piece::from_num(12), None);
    assert_eq!(Piece::from_char('x'), None);
    assert_eq!(Piece::from_char('1'), None);
    assert_eq!(Piece::to_char(None), '.');
    assert_eq!(Piece::to_tuple(None), (2, 0));
}

#[test]
fn colours_and_kinds() {
    assert_eq!(PieceColor::Light.opposite(), PieceColor::Dark);
    assert_eq!(PieceColor::Dark.opposite(), PieceColor::Light);
    assert_eq!(PieceColor::Both.opposite(), PieceColor::Both);
    assert_eq!(PieceColor::Both.index(), 2);
    assert_eq!(PieceType::Knight.index(), 1);
    assert_eq!(PieceType::Queen.index(), 4);
    assert_eq!(Piece::make(PieceColor::Dark, PieceType::Rook), Piece::DR);
}
