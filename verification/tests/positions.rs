use chess_core::board::{Board, CastlingType, Position, State};
use chess_core::consts::{Piece, PieceColor, NO_SQ};
use chess_core::fen::{gen_fen, parse, parse_pieces, FenError, FEN_POSITIONS};
use chess_core::text::sq_from_str;
use chess_core::zobrist::ZobristInfo;

#[test]
fn text_of_every_sample_position_reads_back() {
    let zi = ZobristInfo::new();
    for fen in FEN_POSITIONS.iter() {
        let board = parse(fen, &zi).unwrap();
        assert_eq!(gen_fen(&board), *fen);
    }
}

#[test]
fn position_read_from_its_own_text_is_the_same() {
    let zi = ZobristInfo::new();
    for fen in FEN_POSITIONS.iter() {
        let board = parse(fen, &zi).unwrap();
        let again = parse(&gen_fen(&board), &zi).unwrap();
        assert_eq!(again.pos.piece, board.pos.piece);
        assert_eq!(again.pos.units, board.pos.units);
        assert_eq!(again.state.side, board.state.side);
        assert_eq!(again.state.xside, board.state.xside);
        assert_eq!(again.state.castling, board.state.castling);
        assert_eq!(again.state.enpassant, board.state.enpassant);
        assert_eq!(again.state.half_moves, board.state.half_moves);
        assert_eq!(again.state.full_moves, board.state.full_moves);
        assert_eq!(again.state.key, board.state.key);
        assert_eq!(again.state.lock, board.state.lock);
    }
}

#[test]
fn starting_position() {
    let zi = ZobristInfo::new();
    let b = Board::from_fen(FEN_POSITIONS[1], &zi).unwrap();
    assert_eq!(b.state.side, PieceColor::Light);
    assert_eq!(b.state.xside, PieceColor::Dark);
    assert_eq!(b.state.castling, 15);
    assert_eq!(b.state.enpassant, NO_SQ);
    assert_eq!(b.state.half_moves, 0);
    assert_eq!(b.state.full_moves, 1);
    assert!(b.is_white_to_move());
    assert_eq!(b.find_piece(sq_from_str("e1")), Some(Piece::LK));
    assert_eq!(b.find_piece(sq_from_str("d8")), Some(Piece::DQ));
    assert_eq!(b.find_piece(sq_from_str("a2")), Some(Piece::LP));
    assert_eq!(b.find_piece(sq_from_str("e4")), None);
    assert_eq!(b.find_piece(NO_SQ), None);
    assert_eq!(b.pos.units[0], 0xFFFF_0000_0000_0000);
    assert_eq!(b.pos.units[1], 0x0000_0000_0000_FFFF);
    assert_eq!(b.pos.units[2], 0xFFFF_0000_0000_FFFF);
    assert_eq!(b.pos.piece[Piece::LP.index()], 0x00FF_0000_0000_0000);
    assert!(b.state.can_castle(CastlingType::WhiteKingside));
    assert!(b.state.can_castle(CastlingType::BlackQueenside));
}

#[test]
fn starting_position_without_its_text() {
    let zi = ZobristInfo::new();
    let built = Board::starting(&zi);
    let read = Board::from_fen(FEN_POSITIONS[1], &zi).unwrap();
    assert_eq!(gen_fen(&built), FEN_POSITIONS[1]);
    assert_eq!(built.pos.piece, read.pos.piece);
    assert_eq!(built.pos.units, read.pos.units);
    assert_eq!((built.state.key, built.state.lock), (read.state.key, read.state.lock));
    assert_eq!(built.state.castling, read.state.castling);
    assert_eq!(built.state.xside, read.state.xside);
}

#[test]
fn fields_of_a_position() {
    let zi = ZobristInfo::new();
    let b = parse(FEN_POSITIONS[7], &zi).unwrap();
    assert_eq!(b.state.enpassant, sq_from_str("e6"));
    assert_eq!(b.state.enpassant, 20);
    let b = parse(FEN_POSITIONS[5], &zi).unwrap();
    assert_eq!(b.state.castling, 3);
    assert_eq!(b.state.half_moves, 1);
    assert_eq!(b.state.full_moves, 8);
    assert!(b.state.can_castle(CastlingType::WhiteKingside));
    assert!(b.state.can_castle(CastlingType::WhiteQueenside));
    assert!(!b.state.can_castle(CastlingType::BlackKingside));
    let b = parse(FEN_POSITIONS[4], &zi).unwrap();
    assert_eq!(b.state.castling, 12);
    let b = parse("8/8/8/8/8/8/8/8 b - - 7 42", &zi).unwrap();
    assert_eq!(b.state.side, PieceColor::Dark);
    assert_eq!(b.state.xside, PieceColor::Light);
    assert!(!b.is_white_to_move());
    assert_eq!(b.state.half_moves, 7);
    assert_eq!(b.state.full_moves, 42);
}

#[test]
fn white_space_between_fields() {
    let zi = ZobristInfo::new();
    let a = parse("  8/8/8/8/8/8/8/4k2K \t w   -  - 0\n1 ", &zi).unwrap();
    assert_eq!(gen_fen(&a), "8/8/8/8/8/8/8/4k2K w - - 0 1");
}

#[test]
fn castling_letters_in_any_order() {
    let zi = ZobristInfo::new();
    let a = parse("r3k2r/8/8/8/8/8/8/R3K2R w qkQK - 0 1", &zi).unwrap();
    assert_eq!(a.state.castling, 15);
    assert_eq!(gen_fen(&a), "r3k2r/8/8/8/8/8/8/R3K2R w KQkq - 0 1");
    let a = parse("r3k2r/8/8/8/8/8/8/R3K2R w kQ - 0 1", &zi).unwrap();
    assert_eq!(a.state.castling, 2 | 4);
    assert_eq!(gen_fen(&a), "r3k2r/8/8/8/8/8/8/R3K2R w Qk - 0 1");
}

#[test]
fn wrong_number_of_fields() {
    let zi = ZobristInfo::new();
    assert_eq!(parse("", &zi).err(), Some(FenError::FieldCount));
    assert_eq!(parse("   ", &zi).err(), Some(FenError::FieldCount));
    assert_eq!(parse("8/8/8/8/8/8/8/8 w - -", &zi).err(), Some(FenError::FieldCount));
    assert_eq!(parse("8/8/8/8/8/8/8/8 w - - 0", &zi).err(), Some(FenError::FieldCount));
    assert_eq!(parse("8/8/8/8/8/8/8/8 w - - 0 1 x", &zi).err(), Some(FenError::FieldCount));
}

#[test]
fn wrong_placement() {
    let zi = ZobristInfo::new();
    for rows in [
        "9/8/8/8/8/8/8/8",
        "8/8/8/8/8/8/8/7",
        "8/8/8/8/8/8/8",
        "8/8/8/8/8/8/8/8/",
        "8/8/8/8/8/8/8/8/8",
        "/8/8/8/8/8/8/8/8",
        "8//8/8/8/8/8/8/8",
        "88/8/8/8/8/8/8",
        "x7/8/8/8/8/8/8/8",
        "7/8/8/8/8/8/8/81",
        "pppppppp1/8/8/8/8/8/8/8",
        "0p7/8/8/8/8/8/8/8",
        "8/8/8/8/8/8/8/7é",
    ] {
        let fen = format!("{} w - - 0 1", rows);
        assert_eq!(parse(&fen, &zi).err(), Some(FenError::Placement), "{}", rows);
    }
}

#[test]
fn wrong_side() {
    let zi = ZobristInfo::new();
    assert_eq!(parse("8/8/8/8/8/8/8/8 x - - 0 1", &zi).err(), Some(FenError::Side));
    assert_eq!(parse("8/8/8/8/8/8/8/8 W - - 0 1", &zi).err(), Some(FenError::Side));
    assert_eq!(parse("8/8/8/8/8/8/8/8 wb - - 0 1", &zi).err(), Some(FenError::Side));
}

#[test]
fn wrong_castling() {
    let zi = ZobristInfo::new();
    assert_eq!(parse("8/8/8/8/8/8/8/8 w KK - 0 1", &zi).err(), Some(FenError::Castling));
    assert_eq!(parse("8/8/8/8/8/8/8/8 w KQkqx - 0 1", &zi).err(), Some(FenError::Castling));
    assert_eq!(parse("8/8/8/8/8/8/8/8 w -- - 0 1", &zi).err(), Some(FenError::Castling));
    assert_eq!(parse("8/8/8/8/8/8/8/8 w K- - 0 1", &zi).err(), Some(FenError::Castling));
}

#[test]
fn wrong_en_passant_square() {
    let zi = ZobristInfo::new();
    assert_eq!(parse("8/8/8/8/8/8/8/8 w - e9 0 1", &zi).err(), Some(FenError::EnPassant));
    assert_eq!(parse("8/8/8/8/8/8/8/8 w - e 0 1", &zi).err(), Some(FenError::EnPassant));
    assert_eq!(parse("8/8/8/8/8/8/8/8 w - i3 0 1", &zi).err(), Some(FenError::EnPassant));
    assert_eq!(parse("8/8/8/8/8/8/8/8 w - e33 0 1", &zi).err(), Some(FenError::EnPassant));
}

#[test]
fn wrong_counters() {
    let zi = ZobristInfo::new();
    assert_eq!(parse("8/8/8/8/8/8/8/8 w - - x 1", &zi).err(), Some(FenError::HalfMoves));
    assert_eq!(parse("8/8/8/8/8/8/8/8 w - - -1 1", &zi).err(), Some(FenError::HalfMoves));
    assert_eq!(parse("8/8/8/8/8/8/8/8 w - - 4294967296 1", &zi).err(), Some(FenError::HalfMoves));
    assert_eq!(parse("8/8/8/8/8/8/8/8 w - - 0 1x", &zi).err(), Some(FenError::FullMoves));
    assert_eq!(parse("8/8/8/8/8/8/8/8 w - - 0 99999999999", &zi).err(), Some(FenError::FullMoves));
    let b = parse("8/8/8/8/8/8/8/8 w - - 4294967295 007", &zi).unwrap();
    assert_eq!(b.state.half_moves, u32::MAX);
    assert_eq!(b.state.full_moves, 7);
}

#[test]
fn the_first_mistake_is_reported() {
    let zi = ZobristInfo::new();
    assert_eq!(parse("9/8 x KK e9 x y", &zi).err(), Some(FenError::Placement));
    assert_eq!(parse("8/8/8/8/8/8/8/8 x KK e9 x y", &zi).err(), Some(FenError::Side));
    assert_eq!(parse("8/8/8/8/8/8/8/8 w KK e9 x y", &zi).err(), Some(FenError::Castling));
    assert_eq!(parse("8/8/8/8/8/8/8/8 w K e9 x y", &zi).err(), Some(FenError::EnPassant));
    assert_eq!(parse("8/8/8/8/8/8/8/8 w K e3 x y", &zi).err(), Some(FenError::HalfMoves));
    assert_eq!(parse("8/8/8/8/8/8/8/8 w K e3 1 y", &zi).err(), Some(FenError::FullMoves));
}

#[test]
fn men_of_the_first_field() {
    let mut pos = Position::new();
    assert!(parse_pieces("rnbqkbnr/pppppppp/8/8/8/8/PPPPPPPP/RNBQKBNR", &mut pos));
    assert_eq!(pos.find_piece(0), Some(Piece::DR));
    assert_eq!(pos.find_piece(4), Some(Piece::DK));
    assert_eq!(pos.find_piece(60), Some(Piece::LK));
    assert_eq!(pos.find_piece(35), None);
    assert_eq!(pos.units[2], 0xFFFF_0000_0000_FFFF);
    assert!(!parse_pieces("rnbqkbnr/pppppppp/8/8/8/8/PPPPPPPP/RNBQKBN", &mut pos));
    // Reading starts from the empty board each time.
    assert!(parse_pieces("8/8/8/8/8/8/8/8", &mut pos));
    assert_eq!(pos.units[2], 0);
}

#[test]
fn empty_board_and_first_state() {
    let b = Board::new();
    assert_eq!(b.pos.piece, [0u64; 12]);
    assert_eq!(b.pos.units, [0u64; 3]);
    assert_eq!(gen_fen(&b), FEN_POSITIONS[0]);
    let s = State::new();
    assert_eq!(s.side, PieceColor::Light);
    assert_eq!(s.xside, PieceColor::Dark);
    assert_eq!(s.castling, 0);
    assert_eq!(s.enpassant, NO_SQ);
    assert_eq!((s.half_moves, s.full_moves, s.key, s.lock), (0, 1, 0, 0));
}

#[test]
fn putting_and_clearing_men() {
    let mut pos = Position::new();
    pos.put(sq_from_str("e4"), Piece::LQ);
    assert_eq!(pos.find_piece(36), Some(Piece::LQ));
    assert_eq!(pos.units[0], 1u64 << 36);
    assert_eq!(pos.units[2], 1u64 << 36);
    pos.put(sq_from_str("e4"), Piece::DN);
    assert_eq!(pos.find_piece(36), Some(Piece::DN));
    assert_eq!(pos.piece[Piece::LQ.index()], 0);
    assert_eq!(pos.units[0], 0);
    assert_eq!(pos.units[1], 1u64 << 36);
    pos.clear_square(36);
    assert_eq!(pos.find_piece(36), None);
    assert_eq!(pos.units, [0u64; 3]);
    pos.piece[3] = 0xF0;
    pos.piece[9] = 0x0F;
    pos.update_units();
    assert_eq!(pos.units, [0xF0, 0x0F, 0xFF]);
}

#[test]
fn toggling_castling_rights() {
    let mut s = State::new();
    s.toggle_castling(CastlingType::WhiteKingside.index());
    assert_eq!(s.castling, 1);
    s.toggle_castling(CastlingType::BlackQueenside.index());
    assert_eq!(s.castling, 9);
    assert!(s.can_castle(CastlingType::WhiteKingside));
    assert!(!s.can_castle(CastlingType::WhiteQueenside));
    assert!(s.can_castle(CastlingType::BlackQueenside));
    s.toggle_castling(CastlingType::WhiteKingside.index());
    assert_eq!(s.castling, 8);
}

#[test]
fn where_the_kings_stand() {
    let zi = ZobristInfo::new();
    let b = Board::from_fen(FEN_POSITIONS[1], &zi).unwrap();
    assert_eq!(b.king_square(PieceColor::Light), sq_from_str("e1"));
    assert_eq!(b.king_square(PieceColor::Dark), sq_from_str("e8"));
    let b = Board::from_fen("8/8/8/8/8/8/8/4K3 w - - 0 1", &zi).unwrap();
    assert_eq!(b.king_square(PieceColor::Light), 60);
    assert_eq!(b.king_square(PieceColor::Dark), NO_SQ);
    let b = Board::from_fen("8/2k5/8/8/4k3/8/8/8 b - - 0 1", &zi).unwrap();
    assert_eq!(b.king_square(PieceColor::Dark), sq_from_str("c7"));
}
