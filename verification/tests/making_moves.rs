use chess_core::attack::AttackInfo;
use chess_core::board::{Board, CastlingType};
use chess_core::consts::{Piece, PieceColor, NO_SQ};
use chess_core::fen::{gen_fen, FEN_POSITIONS};
use chess_core::move_gen::{
    find_move, generate_all, generate_by_piece, move_is_legal, MoveList,
};
use chess_core::moves::{make, Move, MoveFlag};
use chess_core::text::sq_from_str;
use chess_core::zobrist::ZobristInfo;

fn consistent(b: &Board) {
    let p = &b.pos.piece;
    let light = p[0] | p[1] | p[2] | p[3] | p[4] | p[5];
    let dark = p[6] | p[7] | p[8] | p[9] | p[10] | p[11];
    assert_eq!(b.pos.units[0], light);
    assert_eq!(b.pos.units[1], dark);
    assert_eq!(b.pos.units[2], b.pos.units[0] | b.pos.units[1]);
    for i in 0..12 {
        for j in 0..i {
            assert_eq!(p[i] & p[j], 0);
        }
    }
}

fn after(fen: &str, text: &str, flags: (bool, bool, bool, bool)) -> (bool, Board) {
    let ai = AttackInfo::new();
    let zi = ZobristInfo::new();
    let mut b = Board::from_fen(fen, &zi).unwrap();
    let piece = b.find_piece(sq_from_str(&text[0..2])).unwrap();
    let mv = Move::from_str(text, piece, flags.0, flags.1, flags.2, flags.3);
    let legal = make(&mut b, &ai, &zi, mv, MoveFlag::AllMoves);
    consistent(&b);
    (legal, b)
}

#[test]
fn double_step_sets_the_en_passant_square() {
    let (legal, b) = after(FEN_POSITIONS[1], "e2e4", (false, true, false, false));
    assert!(legal);
    assert_eq!(b.state.enpassant, sq_from_str("e3"));
    assert_eq!(b.state.side, PieceColor::Dark);
    assert_eq!(b.state.xside, PieceColor::Light);
    assert_eq!(b.state.half_moves, 0);
    assert_eq!(b.state.full_moves, 1);
    assert_eq!(gen_fen(&b), "rnbqkbnr/pppppppp/8/8/4P3/8/PPPP1PPP/RNBQKBNR b KQkq e3 0 1");
}

#[test]
fn every_other_move_clears_the_en_passant_square() {
    let (legal, b) = after(
        "rnbqkbnr/pppppppp/8/8/4P3/8/PPPP1PPP/RNBQKBNR b KQkq e3 0 1",
        "g8f6",
        (false, false, false, false),
    );
    assert!(legal);
    assert_eq!(b.state.enpassant, NO_SQ);
    assert_eq!(b.state.half_moves, 1);
    assert_eq!(b.state.full_moves, 2);
    assert_eq!(gen_fen(&b), "rnbqkb1r/pppppppp/5n2/8/4P3/8/PPPP1PPP/RNBQKBNR w KQkq - 1 2");
}

#[test]
fn capture_resets_the_clock() {
    let (legal, b) = after("4k3/8/8/3p4/8/8/8/3RK3 w - - 17 40", "d1d5", (true, false, false, false));
    assert!(legal);
    assert_eq!(b.state.half_moves, 0);
    assert_eq!(gen_fen(&b), "4k3/8/8/3R4/8/8/8/4K3 b - - 0 40");
    let (_, b) = after("4k3/8/8/3p4/8/8/8/3RK3 w - - 17 40", "d1d4", (false, false, false, false));
    assert_eq!(b.state.half_moves, 18);
    let (_, b) = after("4k3/8/8/3p4/8/8/4P3/3RK3 w - - 17 40", "e2e3", (false, false, false, false));
    assert_eq!(b.state.half_moves, 0);
}

#[test]
fn capture_in_passing_takes_the_pawn_behind_the_target() {
    let (legal, b) = after("4k3/8/8/2pP4/8/8/8/4K3 w - c6 0 1", "d5c6", (false, false, true, false));
    assert!(legal);
    assert_eq!(gen_fen(&b), "4k3/8/2P5/8/8/8/8/4K3 b - - 0 1");
    let (legal, b) = after("4k3/8/8/8/3pP3/8/8/4K3 b - e3 0 1", "d4e3", (false, false, true, false));
    assert!(legal);
    assert_eq!(gen_fen(&b), "4k3/8/8/8/8/4p3/8/4K3 w - - 0 2");
}

#[test]
fn promotion_puts_the_new_piece_on_the_board() {
    let (legal, b) = after("4k3/1P6/8/8/8/8/8/4K3 w - - 0 1", "b7b8q", (false, false, false, false));
    assert!(legal);
    assert_eq!(b.find_piece(sq_from_str("b8")), Some(Piece::LQ));
    assert_eq!(b.pos.piece[Piece::LP.index()], 0);
    assert_eq!(gen_fen(&b), "1Q2k3/8/8/8/8/8/8/4K3 b - - 0 1");
    let (_, b) = after("r3k3/1P6/8/8/8/8/8/4K3 w - - 0 1", "b7a8N", (true, false, false, false));
    assert_eq!(gen_fen(&b), "N3k3/8/8/8/8/8/8/4K3 b - - 0 1");
    let (_, b) = after("4k3/8/8/8/8/8/6p1/4K3 b - - 0 1", "g2g1r", (false, false, false, false));
    assert_eq!(gen_fen(&b), "4k3/8/8/8/8/8/8/4K1r1 w - - 0 2");
}

#[test]
fn castling_moves_the_rook_too() {
    let fen = "r3k2r/8/8/8/8/8/8/R3K2R w KQkq - 0 1";
    let (legal, b) = after(fen, "e1g1", (false, false, false, true));
    assert!(legal);
    assert_eq!(gen_fen(&b), "r3k2r/8/8/8/8/8/8/R4RK1 b kq - 1 1");
    let (_, b) = after(fen, "e1c1", (false, false, false, true));
    assert_eq!(gen_fen(&b), "r3k2r/8/8/8/8/8/8/2KR3R b kq - 1 1");
    let fen = "r3k2r/8/8/8/8/8/8/R3K2R b KQkq - 0 1";
    let (_, b) = after(fen, "e8g8", (false, false, false, true));
    assert_eq!(gen_fen(&b), "r4rk1/8/8/8/8/8/8/R3K2R w KQ - 1 2");
    let (_, b) = after(fen, "e8c8", (false, false, false, true));
    assert_eq!(gen_fen(&b), "2kr3r/8/8/8/8/8/8/R3K2R w KQ - 1 2");
}

#[test]
fn castling_rights_are_lost_and_never_won_back() {
    let fen = "r3k2r/8/8/8/8/8/8/R3K2R w KQkq - 0 1";
    let (_, b) = after(fen, "e1e2", (false, false, false, false));
    assert_eq!(b.state.castling, 12);
    let (_, b) = after(fen, "a1a2", (false, false, false, false));
    assert_eq!(b.state.castling, 13);
    assert!(!b.state.can_castle(CastlingType::WhiteQueenside));
    let (_, b) = after(fen, "h1h8", (true, false, false, false));
    assert_eq!(b.state.castling, 15 & !1 & !4);
    let (_, b) = after(fen, "a1a8", (true, false, false, false));
    assert_eq!(b.state.castling, 15 & !2 & !8);
    // Moving the king home again does not give the rights back.
    let ai = AttackInfo::new();
    let zi = ZobristInfo::new();
    let mut b = Board::from_fen(fen, &zi).unwrap();
    for (text, piece) in [
        ("e1e2", Piece::LK),
        ("e8e7", Piece::DK),
        ("e2e1", Piece::LK),
        ("e7e8", Piece::DK),
    ] {
        let before = b.state.castling;
        let mv = Move::from_str(text, piece, false, false, false, false);
        assert!(make(&mut b, &ai, &zi, mv, MoveFlag::AllMoves));
        assert_eq!(b.state.castling & !before, 0);
    }
    assert_eq!(b.state.castling, 0);
    assert_eq!(gen_fen(&b), "r3k2r/8/8/8/8/8/8/R3K2R w - - 4 3");
}

#[test]
fn move_that_leaves_the_king_attacked_is_illegal() {
    // The rook is pinned on the e-file.
    let fen = "4r2k/8/8/8/8/8/4R3/4K3 w - - 0 1";
    let (legal, b) = after(fen, "e2a2", (false, false, false, false));
    assert!(!legal);
    // The board is not put back.
    assert_eq!(b.find_piece(sq_from_str("a2")), Some(Piece::LR));
    let (legal, _) = after(fen, "e2e5", (false, false, false, false));
    assert!(legal);
    // Walking into check.
    let (legal, _) = after("4k3/8/8/8/8/8/r7/4K3 w - - 0 1", "e1e2", (false, false, false, false));
    assert!(!legal);
}

#[test]
fn move_off_the_board_is_not_made() {
    let ai = AttackInfo::new();
    let zi = ZobristInfo::new();
    let start = Board::from_fen(FEN_POSITIONS[1], &zi).unwrap();
    let mut b = start;
    let mv = Move::from_str("e2", Piece::LP, false, false, false, false);
    assert_eq!(mv.target(), NO_SQ);
    assert!(!make(&mut b, &ai, &zi, mv, MoveFlag::AllMoves));
    assert_eq!(gen_fen(&b), gen_fen(&start));
    let mv = Move::new(64, 36, Piece::LP, None, false, false, false, false);
    assert!(!make(&mut b, &ai, &zi, mv, MoveFlag::AllMoves));
    assert_eq!(b.pos.piece, start.pos.piece);
    assert_eq!(b.state.key, start.state.key);
}

#[test]
fn only_captures_when_only_captures_are_asked_for() {
    let ai = AttackInfo::new();
    let zi = ZobristInfo::new();
    let start = Board::from_fen("4k3/8/8/2pP4/8/8/8/3RK3 w - c6 0 1", &zi).unwrap();
    let mut b = start;
    let quiet = Move::from_str("d1d4", Piece::LR, false, false, false, false);
    assert!(!make(&mut b, &ai, &zi, quiet, MoveFlag::CapturesOnly));
    assert_eq!(gen_fen(&b), gen_fen(&start));
    let passing = Move::from_str("d5c6", Piece::LP, false, false, true, false);
    assert!(make(&mut b, &ai, &zi, passing, MoveFlag::CapturesOnly));
    assert_eq!(gen_fen(&b), "4k3/8/2P5/8/8/8/8/3RK3 b - - 0 1");
    let mut b = Board::from_fen("4k3/8/8/3p4/8/8/8/3RK3 w - - 0 1", &zi).unwrap();
    let capture = Move::from_str("d1d5", Piece::LR, true, false, false, false);
    assert!(make(&mut b, &ai, &zi, capture, MoveFlag::CapturesOnly));
    assert_eq!(gen_fen(&b), "4k3/8/8/3R4/8/8/8/4K3 b - - 0 1");
}

#[test]
fn occupancies_stay_consistent_whatever_is_played() {
    let ai = AttackInfo::new();
    let zi = ZobristInfo::new();
    for fen in FEN_POSITIONS.iter() {
        let board = Board::from_fen(fen, &zi).unwrap();
        consistent(&board);
        let mut ml = MoveList::new();
        generate_all(&board, &ai, &mut ml);
        for mv in ml.moves.iter() {
            let mut next = board;
            let _ = make(&mut next, &ai, &zi, *mv, MoveFlag::AllMoves);
            consistent(&next);
            assert_eq!(next.state.key, chess_core::zobrist::gen_board_key(&zi.key, &next));
            assert_eq!(next.state.lock, chess_core::zobrist::gen_board_lock(&zi.lock, &next));
        }
    }
    // A move that the rules do not allow keeps them consistent too.
    let mut b = Board::from_fen(FEN_POSITIONS[1], &zi).unwrap();
    let odd = Move::from_str("a1e8", Piece::LR, false, false, true, true);
    let _ = make(&mut b, &ai, &zi, odd, MoveFlag::AllMoves);
    consistent(&b);
    let odd = Move::from_str("e1g1", Piece::DQ, true, true, true, true);
    let _ = make(&mut b, &ai, &zi, odd, MoveFlag::AllMoves);
    consistent(&b);
}

#[test]
fn counters_stop_at_their_limit() {
    let (legal, b) = after(
        "4k3/8/8/8/8/8/8/3RK3 b - - 4294967295 4294967295",
        "e8e7",
        (false, false, false, false),
    );
    assert!(legal);
    assert_eq!(b.state.half_moves, u32::MAX);
    assert_eq!(b.state.full_moves, u32::MAX);
}

#[test]
fn attacked_squares_and_check() {
    let ai = AttackInfo::new();
    let zi = ZobristInfo::new();
    let b = Board::from_fen("4k3/8/8/8/8/8/4r3/4K3 w - - 0 1", &zi).unwrap();
    assert!(b.is_square_attacked(&ai, sq_from_str("e1"), PieceColor::Dark));
    assert!(b.is_square_attacked(&ai, sq_from_str("a2"), PieceColor::Dark));
    assert!(!b.is_square_attacked(&ai, sq_from_str("a1"), PieceColor::Dark));
    assert!(b.is_square_attacked(&ai, sq_from_str("e2"), PieceColor::Light));
    assert!(!b.is_square_attacked(&ai, sq_from_str("e3"), PieceColor::Light));
    assert!(!b.is_square_attacked(&ai, sq_from_str("e1"), PieceColor::Both));
    assert!(b.is_in_check(&ai, PieceColor::Dark));
    assert!(!b.is_in_check(&ai, PieceColor::Light));
    assert!(!b.is_in_check(&ai, PieceColor::Both));
    let start = Board::from_fen(FEN_POSITIONS[1], &zi).unwrap();
    assert!(start.is_square_attacked(&ai, sq_from_str("e3"), PieceColor::Light));
    assert!(start.is_square_attacked(&ai, sq_from_str("f3"), PieceColor::Light));
    assert!(!start.is_square_attacked(&ai, sq_from_str("e4"), PieceColor::Light));
    assert!(start.is_square_attacked(&ai, sq_from_str("f6"), PieceColor::Dark));
    assert!(!start.is_in_check(&ai, PieceColor::Dark));
    let none = Board::from_fen(FEN_POSITIONS[0], &zi).unwrap();
    assert!(!none.is_in_check(&ai, PieceColor::Dark));
}

#[test]
fn moves_of_one_piece() {
    let ai = AttackInfo::new();
    let zi = ZobristInfo::new();
    let b = Board::from_fen(FEN_POSITIONS[1], &zi).unwrap();
    let mut ml = MoveList::new();
    generate_by_piece(&b, &ai, &mut ml, Piece::LN);
    assert_eq!(ml.moves.len(), 4);
    let mut ml = MoveList::new();
    generate_by_piece(&b, &ai, &mut ml, Piece::LP);
    assert_eq!(ml.moves.len(), 16);
    let mut ml = MoveList::new();
    generate_by_piece(&b, &ai, &mut ml, Piece::DN);
    assert!(ml.is_empty());
    generate_by_piece(&b, &ai, &mut ml, Piece::LK);
    generate_by_piece(&b, &ai, &mut ml, Piece::LQ);
    assert!(ml.is_empty());
}

#[test]
fn searching_a_list() {
    let ai = AttackInfo::new();
    let zi = ZobristInfo::new();
    let b = Board::from_fen("4k3/1P6/8/8/8/8/4P3/4K3 w - - 0 1", &zi).unwrap();
    let mut ml = MoveList::new();
    generate_by_piece(&b, &ai, &mut ml, Piece::LP);
    assert_eq!(ml.moves.len(), 6);
    let e4 = ml.search(sq_from_str("e2"), sq_from_str("e4"), None).unwrap();
    assert!(e4.is_twosquare());
    assert!(!e4.is_capture() && !e4.is_enpassant() && !e4.is_castling());
    assert_eq!(e4.piece(), Piece::LP);
    assert_eq!((e4.source(), e4.target(), e4.promoted()), (52, 36, None));
    let e3 = ml.search(sq_from_str("e2"), sq_from_str("e3"), None).unwrap();
    assert!(!e3.is_twosquare());
    assert_eq!(ml.search(sq_from_str("e2"), sq_from_str("e5"), None), None);
    assert_eq!(ml.search(sq_from_str("b7"), sq_from_str("b8"), None), None);
    let q = ml.search(sq_from_str("b7"), sq_from_str("b8"), Some(Piece::LQ)).unwrap();
    assert_eq!(q.promoted(), Some(Piece::LQ));
    let n = ml.search(sq_from_str("b7"), sq_from_str("b8"), Some(Piece::LN)).unwrap();
    assert_ne!(q, n);
    assert_eq!(ml.search(sq_from_str("b7"), sq_from_str("b8"), Some(Piece::DQ)), None);
}

#[test]
fn moves_named_by_their_squares() {
    let ai = AttackInfo::new();
    let zi = ZobristInfo::new();
    let b = Board::from_fen(FEN_POSITIONS[1], &zi).unwrap();
    let e4 = find_move(&b, &ai, "e2e4").unwrap();
    assert_eq!(e4, Move::new(52, 36, Piece::LP, None, false, true, false, false));
    assert_eq!(find_move(&b, &ai, "e2e5"), None);
    assert_eq!(find_move(&b, &ai, "e7e5"), None);
    assert_eq!(find_move(&b, &ai, "e4e5"), None);
    assert_eq!(find_move(&b, &ai, "e2"), None);
    assert_eq!(find_move(&b, &ai, ""), None);
    assert_eq!(find_move(&b, &ai, "a8a8P"), None);
    let b = Board::from_fen("r3k3/1P6/8/8/8/8/6p1/R3K2R w KQ - 0 1", &zi).unwrap();
    let m = find_move(&b, &ai, "b7a8q").unwrap();
    assert_eq!(m, Move::new(9, 0, Piece::LP, Some(Piece::LQ), true, false, false, false));
    assert_eq!(find_move(&b, &ai, "b7a8Q"), Some(m));
    assert_eq!(find_move(&b, &ai, "b7a8"), None);
    assert_eq!(find_move(&b, &ai, "b7a8k"), None);
    let castle = find_move(&b, &ai, "e1c1").unwrap();
    assert!(castle.is_castling());
    // The pawn on g2 attacks f1, which the king would pass.
    assert_eq!(find_move(&b, &ai, "e1g1"), None);
    let b = Board::from_fen("r3k3/1P6/8/8/8/8/6p1/R3K2R b KQ - 0 1", &zi).unwrap();
    let m = find_move(&b, &ai, "g2h1n").unwrap();
    assert_eq!(m.promoted(), Some(Piece::DN));
    assert!(m.is_capture());
}

#[test]
fn castling_is_generated_only_when_allowed() {
    let ai = AttackInfo::new();
    let zi = ZobristInfo::new();
    let castles = |fen: &str| -> Vec<String> {
        let b = Board::from_fen(fen, &zi).unwrap();
        let mut ml = MoveList::new();
        generate_all(&b, &ai, &mut ml);
        let mut v: Vec<String> =
            ml.moves.iter().filter(|m| m.is_castling()).map(|m| m.to_str()).collect();
        v.sort();
        v
    };
    assert_eq!(castles("r3k2r/8/8/8/8/8/8/R3K2R w KQkq - 0 1"), vec!["e1c1", "e1g1"]);
    assert_eq!(castles("r3k2r/8/8/8/8/8/8/R3K2R b KQkq - 0 1"), vec!["e8c8", "e8g8"]);
    assert_eq!(castles("r3k2r/8/8/8/8/8/8/R3K2R w Kkq - 0 1"), vec!["e1g1"]);
    assert_eq!(castles("r3k2r/8/8/8/8/8/8/R3K2R w kq - 0 1"), Vec::<String>::new());
    // A man in the way.
    assert_eq!(castles("r3k2r/8/8/8/8/8/8/RN2K1NR w KQkq - 0 1"), Vec::<String>::new());
    assert_eq!(castles("r3k2r/8/8/8/8/8/8/R2QK2R w KQkq - 0 1"), vec!["e1g1"]);
    // The king is in check, passes an attacked square, or lands on one.
    assert_eq!(castles("r3k2r/8/8/8/8/8/4r3/R3K2R w KQ - 0 1"), Vec::<String>::new());
    assert_eq!(castles("4k3/8/8/8/8/8/5r2/R3K2R w KQ - 0 1"), vec!["e1c1"]);
    assert_eq!(castles("4k3/8/8/8/8/8/6r1/R3K2R w KQ - 0 1"), vec!["e1c1"]);
    assert_eq!(castles("4k3/8/8/8/8/8/2r5/R3K2R w KQ - 0 1"), vec!["e1g1"]);
    // Only the rook passes an attacked square: allowed.
    assert_eq!(castles("4k3/8/8/8/8/8/1r6/R3K2R w KQ - 0 1"), vec!["e1c1", "e1g1"]);
}

#[test]
fn coordinate_notation() {
    let m = Move::from_str("e2e4", Piece::LP, false, true, false, false);
    assert_eq!(m.to_str(), "e2e4");
    assert_eq!((m.source(), m.target()), (52, 36));
    let m = Move::from_str("b7b8R", Piece::LP, false, false, false, false);
    assert_eq!(m.promoted(), Some(Piece::LR));
    assert_eq!(m.to_str(), "b7b8r");
    let m = Move::from_str("g2g1q", Piece::DP, false, false, false, false);
    assert_eq!(m.promoted(), Some(Piece::DQ));
    assert_eq!(m.to_str(), "g2g1q");
    let m = Move::from_str("b7b8q", Piece::LP, false, false, false, false);
    assert_eq!(m.promoted(), Some(Piece::LQ));
    let m = Move::from_str("b7b8x", Piece::LP, true, false, false, false);
    assert_eq!(m.promoted(), None);
    assert!(m.is_capture());
    let m = Move::from_str("zz", Piece::LP, false, false, false, false);
    assert_eq!((m.source(), m.target()), (NO_SQ, NO_SQ));
    assert_eq!(m.to_str(), "--");
}

#[test]
fn moves_named_by_their_square_numbers() {
    let ai = AttackInfo::new();
    let zi = ZobristInfo::new();
    let b = Board::from_fen(FEN_POSITIONS[1], &zi).unwrap();
    let nf3 = move_is_legal(&b, &ai, sq_from_str("g1"), sq_from_str("f3"), None).unwrap();
    assert_eq!(nf3, Move::new(62, 45, Piece::LN, None, false, false, false, false));
    assert_eq!(move_is_legal(&b, &ai, sq_from_str("g1"), sq_from_str("e2"), None), None);
    assert_eq!(move_is_legal(&b, &ai, sq_from_str("g8"), sq_from_str("f6"), None), None);
    assert_eq!(move_is_legal(&b, &ai, sq_from_str("e4"), sq_from_str("e5"), None), None);
    assert_eq!(move_is_legal(&b, &ai, NO_SQ, sq_from_str("e5"), None), None);
    assert_eq!(move_is_legal(&b, &ai, sq_from_str("g1"), NO_SQ, None), None);
    assert_eq!(
        move_is_legal(&b, &ai, sq_from_str("g1"), sq_from_str("f3"), Some(Piece::LQ)),
        None
    );
    // The pinned rook may try to leave the file: whether the king is left attacked is not asked.
    let b = Board::from_fen("4r2k/8/8/8/8/8/4R3/4K3 w - - 0 1", &zi).unwrap();
    assert!(move_is_legal(&b, &ai, sq_from_str("e2"), sq_from_str("a2"), None).is_some());
}
