use chess_core::attack::AttackInfo;
use chess_core::board::Board;
use chess_core::fen::FEN_POSITIONS;
use chess_core::move_gen::{generate_all, legal_moves, MoveList};
use chess_core::moves::{make, MoveFlag};
use chess_core::zobrist::ZobristInfo;

fn perft(board: &Board, ai: &AttackInfo, zi: &ZobristInfo, depth: u32) -> u64 {
    if depth == 0 {
        return 1;
    }
    let ml = legal_moves(board, ai, zi);
    if depth == 1 {
        return ml.moves.len() as u64;
    }
    let mut nodes = 0;
    for mv in ml.moves.iter() {
        let mut next = *board;
        assert!(make(&mut next, ai, zi, *mv, MoveFlag::AllMoves));
        nodes += perft(&next, ai, zi, depth - 1);
    }
    nodes
}

fn counts(fen: &str, depth: u32) -> u64 {
    let ai = AttackInfo::new();
    let zi = ZobristInfo::new();
    let board = Board::from_fen(fen, &zi).unwrap();
    perft(&board, &ai, &zi, depth)
}

#[test]
fn start_position_has_20_moves() {
    assert_eq!(counts(FEN_POSITIONS[1], 1), 20);
}

#[test]
fn start_position_has_400_replies() {
    assert_eq!(counts(FEN_POSITIONS[1], 2), 400);
}

#[test]
fn start_position_depth_three() {
    assert_eq!(counts(FEN_POSITIONS[1], 3), 8902);
}

#[test]
fn castling_and_pins_position() {
    assert_eq!(counts(FEN_POSITIONS[2], 1), 48);
    assert_eq!(counts(FEN_POSITIONS[2], 2), 2039);
}

#[test]
fn rook_endgame_position() {
    assert_eq!(counts(FEN_POSITIONS[3], 1), 14);
    assert_eq!(counts(FEN_POSITIONS[3], 2), 191);
    assert_eq!(counts(FEN_POSITIONS[3], 3), 2812);
}

#[test]
fn promotion_position() {
    assert_eq!(counts(FEN_POSITIONS[4], 1), 6);
    assert_eq!(counts(FEN_POSITIONS[4], 2), 264);
}

#[test]
fn knight_fork_position() {
    assert_eq!(counts(FEN_POSITIONS[5], 1), 44);
    assert_eq!(counts(FEN_POSITIONS[5], 2), 1486);
}

#[test]
fn middle_game_position() {
    assert_eq!(counts(FEN_POSITIONS[6], 1), 46);
    assert_eq!(counts(FEN_POSITIONS[6], 2), 2079);
}

#[test]
fn empty_board_has_no_moves() {
    assert_eq!(counts(FEN_POSITIONS[0], 1), 0);
}

#[test]
fn pseudo_legal_moves_include_illegal_ones() {
    // The rook on e2 is pinned by the rook on e8: it may try to leave the
    // file, but the move is not legal.
    let ai = AttackInfo::new();
    let zi = ZobristInfo::new();
    let board = Board::from_fen("4r2k/8/8/8/8/8/4R3/4K3 w - - 0 1", &zi).unwrap();
    let mut tried = MoveList::new();
    generate_all(&board, &ai, &mut tried);
    let legal = legal_moves(&board, &ai, &zi);
    assert_eq!(tried.moves.len(), 13 + 4);
    assert_eq!(legal.moves.len(), 6 + 4);
    for mv in legal.moves.iter() {
        assert!(tried.moves.contains(mv));
    }
}

#[test]
fn no_move_is_listed_twice() {
    let ai = AttackInfo::new();
    let zi = ZobristInfo::new();
    for fen in FEN_POSITIONS.iter() {
        let board = Board::from_fen(fen, &zi).unwrap();
        let mut tried = MoveList::new();
        generate_all(&board, &ai, &mut tried);
        for i in 0..tried.moves.len() {
            for j in 0..i {
                assert_ne!(tried.moves[i], tried.moves[j]);
            }
        }
        let legal = legal_moves(&board, &ai, &zi);
        for i in 0..legal.moves.len() {
            for j in 0..i {
                assert_ne!(legal.moves[i], legal.moves[j]);
            }
        }
    }
}
