use chess_core::attack::AttackInfo;
use chess_core::board::Board;
use chess_core::consts::Piece;
use chess_core::fen::FEN_POSITIONS;
use chess_core::moves::{make, Move, MoveFlag};
use chess_core::zobrist::{gen_board_key, gen_board_lock, ZobristInfo, ZobristTable, KEY_SEED, LOCK_SEED};

fn next_random(x: u64) -> u64 {
    let a = x ^ (x << 13);
    let b = a ^ (a >> 7);
    b ^ (b << 17)
}

#[test]
fn tables_are_the_same_every_time() {
    let a = ZobristInfo::new();
    let b = ZobristInfo::new();
    assert_eq!(a.key.pieces, b.key.pieces);
    assert_eq!(a.key.castling, b.key.castling);
    assert_eq!(a.key.enpassant, b.key.enpassant);
    assert_eq!(a.key.side, b.key.side);
    assert_eq!(a.lock.pieces, b.lock.pieces);
    assert_eq!(a.lock.castling, b.lock.castling);
    assert_eq!(a.lock.enpassant, b.lock.enpassant);
    assert_eq!(a.lock.side, b.lock.side);
    assert_ne!(a.key.pieces, a.lock.pieces);
}

#[test]
fn tables_follow_the_sequence_of_their_seed() {
    let zi = ZobristInfo::new();
    assert_eq!(zi.key.pieces.len(), 768);
    assert_eq!(zi.key.castling.len(), 16);
    assert_eq!(zi.key.enpassant.len(), 8);
    let mut x = KEY_SEED;
    for i in 0..768 {
        x = next_random(x);
        assert_eq!(zi.key.pieces[i], x);
    }
    for i in 0..16 {
        x = next_random(x);
        assert_eq!(zi.key.castling[i], x);
    }
    for i in 0..8 {
        x = next_random(x);
        assert_eq!(zi.key.enpassant[i], x);
    }
    assert_eq!(zi.key.side, next_random(x));
    assert_eq!(zi.lock.pieces[0], next_random(LOCK_SEED));
    let t = ZobristTable::new(1);
    assert_eq!(t.pieces[0], 0x4082_2041);
    assert_eq!(t.pieces[1], next_random(0x4082_2041));
}

#[test]
fn same_text_same_hashes() {
    let zi = ZobristInfo::new();
    for fen in FEN_POSITIONS.iter() {
        let a = Board::from_fen(fen, &zi).unwrap();
        let b = Board::from_fen(fen, &zi).unwrap();
        assert_eq!((a.state.key, a.state.lock), (b.state.key, b.state.lock));
        assert_ne!(a.state.key, a.state.lock);
    }
}

#[test]
fn one_man_moved_changes_both_hashes() {
    let zi = ZobristInfo::new();
    let a = Board::from_fen("8/8/8/8/8/8/4P3/4K2k w - - 0 1", &zi).unwrap();
    let b = Board::from_fen("8/8/8/8/8/4P3/8/4K2k w - - 0 1", &zi).unwrap();
    assert_ne!(a.state.key, b.state.key);
    assert_ne!(a.state.lock, b.state.lock);
    let mut keys = Vec::new();
    for fen in FEN_POSITIONS.iter() {
        let p = Board::from_fen(fen, &zi).unwrap();
        keys.push((p.state.key, p.state.lock));
    }
    for i in 0..keys.len() {
        for j in 0..i {
            assert_ne!(keys[i].0, keys[j].0);
            assert_ne!(keys[i].1, keys[j].1);
        }
    }
}

#[test]
fn every_feature_enters_the_hash() {
    let zi = ZobristInfo::new();
    let base = Board::from_fen("r3k2r/8/8/8/4P3/8/8/R3K2R w KQkq - 0 1", &zi).unwrap();
    let side = Board::from_fen("r3k2r/8/8/8/4P3/8/8/R3K2R b KQkq - 0 1", &zi).unwrap();
    let rights = Board::from_fen("r3k2r/8/8/8/4P3/8/8/R3K2R w KQk - 0 1", &zi).unwrap();
    let passing = Board::from_fen("r3k2r/8/8/8/4P3/8/8/R3K2R w KQkq e3 0 1", &zi).unwrap();
    let clocks = Board::from_fen("r3k2r/8/8/8/4P3/8/8/R3K2R w KQkq - 31 77", &zi).unwrap();
    assert_eq!(base.state.key ^ side.state.key, zi.key.side);
    assert_eq!(base.state.lock ^ side.state.lock, zi.lock.side);
    assert_eq!(base.state.key ^ rights.state.key, zi.key.castling[15] ^ zi.key.castling[7]);
    assert_eq!(base.state.key ^ passing.state.key, zi.key.enpassant[4]);
    // The counters are no part of the hash.
    assert_eq!(base.state.key, clocks.state.key);
    assert_eq!(base.state.lock, clocks.state.lock);
}

#[test]
fn hash_of_one_man() {
    let zi = ZobristInfo::new();
    let b = Board::from_fen("8/8/8/8/4P3/8/8/8 w - - 0 1", &zi).unwrap();
    assert_eq!(b.state.key, zi.key.pieces[64 * Piece::LP.index() + 36] ^ zi.key.castling[0]);
    assert_eq!(b.state.lock, zi.lock.pieces[36] ^ zi.lock.castling[0]);
    assert_eq!(gen_board_key(&zi.key, &b), b.state.key);
    assert_eq!(gen_board_lock(&zi.lock, &b), b.state.lock);
    let e = Board::from_fen("8/8/8/8/8/8/8/8 b - a6 0 1", &zi).unwrap();
    assert_eq!(e.state.key, zi.key.castling[0] ^ zi.key.enpassant[0] ^ zi.key.side);
}

#[test]
fn hashes_do_not_depend_on_the_way_to_a_position() {
    let ai = AttackInfo::new();
    let zi = ZobristInfo::new();
    let start = Board::from_fen(FEN_POSITIONS[1], &zi).unwrap();
    let nf3 = Move::from_str("g1f3", Piece::LN, false, false, false, false);
    let nc3 = Move::from_str("b1c3", Piece::LN, false, false, false, false);
    let nf6 = Move::from_str("g8f6", Piece::DN, false, false, false, false);
    let nc6 = Move::from_str("b8c6", Piece::DN, false, false, false, false);
    let mut a = start;
    for m in [nf3, nf6, nc3, nc6] {
        assert!(make(&mut a, &ai, &zi, m, MoveFlag::AllMoves));
    }
    let mut b = start;
    for m in [nc3, nc6, nf3, nf6] {
        assert!(make(&mut b, &ai, &zi, m, MoveFlag::AllMoves));
    }
    assert_eq!((a.state.key, a.state.lock), (b.state.key, b.state.lock));
    let read = Board::from_fen(
        "r1bqkb1r/pppppppp/2n2n2/8/8/2N2N2/PPPPPPPP/R1BQKB1R w KQkq - 4 3",
        &zi,
    )
    .unwrap();
    assert_eq!((a.state.key, a.state.lock), (read.state.key, read.state.lock));
    assert_eq!(a.pos.piece, read.pos.piece);
    assert_eq!(a.state.half_moves, 4);
    assert_eq!(a.state.full_moves, 3);
}
