use chess_core::attack::AttackInfo;
use chess_core::bb;
use chess_core::consts::{PieceColor, PieceType};
use chess_core::magic_consts::{BISHOP_MAGICS, ROOK_MAGICS};
use chess_core::magics::{build_square, SliderTable};
use chess_core::rays;
use chess_core::text::sq_from_str;

fn set_of(names: &[&str]) -> u64 {
    let mut b = 0;
    for n in names {
        b = bb::insert(b, sq_from_str(n));
    }
    b
}

#[test]
fn knight_attacks() {
    let ai = AttackInfo::new();
    assert_eq!(ai.get_knight_attack(sq_from_str("a8")), set_of(&["b6", "c7"]));
    assert_eq!(ai.get_knight_attack(sq_from_str("h1")), set_of(&["g3", "f2"]));
    assert_eq!(
        ai.get_knight_attack(sq_from_str("d4")),
        set_of(&["b3", "b5", "c2", "c6", "e2", "e6", "f3", "f5"])
    );
    assert_eq!(ai.knight[sq_from_str("g1")], set_of(&["e2", "f3", "h3"]));
}

#[test]
fn king_attacks() {
    let ai = AttackInfo::new();
    assert_eq!(ai.get_king_attack(sq_from_str("e1")), set_of(&["d1", "f1", "d2", "e2", "f2"]));
    assert_eq!(ai.get_king_attack(sq_from_str("a8")), set_of(&["a7", "b7", "b8"]));
    assert_eq!(bb::count(ai.get_king_attack(sq_from_str("d4"))), 8);
}

#[test]
fn pawn_attacks() {
    let ai = AttackInfo::new();
    assert_eq!(ai.get_pawn_attack(PieceColor::Light, sq_from_str("e2")), set_of(&["d3", "f3"]));
    assert_eq!(ai.get_pawn_attack(PieceColor::Dark, sq_from_str("e7")), set_of(&["d6", "f6"]));
    assert_eq!(ai.get_pawn_attack(PieceColor::Light, sq_from_str("a2")), set_of(&["b3"]));
    assert_eq!(ai.get_pawn_attack(PieceColor::Dark, sq_from_str("h7")), set_of(&["g6"]));
    assert_eq!(ai.get_pawn_attack(PieceColor::Light, sq_from_str("c8")), 0);
    assert_eq!(ai.get_pawn_attack(PieceColor::Dark, sq_from_str("c1")), 0);
}

#[test]
fn leapers_do_not_wrap_round_the_board() {
    let ai = AttackInfo::new();
    // From the h-file nothing on the a-file is attacked, and the other way round.
    for r in 0..8 {
        let h = r * 8 + 7;
        let a = r * 8;
        let a_file: u64 = 0x0101_0101_0101_0101;
        let b_file: u64 = a_file << 1;
        let g_file: u64 = a_file << 6;
        let h_file: u64 = a_file << 7;
        assert_eq!(ai.get_knight_attack(h) & (a_file | b_file), 0);
        assert_eq!(ai.get_knight_attack(a) & (g_file | h_file), 0);
        assert_eq!(ai.get_king_attack(h) & a_file, 0);
        assert_eq!(ai.get_king_attack(a) & h_file, 0);
        assert_eq!(ai.get_pawn_attack(PieceColor::Light, h) & a_file, 0);
        assert_eq!(ai.get_pawn_attack(PieceColor::Dark, a) & h_file, 0);
    }
}

#[test]
fn rook_attacks() {
    let ai = AttackInfo::new();
    let a1 = sq_from_str("a1");
    assert_eq!(bb::count(ai.get_rook_attack(a1, 0)), 14);
    let occ = set_of(&["a4", "c1", "h8"]);
    assert_eq!(ai.get_rook_attack(a1, occ), set_of(&["a2", "a3", "a4", "b1", "c1"]));
    let d4 = sq_from_str("d4");
    assert_eq!(bb::count(ai.get_rook_attack(d4, 0)), 14);
    let occ = set_of(&["d6", "b4", "d3", "g4"]);
    assert_eq!(
        ai.get_rook_attack(d4, occ),
        set_of(&["d5", "d6", "c4", "b4", "d3", "e4", "f4", "g4"])
    );
}

#[test]
fn bishop_attacks() {
    let ai = AttackInfo::new();
    let d4 = sq_from_str("d4");
    assert_eq!(bb::count(ai.get_bishop_attack(d4, 0)), 13);
    let occ = set_of(&["f6", "b2", "c5", "d5"]);
    assert_eq!(
        ai.get_bishop_attack(d4, occ),
        set_of(&["e5", "f6", "c3", "b2", "c5", "e3", "f2", "g1"])
    );
    assert_eq!(bb::count(ai.get_bishop_attack(sq_from_str("a1"), 0)), 7);
}

#[test]
fn queen_attacks_are_bishop_and_rook_attacks() {
    let ai = AttackInfo::new();
    let d4 = sq_from_str("d4");
    assert_eq!(bb::count(ai.get_queen_attack(d4, 0)), 27);
    let occ = set_of(&["f6", "b2", "d6", "g4"]);
    for s in 0..64 {
        assert_eq!(
            ai.get_queen_attack(s, occ),
            ai.get_bishop_attack(s, occ) | ai.get_rook_attack(s, occ)
        );
    }
}

#[test]
fn attack_by_kind() {
    let ai = AttackInfo::new();
    let occ = set_of(&["f6", "b2", "d6", "g4"]);
    let s = sq_from_str("d4");
    assert_eq!(ai.get_attack(PieceType::Pawn, PieceColor::Light, s, occ), set_of(&["c5", "e5"]));
    assert_eq!(ai.get_attack(PieceType::Pawn, PieceColor::Dark, s, occ), set_of(&["c3", "e3"]));
    assert_eq!(ai.get_attack(PieceType::Knight, PieceColor::Dark, s, occ), ai.get_knight_attack(s));
    assert_eq!(ai.get_attack(PieceType::King, PieceColor::Dark, s, occ), ai.get_king_attack(s));
    assert_eq!(
        ai.get_attack(PieceType::Bishop, PieceColor::Light, s, occ),
        ai.get_bishop_attack(s, occ)
    );
    assert_eq!(ai.get_attack(PieceType::Rook, PieceColor::Light, s, occ), ai.get_rook_attack(s, occ));
    assert_eq!(
        ai.get_attack(PieceType::Queen, PieceColor::Light, s, occ),
        ai.get_queen_attack(s, occ)
    );
}

#[test]
fn every_multiplier_passes_its_check() {
    let ai = AttackInfo::new();
    for s in 0..64 {
        assert!(ai.bishop.is_exact(s), "bishop multiplier of square {}", s);
        assert!(ai.rook.is_exact(s), "rook multiplier of square {}", s);
    }
}

#[test]
fn tables_agree_with_walking_the_lines() {
    let ai = AttackInfo::new();
    let mut occ: u64 = 0x1234_5678_9ABC_DEF1;
    for _ in 0..200 {
        occ ^= occ << 13;
        occ ^= occ >> 7;
        occ ^= occ << 17;
        for s in 0..64 {
            assert_eq!(ai.get_bishop_attack(s, occ), rays::bishop_rays(s, occ));
            assert_eq!(ai.get_rook_attack(s, occ), rays::rook_rays(s, occ));
        }
    }
}

#[test]
fn a_bad_multiplier_is_found_out_and_answered_by_walking() {
    // 1 as multiplier maps every occupancy of e4's relevant squares to slot 0.
    let t = build_square(false, sq_from_str("e4"), 1);
    assert!(!t.exact);
    assert_eq!(t.mask, rays::rook_relevant(sq_from_str("e4")));
    let good = build_square(false, sq_from_str("a8"), 0x8a80104000800020);
    assert!(good.exact);
    assert_eq!(good.shift, 52);
    assert_eq!(good.attacks.len(), 4096);
}

#[test]
fn relevant_squares() {
    assert_eq!(bb::count(rays::rook_relevant(sq_from_str("a1"))), 12);
    assert_eq!(bb::count(rays::rook_relevant(sq_from_str("d4"))), 10);
    assert_eq!(bb::count(rays::bishop_relevant(sq_from_str("d4"))), 9);
    assert_eq!(bb::count(rays::bishop_relevant(sq_from_str("a1"))), 6);
    assert_eq!(
        rays::rook_relevant(sq_from_str("a1")),
        set_of(&["a2", "a3", "a4", "a5", "a6", "a7", "b1", "c1", "d1", "e1", "f1", "g1"])
    );
}

#[test]
fn single_rays() {
    let occ = set_of(&["d6"]);
    assert_eq!(rays::ray(sq_from_str("d4"), -1, 0, occ), set_of(&["d5", "d6"]));
    assert_eq!(rays::ray(sq_from_str("d4"), 1, 0, occ), set_of(&["d3", "d2", "d1"]));
    assert_eq!(rays::ray(sq_from_str("d4"), 0, 1, occ), set_of(&["e4", "f4", "g4", "h4"]));
    assert_eq!(rays::ray(sq_from_str("h1"), 0, 1, occ), 0);
    assert_eq!(rays::inner_ray(sq_from_str("d4"), -1, 0), set_of(&["d5", "d6", "d7"]));
    assert_eq!(rays::step_bit(sq_from_str("a1"), 0, -1), 0);
    assert_eq!(rays::step_bit(sq_from_str("a1"), -1, 1), set_of(&["b2"]));
}

#[test]
fn slider_tables_of_both_kinds() {
    let b = SliderTable::new(true);
    let r = SliderTable::new(false);
    let occ = set_of(&["c3", "e5", "d7", "g4"]);
    let s = sq_from_str("d4");
    assert_eq!(b.attacks(s, occ), rays::bishop_rays(s, occ));
    assert_eq!(r.attacks(s, occ), rays::rook_rays(s, occ));
    assert_eq!(rays::knight_mask(s), AttackInfo::new().get_knight_attack(s));
    assert_eq!(rays::king_mask(s), AttackInfo::new().get_king_attack(s));
    assert_eq!(rays::pawn_mask(PieceColor::Light, s), set_of(&["c5", "e5"]));
}

#[test]
fn slot_of_an_occupancy() {
    let ai = AttackInfo::new();
    let mut occ: u64 = 0x0F0F_1234_8765_F0F0;
    for s in 0..64 {
        occ ^= occ << 13;
        occ ^= occ >> 7;
        occ ^= occ << 17;
        let rook = &ai.rook.squares[s];
        assert_eq!(ai.rook.magics[s], ROOK_MAGICS[s]);
        assert_eq!(rook.shift, 64 - rook.mask.count_ones() as u64);
        assert_eq!(rook.attacks.len(), 1usize << rook.mask.count_ones());
        let slot = ((occ & rook.mask).wrapping_mul(ROOK_MAGICS[s]) >> rook.shift) as usize;
        assert_eq!(rook.attacks[slot], ai.get_rook_attack(s, occ));
        let bishop = &ai.bishop.squares[s];
        assert_eq!(ai.bishop.magics[s], BISHOP_MAGICS[s]);
        assert_eq!(bishop.shift, 64 - bishop.mask.count_ones() as u64);
        let slot = ((occ & bishop.mask).wrapping_mul(BISHOP_MAGICS[s]) >> bishop.shift) as usize;
        assert_eq!(bishop.attacks[slot], ai.get_bishop_attack(s, occ));
    }
}
