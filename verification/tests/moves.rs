use chess_engine::magic::{slider_mask_scan, slider_scan, MagicEntry, Slider, BISHOP_MAGICS, ROOK_MAGICS};
use chess_engine::move_generator::{make_successor, MoveGenerator};
use chess_engine::piece_moves::{bishop_scan, king_scan, knight_scan, pawn_scan, rook_mask_scan, rook_scan};
use chess_engine::evaluator::evaluate_position;
use chess_engine::state::{GameState, Piece, Side};

fn successors(generator: &MoveGenerator, text: &str) -> Vec<GameState> {
    let state = GameState::from_fen(text).unwrap();
    let mut moves = Vec::new();
    generator.generate_moves(&state, &mut moves);
    moves
}

fn count_leaves(generator: &MoveGenerator, state: &GameState, depth: u32) -> u64 {
    if depth == 0 {
        return 1;
    }
    let mut moves = Vec::new();
    generator.generate_moves(state, &mut moves);
    if depth == 1 {
        return moves.len() as u64;
    }
    moves.iter().map(|next| count_leaves(generator, next, depth - 1)).sum()
}

fn well_formed(state: &GameState) -> bool {
    let mut seen = 0u64;
    for side in [&state.white_state, &state.black_state] {
        let mut union = 0u64;
        for board in side.boards {
            if board & seen != 0 {
                return false;
            }
            seen |= board;
            union |= board;
        }
        if union != side.all {
            return false;
        }
    }
    state.en_passant.count_ones() <= 1
}

#[test]
fn initial_position_has_twenty_successors_and_scores_zero() {
    let generator = MoveGenerator::new();
    let state = GameState::new_game();
    let mut moves = Vec::new();
    generator.generate_moves(&state, &mut moves);
    assert_eq!(moves.len(), 20);
    assert_eq!(evaluate_position(&state), 0);
    let pawn_moves = moves.iter().filter(|m| m.white_state.get_board(Piece::Pawn) != 0xff00).count();
    let knight_moves = moves.iter().filter(|m| m.white_state.get_board(Piece::Knight) != 0x42).count();
    assert_eq!(pawn_moves, 16);
    assert_eq!(knight_moves, 4);
    for m in &moves {
        assert_eq!(m.next_to_move, Side::Black);
    }
}

#[test]
fn generate_moves_appends_and_is_repeatable() {
    let generator = MoveGenerator::new();
    let state = GameState::new_game();
    let mut first = Vec::new();
    generator.generate_moves(&state, &mut first);
    let mut second = vec![GameState::new_empty()];
    generator.generate_moves(&state, &mut second);
    assert_eq!(second.len(), 21);
    assert_eq!(second[0], GameState::new_empty());
    assert_eq!(&second[1..], &first[..]);
}

#[test]
fn leaf_counts_from_the_initial_position() {
    let generator = MoveGenerator::new();
    let state = GameState::new_game();
    assert_eq!(count_leaves(&generator, &state, 1), 20);
    assert_eq!(count_leaves(&generator, &state, 2), 400);
    assert_eq!(count_leaves(&generator, &state, 3), 8902);
}

#[test]
fn leaf_counts_with_castling_and_pins() {
    let generator = MoveGenerator::new();
    let state = GameState::from_fen("r3k2r/p1ppqpb1/bn2pnp1/3PN3/1p2P3/2N2Q1p/PPPBBPPP/R3K2R w KQkq -").unwrap();
    assert_eq!(count_leaves(&generator, &state, 1), 48);
    assert_eq!(count_leaves(&generator, &state, 2), 2039);
}

#[test]
fn leaf_counts_with_passing_captures_and_checks() {
    let generator = MoveGenerator::new();
    let state = GameState::from_fen("8/2p5/3p4/KP5r/1R3p1k/8/4P1P1/8 w - -").unwrap();
    assert_eq!(count_leaves(&generator, &state, 1), 14);
    assert_eq!(count_leaves(&generator, &state, 2), 191);
    assert_eq!(count_leaves(&generator, &state, 3), 2812);
}

#[test]
fn leaf_counts_with_promotions() {
    let generator = MoveGenerator::new();
    let state = GameState::from_fen("r3k2r/Pppp1ppp/1b3nbN/nP6/BBP1P3/q4N2/Pp1P2PP/R2Q1RK1 w kq - 0 1").unwrap();
    assert_eq!(count_leaves(&generator, &state, 1), 6);
    assert_eq!(count_leaves(&generator, &state, 2), 264);
    let state = GameState::from_fen("rnbq1k1r/pp1Pbppp/2p5/8/2B5/8/PPP1NnPP/RNBQK2R w KQ - 1 8").unwrap();
    assert_eq!(count_leaves(&generator, &state, 1), 44);
    assert_eq!(count_leaves(&generator, &state, 2), 1486);
}

#[test]
fn successors_stay_well_formed() {
    let generator = MoveGenerator::new();
    for text in [
        "rnbqkbnr/pppppppp/8/8/8/8/PPPPPPPP/RNBQKBNR w KQkq -",
        "r3k2r/p1ppqpb1/bn2pnp1/3PN3/1p2P3/2N2Q1p/PPPBBPPP/R3K2R w KQkq -",
        "r3k2r/Pppp1ppp/1b3nbN/nP6/BBP1P3/q4N2/Pp1P2PP/R2Q1RK1 w kq -",
        "rnbqkbnr/ppp1p1pp/8/3pPp2/8/8/PPPP1PPP/RNBQKBNR w KQkq f6",
    ] {
        for next in successors(&generator, text) {
            assert!(well_formed(&next));
            let mut replies = Vec::new();
            generator.generate_moves(&next, &mut replies);
            for reply in replies {
                assert!(well_formed(&reply));
            }
        }
    }
}

#[test]
fn mated_king_is_hit_and_stalemated_king_is_not() {
    let generator = MoveGenerator::new();
    let mated = GameState::from_fen("rnb1kbnr/pppp1ppp/8/4p3/6Pq/5P2/PPPPP2P/RNBQKBNR w KQkq - 1 3").unwrap();
    let mut moves = Vec::new();
    generator.generate_moves(&mated, &mut moves);
    assert!(moves.is_empty());
    assert!(generator.is_king_hit(&mated, Side::White));
    assert!(!generator.is_king_hit(&mated, Side::Black));

    let stalemated = GameState::from_fen("7k/5Q2/6K1/8/8/8/8/8 b - -").unwrap();
    generator.generate_moves(&stalemated, &mut moves);
    assert!(moves.is_empty());
    assert!(!generator.is_king_hit(&stalemated, Side::Black));

    let back_rank = GameState::from_fen("R5k1/5ppp/8/8/8/8/8/4K3 b - -").unwrap();
    generator.generate_moves(&back_rank, &mut moves);
    assert!(moves.is_empty());
    assert!(generator.is_king_hit(&back_rank, Side::Black));
}

#[test]
fn king_hit_by_each_kind_of_piece() {
    let generator = MoveGenerator::new();
    for (text, hit) in [
        ("4k3/8/8/8/8/8/8/4K3 w - -", false),
        ("4k3/8/8/8/8/8/3p4/4K3 w - -", true),
        ("4k3/8/8/8/8/8/4p3/4K3 w - -", false),
        ("4k3/8/8/8/8/3n4/8/4K3 w - -", true),
        ("4k3/8/8/8/7b/8/8/4K3 w - -", true),
        ("4k3/8/8/8/7b/8/5P2/4K3 w - -", false),
        ("4k3/4r3/8/8/8/8/8/4K3 w - -", true),
        ("4k3/4r3/8/8/4N3/8/8/4K3 w - -", false),
        ("4k3/8/8/8/8/8/8/q3K3 w - -", true),
        ("4k3/8/8/8/8/8/5k2/4K3 w - -", true),
        ("8/8/8/8/8/8/8/8 w - -", false),
    ] {
        let state = GameState::from_fen(text).unwrap();
        assert_eq!(generator.is_king_hit(&state, Side::White), hit, "{}", text);
    }
    let black = GameState::from_fen("4k3/3P4/8/8/8/8/8/4K3 b - -").unwrap();
    assert!(generator.is_king_hit(&black, Side::Black));
    let black = GameState::from_fen("4k3/8/3P4/8/8/8/8/4K3 b - -").unwrap();
    assert!(!generator.is_king_hit(&black, Side::Black));
}

#[test]
fn every_magic_lookup_equals_the_ray_walk() {
    let generator = MoveGenerator::new();
    assert!(generator.uses_magic());
    for sq in 0..64u32 {
        for kind in [Slider::Rook, Slider::Bishop] {
            let magic = match kind {
                Slider::Rook => ROOK_MAGICS[sq as usize],
                Slider::Bishop => BISHOP_MAGICS[sq as usize],
            };
            let entry = MagicEntry::new(kind, sq, magic);
            assert!(entry.is_magic());
            let mask = slider_mask_scan(kind, sq);
            let mut subset = 0u64;
            let mut seen = 0u32;
            loop {
                let walked = slider_scan(kind, sq, subset);
                assert_eq!(entry.lookup(subset), Some(walked));
                assert_eq!(entry.attacks(subset | !mask), walked);
                seen += 1;
                subset = subset.wrapping_sub(mask) & mask;
                if subset == 0 {
                    break;
                }
            }
            assert_eq!(seen, 1 << mask.count_ones());
        }
    }
}

#[test]
fn a_bad_multiplier_falls_back_to_the_ray_walk() {
    let entry = MagicEntry::new(Slider::Rook, 0, 0);
    assert!(!entry.is_magic());
    assert_eq!(entry.lookup(0), None);
    assert_eq!(entry.attacks(0), rook_scan(0, 0));
    assert_eq!(entry.attacks(0x0101), rook_scan(0, 0x0101));
}

#[test]
fn attack_sets_on_known_squares() {
    let generator = MoveGenerator::new();
    assert_eq!(knight_scan(0), (1 << 10) | (1 << 17));
    assert_eq!(knight_scan(27), (1 << 10) | (1 << 12) | (1 << 17) | (1 << 21) | (1 << 33) | (1 << 37) | (1 << 42) | (1 << 44));
    assert_eq!(king_scan(0), (1 << 1) | (1 << 8) | (1 << 9));
    assert_eq!(king_scan(63), (1 << 62) | (1 << 54) | (1 << 55));
    assert_eq!(pawn_scan(Side::White, 12), (1 << 19) | (1 << 21));
    assert_eq!(pawn_scan(Side::Black, 52), (1 << 43) | (1 << 45));
    assert_eq!(pawn_scan(Side::White, 8), 1 << 17);
    assert_eq!(pawn_scan(Side::White, 60), 0);
    assert_eq!(rook_scan(0, 0), 0x0101_0101_0101_01fe);
    assert_eq!(rook_scan(0, (1 << 2) | (1 << 16)), (1 << 1) | (1 << 2) | (1 << 8) | (1 << 16));
    assert_eq!(bishop_scan(0, 0), 0x8040_2010_0804_0200);
    assert_eq!(bishop_scan(27, 1 << 36), (1 << 36) | (1 << 34) | (1 << 41) | (1 << 48) | (1 << 18) | (1 << 9) | 1 | (1 << 20) | (1 << 13) | (1 << 6));
    assert_eq!(rook_mask_scan(0), 0x0001_0101_0101_017e);
    for sq in 0..64u32 {
        assert_eq!(generator.attacks(Piece::Knight, Side::White, sq, 0), knight_scan(sq));
        assert_eq!(generator.attacks(Piece::King, Side::Black, sq, 0), king_scan(sq));
        assert_eq!(generator.attacks(Piece::Pawn, Side::White, sq, 0), pawn_scan(Side::White, sq));
        assert_eq!(generator.attacks(Piece::Pawn, Side::Black, sq, 0), pawn_scan(Side::Black, sq));
        let occ = 0x0042_1800_2400_8100u64.rotate_left(sq);
        assert_eq!(generator.attacks(Piece::Rook, Side::White, sq, occ), rook_scan(sq, occ));
        assert_eq!(generator.attacks(Piece::Bishop, Side::White, sq, occ), bishop_scan(sq, occ));
        assert_eq!(generator.attacks(Piece::Queen, Side::White, sq, occ), rook_scan(sq, occ) | bishop_scan(sq, occ));
    }
}

#[test]
fn castling_moves_king_and_rook() {
    let generator = MoveGenerator::new();
    let moves = successors(&generator, "r3k2r/8/8/8/8/8/8/R3K2R w KQkq -");
    assert_eq!(moves.len(), 26);
    let short = GameState::from_fen("r3k2r/8/8/8/8/8/8/R4RK1 b kq -").unwrap();
    let long = GameState::from_fen("r3k2r/8/8/8/8/8/8/2KR3R b kq -").unwrap();
    assert!(moves.contains(&short));
    assert!(moves.contains(&long));
    let black = successors(&generator, "r3k2r/8/8/8/8/8/8/R3K2R b KQkq -");
    assert_eq!(black.len(), 26);
    assert!(black.contains(&GameState::from_fen("r4rk1/8/8/8/8/8/8/R3K2R w KQ -").unwrap()));
    assert!(black.contains(&GameState::from_fen("2kr3r/8/8/8/8/8/8/R3K2R w KQ -").unwrap()));
}

#[test]
fn castling_needs_rights_free_and_safe_squares() {
    let generator = MoveGenerator::new();
    let short = GameState::from_fen("4k3/8/8/8/8/8/8/5RK1 b - -").unwrap();
    assert!(successors(&generator, "4k3/8/8/8/8/8/8/4K2R w K -").contains(&short));
    assert!(!successors(&generator, "4k3/8/8/8/8/8/8/4K2R w - -").contains(&short));
    assert!(!successors(&generator, "4k3/8/8/8/8/8/8/4K2R w Q -").contains(&short));
    let through_check = successors(&generator, "4kr2/8/8/8/8/8/8/4K2R w K -");
    assert!(through_check.iter().all(|m| m.white_state.get_board(Piece::King) != 1 << 6));
    let in_check = successors(&generator, "4r1k1/8/8/8/8/8/8/4K2R w K -");
    assert!(in_check.iter().all(|m| m.white_state.get_board(Piece::King) != 1 << 6));
    let blocked = successors(&generator, "4k3/8/8/8/8/8/8/4KN1R w K -");
    assert!(blocked.iter().all(|m| m.white_state.get_board(Piece::King) != 1 << 6));
    let rook_attacked = successors(&generator, "4k2r/8/8/8/8/8/8/4K2R w K -");
    assert!(rook_attacked.iter().any(|m| m.white_state.get_board(Piece::King) == 1 << 6));
}

#[test]
fn castling_rights_follow_king_and_rook() {
    let generator = MoveGenerator::new();
    let moves = successors(&generator, "r3k2r/8/8/8/8/8/8/R3K2R w KQkq -");
    for m in &moves {
        let king_moved = m.white_state.get_board(Piece::King) != 1 << 4;
        let rooks = m.white_state.get_board(Piece::Rook);
        let expected_white = (!king_moved && rooks & (1 << 7) != 0, !king_moved && rooks & 1 != 0);
        assert_eq!(m.castle_state(Side::White), expected_white);
        let black_rooks = m.black_state.get_board(Piece::Rook);
        assert_eq!(m.castle_state(Side::Black), (black_rooks & (1 << 63) != 0, black_rooks & (1 << 56) != 0));
    }
    assert!(moves.contains(&GameState::from_fen("R3k2r/8/8/8/8/8/8/4K2R b Kk -").unwrap()));
    assert!(moves.contains(&GameState::from_fen("r3k2R/8/8/8/8/8/8/R3K3 b Qq -").unwrap()));
}

#[test]
fn double_step_marks_the_skipped_square() {
    let generator = MoveGenerator::new();
    let moves = successors(&generator, "rnbqkbnr/pppppppp/8/8/8/8/PPPPPPPP/RNBQKBNR w KQkq -");
    assert!(moves.contains(&GameState::from_fen("rnbqkbnr/pppppppp/8/8/4P3/8/PPPP1PPP/RNBQKBNR b KQkq e3").unwrap()));
    assert!(moves.contains(&GameState::from_fen("rnbqkbnr/pppppppp/8/8/8/4P3/PPPP1PPP/RNBQKBNR b KQkq -").unwrap()));
    let marked = moves.iter().filter(|m| m.en_passant != 0).count();
    assert_eq!(marked, 8);
    let replies = successors(&generator, "rnbqkbnr/pppppppp/8/8/4P3/8/PPPP1PPP/RNBQKBNR b KQkq e3");
    assert!(replies.contains(&GameState::from_fen("rnbqkbnr/ppp1pppp/8/3p4/4P3/8/PPPP1PPP/RNBQKBNR w KQkq d6").unwrap()));
    assert!(replies.contains(&GameState::from_fen("rnbqkbnr/ppp1pppp/3p4/8/4P3/8/PPPP1PPP/RNBQKBNR w KQkq -").unwrap()));
}

#[test]
fn taking_in_passing_removes_the_passed_pawn() {
    let generator = MoveGenerator::new();
    let moves = successors(&generator, "rnbqkbnr/ppp1p1pp/8/3pPp2/8/8/PPPP1PPP/RNBQKBNR w KQkq f6");
    assert!(moves.contains(&GameState::from_fen("rnbqkbnr/ppp1p1pp/5P2/3p4/8/8/PPPP1PPP/RNBQKBNR b KQkq -").unwrap()));
    assert!(!moves.iter().any(|m| m.white_state.get_board(Piece::Pawn) & (1 << 43) != 0));
    let without_mark = successors(&generator, "rnbqkbnr/ppp1p1pp/8/3pPp2/8/8/PPPP1PPP/RNBQKBNR w KQkq -");
    assert_eq!(without_mark.len() + 1, moves.len());
    let black = successors(&generator, "4k3/8/8/8/3pP3/8/8/4K3 b - e3");
    assert!(black.contains(&GameState::from_fen("4k3/8/8/8/8/4p3/8/4K3 w - -").unwrap()));
}

#[test]
fn promotion_gives_four_successors() {
    let generator = MoveGenerator::new();
    let moves = successors(&generator, "8/1P6/8/8/8/8/8/k6K w - -");
    assert_eq!(moves.len(), 7);
    for text in ["1Q6/8/8/8/8/8/8/k6K b - -", "1R6/8/8/8/8/8/8/k6K b - -", "1B6/8/8/8/8/8/8/k6K b - -", "1N6/8/8/8/8/8/8/k6K b - -"] {
        assert!(moves.contains(&GameState::from_fen(text).unwrap()), "{}", text);
    }
    let order: Vec<Piece> = moves
        .iter()
        .filter(|m| m.white_state.get_board(Piece::Pawn) == 0)
        .map(|m| m.white_state.piece_at(57).unwrap())
        .collect();
    assert_eq!(order, [Piece::Queen, Piece::Rook, Piece::Bishop, Piece::Knight]);
    let black = successors(&generator, "K6k/8/8/8/8/8/1p6/2R5 b - -");
    assert!(black.contains(&GameState::from_fen("K6k/8/8/8/8/8/8/2q5 w - -").unwrap()));
    assert!(black.contains(&GameState::from_fen("K6k/8/8/8/8/8/8/1qR5 w - -").unwrap()));
}

#[test]
fn pinned_piece_may_not_leave_the_line() {
    let generator = MoveGenerator::new();
    let moves = successors(&generator, "4r2k/8/8/8/8/8/4N3/4K3 w - -");
    assert!(moves.iter().all(|m| m.white_state.get_board(Piece::Knight) == 1 << 12));
    assert_eq!(moves.len(), 4);
}

#[test]
fn successors_come_by_origin_then_destination() {
    let generator = MoveGenerator::new();
    let state = GameState::from_fen("4k3/8/8/8/8/8/8/R3K3 w - -").unwrap();
    let mut moves = Vec::new();
    generator.generate_moves(&state, &mut moves);
    let places: Vec<(u32, u32)> = moves.iter().map(|m| { let mv = state.get_move(m); (mv.from, mv.to) }).collect();
    let mut sorted = places.clone();
    sorted.sort();
    assert_eq!(places, sorted);
    assert_eq!(places[0], (0, 1));
    assert_eq!(places.len(), 15);
}

#[test]
fn targets_of_the_piece_on_a_square() {
    let generator = MoveGenerator::new();
    let state = GameState::new_game();
    assert_eq!(generator.targets(&state, 12), (1 << 20) | (1 << 28));
    assert_eq!(generator.targets(&state, 1), (1 << 16) | (1 << 18));
    assert_eq!(generator.targets(&state, 0), 0);
    assert_eq!(generator.targets(&state, 30), 0);
    assert_eq!(generator.targets(&state, 52), 0);
    let castle = GameState::from_fen("r3k2r/8/8/8/8/8/8/R3K2R w KQkq -").unwrap();
    assert_eq!(generator.castle_targets(&castle), (1 << 2) | (1 << 6));
    assert_eq!(generator.targets(&castle, 4), (1 << 2) | (1 << 3) | (1 << 5) | (1 << 6) | (1 << 11) | (1 << 12) | (1 << 13));
    assert!(generator.is_attacked(&castle, 56, Side::White));
    assert!(!generator.is_attacked(&castle, 57, Side::White));
}

#[test]
fn make_successor_applies_a_plain_move() {
    let generator = MoveGenerator::new();
    let state = GameState::new_game();
    let next = make_successor(&state, 6, 21, None, generator.castle_targets(&state));
    assert_eq!(next, GameState::from_fen("rnbqkbnr/pppppppp/8/8/8/5N2/PPPPPPPP/RNBQKB1R b KQkq -").unwrap());
}

#[test]
fn attack_test_agrees_with_the_attackers_own_sets() {
    let generator = MoveGenerator::new();
    for text in [
        "rnbqkbnr/pppppppp/8/8/8/8/PPPPPPPP/RNBQKBNR w KQkq -",
        "r3k2r/p1ppqpb1/bn2pnp1/3PN3/1p2P3/2N2Q1p/PPPBBPPP/R3K2R w KQkq -",
        "8/2p5/3p4/KP5r/1R3p1k/8/4P1P1/8 w - -",
        "r3k2r/Pppp1ppp/1b3nbN/nP6/BBP1P3/q4N2/Pp1P2PP/R2Q1RK1 w kq -",
    ] {
        let state = GameState::from_fen(text).unwrap();
        let occ = state.white_state.all | state.black_state.all;
        for by in [Side::White, Side::Black] {
            for sq in 0..64u32 {
                let mut found = false;
                for piece in [Piece::Pawn, Piece::Rook, Piece::Knight, Piece::Bishop, Piece::Queen, Piece::King] {
                    let board = state.get_board(&(piece, by));
                    for from in 0..64u32 {
                        if board & (1 << from) != 0 && generator.attacks(piece, by, from, occ) & (1 << sq) != 0 {
                            found = true;
                        }
                    }
                }
                assert_eq!(generator.is_attacked(&state, sq, by), found, "{} {:?} {}", text, by, sq);
            }
        }
    }
}
