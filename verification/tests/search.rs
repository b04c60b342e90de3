use chess_engine::engine::ChessEngine;
use chess_engine::evaluator::{evaluate_position, side_material};
use chess_engine::game_setup::ChessMove;
use chess_engine::move_generator::make_successor;
use chess_engine::state::{GameState, Piece};

fn position(text: &str) -> GameState {
    GameState::from_fen(text).unwrap()
}

#[test]
fn material_is_counted_per_piece() {
    assert_eq!(side_material(&GameState::new_game().white_state), 8 * 100 + 2 * 500 + 2 * 320 + 2 * 330 + 900 + 40000);
    assert_eq!(evaluate_position(&position("4k3/8/8/8/8/8/8/4K3 w - -")), 0);
    assert_eq!(evaluate_position(&position("4k3/8/8/8/8/8/1P6/4K3 w - -")), 100);
    assert_eq!(evaluate_position(&position("4k3/8/8/8/8/8/1P6/4K3 b - -")), 100);
    assert_eq!(evaluate_position(&position("4k3/1p6/8/8/8/8/8/4K3 w - -")), -100);
    assert_eq!(evaluate_position(&position("4k3/8/8/8/8/8/8/QRBNK3 w - -")), 900 + 500 + 330 + 320);
    assert_eq!(evaluate_position(&position("qrbnk3/8/8/8/8/8/8/4K3 w - -")), -(900 + 500 + 330 + 320));
    assert_eq!(evaluate_position(&position("8/8/8/8/8/8/8/4K3 w - -")), 40000);
    assert_eq!(evaluate_position(&position("r3k2r/p1ppqpb1/bn2pnp1/3PN3/1p2P3/2N2Q1p/PPPBBPPP/R3K2R w KQkq -")), 0);
}

#[test]
fn search_at_depth_zero_is_the_evaluation() {
    let engine = ChessEngine::new();
    for text in [
        "rnbqkbnr/pppppppp/8/8/8/8/PPPPPPPP/RNBQKBNR w KQkq -",
        "4k3/8/8/8/8/8/1P6/4K3 b - -",
        "qrbnk3/8/8/8/8/8/8/4K3 w - -",
        "rnb1kbnr/pppp1ppp/8/4p3/6Pq/5P2/PPPPP2P/RNBQKBNR w KQkq -",
        "7k/5Q2/6K1/8/8/8/8/8 b - -",
    ] {
        let state = position(text);
        assert_eq!(engine.min_max_search(0, 0, &state), evaluate_position(&state));
        assert_eq!(engine.min_max_search(17, 0, &state), evaluate_position(&state));
    }
}

#[test]
fn mate_and_stalemate_scores_are_flat() {
    let engine = ChessEngine::new();
    let white_mated = position("rnb1kbnr/pppp1ppp/8/4p3/6Pq/5P2/PPPPP2P/RNBQKBNR w KQkq -");
    let black_mated = position("R5k1/5ppp/8/8/8/8/8/4K3 b - -");
    let stalemate = position("7k/5Q2/6K1/8/8/8/8/8 b - -");
    for depth in 1..4 {
        assert_eq!(engine.min_max_search(0, depth, &white_mated), -100000);
        assert_eq!(engine.min_max_search(0, depth, &black_mated), 100000);
        assert_eq!(engine.min_max_search(0, depth, &stalemate), 0);
    }
}

#[test]
fn search_takes_the_best_for_the_mover() {
    let engine = ChessEngine::new();
    let white = position("k7/8/8/8/8/8/q7/R6K w - -");
    assert_eq!(engine.min_max_search(0, 1, &white), 500);
    let black = position("k7/8/8/8/8/8/q7/R6K b - -");
    assert_eq!(engine.min_max_search(0, 1, &black), -900);
    assert_eq!(engine.min_max_search(0, 2, &white), 500);
    let mate_in_one = position("6k1/5ppp/8/8/8/8/8/R3K3 w - -");
    assert_eq!(engine.min_max_search(0, 2, &mate_in_one), 100000);
}

#[test]
fn no_move_in_a_position_without_successors() {
    let engine = ChessEngine::new();
    assert_eq!(engine.find_best_move(&position("rnb1kbnr/pppp1ppp/8/4p3/6Pq/5P2/PPPPP2P/RNBQKBNR w KQkq -")), None);
    assert_eq!(engine.find_best_move(&position("7k/5Q2/6K1/8/8/8/8/8 b - -")), None);
    assert_eq!(engine.find_move_by_pick(&position("7k/5Q2/6K1/8/8/8/8/8 b - -"), 5), None);
    assert_eq!(engine.find_best_move(&position("8/8/8/8/8/8/8/8 w - -")), None);
}

#[test]
fn chosen_move_leads_to_a_generated_successor() {
    let engine = ChessEngine::new();
    for text in [
        "7k/8/5KQ1/8/8/8/8/8 w - -",
        "7k/8/5K2/8/8/8/8/8 b - -",
        "4k3/8/8/8/8/8/4P3/4K3 w - -",
        "8/P6k/8/8/8/8/8/K7 w - -",
        "4k3/8/8/8/8/8/8/4K2R w K -",
    ] {
        let state = position(text);
        let chosen = engine.find_best_move(&state).unwrap();
        let next = make_successor(&state, chosen.from, chosen.to, chosen.promotion, engine.generator().castle_targets(&state));
        let mut moves = Vec::new();
        engine.generator().generate_moves(&state, &mut moves);
        assert!(moves.contains(&next), "{}", text);
        assert_eq!(state.get_move(&next), chosen);
    }
}

#[test]
fn engine_mates_in_one() {
    let engine = ChessEngine::new();
    let state = position("6k1/5ppp/8/8/8/8/8/R3K3 w - -");
    let chosen = engine.find_best_move(&state).unwrap();
    assert_eq!(chosen, ChessMove { from: 0, to: 56, promotion: None });
}

#[test]
fn first_of_equal_moves_is_chosen() {
    let engine = ChessEngine::new();
    let state = position("7k/8/8/8/8/8/8/K7 w - -");
    let chosen = engine.find_best_move(&state).unwrap();
    assert_eq!(chosen, ChessMove { from: 0, to: 1, promotion: None });
    let black = position("7k/8/8/8/8/8/8/K7 b - -");
    assert_eq!(engine.find_best_move(&black).unwrap(), ChessMove { from: 63, to: 54, promotion: None });
}

#[test]
fn every_successor_gives_its_move_back() {
    let engine = ChessEngine::new();
    for text in [
        "rnbqkbnr/pppppppp/8/8/8/8/PPPPPPPP/RNBQKBNR w KQkq -",
        "r3k2r/p1ppqpb1/bn2pnp1/3PN3/1p2P3/2N2Q1p/PPPBBPPP/R3K2R w KQkq -",
        "r3k2r/p1ppqpb1/bn2pnp1/3PN3/1p2P3/2N2Q1p/PPPBBPPP/R3K2R b KQkq -",
        "r3k2r/Pppp1ppp/1b3nbN/nP6/BBP1P3/q4N2/Pp1P2PP/R2Q1RK1 w kq -",
        "r3k2r/Pppp1ppp/1b3nbN/nP6/BBP1P3/q4N2/Pp1P2PP/R2Q1RK1 b kq -",
        "rnbqkbnr/ppp1p1pp/8/3pPp2/8/8/PPPP1PPP/RNBQKBNR w KQkq f6",
        "4k3/8/8/8/3pP3/8/8/4K3 b - e3",
    ] {
        let state = position(text);
        let castles = engine.generator().castle_targets(&state);
        let mut moves = Vec::new();
        engine.generator().generate_moves(&state, &mut moves);
        assert!(!moves.is_empty());
        for next in &moves {
            let mv = state.get_move(next);
            assert_eq!(&make_successor(&state, mv.from, mv.to, mv.promotion, castles), next, "{} {:?}", text, mv);
        }
    }
}

#[test]
fn move_recovery_reads_castling_and_promotion() {
    let state = position("r3k2r/8/8/8/8/8/8/R3K2R w KQkq -");
    assert_eq!(state.get_move(&position("r3k2r/8/8/8/8/8/8/R4RK1 b kq -")), ChessMove { from: 4, to: 6, promotion: None });
    assert_eq!(state.get_move(&position("r3k2r/8/8/8/8/8/8/2KR3R b kq -")), ChessMove { from: 4, to: 2, promotion: None });
    let pawn = position("8/1P6/8/8/8/8/8/k6K w - -");
    assert_eq!(pawn.get_move(&position("1N6/8/8/8/8/8/8/k6K b - -")), ChessMove { from: 49, to: 57, promotion: Some(Piece::Knight) });
    let capture = position("n7/1P6/8/8/8/8/8/k6K w - -");
    assert_eq!(capture.get_move(&position("Q7/8/8/8/8/8/8/k6K b - -")), ChessMove { from: 49, to: 56, promotion: Some(Piece::Queen) });
}

#[test]
fn pick_selects_by_remainder() {
    let engine = ChessEngine::new();
    let state = GameState::new_game();
    let mut moves = Vec::new();
    engine.generator().generate_moves(&state, &mut moves);
    for pick in [0u64, 1, 19, 20, 41, u64::MAX] {
        let chosen = engine.find_move_by_pick(&state, pick).unwrap();
        assert_eq!(chosen, state.get_move(&moves[(pick % 20) as usize]));
    }
}
