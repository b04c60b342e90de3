use chess_engine::state::{ChessError, GameState, Piece, Side, SideState};

const START: &str = "rnbqkbnr/pppppppp/8/8/8/8/PPPPPPPP/RNBQKBNR w KQkq - 0 1";

#[test]
fn test_equal_states() {
    let state1 = GameState::new_game();
    let state2 = GameState::from_fen("rnbqkbnr/pppppppp/8/8/8/8/PPPPPPPP/RNBQKBNR w KQkq").unwrap();
    let state3 = GameState::from_fen("rnbqkbnr/pppppppp/8/8/8/8/PPPPPPPP/RNBQKBNR w Qkq - 0 1").unwrap();
    let state4 = GameState::from_fen("rnbqkbnr/pppppppp/8/8/8/8/PPPPPPPP/RNBQKBNR b KQkq - 0 1").unwrap();
    let state5 = GameState::from_fen("rnbqkbnr/pppppppp/8/8/8/8/PPPPPPP1/RNBQKBNR w KQkq - 0 1").unwrap();
    let state6 = GameState::from_fen("rnbqkbnr/pppppppp/8/8/8/8/PPPPPPPP/RNBQKBNR w KQkq a3 0 1").unwrap();

    assert_eq!(state1, state2);
    assert_ne!(state2, state3);
    assert_ne!(state1, state3);
    assert_ne!(state1, state4);
    assert_ne!(state1, state5);
    assert_ne!(state1, state6);
}

#[test]
fn test_enum_index() {
    let a = Piece::Queen;
    println!("{}", a.idx());
}

#[test]
fn piece_indices_follow_the_declaration() {
    assert_eq!(Piece::Pawn.idx(), 0);
    assert_eq!(Piece::Rook.idx(), 1);
    assert_eq!(Piece::Knight.idx(), 2);
    assert_eq!(Piece::Bishop.idx(), 3);
    assert_eq!(Piece::Queen.idx(), 4);
    assert_eq!(Piece::King.idx(), 5);
    assert_eq!(
        Piece::all_values(),
        &[Piece::King, Piece::Pawn, Piece::Rook, Piece::Knight, Piece::Bishop, Piece::Queen]
    );
}

#[test]
fn piece_values() {
    assert_eq!(Piece::Pawn.value(), 100);
    assert_eq!(Piece::Knight.value(), 320);
    assert_eq!(Piece::Bishop.value(), 330);
    assert_eq!(Piece::Rook.value(), 500);
    assert_eq!(Piece::Queen.value(), 900);
    assert_eq!(Piece::King.value(), 40000);
}

#[test]
fn piece_letters_and_names() {
    let letters = [
        (Piece::Pawn, 'P', 'p', "Pawn", "pawn"),
        (Piece::Rook, 'R', 'r', "Rook", "rook"),
        (Piece::Knight, 'N', 'n', "Knight", "knight"),
        (Piece::Bishop, 'B', 'b', "Bishop", "bishop"),
        (Piece::Queen, 'Q', 'q', "Queen", "queen"),
        (Piece::King, 'K', 'k', "King", "king"),
    ];
    for (piece, upper, lower, white, black) in letters {
        assert_eq!(piece.to_char(Side::White), upper);
        assert_eq!(piece.to_char(Side::Black), lower);
        assert_eq!(piece.to_string(Side::White), white);
        assert_eq!(piece.to_string(Side::Black), black);
        assert_eq!(Piece::from_byte(&(upper as u8)), Ok((piece, Side::White)));
        assert_eq!(Piece::from_byte(&(lower as u8)), Ok((piece, Side::Black)));
    }
}

#[test]
fn unknown_piece_letter_is_a_malformed_board() {
    for c in [b'x', b'1', b'/', b' ', 0u8, 200u8] {
        assert_eq!(Piece::from_byte(&c), Err(ChessError::MalformedBoard));
    }
}

#[test]
fn side_functions() {
    assert_eq!(Side::White.idx(), 0);
    assert_eq!(Side::Black.idx(), 1);
    assert_eq!(Side::White.value(), 1);
    assert_eq!(Side::Black.value(), -1);
    assert_eq!(Side::White.opposite(), Side::Black);
    assert_eq!(Side::Black.opposite(), Side::White);
    assert_eq!(Side::White.to_char(), 'w');
    assert_eq!(Side::Black.to_char(), 'b');
    assert_eq!(Side::from_byte(b'w'), Ok(Side::White));
    assert_eq!(Side::from_byte(b'b'), Ok(Side::Black));
    assert_eq!(Side::from_byte(b'W'), Err(ChessError::UnknownSide));
    assert_eq!(Side::from_byte(b'-'), Err(ChessError::UnknownSide));
}

#[test]
fn new_side_is_empty() {
    let side = SideState::new();
    assert_eq!(side.boards, [0u64; 6]);
    assert_eq!(side.all, 0);
    assert_eq!(side.castle_state(), (false, false));
}

#[test]
fn castle_flags_are_set_one_by_one() {
    let mut side = SideState::new();
    side.set_king_side_castle(true);
    assert_eq!(side.castle_state(), (true, false));
    side.set_queen_side_castle(true);
    assert_eq!(side.castle_state(), (true, true));
    side.set_castle_state((false, true));
    assert_eq!(side.castle_state(), (false, true));
    assert_eq!(side.boards, [0u64; 6]);
}

#[test]
fn side_add_and_remove_bits() {
    let mut side = SideState::new();
    side.add_bit(Piece::Knight, 1 << 10);
    side.add_bit(Piece::Queen, 1 << 20);
    assert_eq!(side.get_board(Piece::Knight), 1 << 10);
    assert_eq!(side.get_board(Piece::Queen), 1 << 20);
    assert_eq!(side.all, (1 << 10) | (1 << 20));
    assert_eq!(side.piece_at(10), Some(Piece::Knight));
    assert_eq!(side.piece_at(11), None);

    assert_eq!(side.remove_bit(1 << 11), Ok(None));
    assert_eq!(side.all, (1 << 10) | (1 << 20));
    assert_eq!(side.remove_bit(1 << 10), Ok(Some(Piece::Knight)));
    assert_eq!(side.get_board(Piece::Knight), 0);
    assert_eq!(side.all, 1 << 20);
    assert_eq!(side.remove_bit(1 << 20), Ok(Some(Piece::Queen)));
    assert_eq!(side.all, 0);
}

#[test]
fn removing_from_an_inconsistent_side_is_an_error() {
    let mut side = SideState::new();
    side.all = 1 << 5;
    let before = side;
    assert_eq!(side.remove_bit(1 << 5), Err(ChessError::InconsistentOccupancy));
    assert_eq!(side, before);
}

#[test]
fn update_recomputes_the_union() {
    let mut side = SideState::new();
    *side.get_mut_board(Piece::Pawn) = 0xff00;
    *side.get_mut_board(Piece::King) = 0x10;
    assert_eq!(side.all, 0);
    side.update();
    assert_eq!(side.all, 0xff10);
}

#[test]
fn without_and_with_are_functional() {
    let start = GameState::new_game();
    let lifted = start.white_state.without(1 << 12);
    assert_eq!(lifted.get_board(Piece::Pawn), 0xef00);
    assert_eq!(lifted.all, 0xefff);
    let moved = lifted.with(Piece::Pawn, 1 << 28);
    assert_eq!(moved.get_board(Piece::Pawn), 0xef00 | (1 << 28));
    assert_eq!(moved.all, 0xefff | (1 << 28));
    assert_eq!(start.white_state.all, 0xffff);
}

#[test]
fn game_state_accessors() {
    let mut state = GameState::new_empty();
    assert_eq!(state.next_to_move, Side::White);
    assert_eq!(state.en_passant, 0);
    *state.get_mut_board(&(Piece::Rook, Side::Black)) = 1 << 63;
    assert_eq!(state.get_board(&(Piece::Rook, Side::Black)), 1 << 63);
    assert_eq!(state.get_board(&(Piece::Rook, Side::White)), 0);
    assert_eq!(state.get_side_state(Side::Black).get_board(Piece::Rook), 1 << 63);
    state.get_mut_side_state(Side::White).add_bit(Piece::King, 1 << 4);
    assert_eq!(state.white_state.all, 1 << 4);
    {
        let (own, other) = state.get_mut_sides_state(Side::Black);
        own.update();
        other.set_king_side_castle(true);
    }
    assert_eq!(state.black_state.all, 1 << 63);
    assert_eq!(state.castle_state(Side::White), (true, false));
    state.set_castle_state(Side::Black, (false, true));
    assert_eq!(state.castle_state(Side::Black), (false, true));
    assert_eq!(state.castle_string(), "Kq");
}

#[test]
fn new_game_is_the_standard_setup() {
    let state = GameState::new_game();
    assert_eq!(state, GameState::from_fen(START).unwrap());
    assert_eq!(state.white_state.all, 0xffff);
    assert_eq!(state.black_state.all, 0xffff_0000_0000_0000);
    assert_eq!(state.get_board(&(Piece::King, Side::White)), 1 << 4);
    assert_eq!(state.get_board(&(Piece::Queen, Side::Black)), 1 << 59);
    assert_eq!(state.to_fen(), "rnbqkbnr/pppppppp/8/8/8/8/PPPPPPPP/RNBQKBNR w KQkq -");
    assert_eq!(state.castle_string(), "KQkq");
    assert_eq!(state.en_passant_string(), "-");
}

#[test]
fn decode_sets_the_right_bits() {
    let state = GameState::from_fen("8/8/8/3k4/8/2N5/8/R3K3 b Q c6").unwrap();
    assert_eq!(state.next_to_move, Side::Black);
    assert_eq!(state.get_board(&(Piece::King, Side::Black)), 1 << 35);
    assert_eq!(state.get_board(&(Piece::Knight, Side::White)), 1 << 18);
    assert_eq!(state.get_board(&(Piece::Rook, Side::White)), 1);
    assert_eq!(state.get_board(&(Piece::King, Side::White)), 1 << 4);
    assert_eq!(state.white_state.all, 1 | (1 << 4) | (1 << 18));
    assert_eq!(state.black_state.all, 1 << 35);
    assert_eq!(state.castle_state(Side::White), (false, true));
    assert_eq!(state.castle_state(Side::Black), (false, false));
    assert_eq!(state.en_passant, 1 << 42);
    assert_eq!(state.en_passant_string(), "c6");
}

#[test]
fn encode_then_decode_gives_the_position_back() {
    let texts = [
        "rnbqkbnr/pppppppp/8/8/8/8/PPPPPPPP/RNBQKBNR w KQkq -",
        "r3k2r/p1ppqpb1/bn2pnp1/3PN3/1p2P3/2N2Q1p/PPPBBPPP/R3K2R w KQkq -",
        "8/2p5/3p4/KP5r/1R3p1k/8/4P1P1/8 w - -",
        "rnbqkbnr/ppp1p1pp/8/3pPp2/8/8/PPPP1PPP/RNBQKBNR w KQkq f6",
        "rnbqkbnr/pppppppp/8/8/4P3/8/PPPP1PPP/RNBQKBNR b Kq e3",
        "8/8/8/8/8/8/8/8 b  -",
        "4k3/8/8/8/8/8/8/4K2R w K h8",
    ];
    for text in texts {
        let state = GameState::from_fen(text).unwrap();
        let written = state.to_fen();
        let again = GameState::from_fen(&written).unwrap();
        assert_eq!(again, state, "{}", text);
        assert_eq!(again.to_fen(), written);
    }
    assert_eq!(
        GameState::from_fen("8/2p5/3p4/KP5r/1R3p1k/8/4P1P1/8 w - -").unwrap().to_fen(),
        "8/2p5/3p4/KP5r/1R3p1k/8/4P1P1/8 w  -"
    );
    assert_eq!(
        GameState::from_fen("rnbqkbnr/pppppppp/8/8/4P3/8/PPPP1PPP/RNBQKBNR b Kq e3 0 1").unwrap().to_fen(),
        "rnbqkbnr/pppppppp/8/8/4P3/8/PPPP1PPP/RNBQKBNR b Kq e3"
    );
}

#[test]
fn decode_trims_and_ignores_counters() {
    let plain = GameState::from_fen(START).unwrap();
    assert_eq!(GameState::from_fen("  \t rnbqkbnr/pppppppp/8/8/8/8/PPPPPPPP/RNBQKBNR w KQkq - 12 34 \n").unwrap(), plain);
    assert_eq!(GameState::from_fen("\u{3000}rnbqkbnr/pppppppp/8/8/8/8/PPPPPPPP/RNBQKBNR w qkQK -\u{a0}").unwrap(), plain);
}

#[test]
fn decode_fields_are_optional() {
    let board_only = GameState::from_fen("4k3/8/8/8/8/8/8/4K3").unwrap();
    assert_eq!(board_only.next_to_move, Side::White);
    assert_eq!(board_only.castle_string(), "");
    assert_eq!(board_only.en_passant, 0);
    let with_side = GameState::from_fen("4k3/8/8/8/8/8/8/4K3 b").unwrap();
    assert_eq!(with_side.next_to_move, Side::Black);
    let empty = GameState::from_fen("").unwrap();
    assert_eq!(empty, GameState::new_empty());
    let short = GameState::from_fen("k").unwrap();
    assert_eq!(short.get_board(&(Piece::King, Side::Black)), 1 << 56);
    let first_letter_counts = GameState::from_fen("8/8/8/8/8/8/8/8 white").unwrap();
    assert_eq!(first_letter_counts.next_to_move, Side::White);
}

#[test]
fn decode_ignores_unknown_castling_letters() {
    let state = GameState::from_fen("4k3/8/8/8/8/8/8/4K3 w xKz-q").unwrap();
    assert_eq!(state.castle_state(Side::White), (true, false));
    assert_eq!(state.castle_state(Side::Black), (false, true));
}

#[test]
fn decode_reads_only_well_formed_passing_squares() {
    for (field, expected) in [("a3", 1u64 << 16), ("h6", 1u64 << 47), ("a1", 1), ("h8", 1u64 << 63), ("-", 0), ("a33", 0), ("a9", 0), ("i3", 0), ("a0", 0), ("3a", 0), ("\u{e9}", 0)] {
        let text = format!("4k3/8/8/8/8/8/8/4K3 w - {}", field);
        assert_eq!(GameState::from_fen(&text).unwrap().en_passant, expected, "{}", field);
    }
}

#[test]
fn decode_refuses_a_malformed_board() {
    for text in [
        "rnbqkbnr/pppppppp/8/8/8/8/PPPPPPPP/RNBQKBNX w KQkq -",
        "9/8/8/8/8/8/8/8 w - -",
        "0 w",
        "8/8/8/8/8/8/8/8/ w - -",
        "8/8/8/8/8/8/8/8p w - -",
        "pppppppp/pppppppp/pppppppp/pppppppp/pppppppp/pppppppp/pppppppp/ppppppppp",
        "8/8/8/8/8/8/8/71\u{e9}",
        "k.K",
    ] {
        assert_eq!(GameState::from_fen(text), Err(ChessError::MalformedBoard), "{}", text);
    }
    assert!(GameState::from_fen("8/8/8/8/8/8/8/8").is_ok());
    assert!(GameState::from_fen("8/8/8/8/8/8/8/44").is_ok());
    assert!(GameState::from_fen("8/8/8/8/8/8/8/78").is_ok());
}

#[test]
fn decode_refuses_an_unknown_side() {
    for text in ["8/8/8/8/8/8/8/8 x - -", "8/8/8/8/8/8/8/8 W", "8/8/8/8/8/8/8/8  w", "8/8/8/8/8/8/8/8 - w"] {
        assert_eq!(GameState::from_fen(text), Err(ChessError::UnknownSide), "{}", text);
    }
    assert_eq!(GameState::from_fen("8/8/8/8/8/8/8/8x y"), Err(ChessError::MalformedBoard));
}

#[test]
fn equality_looks_at_rights_and_passing_square() {
    let a = GameState::from_fen("4k3/8/8/8/8/8/8/4K2R w K -").unwrap();
    let b = GameState::from_fen("4k3/8/8/8/8/8/8/4K2R w - -").unwrap();
    let c = GameState::from_fen("4k3/8/8/8/8/8/8/4K2R w K e3").unwrap();
    assert_eq!(a.white_state.boards, b.white_state.boards);
    assert_ne!(a, b);
    assert_ne!(a, c);
    assert_eq!(a, a.clone());
}

#[test]
fn well_formedness_is_checked() {
    assert!(GameState::new_game().is_well_formed());
    assert!(GameState::new_empty().is_well_formed());
    assert!(GameState::from_fen("rnbqkbnr/pppppppp/8/8/4P3/8/PPPP1PPP/RNBQKBNR b Kq e3").unwrap().is_well_formed());
    let mut stale = GameState::new_game();
    stale.white_state.all = 0xff;
    assert!(!stale.is_well_formed());
    let mut twice = GameState::new_game();
    *twice.get_mut_board(&(Piece::Queen, Side::White)) |= 1 << 4;
    assert!(!twice.is_well_formed());
    assert!(!twice.white_state.is_well_formed());
    let mut both = GameState::new_game();
    both.black_state.add_bit(Piece::Pawn, 1 << 8);
    assert!(both.black_state.is_well_formed());
    assert!(!both.is_well_formed());
    let mut marks = GameState::new_game();
    marks.en_passant = (1 << 16) | (1 << 17);
    assert!(!marks.is_well_formed());
    marks.en_passant = 1 << 63;
    assert!(marks.is_well_formed());
}

#[test]
fn board_is_drawn_from_the_eighth_rank_down() {
    assert_eq!(
        GameState::new_game().board_rows(),
        "rnbqkbnr\npppppppp\n........\n........\n........\n........\nPPPPPPPP\nRNBQKBNR\n"
    );
    let state = GameState::from_fen("8/8/8/3k4/8/2N5/8/R3K3 b Q c6").unwrap();
    assert_eq!(state.board_rows(), "........\n........\n........\n...k....\n........\n..N.....\n........\nR...K...\n");
    assert_eq!(state.glyph_at(0), 'R');
    assert_eq!(state.glyph_at(35), 'k');
    assert_eq!(state.glyph_at(1), '.');
}
