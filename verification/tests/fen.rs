use my_torch_analyzer::chess::fen::FenPosition;

#[test]
fn test_parse_initial_position() {
    let fen = "rnbqkbnr/pppppppp/8/8/8/8/PPPPPPPP/RNBQKBNR w KQkq - 0 1";
    let pos = FenPosition::parse(fen).unwrap();

    assert_eq!(pos.active_color, 'w');
    assert_eq!(pos.board[0], 'r');
    assert_eq!(pos.board[4], 'k');
    assert_eq!(pos.board[63], 'R');
}

#[test]
fn test_parse_empty_squares() {
    let fen = "8/8/8/8/8/8/8/8 w - - 0 1";
    let pos = FenPosition::parse(fen).unwrap();

    for piece in &pos.board {
        assert_eq!(*piece, ' ');
    }
}

#[test]
fn test_to_inputs() {
    let fen = "8/8/8/8/8/8/8/K7 w - - 0 1";
    let pos = FenPosition::parse(fen).unwrap();
    let inputs = pos.to_inputs();

    assert_eq!(inputs.len(), 833);
    assert_eq!(inputs[56 * 13 + 6], 1);
}

#[test]
fn fen_without_active_color_is_white_to_move() {
    let pos = FenPosition::parse("8/8/8/8/8/8/8/8").unwrap();
    assert_eq!(pos.active_color, 'w');
}

#[test]
fn fen_black_to_move() {
    let pos = FenPosition::parse("  8/8/8/8/8/8/8/k7   b - - 0 1").unwrap();
    assert_eq!(pos.active_color, 'b');
    assert_eq!(pos.board[56], 'k');
    let inputs = pos.to_inputs();
    assert_eq!(inputs[56 * 13 + 12], 1);
    assert_eq!(inputs[832], 0);
    assert_eq!(inputs.iter().map(|&x| x as usize).sum::<usize>(), 64);
}

#[test]
fn fen_white_to_move_sets_last_input() {
    let pos = FenPosition::parse("8/8/8/8/8/8/8/8 w").unwrap();
    let inputs = pos.to_inputs();
    assert_eq!(inputs[832], 1);
    for square in 0..64 {
        assert_eq!(inputs[square * 13], 1);
        for piece in 1..13 {
            assert_eq!(inputs[square * 13 + piece], 0);
        }
    }
}

#[test]
fn fen_digits_and_pieces_mix() {
    let pos = FenPosition::parse("r3k2r/8/8/8/8/8/8/R3K2R w").unwrap();
    assert_eq!(pos.board[0], 'r');
    assert_eq!(pos.board[1], ' ');
    assert_eq!(pos.board[4], 'k');
    assert_eq!(pos.board[7], 'r');
    assert_eq!(pos.board[60], 'K');
}

#[test]
fn fen_zero_digit_is_no_square() {
    let pos = FenPosition::parse("08/8/8/8/8/8/8/8").unwrap();
    assert_eq!(pos.board[0], ' ');
}

#[test]
fn fen_errors() {
    assert_eq!(FenPosition::parse("").unwrap_err(), "Empty FEN string");
    assert_eq!(FenPosition::parse("   ").unwrap_err(), "Empty FEN string");
    assert_eq!(
        FenPosition::parse("8/8/8 w").unwrap_err(),
        "Invalid FEN: expected 8 ranks, got 3"
    );
    assert_eq!(
        FenPosition::parse("8/8/8/8/8/8/8/80 w").unwrap_err(),
        "Invalid FEN: rank 7 has too many squares"
    );
    assert_eq!(
        FenPosition::parse("8/8/8/8/8/8/8/8p w").unwrap_err(),
        "Invalid FEN: rank 7 has too many squares"
    );
    assert_eq!(
        FenPosition::parse("8/p8/8/8/8/8/8/8 w").unwrap_err(),
        "Invalid FEN: rank 1 overflow"
    );
    assert_eq!(
        FenPosition::parse("9/8/8/8/8/8/8/8 w").unwrap_err(),
        "Invalid FEN: rank 0 overflow"
    );
    assert_eq!(
        FenPosition::parse("8/8/8/8/8/8/8/7x w").unwrap_err(),
        "Invalid FEN: unknown character 'x'"
    );
    assert_eq!(
        FenPosition::parse("8/8/7/8/8/8/8/8 w").unwrap_err(),
        "Invalid FEN: rank 2 has 7 squares instead of 8"
    );
    assert_eq!(
        FenPosition::parse("8/8/8/8/8/8/8/8 white").unwrap_err(),
        "Invalid active color: white"
    );
}

#[test]
fn piece_indices() {
    let pieces = [' ', 'P', 'N', 'B', 'R', 'Q', 'K', 'p', 'n', 'b', 'r', 'q', 'k'];
    for (index, piece) in pieces.iter().enumerate() {
        assert_eq!(FenPosition::piece_to_index(*piece), index);
    }
    assert_eq!(FenPosition::piece_to_index('x'), 0);
}

#[test]
fn boards_and_colors_are_read_alone() {
    let board = FenPosition::parse_board("8/8/8/8/8/8/8/7Q").unwrap();
    assert_eq!(board[63], 'Q');
    assert_eq!(board[62], ' ');
    assert_eq!(
        FenPosition::parse_board("8/8").unwrap_err(),
        "Invalid FEN: expected 8 ranks, got 2"
    );
    assert_eq!(FenPosition::parse_active_color("w"), Ok('w'));
    assert_eq!(FenPosition::parse_active_color("b"), Ok('b'));
    assert_eq!(
        FenPosition::parse_active_color("W"),
        Err(String::from("Invalid active color: W"))
    );
    assert_eq!(
        FenPosition::parse_active_color(""),
        Err(String::from("Invalid active color: "))
    );
}
