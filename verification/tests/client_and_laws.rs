use check24_ultimate_tic_tac_toe_judge::client::{classify_reply, ReplyReport};
use check24_ultimate_tic_tac_toe_judge::game::BoardState;
use check24_ultimate_tic_tac_toe_judge::protocol::ServerToPlayer;
use check24_ultimate_tic_tac_toe_judge::{Player, UltimateTicTacToe};

#[test]
fn empty_reply_is_reported_as_empty() {
    assert!(matches!(classify_reply(&[]), ReplyReport::Empty));
}

#[test]
fn invalid_utf8_reply_is_reported() {
    assert!(matches!(classify_reply(&[0xff, 0xfe, 0x41]), ReplyReport::NotUtf8));
}

#[test]
fn non_json_reply_keeps_text_and_error() {
    match classify_reply(b"hello") {
        ReplyReport::NotJson { text, error } => {
            assert_eq!(text, "hello");
            assert!(error.contains("expected value"));
        }
        _ => panic!("expected a non-JSON report"),
    }
}

#[test]
fn json_reply_is_pretty_printed() {
    match classify_reply(br#"{"last_move":[0,1]}"#) {
        ReplyReport::Json { pretty } => {
            assert_eq!(pretty, "{\n  \"last_move\": [\n    0,\n    1\n  ]\n}");
        }
        _ => panic!("expected a JSON report"),
    }
}

fn pack(cells: [u8; 9]) -> u32 {
    let mut board = 0u32;
    for (i, m) in cells.iter().enumerate() {
        board |= (*m as u32) << (2 * i);
    }
    board
}

#[test]
fn high_bits_never_decide_a_board() {
    // cells 0 and 1 hold X, bits 18..31 are noise; X completes the top row
    let mut g = UltimateTicTacToe::new();
    g.small_boards[0] = pack([1, 1, 0, 0, 0, 0, 0, 0, 0]) | 0xfffc_0000;
    assert!(g.play(0, 2).is_ok());
    assert_eq!(g.small_board_state[0], BoardState::Won(Player::X));
    let mut h = UltimateTicTacToe::new();
    h.small_boards[0] = 0xfffc_0000;
    assert!(h.play(0, 2).is_ok());
    assert_eq!(h.small_board_state[0], BoardState::InProgress);
}

#[test]
fn swapping_marks_swaps_the_winner() {
    let mut x = UltimateTicTacToe::new();
    x.small_boards[4] = pack([0, 2, 0, 1, 1, 0, 2, 0, 0]);
    assert!(x.play(4, 5).is_ok());
    assert_eq!(x.small_board_state[4], BoardState::Won(Player::X));
    let mut o = UltimateTicTacToe::new();
    o.current_player = Player::O;
    o.small_boards[4] = pack([0, 1, 0, 2, 2, 0, 1, 0, 0]);
    assert!(o.play(4, 5).is_ok());
    assert_eq!(o.small_board_state[4], BoardState::Won(Player::O));
}

#[test]
fn decoding_packed_boards_gives_the_grid_back() {
    let mut grid = [[0u8; 9]; 9];
    for b in 0..9 {
        for c in 0..9 {
            grid[b][c] = ((b * 7 + c * 5) % 3) as u8;
        }
    }
    let mut boards = [0u32; 9];
    for b in 0..9 {
        boards[b] = pack(grid[b]);
    }
    assert_eq!(ServerToPlayer::decode_boards(boards), grid);
}

#[test]
fn decoded_boards_show_every_move() {
    let mut g = UltimateTicTacToe::new();
    let moves = [(0u8, 0u8), (1, 1), (5, 3), (6, 0), (0, 1), (0, 3), (0, 2)];
    for (r, c) in moves {
        assert!(g.play(r, c).is_ok());
    }
    let grid = ServerToPlayer::decode_boards(g.small_boards);
    let mut expected = [[0u8; 9]; 9];
    for (k, (r, c)) in moves.iter().enumerate() {
        let b = ((r / 3) * 3 + c / 3) as usize;
        let cell = ((r % 3) * 3 + c % 3) as usize;
        expected[b][cell] = if k % 2 == 0 { 1 } else { 2 };
    }
    assert_eq!(grid, expected);
}
