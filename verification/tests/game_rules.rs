use check24_ultimate_tic_tac_toe_judge::game::BoardState;
use check24_ultimate_tic_tac_toe_judge::{Player, UltimateTicTacToe};

fn snapshot(g: &UltimateTicTacToe) -> ([u32; 9], [BoardState; 9], BoardState, Player, Option<u8>, String, Option<(u8, u8)>) {
    (
        g.small_boards,
        g.small_board_state,
        g.global_state,
        g.current_player,
        g.next_small_board,
        g.name.clone(),
        g.last_move,
    )
}

#[test]
fn new_game_is_empty_with_x_to_move() {
    let g = UltimateTicTacToe::new();
    assert_eq!(g.small_boards, [0u32; 9]);
    assert_eq!(g.small_board_state, [BoardState::InProgress; 9]);
    assert_eq!(g.global_state, BoardState::InProgress);
    assert_eq!(g.current_player, Player::X);
    assert_eq!(g.next_small_board, None);
    assert_eq!(g.name, "");
    assert_eq!(g.last_move, None);
    let d = UltimateTicTacToe::default();
    assert_eq!(snapshot(&d), snapshot(&g));
    let named = UltimateTicTacToe::with_name("lobby".to_string());
    assert_eq!(named.name, "lobby");
    assert_eq!(named.current_player, Player::X);
}

#[test]
fn player_marks_and_turns() {
    assert_eq!(Player::X.value(), 1);
    assert_eq!(Player::O.value(), 2);
    assert_eq!(Player::X.opponent(), Player::O);
    assert_eq!(Player::O.opponent(), Player::X);
    assert_eq!(Player::X.symbol(), "X");
    assert_eq!(Player::O.symbol(), "O");
}

#[test]
fn first_move_sets_cell_and_forces_board() {
    let mut g = UltimateTicTacToe::new();
    assert_eq!(g.play(4, 5), Ok(()));
    // row 4, col 5: small board 4, cell 5 -> bits 10..11 of board 4 hold X (1)
    assert_eq!(g.small_boards[4], 1u32 << 10);
    assert_eq!(g.current_player, Player::O);
    assert_eq!(g.next_small_board, Some(5));
    assert_eq!(g.last_move, Some((4, 5)));
    assert_eq!(g.small_board_state[4], BoardState::InProgress);
    assert_eq!(g.global_state, BoardState::InProgress);
    for b in 0..9 {
        if b != 4 {
            assert_eq!(g.small_boards[b], 0);
        }
    }
}

#[test]
fn each_refusal_has_its_reason_and_changes_nothing() {
    let mut g = UltimateTicTacToe::new();
    let before = snapshot(&g);
    assert_eq!(g.play(9, 0), Err("Invalid coordinates"));
    assert_eq!(g.play(0, 9), Err("Invalid coordinates"));
    assert_eq!(snapshot(&g), before);

    assert!(g.play(0, 0).is_ok());
    let before = snapshot(&g);
    // forced into small board 0
    assert_eq!(g.play(4, 4), Err("Must play in the forced small board"));
    assert_eq!(g.play(0, 0), Err("Cell is already taken"));
    assert_eq!(snapshot(&g), before);

    g.small_board_state[0] = BoardState::Draw;
    // the forced board is closed, so the mover may go anywhere but there
    assert_eq!(g.play(1, 1), Err("This small board is closed"));
    assert_eq!(g.play(4, 4), Ok(()));
}

#[test]
fn move_to_closed_board_frees_the_next_player() {
    let mut g = UltimateTicTacToe::new();
    g.small_board_state[2] = BoardState::Won(Player::O);
    assert!(g.play(0, 2).is_ok());
    // cell 2 of board 0 sends the next move to board 2, which is closed
    assert_eq!(g.next_small_board, None);
    assert!(g.play(8, 8).is_ok());
    assert_eq!(g.next_small_board, Some(8));
}

#[test]
fn small_board_draw_is_detected() {
    let mut g = UltimateTicTacToe::new();
    // X O X / X O O / O X X in board 0, placed directly, leaving cell 8 for X
    let marks = [1u32, 2, 1, 1, 2, 2, 2, 1, 0];
    let mut board = 0u32;
    for (i, m) in marks.iter().enumerate() {
        board |= m << (2 * i);
    }
    g.small_boards[0] = board;
    assert!(g.play(2, 2).is_ok());
    assert_eq!(g.small_board_state[0], BoardState::Draw);
    assert_eq!(g.global_state, BoardState::InProgress);
}

#[test]
fn check_winner_reports_progress_draw_and_winner() {
    let mut g = UltimateTicTacToe::new();
    assert_eq!(g.check_winner(), Err("InProgress"));
    g.small_board_state = [
        BoardState::Won(Player::X), BoardState::Won(Player::O), BoardState::Draw,
        BoardState::Won(Player::O), BoardState::Won(Player::X), BoardState::Won(Player::X),
        BoardState::Won(Player::X), BoardState::Won(Player::O), BoardState::Won(Player::O),
    ];
    assert_eq!(g.check_winner(), Err("Draw"));
    g.small_board_state[2] = BoardState::Won(Player::O);
    g.small_board_state[5] = BoardState::Won(Player::O);
    g.small_board_state[8] = BoardState::Won(Player::O);
    assert_eq!(g.check_winner(), Ok(Player::O));
    // the first complete line, in row-column-diagonal order, decides
    let mut h = UltimateTicTacToe::new();
    h.small_board_state[6] = BoardState::Won(Player::X);
    h.small_board_state[7] = BoardState::Won(Player::X);
    h.small_board_state[8] = BoardState::Won(Player::X);
    h.small_board_state[0] = BoardState::Won(Player::O);
    h.small_board_state[3] = BoardState::Won(Player::O);
    assert_eq!(h.check_winner(), Ok(Player::X));
}

#[test]
fn global_state_agrees_with_check_winner() {
    let mut board = UltimateTicTacToe::new();
    let moves = [
        (0, 0), (1, 1), (5, 3), (6, 0), (0, 1), (0, 3), (0, 2), (0, 6), (4, 4), (5, 5),
        (8, 8), (8, 7), (8, 4), (7, 4), (3, 5), (2, 8), (7, 7), (5, 8),
    ];
    for (r, c) in moves {
        assert!(board.play(r, c).is_ok());
        assert_eq!(board.global_state, BoardState::InProgress);
        assert_eq!(board.check_winner(), Err("InProgress"));
    }
    assert!(board.play(6, 6).is_ok());
    assert_eq!(board.global_state, BoardState::Won(Player::X));
    assert_eq!(board.check_winner(), Ok(Player::X));
}

#[test]
fn marks_are_never_overwritten() {
    let mut board = UltimateTicTacToe::new();
    let moves = [(0, 0), (1, 1), (5, 3), (6, 0), (0, 1), (0, 3), (0, 2), (0, 6), (4, 4)];
    let mut seen: Vec<[u32; 9]> = Vec::new();
    for (r, c) in moves {
        let before = board.small_boards;
        assert!(board.play(r, c).is_ok());
        for b in 0..9 {
            // bits set before stay set; exactly one new cell appears overall
            assert_eq!(board.small_boards[b] & before[b], before[b]);
        }
        let changed: u32 = (0..9).map(|b| (board.small_boards[b] ^ before[b]).count_ones()).sum();
        assert_eq!(changed, 1);
        seen.push(board.small_boards);
    }
    assert_eq!(seen.len(), moves.len());
}

fn count_marks(g: &UltimateTicTacToe, mark: u8) -> usize {
    let grid = check24_ultimate_tic_tac_toe_judge::protocol::ServerToPlayer::decode_boards(g.small_boards);
    grid.iter().flatten().filter(|&&c| c == mark).count()
}

#[test]
fn turns_alternate_and_marks_balance() {
    let mut board = UltimateTicTacToe::new();
    let moves = [
        (0, 0), (1, 1), (5, 3), (6, 0), (0, 1), (0, 3), (0, 2), (0, 6), (4, 4), (5, 5),
        (8, 8), (8, 7), (8, 4), (7, 4), (3, 5), (2, 8), (7, 7), (5, 8), (6, 6),
    ];
    for (r, c) in moves {
        let mover = board.current_player;
        assert!(board.play(r, c).is_ok());
        assert_eq!(board.current_player, mover.opponent());
        let x = count_marks(&board, 1);
        let o = count_marks(&board, 2);
        if board.current_player == Player::X {
            assert_eq!(x, o);
        } else {
            assert_eq!(x, o + 1);
        }
    }
}

#[test]
fn won_boards_stay_won() {
    let mut board = UltimateTicTacToe::new();
    let moves = [(0, 0), (1, 1), (5, 3), (6, 0), (0, 1), (0, 3), (0, 2)];
    for (r, c) in moves {
        assert!(board.play(r, c).is_ok());
    }
    assert_eq!(board.small_board_state[0], BoardState::Won(Player::X));
    let won = board.small_boards[0];
    // no move may enter board 0 any more, and later moves leave it alone
    assert!(board.play(0, 6).is_ok());
    assert_eq!(board.next_small_board, None);
    assert_eq!(board.play(2, 2), Err("This small board is closed"));
    assert!(board.play(4, 4).is_ok());
    assert_eq!(board.small_board_state[0], BoardState::Won(Player::X));
    assert_eq!(board.small_boards[0], won);
}
