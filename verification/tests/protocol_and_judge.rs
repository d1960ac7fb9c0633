use check24_ultimate_tic_tac_toe_judge::api::{create_game, game_not_found, game_state, make_move};
use check24_ultimate_tic_tac_toe_judge::judge::{
    final_winner, judge_reply, refusal_message, seat_label, verdict_on, winner_announcement, Verdict,
};
use check24_ultimate_tic_tac_toe_judge::protocol::{PlayerToServer, ServerToPlayer};
use check24_ultimate_tic_tac_toe_judge::game::BoardState;
use check24_ultimate_tic_tac_toe_judge::{Player, UltimateTicTacToe};

#[test]
fn decode_boards_unpacks_every_cell() {
    let mut boards = [0u32; 9];
    boards[0] = 1 | (2 << 2) | (3 << 4); // X, O, invalid
    boards[8] = 2 << 16; // O in the last cell
    let grid = ServerToPlayer::decode_boards(boards);
    assert_eq!(grid[0], [1, 2, 0, 0, 0, 0, 0, 0, 0]);
    assert_eq!(grid[8], [0, 0, 0, 0, 0, 0, 0, 0, 2]);
    for b in 1..8 {
        assert_eq!(grid[b], [0u8; 9]);
    }
}

#[test]
fn message_for_turn_describes_the_game() {
    let mut g = UltimateTicTacToe::new();
    assert!(g.play(0, 0).is_ok());
    let msg = ServerToPlayer::for_turn(&g, Some((0, 0)));
    assert_eq!(msg.last_move, Some((0, 0)));
    assert_eq!(msg.player, 2);
    assert_eq!(msg.board_state[0][0], 1);
    let reply = PlayerToServer { coordinates: (1, 2) };
    assert_eq!(reply.coordinates, (1, 2));
}

#[test]
fn judge_refuses_and_awards_the_other_player() {
    let mut g = UltimateTicTacToe::new();
    let mut last = None;
    assert_eq!(judge_reply(&mut g, &mut last, Some((0, 0))), Verdict::Continue);
    assert_eq!(last, Some((0, 0)));
    let v = judge_reply(&mut g, &mut last, Some((0, 0)));
    assert_eq!(v, Verdict::Refused { reason: "Cell is already taken", winner: Player::X });
    assert_eq!(last, Some((0, 0)));
    assert_eq!(refusal_message("Cell is already taken"), "Invalid move: Cell is already taken");
}

#[test]
fn judge_cuts_coordinates_to_bytes() {
    let mut g = UltimateTicTacToe::new();
    let mut last = None;
    // 256 is read as 0, as the cast to u8 does
    assert_eq!(judge_reply(&mut g, &mut last, Some((256, 1))), Verdict::Continue);
    assert_eq!(g.last_move, Some((0, 1)));
    assert_eq!(last, Some((256, 1)));
}

#[test]
fn judge_ignores_a_reply_without_a_move() {
    let mut g = UltimateTicTacToe::new();
    let mut last = Some((3, 3));
    assert_eq!(judge_reply(&mut g, &mut last, None), Verdict::Continue);
    assert_eq!(last, Some((3, 3)));
    assert_eq!(g.current_player, Player::X);
}

#[test]
fn judge_reports_win_and_draw() {
    let mut g = UltimateTicTacToe::new();
    g.small_board_state = [BoardState::Draw; 9];
    assert_eq!(verdict_on(&g), Verdict::Draw);
    g.small_board_state[0] = BoardState::Won(Player::O);
    g.small_board_state[4] = BoardState::Won(Player::O);
    g.small_board_state[8] = BoardState::Won(Player::O);
    assert_eq!(verdict_on(&g), Verdict::Won(Player::O));
}

#[test]
fn winner_announcements() {
    assert_eq!(final_winner(Player::X, false), Player::X);
    assert_eq!(final_winner(Player::X, true), Player::O);
    assert_eq!(seat_label(Player::X), "Player 1");
    assert_eq!(seat_label(Player::O), "Player 2");
    assert_eq!(winner_announcement(Player::O), "Winner: O");
    assert_eq!(winner_announcement(Player::X), "Winner: X");
}

#[test]
fn web_state_and_moves() {
    let created = create_game("room".to_string());
    assert!(created.player == 1 || created.player == 2);
    assert_eq!(created.game.name, "room");
    let mut g = created.game;
    let s = game_state(&g);
    assert_eq!(s.status, "running");
    assert_eq!(s.winner, None);
    assert_eq!(s.player, Some(1));
    assert_eq!(s.last_move, None);
    assert_eq!(make_move(&mut g, [0, 0]), Ok(()));
    assert_eq!(make_move(&mut g, [0, 0]), Err("Cell is already taken".to_string()));
    assert_eq!(make_move(&mut g, [9, 0]), Err("Invalid coordinates".to_string()));
    let s = game_state(&g);
    assert_eq!(s.board[0][0], 1);
    assert_eq!(s.player, Some(2));
    assert_eq!(s.last_move, Some((0, 0)));
    g.global_state = BoardState::Won(Player::O);
    let s = game_state(&g);
    assert_eq!((s.status.as_str(), s.winner), ("won", Some(2)));
    g.global_state = BoardState::Draw;
    let s = game_state(&g);
    assert_eq!((s.status.as_str(), s.winner), ("draw", Some(0)));
    assert_eq!(game_not_found(), Err("Game not found".to_string()));
}

#[test]
fn board_lines_draw_the_grid() {
    let mut g = UltimateTicTacToe::new();
    assert!(g.play(0, 0).is_ok());
    assert!(g.play(1, 1).is_ok());
    let lines = g.board_lines();
    assert_eq!(lines.len(), 13);
    assert_eq!(lines[0], "  0 1 2 3 4 5 6 7 8");
    assert_eq!(lines[1], "0 X\u{2502} \u{2502} \u{2503} \u{2502} \u{2502} \u{2503} \u{2502} \u{2502} ");
    assert_eq!(lines[2], "1  \u{2502}O\u{2502} \u{2503} \u{2502} \u{2502} \u{2503} \u{2502} \u{2502} ");
    assert_eq!(lines[4], "0 ━┿━┿━╋━┿━┿━╋━┿━┿━");
    assert_eq!(lines[8], "0 ━┿━┿━╋━┿━┿━╋━┿━┿━");
    assert_eq!(lines[11], "8  \u{2502} \u{2502} \u{2503} \u{2502} \u{2502} \u{2503} \u{2502} \u{2502} ");
    assert_eq!(lines[12], "");
}

#[test]
fn debug_text_reports_the_state() {
    let mut g = UltimateTicTacToe::new();
    assert!(g.play(1, 0).is_ok());
    g.small_board_state[7] = BoardState::Won(Player::O);
    let expected = "Global State: InProgress\n\
Small Board 0: InProgress\nSmall Board 1: InProgress\nSmall Board 2: InProgress\n\
Small Board 3: InProgress\nSmall Board 4: InProgress\nSmall Board 5: InProgress\n\
Small Board 6: InProgress\nSmall Board 7: Won(O)\nSmall Board 8: InProgress\n\
Next Board: Some(3)\nCurrent Player: O\n";
    assert_eq!(g.debug_text(), expected);
    let fresh = UltimateTicTacToe::new();
    assert!(fresh.debug_text().contains("Next Board: None\n"));
    let mut odd = UltimateTicTacToe::new();
    odd.next_small_board = Some(200);
    assert!(odd.debug_text().contains("Next Board: Some(200)\n"));
}
