use vstd::prelude::*;

use crate::game::{has_won_line, lemma_winner_by_lines, BoardState, Player, UltimateTicTacToe};

verus! {

/// What the judge decides once a player has replied to the board it was sent.
#[derive(Clone, Copy, PartialEq, Eq, Debug)]
pub enum Verdict {
    /// The game goes on with the other player.
    Continue,
    /// The move was refused, for `reason`; the game ends and `winner`, the other player, wins.
    Refused { reason: &'static str, winner: Player },
    /// The game was won by this player.
    Won(Player),
    /// The game ended in a draw.
    Draw,
}

/// The verdict that the outcome `w` of `check_winner` calls for.
pub open spec fn verdict_for(w: Result<Player, Seq<char>>) -> Verdict {
    match w {
        Ok(p) => Verdict::Won(p),
        Err(m) => if m == "Draw"@ {
            Verdict::Draw
        } else {
            Verdict::Continue
        },
    }
}

/// The verdict on the game as it stands, from its winner: `Won`, `Draw` or `Continue`.
pub fn verdict_on(game: &UltimateTicTacToe) -> (v: Verdict)
    ensures
        v == verdict_for(game.winner_result()),
{
    proof {
        reveal_strlit("Draw");
        reveal_strlit("InProgress");
        assert("InProgress"@.len() != "Draw"@.len());
    }
    match game.winner_status() {
        Ok(p) => Verdict::Won(p),
        Err(true) => Verdict::Draw,
        Err(false) => Verdict::Continue,
    }
}

/// Handles a player's reply: `Some(coordinates)` for a move, `None` for a message that holds
/// none. A move is played at its coordinates, each cut to a `u8` as the wire format is read;
/// a refused move ends the game in favour of the other player. A played move becomes the
/// `last_move` that the next player is told of. Then the game is checked for a winner or a
/// draw.
pub fn judge_reply(
    game: &mut UltimateTicTacToe,
    last_move: &mut Option<(usize, usize)>,
    reply: Option<(usize, usize)>,
) -> (v: Verdict)
    requires
        reply matches Some(c) ==> old(game).wf() || c.0 as u8 >= 9 || c.1 as u8 >= 9,
    ensures
        old(game).wf() ==> final(game).wf(),
        match reply {
            Some(c) => match old(game).rejection(c.0 as u8, c.1 as u8) {
                Some(m) => {
                    &&& v matches Verdict::Refused { reason, winner }
                    &&& reason@ == m
                    &&& winner == old(game).current_player.other()
                    &&& *final(game) == *old(game)
                    &&& *final(last_move) == *old(last_move)
                },
                None => {
                    &&& old(game).moved_to(&*final(game), c.0 as u8, c.1 as u8)
                    &&& *final(last_move) == Some(c)
                    &&& v == verdict_for(final(game).winner_result())
                },
            },
            None => {
                &&& *final(game) == *old(game)
                &&& *final(last_move) == *old(last_move)
                &&& v == verdict_for(old(game).winner_result())
            },
        },
{
    if let Some(c) = reply {
        let mover = game.current_player;
        match game.play(c.0 as u8, c.1 as u8) {
            Ok(()) => {},
            Err(reason) => {
                return Verdict::Refused { reason, winner: mover.opponent() };
            },
        }
        *last_move = Some(c);
    }
    verdict_on(game)
}

/// The player to announce as winner: the seats were swapped at the start of the game when
/// `swapped_players` holds, so the winner's symbol then names the other seat.
pub fn final_winner(winner: Player, swapped_players: bool) -> (p: Player)
    ensures
        p == if swapped_players { winner.other() } else { winner },
{
    if swapped_players {
        winner.opponent()
    } else {
        winner
    }
}

/// The seat of a winner: `X` is "Player 1", `O` is "Player 2".
pub fn seat_label(winner: Player) -> (s: &'static str)
    ensures
        s@ == (match winner {
            Player::X => "Player 1"@,
            Player::O => "Player 2"@,
        }),
{
    match winner {
        Player::X => "Player 1",
        Player::O => "Player 2",
    }
}

/// The message that tells a player who won: "Winner: X" or "Winner: O".
pub fn winner_announcement(winner: Player) -> (s: String)
    ensures
        s@ == "Winner: "@ + (match winner {
            Player::X => "X"@,
            Player::O => "O"@,
        }),
{
    let mut s = String::from_str("Winner: ");
    s.append(winner.symbol());
    s
}

/// The message that tells a player why its move was refused: "Invalid move: " and the reason.
pub fn refusal_message(reason: &str) -> (s: String)
    ensures
        s@ == "Invalid move: "@ + reason@,
{
    let mut s = String::from_str("Invalid move: ");
    s.append(reason);
    s
}

/// The judge's verdict follows `check_winner`: it names `p` as winner exactly when
/// `check_winner` does, calls a draw when `check_winner` reports "Draw", and lets the game go
/// on when it reports anything else.
pub proof fn lemma_verdict_follows_winner(w: Result<Player, Seq<char>>)
    ensures
        forall|p: Player| (#[trigger] verdict_for(w) == Verdict::Won(p)) <==> (w == Ok::<Player, Seq<char>>(p)),
        w == Err::<Player, Seq<char>>("Draw"@) ==> verdict_for(w) == Verdict::Draw,
        (w matches Err(m) && m != "Draw"@) ==> verdict_for(w) == Verdict::Continue,
{
}

/// The judge credits a win to the player who holds a row, column or diagonal of three won
/// small boards while the other player holds none; with no such line for either player it
/// calls a draw once none of the nine boards is in progress, and lets the game go on otherwise.
pub proof fn lemma_verdict_by_lines(game: UltimateTicTacToe)
    ensures
        forall|p: Player| #[trigger] has_won_line(game.small_board_state@, p)
            && !has_won_line(game.small_board_state@, p.other())
            ==> verdict_for(game.winner_result()) == Verdict::Won(p),
        !has_won_line(game.small_board_state@, Player::X) && !has_won_line(game.small_board_state@, Player::O)
            ==> verdict_for(game.winner_result()) == if forall|i: int| 0 <= i < 9
            ==> #[trigger] game.small_board_state@[i] != BoardState::InProgress {
            Verdict::Draw
        } else {
            Verdict::Continue
        },
{
    lemma_winner_by_lines(game);
    reveal_strlit("Draw");
    reveal_strlit("InProgress");
    assert("InProgress"@.len() != "Draw"@.len());
}

} // verus!
