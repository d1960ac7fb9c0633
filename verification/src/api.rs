use vstd::prelude::*;

use crate::game::{BoardState, Player, UltimateTicTacToe};
use crate::protocol::{decodes, ServerToPlayer};

verus! {

/// A game just opened for the lobby: its id, the seat (1 or 2) handed to the player who
/// opened it, and the game itself.
pub struct CreatedGame {
    pub game_id: u32,
    pub player: u8,
    pub game: UltimateTicTacToe,
}

/// The state of a game as the web API reports it.
pub struct GameStateResponse {
    pub status: String,
    pub last_move: Option<(u8, u8)>,
    pub player: Option<u8>,
    pub board: [[u8; 9]; 9],
    pub winner: Option<u8>,
}

/// Calls `rand::random::<u32>()`, which draws a value from the thread-local generator.
/// Nothing is claimed of the value: any `u32` may come back.
#[verifier::external_body]
fn random_u32() -> u32 {
    rand::random::<u32>()
}

/// Calls `rand::random_range(low..=high)`, which draws from the thread-local generator a
/// value of the inclusive range; rand documents that the value lies in the range and that
/// the call panics on an empty range, which `requires` leaves out.
#[verifier::external_body]
fn random_in_range(low: u8, high: u8) -> (r: u8)
    requires
        low <= high,
    ensures
        low <= r <= high,
{
    rand::random_range(low..=high)
}

/// Opens a new game named `name` under a random id, and draws at random the seat (1 or 2)
/// of the player who opened it.
pub fn create_game(name: String) -> (c: CreatedGame)
    ensures
        c.game.wf(),
        c.game.consistent(),
        c.game.turns_balanced(),
        c.game.is_fresh(),
        c.game.name == name,
        1 <= c.player <= 2,
{
    let game = UltimateTicTacToe::with_name(name);
    let game_id = random_u32();
    let player = random_in_range(1, 2);
    CreatedGame { game_id, player, game }
}

/// The word for a game's status: "running", "won" or "draw".
pub open spec fn status_word(s: BoardState) -> Seq<char> {
    match s {
        BoardState::InProgress => "running"@,
        BoardState::Won(_) => "won"@,
        BoardState::Draw => "draw"@,
    }
}

/// The winner as the web API reports it: none while the game runs, the winner's mark once
/// won, 0 for a draw.
pub open spec fn winner_code(s: BoardState) -> Option<u8> {
    match s {
        BoardState::InProgress => None,
        BoardState::Won(p) => Some(p.mark()),
        BoardState::Draw => Some(0),
    }
}

/// The state of `game` as the web API reports it: the status word and winner from the
/// global status, the last move, the player to move and the decoded boards.
pub fn game_state(game: &UltimateTicTacToe) -> (r: GameStateResponse)
    ensures
        r.status@ == status_word(game.global_state),
        r.last_move == game.last_move,
        r.player == Some(game.current_player.mark()),
        decodes(game.small_boards@, r.board@),
        r.winner == winner_code(game.global_state),
{
    let winner: Option<u8> = match game.global_state {
        BoardState::InProgress => None,
        BoardState::Won(p) => Some(p.value()),
        BoardState::Draw => Some(0),
    };
    let status: &str = match game.global_state {
        BoardState::InProgress => "running",
        BoardState::Won(_) => "won",
        BoardState::Draw => "draw",
    };
    GameStateResponse {
        status: String::from_str(status),
        last_move: game.last_move,
        player: Some(game.current_player.value()),
        board: ServerToPlayer::decode_boards(game.small_boards),
        winner,
    }
}

/// Plays the move `coords` (row, column) requested through the web API, answering with the
/// refusal's reason as text when `play` refuses it.
pub fn make_move(game: &mut UltimateTicTacToe, coords: [u8; 2]) -> (r: Result<(), String>)
    requires
        old(game).wf() || coords@[0] >= 9 || coords@[1] >= 9,
    ensures
        old(game).wf() ==> final(game).wf(),
        match old(game).rejection(coords@[0], coords@[1]) {
            Some(m) => (r matches Err(e) && e@ == m) && *final(game) == *old(game),
            None => r is Ok && old(game).moved_to(&*final(game), coords@[0], coords@[1]),
        },
{
    match game.play(coords[0], coords[1]) {
        Ok(()) => Ok(()),
        Err(err) => Err(String::from_str(err)),
    }
}

/// The answer to a move requested for a game id that no lobby holds.
pub fn game_not_found() -> (r: Result<(), String>)
    ensures
        r matches Err(e) && e@ == "Game not found"@,
{
    Err(String::from_str("Game not found"))
}

/// The web API's winner code is the mark the board uses for the winner's cells: 1 when `X`
/// has won, 2 when `O` has, 0 for a draw, none while the game runs; and the status word is
/// "won", "draw" or "running" accordingly.
pub proof fn lemma_winner_codes()
    ensures
        winner_code(BoardState::Won(Player::X)) == Some(1u8),
        winner_code(BoardState::Won(Player::O)) == Some(2u8),
        winner_code(BoardState::Draw) == Some(0u8),
        winner_code(BoardState::InProgress) == None::<u8>,
        forall|p: Player| #[trigger] winner_code(BoardState::Won(p)) == Some(p.mark()),
        status_word(BoardState::Won(Player::X)) == "won"@,
        status_word(BoardState::Won(Player::O)) == "won"@,
        status_word(BoardState::Draw) == "draw"@,
        status_word(BoardState::InProgress) == "running"@,
{
}

} // verus!
