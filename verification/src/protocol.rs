use vstd::prelude::*;

use crate::game::{board_of, cell_in_board, cell_of, is_replay, lemma_replay_marks, UltimateTicTacToe};

verus! {

/// What the judge sends a player before each of its moves.
pub struct ServerToPlayer {
    pub last_move: Option<(usize, usize)>,
    pub player: u8,
    pub board_state: [[u8; 9]; 9],
}

/// A player's move: the row and column of the 9x9 grid.
pub struct PlayerToServer {
    pub coordinates: (usize, usize),
}

/// The mark that a two-bit cell value stands for: 1 (`X`) and 2 (`O`) as they are,
/// anything else read as an empty cell.
pub open spec fn decoded_mark(v: u8) -> u8 {
    if v == 1 {
        1
    } else if v == 2 {
        2
    } else {
        0
    }
}

/// `grid[b][c]` is the decoded mark of cell `c` of packed small board `b`.
pub open spec fn decodes(small_boards: Seq<u32>, grid: Seq<[u8; 9]>) -> bool {
    &&& grid.len() == 9
    &&& forall|b: int, c: int| 0 <= b < 9 && 0 <= c < 9 ==> #[trigger] grid[b]@[c]
        == decoded_mark(cell_of(small_boards[b], c))
}

impl ServerToPlayer {
    /// Unpacks the nine small boards into a 9x9 array of marks: `result[b][c]` is cell `c`
    /// of small board `b`, as 0 (empty), 1 (`X`) or 2 (`O`).
    pub fn decode_boards(small_boards: [u32; 9]) -> (board_state: [[u8; 9]; 9])
        ensures
            decodes(small_boards@, board_state@),
    {
        let mut board_state: [[u8; 9]; 9] = [[0u8; 9]; 9];
        let mut board_idx: usize = 0;
        while board_idx < 9
            invariant
                board_idx <= 9,
                forall|b: int, c: int| 0 <= b < board_idx && 0 <= c < 9 ==> #[trigger] board_state@[b]@[c]
                    == decoded_mark(cell_of(small_boards@[b], c)),
            decreases 9 - board_idx,
        {
            let encoded: u32 = small_boards[board_idx];
            let mut row: [u8; 9] = [0u8; 9];
            let mut cell_idx: usize = 0;
            while cell_idx < 9
                invariant
                    cell_idx <= 9,
                    encoded == small_boards@[board_idx as int],
                    forall|c: int| 0 <= c < cell_idx ==> #[trigger] row@[c]
                        == decoded_mark(cell_of(encoded, c)),
                decreases 9 - cell_idx,
            {
                let shift: u32 = (cell_idx as u32) * 2;
                let bits: u32 = (encoded >> shift) & 0b11u32;
                proof {
                    assert((encoded >> shift) & 3u32 < 4u32) by (bit_vector);
                    assert(bits as u8 == cell_of(encoded, cell_idx as int));
                }
                row[cell_idx] = match bits {
                    0b00 => 0,
                    0b01 => 1,
                    0b10 => 2,
                    _ => 0,
                };
                cell_idx = cell_idx + 1;
            }
            board_state[board_idx] = row;
            board_idx = board_idx + 1;
        }
        board_state
    }

    /// The message for the player about to move in `game`, after `last_move`.
    pub fn for_turn(game: &UltimateTicTacToe, last_move: Option<(usize, usize)>) -> (msg: Self)
        ensures
            msg.last_move == last_move,
            msg.player == game.current_player.mark(),
            decodes(game.small_boards@, msg.board_state@),
    {
        ServerToPlayer {
            last_move,
            player: game.current_player.value(),
            board_state: Self::decode_boards(game.small_boards),
        }
    }
}

/// Decoding never yields anything but an empty cell (0), `X` (1) or `O` (2), whatever the
/// packed boards hold.
pub proof fn lemma_decoded_marks_are_valid(small_boards: Seq<u32>, grid: Seq<[u8; 9]>)
    requires
        decodes(small_boards, grid),
    ensures
        forall|b: int, c: int| 0 <= b < 9 && 0 <= c < 9 ==> #[trigger] grid[b]@[c] <= 2,
{
}

/// The first `n` cells of a small board packed two bits each: cell `c` in bits `2 * c`
/// and `2 * c + 1`.
pub open spec fn pack_cells(cells: Seq<u8>, n: int) -> u32
    decreases n,
{
    if n <= 0 {
        0
    } else {
        pack_cells(cells, n - 1) | ((cells[n - 1] as u32) << ((2 * (n - 1)) as u32))
    }
}

proof fn lemma_pack_step(x: u32, v: u32, k: u32, i: u32)
    by (bit_vector)
    requires
        k < 9,
        x < (1u32 << (k * 2)),
        v < 4,
        i <= k,
    ensures
        (x | (v << (k * 2))) < (1u32 << ((k + 1) * 2)),
        i < k ==> ((x | (v << (k * 2))) >> (i * 2)) & 3u32 == (x >> (i * 2)) & 3u32,
        i == k ==> ((x | (v << (k * 2))) >> (i * 2)) & 3u32 == v,
{
}

proof fn lemma_pack_cells(cells: Seq<u8>, n: int)
    requires
        0 <= n <= 9,
        cells.len() >= n,
        forall|i: int| 0 <= i < n ==> #[trigger] cells[i] <= 3,
    ensures
        pack_cells(cells, n) < (1u32 << ((2 * n) as u32)),
        forall|i: int| 0 <= i < n ==> #[trigger] cell_of(pack_cells(cells, n), i) == cells[i],
    decreases n,
{
    if n == 0 {
        assert(0u32 < (1u32 << 0u32)) by (bit_vector);
    } else {
        lemma_pack_cells(cells, n - 1);
        let x = pack_cells(cells, n - 1);
        let k: u32 = (n - 1) as u32;
        let v: u32 = cells[n - 1] as u32;
        assert(cells[n - 1] <= 3);
        lemma_pack_step(x, v, k, k);
        assert forall|i: int| 0 <= i < n implies #[trigger] cell_of(pack_cells(cells, n), i) == cells[i] by {
            lemma_pack_step(x, v, k, i as u32);
            if i < n - 1 {
                assert(cell_of(x, i) == cells[i]);
            }
        }
    }
}

/// Decoding undoes packing: packed boards built from a 9x9 grid of valid marks (0, 1, 2)
/// decode to that grid.
pub proof fn lemma_decode_packed(small_boards: Seq<u32>, grid: Seq<[u8; 9]>, decoded: Seq<[u8; 9]>)
    requires
        grid.len() == 9,
        small_boards.len() == 9,
        forall|b: int, c: int| 0 <= b < 9 && 0 <= c < 9 ==> #[trigger] grid[b]@[c] <= 2,
        forall|b: int| 0 <= b < 9 ==> #[trigger] small_boards[b] == pack_cells(grid[b]@, 9),
        decodes(small_boards, decoded),
    ensures
        forall|b: int, c: int| 0 <= b < 9 && 0 <= c < 9 ==> #[trigger] decoded[b]@[c] == grid[b]@[c],
{
    assert forall|b: int, c: int| 0 <= b < 9 && 0 <= c < 9 implies #[trigger] decoded[b]@[c] == grid[b]@[c] by {
        assert forall|i: int| 0 <= i < 9 implies #[trigger] grid[b]@[i] <= 3 by {
            assert(grid[b]@[i] <= 2);
        }
        lemma_pack_cells(grid[b]@, 9);
        assert(small_boards[b] == pack_cells(grid[b]@, 9));
        assert(cell_of(small_boards[b], c) == grid[b]@[c]);
        assert(grid[b]@[c] <= 2);
    }
}

/// After any sequence of played moves from a new game, the decoded boards show each move's
/// mark on its cell (1 for the 1st, 3rd, ... move, 2 for the others) and 0 on every cell that
/// no move reached.
pub proof fn lemma_decoded_replay(games: Seq<UltimateTicTacToe>, moves: Seq<(u8, u8)>, decoded: Seq<[u8; 9]>)
    requires
        is_replay(games, moves),
        decodes(games.last().small_boards@, decoded),
    ensures
        forall|k: int| 0 <= k < moves.len() ==> #[trigger] decoded[board_of(moves[k].0, moves[k].1)]@[cell_in_board(moves[k].0, moves[k].1)]
            == if k % 2 == 0 { 1u8 } else { 2u8 },
        forall|b: int, c: int| 0 <= b < 9 && 0 <= c < 9 && (forall|k: int| 0 <= k < moves.len() ==> !(
            board_of(moves[k].0, moves[k].1) == b && cell_in_board(moves[k].0, moves[k].1) == c))
            ==> #[trigger] decoded[b]@[c] == 0,
{
    lemma_replay_marks(games, moves);
    assert forall|k: int| 0 <= k < moves.len() implies #[trigger] decoded[board_of(moves[k].0, moves[k].1)]@[cell_in_board(moves[k].0, moves[k].1)]
        == if k % 2 == 0 { 1u8 } else { 2u8 } by {
        assert(games[k].rejection(moves[k].0, moves[k].1) is None);
        let b = board_of(moves[k].0, moves[k].1);
        let c = cell_in_board(moves[k].0, moves[k].1);
        assert(cell_of(games.last().small_boards@[b], c) == if k % 2 == 0 { 1u8 } else { 2u8 });
    }
    assert forall|b: int, c: int| 0 <= b < 9 && 0 <= c < 9 && (forall|k: int| 0 <= k < moves.len() ==> !(
        board_of(moves[k].0, moves[k].1) == b && cell_in_board(moves[k].0, moves[k].1) == c))
        implies #[trigger] decoded[b]@[c] == 0 by {
        assert(cell_of(games.last().small_boards@[b], c) == 0);
    }
}

} // verus!
