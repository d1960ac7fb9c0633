use vstd::prelude::*;

use crate::game::{cell_of, BoardState, Player, UltimateTicTacToe};

verus! {

/// How a cell is drawn: "X" for 1, "O" for 2, a blank for anything else.
pub open spec fn cell_text(v: u8) -> Seq<char> {
    if v == 1 {
        "X"@
    } else if v == 2 {
        "O"@
    } else {
        " "@
    }
}

/// The decimal digit `d` (0 to 9) as text.
pub open spec fn digit_text(d: int) -> Seq<char> {
    if d == 0 {
        "0"@
    } else if d == 1 {
        "1"@
    } else if d == 2 {
        "2"@
    } else if d == 3 {
        "3"@
    } else if d == 4 {
        "4"@
    } else if d == 5 {
        "5"@
    } else if d == 6 {
        "6"@
    } else if d == 7 {
        "7"@
    } else if d == 8 {
        "8"@
    } else {
        "9"@
    }
}

/// The decimal notation of `v`, without leading zeros.
pub open spec fn decimal_text(v: nat) -> Seq<char>
    decreases v,
{
    if v < 10 {
        digit_text(v as int)
    } else {
        decimal_text(v / 10) + digit_text((v % 10) as int)
    }
}

/// Row `r` (0 to 2) of one small board, cells separated by thin bars: "X│ │O".
pub open spec fn small_row_text(board: u32, r: int) -> Seq<char> {
    cell_text(cell_of(board, 3 * r)) + "\u{2502}"@ + cell_text(cell_of(board, 3 * r + 1))
        + "\u{2502}"@ + cell_text(cell_of(board, 3 * r + 2))
}

/// Row `r` (0 to 8) of the 9x9 grid: its number, a blank, then the matching rows of three
/// small boards separated by thick bars.
pub open spec fn grid_row_text(boards: Seq<u32>, r: int) -> Seq<char> {
    let big = (r / 3) * 3;
    let small = r % 3;
    digit_text(r) + " "@ + small_row_text(boards[big], small) + "\u{2503}"@
        + small_row_text(boards[big + 1], small) + "\u{2503}"@
        + small_row_text(boards[big + 2], small)
}

/// The line drawn between two bands of small boards; its row label is 0.
pub open spec fn separator_text() -> Seq<char> {
    "0 \u{2501}\u{253f}\u{2501}\u{253f}\u{2501}\u{254b}\u{2501}\u{253f}\u{2501}\u{253f}\u{2501}\u{254b}\u{2501}\u{253f}\u{2501}\u{253f}\u{2501}"@
}

/// The column header: two blanks, then the column numbers 0 to 8 separated by blanks.
pub open spec fn header_text() -> Seq<char> {
    "  0 1 2 3 4 5 6 7 8"@
}

/// Display line `k` (0 to 10) below the header: rows 0-2, a separator, rows 3-5, a
/// separator, rows 6-8.
pub open spec fn display_line(boards: Seq<u32>, k: int) -> Seq<char> {
    if k == 3 || k == 7 {
        separator_text()
    } else {
        grid_row_text(boards, k - k / 4)
    }
}

/// How a status is written for debugging: "InProgress", "Won(X)", "Won(O)" or "Draw".
pub open spec fn state_text(s: BoardState) -> Seq<char> {
    match s {
        BoardState::InProgress => "InProgress"@,
        BoardState::Won(Player::X) => "Won(X)"@,
        BoardState::Won(Player::O) => "Won(O)"@,
        BoardState::Draw => "Draw"@,
    }
}

/// How the forced board is written for debugging: "None" or "Some(n)".
pub open spec fn forced_text(f: Option<u8>) -> Seq<char> {
    match f {
        None => "None"@,
        Some(n) => "Some("@ + decimal_text(n as nat) + ")"@,
    }
}

/// The report lines "Small Board i: status" of the first `n` small boards.
pub open spec fn small_boards_report(states: Seq<BoardState>, n: int) -> Seq<char>
    decreases n,
{
    if n <= 0 {
        Seq::empty()
    } else {
        small_boards_report(states, n - 1) + "Small Board "@ + digit_text(n - 1) + ": "@
            + state_text(states[n - 1]) + "\n"@
    }
}

/// The debugging report of a game: the global status, the status of each small board, the
/// forced board and the player to move, one line each.
pub open spec fn debug_report(g: UltimateTicTacToe) -> Seq<char> {
    "Global State: "@ + state_text(g.global_state) + "\n"@ + small_boards_report(g.small_board_state@, 9) + "Next Board: "@
        + forced_text(g.next_small_board) + "\n"@ + "Current Player: "@ + (match g.current_player {
        Player::X => "X"@,
        Player::O => "O"@,
    }) + "\n"@
}

fn cell_str(v: u8) -> (s: &'static str)
    ensures
        s@ == cell_text(v),
{
    if v == 1 {
        "X"
    } else if v == 2 {
        "O"
    } else {
        " "
    }
}

fn digit_str(d: u8) -> (s: &'static str)
    requires
        d < 10,
    ensures
        s@ == digit_text(d as int),
{
    match d {
        0 => "0",
        1 => "1",
        2 => "2",
        3 => "3",
        4 => "4",
        5 => "5",
        6 => "6",
        7 => "7",
        8 => "8",
        _ => "9",
    }
}

fn push_decimal(s: &mut String, v: u8)
    ensures
        final(s)@ == old(s)@ + decimal_text(v as nat),
{
    if v >= 100 {
        s.append(digit_str(v / 100));
        s.append(digit_str((v / 10) % 10));
        s.append(digit_str(v % 10));
        assert(decimal_text((v / 10) as nat) == decimal_text((v / 100) as nat) + digit_text(((v / 10) % 10) as int));
        assert(decimal_text((v / 100) as nat) == digit_text((v / 100) as int));
    } else if v >= 10 {
        s.append(digit_str(v / 10));
        s.append(digit_str(v % 10));
        assert(decimal_text((v / 10) as nat) == digit_text((v / 10) as int));
    } else {
        s.append(digit_str(v));
    }
}

fn push_small_row(s: &mut String, board: u32, r: u8)
    requires
        r < 3,
    ensures
        final(s)@ == old(s)@ + small_row_text(board, r as int),
{
    let c0: u8 = crate::game::get_cell(board, 3 * r);
    let c1: u8 = crate::game::get_cell(board, 3 * r + 1);
    let c2: u8 = crate::game::get_cell(board, 3 * r + 2);
    s.append(cell_str(c0));
    s.append("\u{2502}");
    s.append(cell_str(c1));
    s.append("\u{2502}");
    s.append(cell_str(c2));
}

fn push_grid_row(s: &mut String, boards: &[u32; 9], r: u8)
    requires
        r < 9,
    ensures
        final(s)@ == old(s)@ + grid_row_text(boards@, r as int),
{
    let big: usize = ((r / 3) * 3) as usize;
    let small: u8 = r % 3;
    s.append(digit_str(r));
    s.append(" ");
    push_small_row(s, boards[big], small);
    s.append("\u{2503}");
    push_small_row(s, boards[big + 1], small);
    s.append("\u{2503}");
    push_small_row(s, boards[big + 2], small);
}

fn state_str(st: BoardState) -> (s: &'static str)
    ensures
        s@ == state_text(st),
{
    match st {
        BoardState::InProgress => "InProgress",
        BoardState::Won(Player::X) => "Won(X)",
        BoardState::Won(Player::O) => "Won(O)",
        BoardState::Draw => "Draw",
    }
}

impl UltimateTicTacToe {
    /// The lines that show the game: the column header, the nine rows of the 9x9 grid with
    /// a separator line after every third row, and a closing empty line.
    pub fn board_lines(&self) -> (lines: Vec<String>)
        ensures
            lines.len() == 13,
            lines@[0]@ == header_text(),
            forall|k: int| 0 <= k < 11 ==> #[trigger] lines@[k + 1]@ == display_line(self.small_boards@, k),
            lines@[12]@ == Seq::<char>::empty(),
    {
        let mut lines: Vec<String> = Vec::new();
        lines.push(String::from_str("  0 1 2 3 4 5 6 7 8"));
        let mut k: u8 = 0;
        while k < 11
            invariant
                k <= 11,
                lines.len() == k + 1,
                lines@[0]@ == header_text(),
                forall|j: int| 0 <= j < k ==> #[trigger] lines@[j + 1]@ == display_line(self.small_boards@, j),
            decreases 11 - k,
        {
            if k == 3 || k == 7 {
                lines.push(String::from_str(
                    "0 \u{2501}\u{253f}\u{2501}\u{253f}\u{2501}\u{254b}\u{2501}\u{253f}\u{2501}\u{253f}\u{2501}\u{254b}\u{2501}\u{253f}\u{2501}\u{253f}\u{2501}",
                ));
            } else {
                let mut line = String::new();
                push_grid_row(&mut line, &self.small_boards, k - k / 4);
                lines.push(line);
            }
            k = k + 1;
        }
        lines.push(String::new());
        lines
    }

    /// The debugging report of the game, as `debug_report` lays it out.
    pub fn debug_text(&self) -> (s: String)
        ensures
            s@ == debug_report(*self),
    {
        let mut s = String::from_str("Global State: ");
        s.append(state_str(self.global_state));
        s.append("\n");
        let ghost start = s@;
        let mut i: u8 = 0;
        while i < 9
            invariant
                i <= 9,
                s@ == start + small_boards_report(self.small_board_state@, i as int),
            decreases 9 - i,
        {
            s.append("Small Board ");
            s.append(digit_str(i));
            s.append(": ");
            s.append(state_str(self.small_board_state[i as usize]));
            s.append("\n");
            i = i + 1;
        }
        s.append("Next Board: ");
        match self.next_small_board {
            None => s.append("None"),
            Some(n) => {
                s.append("Some(");
                push_decimal(&mut s, n);
                s.append(")");
            },
        }
        s.append("\n");
        s.append("Current Player: ");
        s.append(self.current_player.symbol());
        s.append("\n");
        s
    }
}

/// The character that shows a cell holding `v`: 'X' for 1, 'O' for 2, a blank otherwise.
pub open spec fn mark_char(v: u8) -> char {
    if v == 1 {
        'X'
    } else if v == 2 {
        'O'
    } else {
        ' '
    }
}

proof fn lemma_cell_text_char(v: u8)
    ensures
        cell_text(v).len() == 1,
        cell_text(v)[0] == mark_char(v),
{
    reveal_strlit("X");
    reveal_strlit("O");
    reveal_strlit(" ");
}

proof fn lemma_small_row_chars(board: u32, r: int)
    ensures
        small_row_text(board, r).len() == 5,
        forall|w: int| 0 <= w < 3 ==> #[trigger] small_row_text(board, r)[2 * w] == mark_char(cell_of(board, 3 * r + w)),
{
    reveal_strlit("\u{2502}");
    let c0 = cell_text(cell_of(board, 3 * r));
    let c1 = cell_text(cell_of(board, 3 * r + 1));
    let c2 = cell_text(cell_of(board, 3 * r + 2));
    lemma_cell_text_char(cell_of(board, 3 * r));
    lemma_cell_text_char(cell_of(board, 3 * r + 1));
    lemma_cell_text_char(cell_of(board, 3 * r + 2));
    let bar = "\u{2502}"@;
    assert(bar.len() == 1);
    let t = small_row_text(board, r);
    assert(t == c0 + bar + c1 + bar + c2);
    assert(t[0] == c0[0]);
    assert(t[2] == c1[0]);
    assert(t[4] == c2[0]);
}

proof fn lemma_digit_len(d: int)
    ensures
        digit_text(d).len() == 1,
{
    reveal_strlit("0");
    reveal_strlit("1");
    reveal_strlit("2");
    reveal_strlit("3");
    reveal_strlit("4");
    reveal_strlit("5");
    reveal_strlit("6");
    reveal_strlit("7");
    reveal_strlit("8");
    reveal_strlit("9");
}

proof fn lemma_grid_row_chars(boards: Seq<u32>, r: int)
    requires
        0 <= r < 9,
    ensures
        grid_row_text(boards, r).len() == 19,
        forall|c: int| 0 <= c < 9 ==> #[trigger] grid_row_text(boards, r)[2 + 6 * (c / 3) + 2 * (c % 3)]
            == mark_char(cell_of(boards[(r / 3) * 3 + c / 3], (r % 3) * 3 + c % 3)),
{
    reveal_strlit(" ");
    reveal_strlit("\u{2503}");
    let big = (r / 3) * 3;
    let small = r % 3;
    lemma_digit_len(r);
    lemma_small_row_chars(boards[big], small);
    lemma_small_row_chars(boards[big + 1], small);
    lemma_small_row_chars(boards[big + 2], small);
    let head = digit_text(r) + " "@;
    let g0 = small_row_text(boards[big], small);
    let g1 = small_row_text(boards[big + 1], small);
    let g2 = small_row_text(boards[big + 2], small);
    let bar = "\u{2503}"@;
    let t = grid_row_text(boards, r);
    assert(head.len() == 2);
    assert(bar.len() == 1);
    assert(t == head + g0 + bar + g1 + bar + g2);
    assert forall|c: int| 0 <= c < 9 implies #[trigger] t[2 + 6 * (c / 3) + 2 * (c % 3)]
        == mark_char(cell_of(boards[(r / 3) * 3 + c / 3], (r % 3) * 3 + c % 3)) by {
        let w = c % 3;
        if c / 3 == 0 {
            assert(t[2 + 2 * w] == g0[2 * w]);
        } else if c / 3 == 1 {
            assert(t[8 + 2 * w] == g1[2 * w]);
        } else {
            assert(t[14 + 2 * w] == g2[2 * w]);
        }
    }
}

/// Where each cell is drawn: in the display line of grid row `r` (line `r + r / 3`, the
/// separator lines coming after rows 2 and 5), grid column `c` is drawn at position
/// `2 + 6 * (c / 3) + 2 * (c % 3)` and shows the mark of cell `(r % 3) * 3 + c % 3` of small
/// board `(r / 3) * 3 + c / 3`: boards left to right, cells left to right.
pub proof fn lemma_cell_drawn_in_place(boards: Seq<u32>)
    ensures
        forall|r: int, c: int| 0 <= r < 9 && 0 <= c < 9 ==> #[trigger] display_line(boards, r + r / 3)[2 + 6 * (c / 3) + 2 * (c % 3)]
            == mark_char(cell_of(boards[(r / 3) * 3 + c / 3], (r % 3) * 3 + c % 3)),
        forall|r: int| 0 <= r < 9 ==> #[trigger] display_line(boards, r + r / 3).len() == 19,
{
    assert forall|r: int, c: int| 0 <= r < 9 && 0 <= c < 9 implies #[trigger] display_line(boards, r + r / 3)[2 + 6 * (c / 3) + 2 * (c % 3)]
        == mark_char(cell_of(boards[(r / 3) * 3 + c / 3], (r % 3) * 3 + c % 3)) by {
        lemma_grid_row_chars(boards, r);
        let k = r + r / 3;
        assert(k != 3 && k != 7 && k - k / 4 == r);
    }
    assert forall|r: int| 0 <= r < 9 implies #[trigger] display_line(boards, r + r / 3).len() == 19 by {
        lemma_grid_row_chars(boards, r);
        let k = r + r / 3;
        assert(k != 3 && k != 7 && k - k / 4 == r);
    }
}

} // verus!
