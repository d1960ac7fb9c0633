use vstd::prelude::*;

verus! {

/// One of the two players. `X` always moves first.
#[derive(Clone, Copy, PartialEq, Eq, Debug, Structural)]
pub enum Player {
    X,
    O,
}

/// The status of a small board, or of the whole game.
#[derive(Clone, Copy, PartialEq, Eq, Debug, Structural)]
pub enum BoardState {
    InProgress,
    Won(Player),
    Draw,
}

impl Player {
    /// The mark that this player leaves in a cell: 1 for `X`, 2 for `O`.
    pub open spec fn mark(self) -> u8 {
        match self {
            Player::X => 1,
            Player::O => 2,
        }
    }

    /// The other player.
    pub open spec fn other(self) -> Player {
        match self {
            Player::X => Player::O,
            Player::O => Player::X,
        }
    }

    /// The mark of this player as a number (1 for `X`, 2 for `O`).
    pub fn value(self) -> (v: u8)
        ensures
            v == self.mark(),
    {
        match self {
            Player::X => 1,
            Player::O => 2,
        }
    }

    /// The player who moves after this one.
    pub fn opponent(self) -> (p: Player)
        ensures
            p == self.other(),
    {
        match self {
            Player::X => Player::O,
            Player::O => Player::X,
        }
    }

    /// The player's symbol as text: "X" or "O".
    pub fn symbol(self) -> (s: &'static str)
        ensures
            s@ == (match self {
                Player::X => "X"@,
                Player::O => "O"@,
            }),
    {
        match self {
            Player::X => "X",
            Player::O => "O",
        }
    }
}

/// The player whose mark is `a`: 1 stands for `X`, any other mark for `O`.
pub open spec fn player_of_mark(a: u8) -> Player {
    if a == 1 {
        Player::X
    } else {
        Player::O
    }
}

/// The three cells of line `l` of a 3x3 grid, cells numbered row by row:
/// first the three rows, then the three columns, then the two diagonals.
pub open spec fn winning_line(l: int) -> (int, int, int) {
    if l == 0 {
        (0, 1, 2)
    } else if l == 1 {
        (3, 4, 5)
    } else if l == 2 {
        (6, 7, 8)
    } else if l == 3 {
        (0, 3, 6)
    } else if l == 4 {
        (1, 4, 7)
    } else if l == 5 {
        (2, 5, 8)
    } else if l == 6 {
        (0, 4, 8)
    } else {
        (2, 4, 6)
    }
}

/// Line `l` of `cells` holds three equal non-zero marks.
pub open spec fn line_complete(cells: Seq<u8>, l: int) -> bool {
    let (a, b, c) = winning_line(l);
    cells[a] != 0 && cells[a] == cells[b] && cells[a] == cells[c]
}

/// The mark on the first complete line among lines `l`, `l + 1`, ..., 7, if any.
pub open spec fn first_complete_from(cells: Seq<u8>, l: int) -> Option<u8>
    decreases 8 - l,
{
    if l >= 8 {
        None
    } else if line_complete(cells, l) {
        Some(cells[winning_line(l).0])
    } else {
        first_complete_from(cells, l + 1)
    }
}

/// The status of a 3x3 grid of marks (0 for an empty cell): won by the owner of the first
/// complete line, drawn when no line is complete and every cell is marked, else in progress.
pub open spec fn outcome(cells: Seq<u8>) -> BoardState {
    match first_complete_from(cells, 0) {
        Some(a) => BoardState::Won(player_of_mark(a)),
        None => if forall|i: int| 0 <= i < 9 ==> #[trigger] cells[i] != 0 {
            BoardState::Draw
        } else {
            BoardState::InProgress
        },
    }
}

/// The nine cells of a packed small board.
pub open spec fn cells_of(board: u32) -> Seq<u8> {
    Seq::new(9, |i: int| cell_of(board, i))
}

/// The two-bit value held by cell `idx` of a small board packed into `board`:
/// cell `i` occupies bits `2 * i` and `2 * i + 1`.
pub open spec fn cell_of(board: u32, idx: int) -> u8 {
    ((board >> ((2 * idx) as u32)) & 3u32) as u8
}

proof fn lemma_cell_of_set(board: u32, idx: u32, j: u32, value: u32)
    by (bit_vector)
    requires
        idx < 16,
        j < 16,
        value < 4,
    ensures
        (((board & !(3u32 << (idx * 2))) | (value << (idx * 2))) >> (j * 2)) & 3u32
            == if j == idx { value } else { (board >> (j * 2)) & 3u32 },
{
}

proof fn lemma_cell_small(board: u32, j: u32)
    by (bit_vector)
    ensures
        (board >> j) & 3u32 < 4,
{
}

/// Reads cell `idx` of a packed small board.
pub(crate) fn get_cell(board: u32, idx: u8) -> (v: u8)
    requires
        idx < 16,
    ensures
        v == cell_of(board, idx as int),
        v < 4,
{
    let shift: u32 = (idx as u32) * 2;
    proof {
        lemma_cell_small(board, shift);
    }
    ((board >> shift) & 0b11u32) as u8
}

/// Clears cell `idx` of a packed small board and ors in `value` shifted to that cell. A
/// value below 4 is written into the cell, with every other cell kept as it was; the bits of
/// a larger value reach into the following cells.
fn set_cell(board: &mut u32, idx: u8, value: u8)
    requires
        idx < 16,
    ensures
        *final(board) == (*old(board) & !(3u32 << ((2 * idx) as u32))) | ((value as u32) << ((2 * idx) as u32)),
        value < 4 ==> forall|j: int| 0 <= j < 16 ==> #[trigger] cell_of(*final(board), j)
            == if j == idx { value } else { cell_of(*old(board), j) },
{
    let shift: u32 = (idx as u32) * 2;
    let mask: u32 = !(0b11u32 << shift);
    let old_board: u32 = *board;
    *board = (*board & mask) | ((value as u32) << shift);
    proof {
        assert forall|j: int| 0 <= j < 16 && value < 4 implies #[trigger] cell_of(*board, j)
            == if j == idx { value } else { cell_of(old_board, j) } by {
            let ju: u32 = j as u32;
            lemma_cell_of_set(old_board, idx as u32, ju, value as u32);
            lemma_cell_small(old_board, (ju * 2) as u32);
        }
    }
}

/// The three cells of line `l`, as `winning_line` numbers them.
fn line_at(l: u8) -> (r: (u8, u8, u8))
    requires
        l < 8,
    ensures
        r.0 as int == winning_line(l as int).0,
        r.1 as int == winning_line(l as int).1,
        r.2 as int == winning_line(l as int).2,
        r.0 < 9 && r.1 < 9 && r.2 < 9,
{
    match l {
        0 => (0, 1, 2),
        1 => (3, 4, 5),
        2 => (6, 7, 8),
        3 => (0, 3, 6),
        4 => (1, 4, 7),
        5 => (2, 5, 8),
        6 => (0, 4, 8),
        _ => (2, 4, 6),
    }
}

/// An Ultimate Tic-Tac-Toe game: nine small boards, each a 3x3 grid packed two bits per
/// cell into a `u32` (0 empty, 1 `X`, 2 `O`), arranged in a 3x3 grid of their own.
pub struct UltimateTicTacToe {
    /// The cells of each small board, two bits per cell (9 boards, 9 cells, 162 bits).
    pub small_boards: [u32; 9],
    /// Whether each small board is still in progress, won, or drawn.
    pub small_board_state: [BoardState; 9],
    /// The status of the whole game, decided by the won small boards.
    pub global_state: BoardState,
    /// The player to move.
    pub current_player: Player,
    /// The small board (0 to 8) that the next move must go to while it is in progress;
    /// `None` lets the mover choose.
    pub next_small_board: Option<u8>,
    /// The name under which the game is listed.
    pub name: String,
    /// The last move played, as (small board, cell).
    pub last_move: Option<(u8, u8)>,
}

/// The small board that the move at `(row, col)` of the 9x9 grid falls into.
pub open spec fn board_of(row: u8, col: u8) -> int {
    (row / 3) * 3 + col / 3
}

/// The cell of its small board that the move at `(row, col)` of the 9x9 grid falls into.
pub open spec fn cell_in_board(row: u8, col: u8) -> int {
    (row % 3) * 3 + col % 3
}

/// The 3x3 grid of small boards as marks: the winner's mark for a won board, 0 otherwise.
pub open spec fn meta_cells(states: Seq<BoardState>) -> Seq<u8> {
    Seq::new(
        9,
        |i: int|
            match states[i] {
                BoardState::Won(p) => p.mark(),
                _ => 0,
            },
    )
}

/// The first line of small boards, in the order of `winning_line`, whose three boards were
/// all won by the same player, starting from line `l`.
pub open spec fn first_won_line_from(states: Seq<BoardState>, l: int) -> Option<Player>
    decreases 8 - l,
{
    if l >= 8 {
        None
    } else {
        let (a, b, c) = winning_line(l);
        if states[a] is Won && states[a] == states[b] && states[a] == states[c] {
            Some(states[a]->Won_0)
        } else {
            first_won_line_from(states, l + 1)
        }
    }
}

/// `new_board` is `old_board` with cell `idx` set to `value` and every other cell kept.
pub open spec fn cell_updated(old_board: u32, new_board: u32, idx: int, value: u8) -> bool {
    forall|j: int| 0 <= j < 16 ==> #[trigger] cell_of(new_board, j)
        == if j == idx { value } else { cell_of(old_board, j) }
}

/// How many of the first `n` cells of a packed small board hold mark `m`.
pub open spec fn marks_in_board(board: u32, m: u8, n: int) -> int
    decreases n,
{
    if n <= 0 {
        0
    } else {
        marks_in_board(board, m, n - 1) + if cell_of(board, n - 1) == m { 1int } else { 0int }
    }
}

/// How many cells of the first `k` small boards hold mark `m`.
pub open spec fn marks_on_grid(boards: Seq<u32>, m: u8, k: int) -> int
    decreases k,
{
    if k <= 0 {
        0
    } else {
        marks_on_grid(boards, m, k - 1) + marks_in_board(boards[k - 1], m, 9)
    }
}

impl UltimateTicTacToe {
    /// The board that the next move is sent to, if any.
    pub open spec fn forced_board(&self) -> Option<u8> {
        self.next_small_board
    }

    /// The game is well formed: a forced board, if any, is one of the nine.
    pub open spec fn wf(&self) -> bool {
        self.next_small_board matches Some(f) ==> f < 9
    }

    /// Every small board's status is what its cells decide, and the global status is what
    /// the won small boards decide.
    pub open spec fn consistent(&self) -> bool {
        &&& forall|b: int| 0 <= b < 9 ==> #[trigger] self.small_board_state@[b]
            == outcome(cells_of(self.small_boards@[b]))
        &&& self.global_state == outcome(meta_cells(self.small_board_state@))
    }

    /// The players have taken turns: `X` has placed as many marks as `O` when it is `X`'s
    /// turn, and one more when it is `O`'s.
    pub open spec fn turns_balanced(&self) -> bool {
        marks_on_grid(self.small_boards@, 1, 9) == marks_on_grid(self.small_boards@, 2, 9)
            + if self.current_player == Player::O { 1int } else { 0int }
    }

    /// The game is as a new game starts: every cell empty, every board and the game in
    /// progress, `X` to move anywhere, no move made yet.
    pub open spec fn is_fresh(&self) -> bool {
        &&& forall|b: int| 0 <= b < 9 ==> self.small_boards@[b] == 0u32
        &&& forall|b: int, j: int| 0 <= b < 9 && 0 <= j < 16 ==> #[trigger] cell_of(self.small_boards@[b], j) == 0
        &&& forall|b: int| 0 <= b < 9 ==> self.small_board_state@[b] == BoardState::InProgress
        &&& self.global_state == BoardState::InProgress
        &&& self.current_player == Player::X
        &&& self.forced_board() == None::<u8>
        &&& self.last_move == None::<(u8, u8)>
    }

    /// Why the move at `(row, col)` is refused, if it is.
    pub open spec fn rejection(&self, row: u8, col: u8) -> Option<Seq<char>> {
        if row >= 9 || col >= 9 {
            Some("Invalid coordinates"@)
        } else if self.forced_board() matches Some(f) && f != board_of(row, col)
            && self.small_board_state@[f as int] == BoardState::InProgress {
            Some("Must play in the forced small board"@)
        } else if self.small_board_state@[board_of(row, col)] != BoardState::InProgress {
            Some("This small board is closed"@)
        } else if cell_of(self.small_boards@[board_of(row, col)], cell_in_board(row, col)) != 0 {
            Some("Cell is already taken"@)
        } else {
            None
        }
    }

    /// `next` is the game after the current player has marked `(row, col)` in `self`.
    pub open spec fn moved_to(&self, next: &Self, row: u8, col: u8) -> bool {
        let sb = board_of(row, col);
        let ci = cell_in_board(row, col);
        let nb = next.small_boards@[sb];
        &&& cell_updated(self.small_boards@[sb], nb, ci, self.current_player.mark())
        &&& next.small_boards@ == self.small_boards@.update(sb, nb)
        &&& next.small_board_state@ == self.small_board_state@.update(sb, outcome(cells_of(nb)))
        &&& next.global_state == outcome(meta_cells(next.small_board_state@))
        &&& next.forced_board() == if next.small_board_state@[ci] == BoardState::InProgress {
            Some(ci as u8)
        } else {
            None::<u8>
        }
        &&& next.current_player == self.current_player.other()
        &&& next.last_move == Some((sb as u8, ci as u8))
        &&& next.name == self.name
    }

    /// The winner of the whole game if a line of small boards was won by one player;
    /// otherwise "Draw" once no small board is in progress, else "InProgress".
    pub open spec fn winner_result(&self) -> Result<Player, Seq<char>> {
        match first_won_line_from(self.small_board_state@, 0) {
            Some(p) => Ok(p),
            None => if self.all_boards_closed() {
                Err("Draw"@)
            } else {
                Err("InProgress"@)
            },
        }
    }

    /// No small board is in progress any more.
    pub open spec fn all_boards_closed(&self) -> bool {
        forall|i: int| 0 <= i < 9 ==> #[trigger] self.small_board_state@[i] != BoardState::InProgress
    }

    /// A new game named `name`: all boards empty and in progress, `X` to move anywhere.
    pub fn with_name(name: String) -> (g: Self)
        ensures
            g.wf(),
            g.consistent(),
            g.turns_balanced(),
            g.is_fresh(),
            g.name == name,
    {
        let g = UltimateTicTacToe {
            small_boards: [0u32; 9],
            small_board_state: [BoardState::InProgress; 9],
            global_state: BoardState::InProgress,
            current_player: Player::X,
            next_small_board: None,
            name,
            last_move: None,
        };
        proof {
            lemma_empty_board_in_progress();
            assert forall|b: int| 0 <= b < 9 implies #[trigger] g.small_board_state@[b]
                == outcome(cells_of(g.small_boards@[b])) by {
                assert(cells_of(g.small_boards@[b]) =~= cells_of(0u32));
            }
            lemma_no_won_boards(g.small_board_state@);
            lemma_empty_grid_has_no_marks(g.small_boards@, 1, 9);
            lemma_empty_grid_has_no_marks(g.small_boards@, 2, 9);
        }
        g
    }

    /// A new game with an empty name.
    pub fn new() -> (g: Self)
        ensures
            g.wf(),
            g.consistent(),
            g.turns_balanced(),
            g.is_fresh(),
            g.name@ == Seq::<char>::empty(),
    {
        Self::with_name(String::new())
    }

    /// Plays the current player's mark at `(global_row, global_col)` of the 9x9 grid.
    ///
    /// The move is refused, with the game left as it was, when the coordinates lie outside
    /// the grid, when it is not in the forced small board while that board is still in
    /// progress, when its small board is closed, or when its cell is taken. Otherwise the
    /// mark is placed, the statuses of the small board and of the game are recomputed, the
    /// next move is sent to the small board matching the cell just played (unless that
    /// board is closed), and the turn passes to the other player.
    pub fn play(&mut self, global_row: u8, global_col: u8) -> (r: Result<(), &'static str>)
        requires
            old(self).wf() || global_row >= 9 || global_col >= 9,
        ensures
            old(self).wf() ==> final(self).wf(),
            match old(self).rejection(global_row, global_col) {
                Some(m) => (r matches Err(e) && e@ == m) && *final(self) == *old(self),
                None => r is Ok && old(self).moved_to(&*final(self), global_row, global_col),
            },
    {
        if global_row >= 9 || global_col >= 9 {
            return Err("Invalid coordinates");
        }
        let small_board: u8 = (global_row / 3) * 3 + (global_col / 3);
        let cell_idx: u8 = (global_row % 3) * 3 + (global_col % 3);

        if let Some(forced) = self.next_small_board {
            if forced != small_board && self.small_board_state[forced as usize]
                == BoardState::InProgress {
                return Err("Must play in the forced small board");
            }
        }
        if self.small_board_state[small_board as usize] != BoardState::InProgress {
            return Err("This small board is closed");
        }
        if get_cell(self.small_boards[small_board as usize], cell_idx) != 0 {
            return Err("Cell is already taken");
        }

        let ghost before = *self;
        let mut board: u32 = self.small_boards[small_board as usize];
        set_cell(&mut board, cell_idx, self.current_player.value());
        self.small_boards[small_board as usize] = board;
        self.small_board_state[small_board as usize] = Self::check_board(board);

        let mut meta_board: [u8; 9] = [0u8; 9];
        let mut i: usize = 0;
        while i < 9
            invariant
                i <= 9,
                forall|k: int| 0 <= k < i ==> #[trigger] meta_board@[k]
                    == meta_cells(self.small_board_state@)[k],
            decreases 9 - i,
        {
            meta_board[i] = match self.small_board_state[i] {
                BoardState::Won(p) => p.value(),
                _ => 0,
            };
            i = i + 1;
        }
        assert(meta_board@ =~= meta_cells(self.small_board_state@));
        self.global_state = Self::check_board_mask(&meta_board);

        self.next_small_board = match self.small_board_state[cell_idx as usize] {
            BoardState::InProgress => Some(cell_idx),
            _ => None,
        };
        self.current_player = self.current_player.opponent();
        self.last_move = Some((small_board, cell_idx));
        assert(self.small_boards@ =~= before.small_boards@.update(
            board_of(global_row, global_col),
            board,
        ));
        Ok(())
    }

    /// The winner of the game, as `winner_result` describes; the error is the text
    /// "Draw" or "InProgress".
    pub fn check_winner(&self) -> (r: Result<Player, &'static str>)
        ensures
            match self.winner_result() {
                Ok(p) => r == Ok::<Player, &'static str>(p),
                Err(m) => r matches Err(e) && e@ == m,
            },
    {
        match self.winner_status() {
            Ok(p) => Ok(p),
            Err(true) => Err("Draw"),
            Err(false) => Err("InProgress"),
        }
    }

    /// The winner of the game if a line of small boards was won by one player; otherwise
    /// whether every small board is closed.
    pub(crate) fn winner_status(&self) -> (r: Result<Player, bool>)
        ensures
            match first_won_line_from(self.small_board_state@, 0) {
                Some(p) => r == Ok::<Player, bool>(p),
                None => r == Err::<Player, bool>(self.all_boards_closed()),
            },
    {
        let mut l: u8 = 0;
        while l < 8
            invariant
                l <= 8,
                first_won_line_from(self.small_board_state@, 0)
                    == first_won_line_from(self.small_board_state@, l as int),
            decreases 8 - l,
        {
            let (i0, i1, i2) = line_at(l);
            let a = self.small_board_state[i0 as usize];
            if a != BoardState::Draw && a != BoardState::InProgress
                && a == self.small_board_state[i1 as usize]
                && a == self.small_board_state[i2 as usize] {
                return match a {
                    BoardState::Won(Player::X) => Ok(Player::X),
                    _ => Ok(Player::O),
                };
            }
            l = l + 1;
        }
        let mut i: usize = 0;
        while i < 9
            invariant
                i <= 9,
                first_won_line_from(self.small_board_state@, 0) == None::<Player>,
                forall|k: int| 0 <= k < i ==> #[trigger] self.small_board_state@[k]
                    != BoardState::InProgress,
            decreases 9 - i,
        {
            if self.small_board_state[i] == BoardState::InProgress {
                assert(self.small_board_state@[i as int] == BoardState::InProgress);
                return Err(false);
            }
            i = i + 1;
        }
        Err(true)
    }

    /// Decides the status of a packed small board, as `outcome` describes.
    fn check_board(board: u32) -> (s: BoardState)
        ensures
            s == outcome(cells_of(board)),
    {
        let ghost cells = cells_of(board);
        let mut l: u8 = 0;
        while l < 8
            invariant
                l <= 8,
                cells == cells_of(board),
                first_complete_from(cells, 0) == first_complete_from(cells, l as int),
            decreases 8 - l,
        {
            let (i0, i1, i2) = line_at(l);
            let a = get_cell(board, i0);
            if a != 0 && a == get_cell(board, i1) && a == get_cell(board, i2) {
                assert(line_complete(cells, l as int));
                return BoardState::Won(if a == 1 { Player::X } else { Player::O });
            }
            l = l + 1;
        }
        let mut i: u8 = 0;
        while i < 9
            invariant
                i <= 9,
                cells == cells_of(board),
                first_complete_from(cells, 0) == None::<u8>,
                forall|k: int| 0 <= k < i ==> #[trigger] cells[k] != 0,
            decreases 9 - i,
        {
            if get_cell(board, i) == 0 {
                assert(cells[i as int] == 0);
                return BoardState::InProgress;
            }
            i = i + 1;
        }
        BoardState::Draw
    }

    /// Decides the status of a 3x3 grid of marks, as `outcome` describes.
    fn check_board_mask(cells: &[u8; 9]) -> (s: BoardState)
        ensures
            s == outcome(cells@),
    {
        let mut l: u8 = 0;
        while l < 8
            invariant
                l <= 8,
                first_complete_from(cells@, 0) == first_complete_from(cells@, l as int),
            decreases 8 - l,
        {
            let (i0, i1, i2) = line_at(l);
            let a = cells[i0 as usize];
            if a != 0 && a == cells[i1 as usize] && a == cells[i2 as usize] {
                assert(line_complete(cells@, l as int));
                return BoardState::Won(if a == 1 { Player::X } else { Player::O });
            }
            l = l + 1;
        }
        let mut i: usize = 0;
        while i < 9
            invariant
                i <= 9,
                first_complete_from(cells@, 0) == None::<u8>,
                forall|k: int| 0 <= k < i ==> #[trigger] cells@[k] != 0,
            decreases 9 - i,
        {
            if cells[i] == 0 {
                assert(cells@[i as int] == 0);
                return BoardState::InProgress;
            }
            i = i + 1;
        }
        BoardState::Draw
    }
}

proof fn lemma_empty_board_in_progress()
    ensures
        outcome(cells_of(0u32)) == BoardState::InProgress,
        forall|j: int| 0 <= j < 16 ==> #[trigger] cell_of(0u32, j) == 0,
{
    let cells = cells_of(0u32);
    assert forall|j: int| 0 <= j < 16 implies #[trigger] cell_of(0u32, j) == 0 by {
        let iu: u32 = (2 * j) as u32;
        assert((0u32 >> iu) & 3u32 == 0u32) by (bit_vector);
    }
    assert forall|i: int| 0 <= i < 9 implies #[trigger] cells[i] == 0 by {
        assert(cell_of(0u32, i) == 0);
    }
    assert(first_complete_from(cells, 0) == None::<u8>) by {
        reveal_with_fuel(first_complete_from, 9);
    }
    assert(cells[0] == 0);
}

proof fn lemma_empty_board_has_no_marks(board: u32, m: u8, n: int)
    requires
        m != 0,
        0 <= n <= 9,
        forall|j: int| 0 <= j < 16 ==> #[trigger] cell_of(board, j) == 0,
    ensures
        marks_in_board(board, m, n) == 0,
    decreases n,
{
    if n > 0 {
        lemma_empty_board_has_no_marks(board, m, n - 1);
        assert(cell_of(board, n - 1) == 0);
    }
}

proof fn lemma_empty_grid_has_no_marks(boards: Seq<u32>, m: u8, k: int)
    requires
        m != 0,
        0 <= k <= boards.len(),
        forall|b: int, j: int| 0 <= b < boards.len() && 0 <= j < 16 ==> #[trigger] cell_of(boards[b], j) == 0,
    ensures
        marks_on_grid(boards, m, k) == 0,
    decreases k,
{
    if k > 0 {
        lemma_empty_grid_has_no_marks(boards, m, k - 1);
        lemma_empty_board_has_no_marks(boards[k - 1], m, 9);
    }
}

proof fn lemma_marks_after_set(old_board: u32, new_board: u32, idx: int, v: u8, m: u8, n: int)
    requires
        cell_updated(old_board, new_board, idx, v),
        0 <= idx < 9,
        0 <= n <= 9,
        cell_of(old_board, idx) == 0,
        m != 0,
    ensures
        marks_in_board(new_board, m, n) == marks_in_board(old_board, m, n)
            + if idx < n && m == v { 1int } else { 0int },
    decreases n,
{
    if n > 0 {
        lemma_marks_after_set(old_board, new_board, idx, v, m, n - 1);
        assert(cell_of(new_board, n - 1) == if n - 1 == idx { v } else { cell_of(old_board, n - 1) });
    }
}

proof fn lemma_grid_marks_after_update(old_boards: Seq<u32>, sb: int, nb: u32, m: u8, delta: int, k: int)
    requires
        old_boards.len() == 9,
        0 <= sb < 9,
        0 <= k <= 9,
        marks_in_board(nb, m, 9) == marks_in_board(old_boards[sb], m, 9) + delta,
    ensures
        marks_on_grid(old_boards.update(sb, nb), m, k) == marks_on_grid(old_boards, m, k)
            + if sb < k { delta } else { 0int },
    decreases k,
{
    if k > 0 {
        lemma_grid_marks_after_update(old_boards, sb, nb, m, delta, k - 1);
    }
}

proof fn lemma_no_won_boards(states: Seq<BoardState>)
    requires
        states.len() == 9,
        forall|b: int| 0 <= b < 9 ==> states[b] == BoardState::InProgress,
    ensures
        outcome(meta_cells(states)) == BoardState::InProgress,
{
    let m = meta_cells(states);
    assert forall|i: int| 0 <= i < 9 implies #[trigger] m[i] == 0 by {}
    assert(first_complete_from(m, 0) == None::<u8>) by {
        reveal_with_fuel(first_complete_from, 9);
    }
    assert(m[0] == 0);
}

impl Default for UltimateTicTacToe {
    /// A new game with an empty name, as `new` makes it.
    fn default() -> (g: Self)
        ensures
            g.wf(),
            g.consistent(),
            g.turns_balanced(),
            g.is_fresh(),
            g.name@ == Seq::<char>::empty(),
    {
        Self::new()
    }
}

/// A move that is played changes exactly one cell: the empty cell `(row, col)` of the 9x9
/// grid receives the mover's mark, and every other cell of every small board keeps its mark.
pub proof fn lemma_move_places_one_mark(g: UltimateTicTacToe, next: UltimateTicTacToe, row: u8, col: u8)
    requires
        g.rejection(row, col) is None,
        g.moved_to(&next, row, col),
    ensures
        row < 9 && col < 9,
        cell_of(g.small_boards@[board_of(row, col)], cell_in_board(row, col)) == 0,
        forall|b: int, j: int| 0 <= b < 9 && 0 <= j < 16 ==> #[trigger] cell_of(next.small_boards@[b], j)
            == if b == board_of(row, col) && j == cell_in_board(row, col) {
                g.current_player.mark()
            } else {
                cell_of(g.small_boards@[b], j)
            },
{
    assert forall|b: int, j: int| 0 <= b < 9 && 0 <= j < 16 implies #[trigger] cell_of(next.small_boards@[b], j)
        == if b == board_of(row, col) && j == cell_in_board(row, col) {
            g.current_player.mark()
        } else {
            cell_of(g.small_boards@[b], j)
        } by {
        if b != board_of(row, col) {
            assert(next.small_boards@[b] == g.small_boards@[b]);
        }
    }
}

/// A played move never reopens or changes a small board that was already won or drawn.
pub proof fn lemma_closed_boards_stay_closed(g: UltimateTicTacToe, next: UltimateTicTacToe, row: u8, col: u8)
    requires
        g.rejection(row, col) is None,
        g.moved_to(&next, row, col),
    ensures
        forall|b: int| 0 <= b < 9 && g.small_board_state@[b] != BoardState::InProgress
            ==> #[trigger] next.small_board_state@[b] == g.small_board_state@[b],
{
}

/// After a played move, the board the next move is sent to, if any, is still in progress.
pub proof fn lemma_forced_board_is_open(g: UltimateTicTacToe, next: UltimateTicTacToe, row: u8, col: u8)
    requires
        g.rejection(row, col) is None,
        g.moved_to(&next, row, col),
    ensures
        next.wf(),
        next.forced_board() matches Some(f) ==> next.small_board_state@[f as int] == BoardState::InProgress,
{
}

/// Where a played move sends the next one, and how it is recorded: the next move must go to
/// the small board whose place in the 3x3 grid of boards is the place of the cell just played
/// in its own board, cell `(row % 3) * 3 + col % 3`, unless that board is now closed; the
/// move is recorded as (small board `(row / 3) * 3 + col / 3`, that cell); the name is kept.
pub proof fn lemma_next_board_mirrors_cell(g: UltimateTicTacToe, next: UltimateTicTacToe, row: u8, col: u8)
    requires
        g.rejection(row, col) is None,
        g.moved_to(&next, row, col),
    ensures
        next.small_board_state@[(row % 3) * 3 + col % 3] == BoardState::InProgress
            ==> next.next_small_board == Some(((row % 3) * 3 + col % 3) as u8),
        next.small_board_state@[(row % 3) * 3 + col % 3] != BoardState::InProgress
            ==> next.next_small_board == None::<u8>,
        next.last_move == Some((((row / 3) * 3 + col / 3) as u8, ((row % 3) * 3 + col % 3) as u8)),
        next.name == g.name,
{
}

/// A played move keeps the statuses consistent with the cells: every small board's status
/// is what its cells decide, and the global status is what the won boards decide.
pub proof fn lemma_move_keeps_consistency(g: UltimateTicTacToe, next: UltimateTicTacToe, row: u8, col: u8)
    requires
        g.consistent(),
        g.rejection(row, col) is None,
        g.moved_to(&next, row, col),
    ensures
        next.consistent(),
{
    assert forall|b: int| 0 <= b < 9 implies #[trigger] next.small_board_state@[b]
        == outcome(cells_of(next.small_boards@[b])) by {
        if b != board_of(row, col) {
            assert(next.small_boards@[b] == g.small_boards@[b]);
            assert(next.small_board_state@[b] == g.small_board_state@[b]);
        }
    }
}

/// The players take turns: if `X` has placed as many marks as `O` when it is `X`'s turn
/// (one more when it is `O`'s), a played move keeps it so.
pub proof fn lemma_move_keeps_turns_balanced(g: UltimateTicTacToe, next: UltimateTicTacToe, row: u8, col: u8)
    requires
        g.turns_balanced(),
        g.rejection(row, col) is None,
        g.moved_to(&next, row, col),
    ensures
        next.turns_balanced(),
{
    let sb = board_of(row, col);
    let ci = cell_in_board(row, col);
    let v = g.current_player.mark();
    let ob = g.small_boards@[sb];
    let nb = next.small_boards@[sb];
    lemma_marks_after_set(ob, nb, ci, v, 1, 9);
    lemma_marks_after_set(ob, nb, ci, v, 2, 9);
    lemma_grid_marks_after_update(g.small_boards@, sb, nb, 1, if v == 1 { 1int } else { 0int }, 9);
    lemma_grid_marks_after_update(g.small_boards@, sb, nb, 2, if v == 2 { 1int } else { 0int }, 9);
    assert(next.small_boards@ == g.small_boards@.update(sb, nb));
}

/// A played move respects the forced board: while the board the move was sent to is still
/// in progress, the move lands in it.
pub proof fn lemma_move_respects_forced_board(g: UltimateTicTacToe, row: u8, col: u8)
    requires
        g.rejection(row, col) is None,
        g.forced_board() matches Some(f) && g.small_board_state@[f as int] == BoardState::InProgress,
    ensures
        g.forced_board() == Some(board_of(row, col) as u8),
{
}

proof fn lemma_meta_lines(states: Seq<BoardState>, l: int)
    requires
        states.len() == 9,
        0 <= l <= 8,
    ensures
        first_complete_from(meta_cells(states), l) == match first_won_line_from(states, l) {
            Some(p) => Some(p.mark()),
            None => None::<u8>,
        },
    decreases 8 - l,
{
    if l < 8 {
        lemma_meta_lines(states, l + 1);
        let m = meta_cells(states);
        let (a, b, c) = winning_line(l);
        assert(m[a] == match states[a] { BoardState::Won(p) => p.mark(), _ => 0u8 });
        assert(m[b] == match states[b] { BoardState::Won(p) => p.mark(), _ => 0u8 });
        assert(m[c] == match states[c] { BoardState::Won(p) => p.mark(), _ => 0u8 });
    }
}

/// The winner that `check_winner` reports agrees with the global status that `play` keeps:
/// the game is won by `p` in one exactly when the other names `p`, and a global draw is
/// reported as "Draw".
pub proof fn lemma_winner_agrees_with_global_state(g: UltimateTicTacToe)
    requires
        g.global_state == outcome(meta_cells(g.small_board_state@)),
    ensures
        forall|p: Player| (g.global_state == BoardState::Won(p)) <==> (g.winner_result() == Ok::<Player, Seq<char>>(p)),
        g.global_state == BoardState::Draw ==> g.winner_result() == Err::<Player, Seq<char>>("Draw"@),
{
    let s = g.small_board_state@;
    lemma_meta_lines(s, 0);
    let m = meta_cells(s);
    if g.global_state == BoardState::Draw {
        assert forall|i: int| 0 <= i < 9 implies #[trigger] s[i] != BoardState::InProgress by {
            assert(m[i] != 0);
        }
    }
    assert forall|p: Player| (g.global_state == BoardState::Won(p)) <==> (g.winner_result() == Ok::<Player, Seq<char>>(p)) by {
        match first_won_line_from(s, 0) {
            Some(q) => {
                assert(player_of_mark(q.mark()) == q);
            },
            None => {},
        }
    }
}

/// A small board's status depends on its nine cells alone (bits 0 to 17): bits 18 to 31
/// never change what `check_board` decides.
pub proof fn lemma_high_bits_ignored(board: u32)
    ensures
        outcome(cells_of(board)) == outcome(cells_of(board & 0x3ffffu32)),
{
    let low = board & 0x3ffffu32;
    assert forall|i: int| 0 <= i < 9 implies #[trigger] cells_of(board)[i] == cells_of(low)[i] by {
        let s: u32 = (2 * i) as u32;
        assert((board >> s) & 3u32 == ((board & 0x3ffffu32) >> s) & 3u32) by (bit_vector)
            requires
                s <= 16;
    }
    assert(cells_of(board) =~= cells_of(low));
}

/// A packed small board and the 3x3 grid of its nine cells have the same status:
/// `check_board` on the board decides what `check_board_mask` decides on the grid.
pub proof fn lemma_board_and_grid_agree(board: u32, cells: Seq<u8>)
    requires
        cells.len() == 9,
        forall|i: int| 0 <= i < 9 ==> #[trigger] cells[i] == cell_of(board, i),
    ensures
        outcome(cells_of(board)) == outcome(cells),
{
    assert(cells_of(board) =~= cells);
}

/// The mark `v` with the two players' marks exchanged.
pub open spec fn swap_mark(v: u8) -> u8 {
    if v == 1 {
        2
    } else if v == 2 {
        1
    } else {
        v
    }
}

/// The grid `cells` with the two players' marks exchanged.
pub open spec fn swapped_marks(cells: Seq<u8>) -> Seq<u8> {
    Seq::new(cells.len(), |i: int| swap_mark(cells[i]))
}

/// The status `s` with the two players exchanged.
pub open spec fn swap_winner(s: BoardState) -> BoardState {
    match s {
        BoardState::Won(p) => BoardState::Won(p.other()),
        _ => s,
    }
}

proof fn lemma_swapped_lines(cells: Seq<u8>, l: int)
    requires
        cells.len() == 9,
        forall|i: int| 0 <= i < 9 ==> #[trigger] cells[i] <= 2,
        0 <= l <= 8,
    ensures
        first_complete_from(swapped_marks(cells), l) == match first_complete_from(cells, l) {
            Some(a) => Some(swap_mark(a)),
            None => None::<u8>,
        },
    decreases 8 - l,
{
    if l < 8 {
        lemma_swapped_lines(cells, l + 1);
        let (a, b, c) = winning_line(l);
        let w = swapped_marks(cells);
        assert(w[a] == swap_mark(cells[a]) && w[b] == swap_mark(cells[b]) && w[c] == swap_mark(cells[c]));
        assert(cells[a] <= 2 && cells[b] <= 2 && cells[c] <= 2);
    }
}

/// Exchanging the two players' marks on a grid of valid marks exchanges its winner and keeps
/// a draw or a game in progress as it was.
pub proof fn lemma_swapping_marks_swaps_winner(cells: Seq<u8>)
    requires
        cells.len() == 9,
        forall|i: int| 0 <= i < 9 ==> #[trigger] cells[i] <= 2,
    ensures
        outcome(swapped_marks(cells)) == swap_winner(outcome(cells)),
{
    lemma_swapped_lines(cells, 0);
    let w = swapped_marks(cells);
    assert forall|i: int| 0 <= i < 9 implies (#[trigger] w[i] != 0) == (cells[i] != 0) by {
        assert(cells[i] <= 2);
    }
    lemma_first_complete_is_mark(cells, 0);
    match first_complete_from(cells, 0) {
        Some(a) => {},
        None => {
            if forall|i: int| 0 <= i < 9 ==> #[trigger] cells[i] != 0 {
                assert(forall|i: int| 0 <= i < 9 ==> #[trigger] w[i] != 0);
            } else {
                let k = choose|i: int| 0 <= i < 9 && cells[i] == 0;
                assert(w[k] == 0);
            }
        },
    }
}

proof fn lemma_first_complete_is_mark(cells: Seq<u8>, l: int)
    requires
        cells.len() == 9,
        forall|i: int| 0 <= i < 9 ==> #[trigger] cells[i] <= 2,
        0 <= l <= 8,
    ensures
        first_complete_from(cells, l) matches Some(a) ==> (a == 1 || a == 2),
    decreases 8 - l,
{
    if l < 8 {
        lemma_first_complete_is_mark(cells, l + 1);
        let (a, b, c) = winning_line(l);
        assert(cells[a] <= 2);
    }
}

/// The mark that the first `n` of `moves` leave on cell `j` of small board `b`: the mark of
/// the last of them played there (`X`'s for the 1st, 3rd, ... move, `O`'s for the others),
/// or 0 when none was.
pub open spec fn placed_mark(moves: Seq<(u8, u8)>, n: int, b: int, j: int) -> u8
    decreases n,
{
    if n <= 0 {
        0
    } else if board_of(moves[n - 1].0, moves[n - 1].1) == b && cell_in_board(moves[n - 1].0, moves[n - 1].1) == j {
        if (n - 1) % 2 == 0 {
            1
        } else {
            2
        }
    } else {
        placed_mark(moves, n - 1, b, j)
    }
}

/// `games[k + 1]` is `games[k]` after the played move `moves[k]`, starting from a new game.
pub open spec fn is_replay(games: Seq<UltimateTicTacToe>, moves: Seq<(u8, u8)>) -> bool {
    &&& games.len() == moves.len() + 1
    &&& games[0].is_fresh()
    &&& forall|k: int| 0 <= k < moves.len() ==> #[trigger] games[k].rejection(moves[k].0, moves[k].1) is None
        && games[k].moved_to(&games[k + 1], moves[k].0, moves[k].1)
}

proof fn lemma_replay_cells(games: Seq<UltimateTicTacToe>, moves: Seq<(u8, u8)>, n: int)
    requires
        is_replay(games, moves),
        0 <= n <= moves.len(),
    ensures
        forall|b: int, j: int| 0 <= b < 9 && 0 <= j < 16 ==> #[trigger] cell_of(games[n].small_boards@[b], j)
            == placed_mark(moves, n, b, j),
        games[n].current_player == if n % 2 == 0 { Player::X } else { Player::O },
    decreases n,
{
    if n > 0 {
        lemma_replay_cells(games, moves, n - 1);
        let k = n - 1;
        assert(games[k].rejection(moves[k].0, moves[k].1) is None);
        lemma_move_places_one_mark(games[k], games[k + 1], moves[k].0, moves[k].1);
    }
}

proof fn lemma_placed_mark_nonzero(moves: Seq<(u8, u8)>, n: int, k: int)
    requires
        0 <= k < n,
    ensures
        placed_mark(moves, n, board_of(moves[k].0, moves[k].1), cell_in_board(moves[k].0, moves[k].1)) != 0,
    decreases n,
{
    if k < n - 1 {
        lemma_placed_mark_nonzero(moves, n - 1, k);
    }
}

proof fn lemma_placed_mark_untouched(moves: Seq<(u8, u8)>, n: int, b: int, j: int)
    requires
        forall|k: int| 0 <= k < n ==> !(board_of(moves[k].0, moves[k].1) == b
            && cell_in_board(moves[k].0, moves[k].1) == j),
    ensures
        placed_mark(moves, n, b, j) == 0,
    decreases n,
{
    if n > 0 {
        lemma_placed_mark_untouched(moves, n - 1, b, j);
    }
}

proof fn lemma_replay_move_kept(games: Seq<UltimateTicTacToe>, moves: Seq<(u8, u8)>, k: int, n: int)
    requires
        is_replay(games, moves),
        0 <= k < n <= moves.len(),
    ensures
        placed_mark(moves, n, board_of(moves[k].0, moves[k].1), cell_in_board(moves[k].0, moves[k].1))
            == if k % 2 == 0 { 1u8 } else { 2u8 },
    decreases n,
{
    let b = board_of(moves[k].0, moves[k].1);
    let j = cell_in_board(moves[k].0, moves[k].1);
    if n > k + 1 {
        lemma_replay_move_kept(games, moves, k, n - 1);
        let m = n - 1;
        assert(games[m].rejection(moves[m].0, moves[m].1) is None);
        lemma_move_places_one_mark(games[m], games[m + 1], moves[m].0, moves[m].1);
        lemma_replay_cells(games, moves, m);
        if board_of(moves[m].0, moves[m].1) == b && cell_in_board(moves[m].0, moves[m].1) == j {
            lemma_placed_mark_nonzero(moves, m, k);
            assert(cell_of(games[m].small_boards@[b], j) == placed_mark(moves, m, b, j));
        }
    }
}

/// Over any sequence of played moves from a new game, each move's cell holds the mark of the
/// player who made it (`X` for the 1st, 3rd, ... move, `O` for the others), every cell that no
/// move reached is empty, and it is `X`'s turn after an even number of moves.
pub proof fn lemma_replay_marks(games: Seq<UltimateTicTacToe>, moves: Seq<(u8, u8)>)
    requires
        is_replay(games, moves),
    ensures
        forall|b: int, j: int| 0 <= b < 9 && 0 <= j < 16 ==> #[trigger] cell_of(games.last().small_boards@[b], j)
            == placed_mark(moves, moves.len() as int, b, j),
        forall|k: int| 0 <= k < moves.len() ==> #[trigger] cell_of(
            games.last().small_boards@[board_of(moves[k].0, moves[k].1)],
            cell_in_board(moves[k].0, moves[k].1),
        ) == if k % 2 == 0 { 1u8 } else { 2u8 },
        forall|b: int, j: int| 0 <= b < 9 && 0 <= j < 16 && (forall|k: int| 0 <= k < moves.len() ==> !(
            board_of(moves[k].0, moves[k].1) == b && cell_in_board(moves[k].0, moves[k].1) == j))
            ==> #[trigger] cell_of(games.last().small_boards@[b], j) == 0,
        games.last().current_player == if moves.len() % 2 == 0 { Player::X } else { Player::O },
{
    let n = moves.len() as int;
    lemma_replay_cells(games, moves, n);
    assert forall|k: int| 0 <= k < moves.len() implies #[trigger] cell_of(
        games.last().small_boards@[board_of(moves[k].0, moves[k].1)],
        cell_in_board(moves[k].0, moves[k].1),
    ) == if k % 2 == 0 { 1u8 } else { 2u8 } by {
        lemma_replay_move_kept(games, moves, k, n);
        assert(games[k].rejection(moves[k].0, moves[k].1) is None);
        assert(games.last() == games[n]);
    }
    assert forall|b: int, j: int| 0 <= b < 9 && 0 <= j < 16 && (forall|k: int| 0 <= k < moves.len() ==> !(
        board_of(moves[k].0, moves[k].1) == b && cell_in_board(moves[k].0, moves[k].1) == j))
        implies #[trigger] cell_of(games.last().small_boards@[b], j) == 0 by {
        lemma_placed_mark_untouched(moves, n, b, j);
    }
}

/// Some row, column or diagonal of the 3x3 grid `cells` holds mark `m` in all three cells,
/// cells numbered row by row: rows 0-1-2, 3-4-5, 6-7-8, columns 0-3-6, 1-4-7, 2-5-8,
/// diagonals 0-4-8 and 2-4-6.
pub open spec fn has_line_of(cells: Seq<u8>, m: u8) -> bool {
    ||| cells[0] == m && cells[1] == m && cells[2] == m
    ||| cells[3] == m && cells[4] == m && cells[5] == m
    ||| cells[6] == m && cells[7] == m && cells[8] == m
    ||| cells[0] == m && cells[3] == m && cells[6] == m
    ||| cells[1] == m && cells[4] == m && cells[7] == m
    ||| cells[2] == m && cells[5] == m && cells[8] == m
    ||| cells[0] == m && cells[4] == m && cells[8] == m
    ||| cells[2] == m && cells[4] == m && cells[6] == m
}

proof fn lemma_first_complete_lines(cells: Seq<u8>, l: int)
    requires
        cells.len() == 9,
        0 <= l <= 8,
    ensures
        first_complete_from(cells, l) matches Some(a) ==> a != 0 && has_line_of(cells, a),
        first_complete_from(cells, l) is None ==> forall|m: u8| m != 0 && #[trigger] has_line_of(cells, m) ==> (
            (l > 0 && cells[0] == m && cells[1] == m && cells[2] == m)
            || (l > 1 && cells[3] == m && cells[4] == m && cells[5] == m)
            || (l > 2 && cells[6] == m && cells[7] == m && cells[8] == m)
            || (l > 3 && cells[0] == m && cells[3] == m && cells[6] == m)
            || (l > 4 && cells[1] == m && cells[4] == m && cells[7] == m)
            || (l > 5 && cells[2] == m && cells[5] == m && cells[8] == m)
            || (l > 6 && cells[0] == m && cells[4] == m && cells[8] == m)
            || (l > 7 && cells[2] == m && cells[4] == m && cells[6] == m)),
    decreases 8 - l,
{
    if l < 8 {
        lemma_first_complete_lines(cells, l + 1);
    }
}

/// What decides a 3x3 grid, line by line: a row, column or diagonal holding one non-zero
/// mark in all three cells wins the grid; a grid won by `p` has such a line of `p`'s mark
/// (on a grid of valid marks); when the lines of the grid all hold the same mark `m`, the
/// owner of `m` wins; and with no such line the grid is drawn once every cell is marked,
/// in progress otherwise.
pub proof fn lemma_outcome_by_lines(cells: Seq<u8>)
    requires
        cells.len() == 9,
    ensures
        forall|m: u8| m != 0 && #[trigger] has_line_of(cells, m) ==> outcome(cells) is Won,
        forall|m: u8| m != 0 && #[trigger] has_line_of(cells, m)
            && (forall|m2: u8| m2 != 0 && m2 != m ==> !has_line_of(cells, m2))
            ==> outcome(cells) == BoardState::Won(player_of_mark(m)),
        (forall|i: int| 0 <= i < 9 ==> #[trigger] cells[i] <= 2) ==> (outcome(cells) matches BoardState::Won(p)
            ==> has_line_of(cells, p.mark())),
        (forall|m: u8| m != 0 ==> !#[trigger] has_line_of(cells, m)) ==> outcome(cells) == if forall|i: int|
            0 <= i < 9 ==> #[trigger] cells[i] != 0 {
            BoardState::Draw
        } else {
            BoardState::InProgress
        },
{
    lemma_first_complete_lines(cells, 0);
    match first_complete_from(cells, 0) {
        Some(a) => {
            assert(has_line_of(cells, a));
            if forall|i: int| 0 <= i < 9 ==> #[trigger] cells[i] <= 2 {
                assert(a == 1 || a == 2) by {
                    lemma_first_complete_is_mark(cells, 0);
                }
            }
        },
        None => {},
    }
}

/// A line of three small boards, by index as in `has_line_of`, all won by `p`.
pub open spec fn has_won_line(states: Seq<BoardState>, p: Player) -> bool {
    let w = BoardState::Won(p);
    ||| states[0] == w && states[1] == w && states[2] == w
    ||| states[3] == w && states[4] == w && states[5] == w
    ||| states[6] == w && states[7] == w && states[8] == w
    ||| states[0] == w && states[3] == w && states[6] == w
    ||| states[1] == w && states[4] == w && states[7] == w
    ||| states[2] == w && states[5] == w && states[8] == w
    ||| states[0] == w && states[4] == w && states[8] == w
    ||| states[2] == w && states[4] == w && states[6] == w
}

proof fn lemma_first_won_lines(states: Seq<BoardState>, l: int)
    requires
        states.len() == 9,
        0 <= l <= 8,
    ensures
        first_won_line_from(states, l) matches Some(p) ==> has_won_line(states, p),
        first_won_line_from(states, l) is None ==> forall|p: Player| #[trigger] has_won_line(states, p) ==> {
            let w = BoardState::Won(p);
            (l > 0 && states[0] == w && states[1] == w && states[2] == w)
            || (l > 1 && states[3] == w && states[4] == w && states[5] == w)
            || (l > 2 && states[6] == w && states[7] == w && states[8] == w)
            || (l > 3 && states[0] == w && states[3] == w && states[6] == w)
            || (l > 4 && states[1] == w && states[4] == w && states[7] == w)
            || (l > 5 && states[2] == w && states[5] == w && states[8] == w)
            || (l > 6 && states[0] == w && states[4] == w && states[8] == w)
            || (l > 7 && states[2] == w && states[4] == w && states[6] == w)
        },
    decreases 8 - l,
{
    if l < 8 {
        lemma_first_won_lines(states, l + 1);
    }
}

/// What `check_winner` reports, line by line over the nine small boards: a named winner
/// holds a row, column or diagonal of three won boards; a player who holds such a line
/// while the other holds none is the winner; and with no such line for either player the
/// result is "Draw" exactly when none of the nine boards is still in progress, "InProgress"
/// otherwise.
pub proof fn lemma_winner_by_lines(g: UltimateTicTacToe)
    ensures
        g.winner_result() matches Ok(p) ==> has_won_line(g.small_board_state@, p),
        forall|p: Player| #[trigger] has_won_line(g.small_board_state@, p)
            && !has_won_line(g.small_board_state@, p.other())
            ==> g.winner_result() == Ok::<Player, Seq<char>>(p),
        !has_won_line(g.small_board_state@, Player::X) && !has_won_line(g.small_board_state@, Player::O)
            ==> g.winner_result() == if forall|i: int| 0 <= i < 9
            ==> #[trigger] g.small_board_state@[i] != BoardState::InProgress {
            Err::<Player, Seq<char>>("Draw"@)
        } else {
            Err::<Player, Seq<char>>("InProgress"@)
        },
{
    let s = g.small_board_state@;
    lemma_first_won_lines(s, 0);
    match first_won_line_from(s, 0) {
        Some(q) => {
            assert forall|p: Player| #[trigger] has_won_line(s, p) && !has_won_line(s, p.other())
                implies q == p by {
                if q != p {
                    assert(q == p.other());
                }
            }
        },
        None => {
            assert(!has_won_line(s, Player::X));
            assert(!has_won_line(s, Player::O));
        },
    }
}

} // verus!
