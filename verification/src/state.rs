//! The board of a tic-tac-toe game: its marks, its score and its successors.
//!
//! A board is modelled as a sequence of nine marks in row-major order, so the
//! box in row `x` and column `y` is entry `3 * x + y`.

use vstd::prelude::*;
use crate::text::push_spaces;
use crate::text::spaces;

verus! {

/// The state of a given box in the tic-tac-toe game.
#[derive(Copy, Clone, Eq, PartialEq, Debug, Structural)]
pub enum CheckBox {
    Empty,
    X,
    O,
}

impl CheckBox {
    /// The signed weight of a mark: nothing for an empty box, negative for
    /// `X`, positive for `O`. The sign tells which player is maximizing.
    pub open spec fn spec_weight(self) -> int {
        match self {
            CheckBox::Empty => 0,
            CheckBox::X => -10,
            CheckBox::O => 10,
        }
    }

    /// The player that moves after `self`.
    pub open spec fn spec_next_player(self) -> CheckBox {
        match self {
            CheckBox::Empty => CheckBox::Empty,
            CheckBox::X => CheckBox::O,
            CheckBox::O => CheckBox::X,
        }
    }

    /// The character that stands for a mark in a dump.
    pub open spec fn spec_dump_char(self) -> char {
        match self {
            CheckBox::Empty => '_',
            CheckBox::X => 'X',
            CheckBox::O => 'O',
        }
    }

    /// Returns the signed weight of this mark.
    pub fn weight(&self) -> (w: i8)
        ensures
            w == self.spec_weight(),
    {
        match *self {
            CheckBox::Empty => 0,
            CheckBox::X => -10,
            CheckBox::O => 10,
        }
    }

    /// Returns the next player, if `self` has moved.
    pub fn next_player(&self) -> (next: CheckBox)
        ensures
            next == self.spec_next_player(),
    {
        match *self {
            CheckBox::Empty => CheckBox::Empty,
            CheckBox::X => CheckBox::O,
            CheckBox::O => CheckBox::X,
        }
    }

    /// Returns the character that stands for this mark in a dump.
    pub(crate) fn dump_char(&self) -> (c: char)
        ensures
            c == self.spec_dump_char(),
    {
        match *self {
            CheckBox::Empty => '_',
            CheckBox::X => 'X',
            CheckBox::O => 'O',
        }
    }
}

/// The weight of the line through the boxes `i`, `j` and `k`: the weight of
/// their mark if all three hold the same one, else nothing.
pub open spec fn line_score(board: Seq<CheckBox>, i: int, j: int, k: int) -> int {
    if board[i] == board[j] && board[j] == board[k] {
        board[i].spec_weight()
    } else {
        0
    }
}

/// The weight of row `row`.
pub open spec fn row_score(board: Seq<CheckBox>, row: int) -> int {
    line_score(board, 3 * row, 3 * row + 1, 3 * row + 2)
}

/// The weight of column `col`.
pub open spec fn column_score(board: Seq<CheckBox>, col: int) -> int {
    line_score(board, col, col + 3, col + 6)
}

/// The weight of the diagonal from the top left to the bottom right.
pub open spec fn main_diagonal_score(board: Seq<CheckBox>) -> int {
    line_score(board, 0, 4, 8)
}

/// The weight of the diagonal from the top right to the bottom left.
pub open spec fn cross_diagonal_score(board: Seq<CheckBox>) -> int {
    line_score(board, 2, 4, 6)
}

/// The score of a board: the weight of the first complete line, looking at
/// the rows from the top, then the columns from the left, then the main and
/// the cross diagonal; nothing if no line is complete.
pub open spec fn board_score(board: Seq<CheckBox>) -> int {
    if row_score(board, 0) != 0 {
        row_score(board, 0)
    } else if row_score(board, 1) != 0 {
        row_score(board, 1)
    } else if row_score(board, 2) != 0 {
        row_score(board, 2)
    } else if column_score(board, 0) != 0 {
        column_score(board, 0)
    } else if column_score(board, 1) != 0 {
        column_score(board, 1)
    } else if column_score(board, 2) != 0 {
        column_score(board, 2)
    } else if main_diagonal_score(board) != 0 {
        main_diagonal_score(board)
    } else {
        cross_diagonal_score(board)
    }
}

/// The boards that `player` can reach by marking one empty box at index
/// `from` or later, in the order of the boxes.
pub open spec fn successors_from(board: Seq<CheckBox>, player: CheckBox, from: int) -> Seq<
    Seq<CheckBox>,
>
    decreases 9 - from,
{
    if from < 0 || from >= 9 {
        Seq::empty()
    } else if board[from] == CheckBox::Empty {
        seq![board.update(from, player)] + successors_from(board, player, from + 1)
    } else {
        successors_from(board, player, from + 1)
    }
}

/// The boards that `player` can reach in one move, one per empty box, in
/// row-major order of the box marked.
pub open spec fn successors(board: Seq<CheckBox>, player: CheckBox) -> Seq<Seq<CheckBox>> {
    successors_from(board, player, 0)
}

/// The number of empty boxes at index `from` or later.
pub open spec fn empties_from(board: Seq<CheckBox>, from: int) -> nat
    decreases 9 - from,
{
    if from < 0 || from >= 9 {
        0
    } else if board[from] == CheckBox::Empty {
        1 + empties_from(board, from + 1)
    } else {
        empties_from(board, from + 1)
    }
}

/// The number of empty boxes of a board.
pub open spec fn empties(board: Seq<CheckBox>) -> nat {
    empties_from(board, 0)
}

/// The index of the box that successor number `i` marks, counting the
/// successors from box `from` on.
pub open spec fn marked_box_from(board: Seq<CheckBox>, from: int, i: int) -> int
    decreases 9 - from,
{
    if from < 0 || from >= 9 {
        9
    } else if board[from] == CheckBox::Empty {
        if i <= 0 {
            from
        } else {
            marked_box_from(board, from + 1, i - 1)
        }
    } else {
        marked_box_from(board, from + 1, i)
    }
}

/// The index of the box that successor number `i` of a board marks.
pub open spec fn marked_box(board: Seq<CheckBox>, i: int) -> int {
    marked_box_from(board, 0, i)
}

/// The place among the successors of a board of the one that marks box
/// `cell`: the number of empty boxes before it.
pub open spec fn successor_index(board: Seq<CheckBox>, cell: int) -> int {
    empties_from(board, 0) - empties_from(board, cell)
}

/// There are as many successors as empty boxes, and at most nine.
pub proof fn lemma_successors_len(board: Seq<CheckBox>, player: CheckBox, from: int)
    requires
        0 <= from <= 9,
    ensures
        successors_from(board, player, from).len() == empties_from(board, from),
        empties_from(board, from) <= 9 - from,
    decreases 9 - from,
{
    if from < 9 {
        lemma_successors_len(board, player, from + 1);
    }
}

/// Successor number `i` is the board with `player` in the `i`-th empty box,
/// and nothing else changed.
pub proof fn lemma_successor_at(board: Seq<CheckBox>, player: CheckBox, from: int, i: int)
    requires
        0 <= from <= 9,
        0 <= i < empties_from(board, from),
    ensures
        from <= marked_box_from(board, from, i) < 9,
        board[marked_box_from(board, from, i)] == CheckBox::Empty,
        successors_from(board, player, from)[i] == board.update(
            marked_box_from(board, from, i),
            player,
        ),
        empties_from(board, from) - empties_from(board, marked_box_from(board, from, i)) == i,
    decreases 9 - from,
{
    if from < 9 {
        lemma_successors_len(board, player, from + 1);
        if board[from] == CheckBox::Empty {
            if i > 0 {
                lemma_successor_at(board, player, from + 1, i - 1);
            }
        } else {
            lemma_successor_at(board, player, from + 1, i);
        }
    }
}

/// The successors come in the order of the boxes that they mark: a later
/// successor marks a later box.
pub proof fn lemma_successors_ordered(board: Seq<CheckBox>, from: int, i: int, j: int)
    requires
        0 <= from <= 9,
        0 <= i < j < empties_from(board, from),
    ensures
        marked_box_from(board, from, i) < marked_box_from(board, from, j),
    decreases 9 - from,
{
    if from < 9 {
        if board[from] == CheckBox::Empty {
            if i > 0 {
                lemma_successors_ordered(board, from + 1, i - 1, j - 1);
            } else {
                lemma_successors_len(board, CheckBox::Empty, from + 1);
                lemma_successor_at(board, CheckBox::Empty, from + 1, j - 1);
            }
        } else {
            lemma_successors_ordered(board, from + 1, i, j);
        }
    }
}

/// The successor that marks the empty box `cell` stands at
/// `successor_index(board, cell)`.
pub proof fn lemma_successor_of_box(board: Seq<CheckBox>, player: CheckBox, cell: int)
    requires
        0 <= cell < 9,
        board[cell] == CheckBox::Empty,
    ensures
        0 <= successor_index(board, cell) < successors(board, player).len(),
        marked_box(board, successor_index(board, cell)) == cell,
        successors(board, player)[successor_index(board, cell)] == board.update(cell, player),
{
    lemma_box_rank(board, 0, cell);
    lemma_successors_len(board, player, 0);
    lemma_successor_at(board, player, 0, successor_index(board, cell));
}

/// Counting from `from`, the empty box `cell` is marked by the successor
/// whose number is the count of empty boxes between the two.
proof fn lemma_box_rank(board: Seq<CheckBox>, from: int, cell: int)
    requires
        0 <= from <= cell < 9,
        board[cell] == CheckBox::Empty,
    ensures
        0 <= empties_from(board, from) - empties_from(board, cell) < empties_from(board, from),
        marked_box_from(board, from, empties_from(board, from) - empties_from(board, cell))
            == cell,
    decreases cell - from,
{
    if from < cell {
        lemma_box_rank(board, from + 1, cell);
    }
}

/// A move by a player fills one box: the successor has nine boxes again and
/// one empty box less.
pub proof fn lemma_move_fills_box(board: Seq<CheckBox>, player: CheckBox, cell: int, from: int)
    requires
        board.len() == 9,
        player != CheckBox::Empty,
        0 <= cell < 9,
        board[cell] == CheckBox::Empty,
        0 <= from <= 9,
    ensures
        empties_from(board.update(cell, player), from) == if from <= cell {
            empties_from(board, from) - 1
        } else {
            empties_from(board, from) as int
        },
    decreases 9 - from,
{
    if from < 9 {
        lemma_move_fills_box(board, player, cell, from + 1);
    }
}

/// The score of a board is the weight of a mark.
pub proof fn lemma_score_range(board: Seq<CheckBox>)
    ensures
        board_score(board) == -10 || board_score(board) == 0 || board_score(board) == 10,
{
}

/// A 3x3 tic-tac-toe board.
#[derive(Copy, Clone, Debug, PartialEq, Eq)]
pub struct State {
    field: [[CheckBox; 3]; 3],
}

impl View for State {
    type V = Seq<CheckBox>;

    /// The nine boxes in row-major order.
    closed spec fn view(&self) -> Seq<CheckBox> {
        Seq::new(9, |k: int| self.field[k / 3][k % 3])
    }
}

impl State {
    /// The text of one row of a dump: the three marks between brackets.
    pub open spec fn row_text(board: Seq<CheckBox>, row: int) -> Seq<char> {
        seq![
            '[',
            board[3 * row].spec_dump_char(),
            ' ',
            board[3 * row + 1].spec_dump_char(),
            ' ',
            board[3 * row + 2].spec_dump_char(),
            ']',
        ]
    }

    /// The text of one line of a dump: the indentation, the row, a newline.
    pub open spec fn line_text(board: Seq<CheckBox>, indent: nat, row: int) -> Seq<char> {
        spaces(indent) + Self::row_text(board, row) + seq!['\n']
    }

    /// The text of a dump: the three rows from the top, each on its line.
    pub open spec fn board_text(board: Seq<CheckBox>, indent: nat) -> Seq<char> {
        Self::line_text(board, indent, 0) + Self::line_text(board, indent, 1) + Self::line_text(
            board,
            indent,
            2,
        )
    }

    /// A board always has nine boxes.
    pub proof fn lemma_nine_boxes(&self)
        ensures
            self@.len() == 9,
    {
    }

    /// The board with nothing on it.
    pub fn initial() -> (s: State)
        ensures
            s@ == Seq::new(9, |k: int| CheckBox::Empty),
    {
        State {
            field: [
                [CheckBox::Empty, CheckBox::Empty, CheckBox::Empty],
                [CheckBox::Empty, CheckBox::Empty, CheckBox::Empty],
                [CheckBox::Empty, CheckBox::Empty, CheckBox::Empty],
            ],
        }
    }

    /// Writes the board to `dest`, each row after `indent` spaces.
    pub fn dump(&self, indent: usize, dest: &mut String)
        ensures
            final(dest)@ == old(dest)@ + Self::board_text(self@, indent as nat),
    {
        let mut i: usize = 0;
        while i < 3
            invariant
                i <= 3,
                i == 0 ==> dest@ == old(dest)@,
                i == 1 ==> dest@ == old(dest)@ + Self::line_text(self@, indent as nat, 0),
                i == 2 ==> dest@ == old(dest)@ + Self::line_text(self@, indent as nat, 0)
                    + Self::line_text(self@, indent as nat, 1),
                i == 3 ==> dest@ == old(dest)@ + Self::board_text(self@, indent as nat),
            decreases 3 - i,
        {
            push_spaces(dest, indent);
            self.dump_row(i, dest);
            dest.push('\n');
            i += 1;
        }
    }

    /// Writes row `index` of the board to `dest`.
    pub fn dump_row(&self, index: usize, dest: &mut String)
        requires
            index < 3,
        ensures
            final(dest)@ == old(dest)@ + Self::row_text(self@, index as int),
    {
        let row = self.field[index];
        dest.push('[');
        dest.push(row[0].dump_char());
        dest.push(' ');
        dest.push(row[1].dump_char());
        dest.push(' ');
        dest.push(row[2].dump_char());
        dest.push(']');
    }

    /// For a given state, iterate over all the possible child states
    /// created by a single move of the piece `player`, which can't be empty.
    pub fn subsequent_states<'a>(&'a self, player: CheckBox) -> (iter: SubsequentStatesIterator<'a>)
        requires
            player != CheckBox::Empty,
        ensures
            iter@ == successors(self@, player),
            iter.board() == self@,
            iter.player() == player,
    {
        SubsequentStatesIterator { initial_state: self, row: 0, col: 0, player: player }
    }

    /// The score of the board: the weight of the first complete line in
    /// the fixed order of the lines, or zero.
    pub fn score(&self) -> (score: i8)
        ensures
            score == board_score(self@),
    {
        let v = self.row_score(0);
        if v != 0 {
            return v;
        }
        let v = self.row_score(1);
        if v != 0 {
            return v;
        }
        let v = self.row_score(2);
        if v != 0 {
            return v;
        }
        let v = self.column_score(0);
        if v != 0 {
            return v;
        }
        let v = self.column_score(1);
        if v != 0 {
            return v;
        }
        let v = self.column_score(2);
        if v != 0 {
            return v;
        }
        let v = self.main_diagonal_score();
        if v != 0 {
            return v;
        }
        self.cross_diagonal_score()
    }

    /// The weight of row `row` if one mark fills it, else zero.
    fn row_score(&self, row: usize) -> (score: i8)
        requires
            row < 3,
        ensures
            score == row_score(self@, row as int),
    {
        let row = self.field[row];
        let first = row[0];
        if row[1] == first && row[2] == first {
            return first.weight();
        }
        0
    }

    /// The weight of column `col` if one mark fills it, else zero.
    fn column_score(&self, col: usize) -> (score: i8)
        requires
            col < 3,
        ensures
            score == column_score(self@, col as int),
    {
        let first = self.field[0][col];
        let mut i: usize = 1;
        while i < 3
            invariant
                1 <= i <= 3,
                col < 3,
                first == self@[col as int],
                i >= 2 ==> self@[col + 3] == first,
                i >= 3 ==> self@[col + 6] == first,
            decreases 3 - i,
        {
            if self.field[i][col] != first {
                return 0;
            }
            i += 1;
        }
        first.weight()
    }

    /// The mark in row `x` and column `y`.
    pub fn get(&self, x: usize, y: usize) -> (mark: CheckBox)
        requires
            x < 3,
            y < 3,
        ensures
            mark == self@[3 * x + y],
    {
        self.field[x][y]
    }

    /// The weight of the main diagonal if one mark fills it, else zero.
    fn main_diagonal_score(&self) -> (score: i8)
        ensures
            score == main_diagonal_score(self@),
    {
        let center = self.field[1][1];
        let mut i: usize = 0;
        while i < 3
            invariant
                i <= 3,
                center == self@[4],
                i >= 1 ==> self@[0] == center,
                i >= 3 ==> self@[8] == center,
            decreases 3 - i,
        {
            if self.field[i][i] != center {
                return 0;
            }
            i += 1;
        }
        center.weight()
    }

    /// The weight of the cross diagonal if one mark fills it, else zero.
    fn cross_diagonal_score(&self) -> (score: i8)
        ensures
            score == cross_diagonal_score(self@),
    {
        let center = self.field[1][1];
        let mut i: usize = 0;
        while i < 3
            invariant
                i <= 3,
                center == self@[4],
                i >= 1 ==> self@[2] == center,
                i >= 3 ==> self@[6] == center,
            decreases 3 - i,
        {
            if self.field[i][3 - i - 1] != center {
                return 0;
            }
            i += 1;
        }
        center.weight()
    }
}

/// The successors of a board for one player, handed out one at a time.
///
/// Its view is the sequence of boards yet to come.
pub struct SubsequentStatesIterator<'a> {
    initial_state: &'a State,
    row: usize,
    col: usize,
    player: CheckBox,
}

impl<'a> View for SubsequentStatesIterator<'a> {
    type V = Seq<Seq<CheckBox>>;

    closed spec fn view(&self) -> Seq<Seq<CheckBox>> {
        successors_from(self.initial_state@, self.player, self.position())
    }
}

impl<'a> SubsequentStatesIterator<'a> {
    /// The index of the next box to look at.
    closed spec fn position(&self) -> int {
        if self.row >= 3 {
            9
        } else if self.col >= 3 {
            3 * (self.row + 1)
        } else {
            3 * self.row + self.col
        }
    }

    /// The board whose successors are handed out.
    pub closed spec fn board(&self) -> Seq<CheckBox> {
        self.initial_state@
    }

    /// The player whose moves are handed out.
    pub closed spec fn player(&self) -> CheckBox {
        self.player
    }

    /// Hands out the next successor, or `None` when there is none left.
    pub fn next(&mut self) -> (item: Option<State>)
        ensures
            final(self).board() == old(self).board(),
            final(self).player() == old(self).player(),
            match item {
                Some(s) => old(self)@.len() > 0 && s@ == old(self)@[0] && final(self)@ == old(
                    self,
                )@.subrange(1, old(self)@.len() as int),
                None => old(self)@.len() == 0 && final(self)@.len() == 0,
            },
    {
        while self.row < 3
            invariant
                self.initial_state == old(self).initial_state,
                self.player == old(self).player,
                self@ == old(self)@,
            decreases 9 - self.position(), self.col,
        {
            if self.col >= 3 {
                self.row += 1;
                self.col = 0;
                continue ;
            }
            if self.initial_state.field[self.row][self.col] == CheckBox::Empty {
                let ghost cell = self.position();
                let mut ret = *self.initial_state;
                ret.field[self.row][self.col] = self.player;
                self.col += 1;
                assert(ret@ =~= self.initial_state@.update(cell, self.player));
                return Some(ret);
            }
            self.col += 1;
        }
        None
    }
}

} // verus!
