//! A three-by-three mark board stored as nested rows, with the win test over
//! rows, columns and diagonals, and the parser that turns a typed
//! two-character coordinate into a circle move.

use vstd::prelude::*;

verus! {

/// One cell of the board: empty, or taken by one of the two players.
#[derive(Clone, Copy, Debug, PartialEq, Eq, Structural)]
pub enum CellState {
    /// Not yet taken.
    Empty,
    /// Taken by the cross player.
    CrossTaken,
    /// Taken by the circle player.
    CircleTaken,
}

impl Default for CellState {
    fn default() -> (r: Self)
        ensures
            r == CellState::Empty,
    {
        CellState::Empty
    }
}

/// Why a typed move was rejected.
#[derive(Clone, Copy, Debug, PartialEq, Eq, Structural)]
pub enum ParseError {
    /// The trimmed input does not hold exactly two characters.
    WrongLength,
    /// The two characters are not both decimal digits.
    NotDigits,
}

/// The score a cell contributes to a line sum: the two players pull in
/// opposite directions, so a line sums to three or minus three exactly when
/// one player holds all three of its cells.
pub open spec fn score(c: CellState) -> int {
    match c {
        CellState::Empty => 0,
        CellState::CrossTaken => -1,
        CellState::CircleTaken => 1,
    }
}

/// Whether a line sum means a full line of one player.
pub open spec fn full_line(s: int) -> bool {
    s == 3 || s == -3
}

/// The line sum of row `r`.
pub open spec fn row_sum(b: [[CellState; 3]; 3], r: int) -> int {
    score(b@[r]@[0]) + score(b@[r]@[1]) + score(b@[r]@[2])
}

/// The line sum of column `c`.
pub open spec fn col_sum(b: [[CellState; 3]; 3], c: int) -> int {
    score(b@[0]@[c]) + score(b@[1]@[c]) + score(b@[2]@[c])
}

/// The line sum of the main diagonal.
pub open spec fn diag_sum(b: [[CellState; 3]; 3]) -> int {
    score(b@[0]@[0]) + score(b@[1]@[1]) + score(b@[2]@[2])
}

/// The line sum of the opposite diagonal.
pub open spec fn anti_diag_sum(b: [[CellState; 3]; 3]) -> int {
    score(b@[2]@[0]) + score(b@[1]@[1]) + score(b@[0]@[2])
}

/// Whether one of the first `k` rows is a full line.
pub open spec fn rows_won_upto(b: [[CellState; 3]; 3], k: int) -> bool
    decreases k,
{
    if k <= 0 {
        false
    } else {
        rows_won_upto(b, k - 1) || full_line(row_sum(b, k - 1))
    }
}

/// Whether one of the first `k` columns is a full line.
pub open spec fn cols_won_upto(b: [[CellState; 3]; 3], k: int) -> bool
    decreases k,
{
    if k <= 0 {
        false
    } else {
        cols_won_upto(b, k - 1) || full_line(col_sum(b, k - 1))
    }
}

/// Whether the board holds a full line of one player anywhere: a row, a
/// column or a diagonal.
pub open spec fn win_spec(b: [[CellState; 3]; 3]) -> bool {
    rows_won_upto(b, 3) || cols_won_upto(b, 3) || full_line(diag_sum(b)) || full_line(
        anti_diag_sum(b),
    )
}

/// A character that trimming strips from either end of the typed input.
pub open spec fn is_ws(c: char) -> bool {
    c == ' ' || c == '\t' || c == '\n' || c == '\r' || c == '\u{b}' || c == '\u{c}'
}

/// The input with leading whitespace stripped.
pub open spec fn trim_front(s: Seq<char>) -> Seq<char>
    decreases s.len(),
{
    if s.len() > 0 && is_ws(s[0]) {
        trim_front(s.drop_first())
    } else {
        s
    }
}

/// The input with trailing whitespace stripped.
pub open spec fn trim_back(s: Seq<char>) -> Seq<char>
    decreases s.len(),
{
    if s.len() > 0 && is_ws(s[s.len() - 1]) {
        trim_back(s.drop_last())
    } else {
        s
    }
}

/// The input with whitespace stripped from both ends.
pub open spec fn trimmed(s: Seq<char>) -> Seq<char> {
    trim_back(trim_front(s))
}

/// The value of a decimal digit character, or a negative marker for
/// anything else.
pub open spec fn digit_val(c: char) -> int {
    match c {
        '0' => 0,
        '1' => 1,
        '2' => 2,
        '3' => 3,
        '4' => 4,
        '5' => 5,
        '6' => 6,
        '7' => 7,
        '8' => 8,
        '9' => 9,
        _ => -1,
    }
}

/// Whether a character is a decimal digit.
pub open spec fn is_digit(c: char) -> bool {
    digit_val(c) >= 0
}

/// A board of nested rows: `cells[y][x]` is the cell at column `x`, row `y`.
pub struct Board {
    /// The three rows of three cells.
    pub cells: [[CellState; 3]; 3],
}

impl Board {
    /// A board with every cell empty.
    pub fn new() -> (r: Self)
        ensures
            forall|y: int, x: int|
                0 <= y < 3 && 0 <= x < 3 ==> r.cells@[y]@[x] == CellState::Empty,
    {
        Self { cells: [[CellState::Empty; 3]; 3] }
    }

    /// The score a cell contributes to a line sum.
    fn score_of(c: CellState) -> (s: i32)
        ensures
            s as int == score(c),
    {
        match c {
            CellState::Empty => 0,
            CellState::CrossTaken => -1,
            CellState::CircleTaken => 1,
        }
    }

    /// Whether some player holds a full line: a whole row, a whole column or
    /// a whole diagonal of their own marks.
    pub fn did_win(&self) -> (won: bool)
        ensures
            won == win_spec(self.cells),
    {
        let mut found_win = false;

        let mut row_i: usize = 0;
        while row_i < 3
            invariant
                row_i <= 3,
                found_win == rows_won_upto(self.cells, row_i as int),
            decreases 3 - row_i,
        {
            let row = self.cells[row_i];
            let row_sum_v = Self::score_of(row[0]) + Self::score_of(row[1]) + Self::score_of(
                row[2],
            );
            if row_sum_v == 3 || row_sum_v == -3 {
                found_win = true;
            }
            row_i = row_i + 1;
        }

        let mut col: usize = 0;
        while col < 3
            invariant
                col <= 3,
                found_win == (rows_won_upto(self.cells, 3) || cols_won_upto(
                    self.cells,
                    col as int,
                )),
            decreases 3 - col,
        {
            let col_sum_v = Self::score_of(self.cells[0][col]) + Self::score_of(
                self.cells[1][col],
            ) + Self::score_of(self.cells[2][col]);
            if col_sum_v == 3 || col_sum_v == -3 {
                found_win = true;
            }
            col = col + 1;
        }

        let cross_sum = Self::score_of(self.cells[0][0]) + Self::score_of(self.cells[1][1])
            + Self::score_of(self.cells[2][2]);
        let cross_sum_rev = Self::score_of(self.cells[2][0]) + Self::score_of(self.cells[1][1])
            + Self::score_of(self.cells[0][2]);

        if cross_sum_rev == 3 || cross_sum_rev == -3 || cross_sum == 3 || cross_sum == -3 {
            found_win = true;
        }

        found_win
    }

    /// The printable glyph of one cell, brackets around the player's mark.
    pub open spec fn glyph_spec(c: CellState) -> Seq<char> {
        match c {
            CellState::Empty => "[ ]"@,
            CellState::CrossTaken => "[X]"@,
            CellState::CircleTaken => "[O]"@,
        }
    }

    /// The glyphs of the first `k` cells of one row.
    pub open spec fn row_cells_text(row: Seq<CellState>, k: int) -> Seq<char>
        decreases k,
    {
        if k <= 0 {
            Seq::empty()
        } else {
            Self::row_cells_text(row, k - 1) + Self::glyph_spec(row[k - 1])
        }
    }

    /// The label that opens the printed line of row `r`.
    pub open spec fn row_label(r: int) -> Seq<char> {
        if r == 0 {
            "|0|"@
        } else if r == 1 {
            "|1|"@
        } else {
            "|2|"@
        }
    }

    /// The printed lines of the first `k` rows, each labelled and closed by
    /// a line break.
    pub open spec fn rows_text(b: [[CellState; 3]; 3], k: int) -> Seq<char>
        decreases k,
    {
        if k <= 0 {
            Seq::empty()
        } else {
            Self::rows_text(b, k - 1) + Self::row_label(k - 1) + Self::row_cells_text(
                b@[k - 1]@,
                3,
            ) + "\n"@
        }
    }

    /// The whole printable board: the column header, then the labelled rows.
    pub open spec fn board_text_spec(b: [[CellState; 3]; 3]) -> Seq<char> {
        " * |0| 1| 2|\n"@ + Self::rows_text(b, 3)
    }

    /// The board flattened to printable text: a coordinate header and one
    /// labelled line per row.
    pub fn print_board(&self) -> (s: String)
        ensures
            s@ == Self::board_text_spec(self.cells),
    {
        let mut s = String::new();
        s.append(" * |0| 1| 2|\n");

        let mut row_num: usize = 0;
        while row_num < 3
            invariant
                row_num <= 3,
                s@ == " * |0| 1| 2|\n"@ + Self::rows_text(self.cells, row_num as int),
            decreases 3 - row_num,
        {
            if row_num == 0 {
                s.append("|0|");
            } else if row_num == 1 {
                s.append("|1|");
            } else {
                s.append("|2|");
            }
            let row = self.cells[row_num];
            let mut cell_i: usize = 0;
            while cell_i < 3
                invariant
                    row_num < 3,
                    cell_i <= 3,
                    row == self.cells@[row_num as int],
                    s@ == " * |0| 1| 2|\n"@ + Self::rows_text(self.cells, row_num as int)
                        + Self::row_label(row_num as int) + Self::row_cells_text(
                        row@,
                        cell_i as int,
                    ),
                decreases 3 - cell_i,
            {
                let to_print = match row[cell_i] {
                    CellState::Empty => "[ ]",
                    CellState::CrossTaken => "[X]",
                    CellState::CircleTaken => "[O]",
                };
                s.append(to_print);
                cell_i = cell_i + 1;
                proof {
                    assert(s@ =~= " * |0| 1| 2|\n"@ + Self::rows_text(self.cells, row_num as int)
                        + Self::row_label(row_num as int) + Self::row_cells_text(
                        row@,
                        cell_i as int,
                    ));
                }
            }
            s.append("\n");
            row_num = row_num + 1;
            proof {
                assert(s@ =~= " * |0| 1| 2|\n"@ + Self::rows_text(self.cells, row_num as int));
            }
        }
        s
    }

    /// Whether trimming strips a character.
    fn is_ws_char(c: char) -> (r: bool)
        ensures
            r == is_ws(c),
    {
        c == ' ' || c == '\t' || c == '\n' || c == '\r' || c == '\u{b}' || c == '\u{c}'
    }

    /// The value of a decimal digit character.
    fn digit_of(c: char) -> (d: Option<u8>)
        ensures
            match d {
                Some(v) => v as int == digit_val(c),
                None => !is_digit(c),
            },
    {
        match c {
            '0' => Some(0),
            '1' => Some(1),
            '2' => Some(2),
            '3' => Some(3),
            '4' => Some(4),
            '5' => Some(5),
            '6' => Some(6),
            '7' => Some(7),
            '8' => Some(8),
            '9' => Some(9),
            _ => None,
        }
    }

    /// A prefix of whitespace ends exactly where stripping leading
    /// whitespace ends.
    proof fn lemma_trim_front_at(s: Seq<char>, i: int)
        requires
            0 <= i <= s.len(),
            forall|k: int| 0 <= k < i ==> is_ws(#[trigger] s[k]),
            i == s.len() || !is_ws(s[i]),
        ensures
            trim_front(s) == s.subrange(i, s.len() as int),
        decreases i,
    {
        if i == 0 {
            assert(trim_front(s) =~= s.subrange(0, s.len() as int));
        } else {
            let tail = s.drop_first();
            assert(forall|k: int| 0 <= k < i - 1 ==> is_ws(#[trigger] tail[k]));
            Self::lemma_trim_front_at(tail, i - 1);
            assert(tail.subrange(i - 1, tail.len() as int) =~= s.subrange(i, s.len() as int));
        }
    }

    /// A suffix of whitespace starts exactly where stripping trailing
    /// whitespace stops.
    proof fn lemma_trim_back_at(s: Seq<char>, j: int)
        requires
            0 <= j <= s.len(),
            forall|k: int| j <= k < s.len() ==> is_ws(#[trigger] s[k]),
            j == 0 || !is_ws(s[j - 1]),
        ensures
            trim_back(s) == s.subrange(0, j),
        decreases s.len() - j,
    {
        if j == s.len() {
            if s.len() > 0 && is_ws(s[s.len() - 1]) {
                assert(false);
            }
            assert(trim_back(s) =~= s.subrange(0, j));
        } else {
            let head = s.drop_last();
            assert(forall|k: int| j <= k < head.len() ==> is_ws(#[trigger] head[k]));
            Self::lemma_trim_back_at(head, j);
            assert(head.subrange(0, j) =~= s.subrange(0, j));
        }
    }

    /// Record the circle player's move typed as two characters, column digit
    /// then row digit, with surrounding whitespace ignored. The caller keeps
    /// digit pairs inside the board: a typed coordinate names an existing
    /// cell.
    pub fn parse_input(&mut self, input_string: &String) -> (r: Result<(), ParseError>)
        requires
            ({
                let t = trimmed(input_string@);
                (t.len() == 2 && is_digit(t[0]) && is_digit(t[1])) ==> (digit_val(t[0]) < 3
                    && digit_val(t[1]) < 3)
            }),
        ensures
            ({
                let t = trimmed(input_string@);
                &&& (r is Ok) <==> (t.len() == 2 && is_digit(t[0]) && is_digit(t[1]))
                &&& (r is Ok) ==> {
                    let dx = digit_val(t[0]);
                    let dy = digit_val(t[1]);
                    &&& forall|rr: int|
                        0 <= rr < 3 && rr != dy ==> final(self).cells@[rr] == old(self).cells@[rr]
                    &&& final(self).cells@[dy]@ == old(self).cells@[dy]@.update(
                        dx,
                        CellState::CircleTaken,
                    )
                }
                &&& (r is Err) ==> final(self).cells@ == old(self).cells@
                &&& t.len() != 2 ==> r == Result::<(), ParseError>::Err(ParseError::WrongLength)
                &&& (t.len() == 2 && !(is_digit(t[0]) && is_digit(t[1]))) ==> r == Result::<
                    (),
                    ParseError,
                >::Err(ParseError::NotDigits)
            }),
    {
        let s = input_string.as_str();
        let n = s.unicode_len();

        let mut start: usize = 0;
        while start < n && Self::is_ws_char(s.get_char(start))
            invariant
                start <= n,
                n == s@.len(),
                forall|k: int| 0 <= k < start ==> is_ws(#[trigger] s@[k]),
            decreases n - start,
        {
            start = start + 1;
        }

        let mut end: usize = n;
        while end > start && Self::is_ws_char(s.get_char(end - 1))
            invariant
                start <= end <= n,
                n == s@.len(),
                forall|k: int| 0 <= k < start ==> is_ws(#[trigger] s@[k]),
                forall|k: int| end <= k < n ==> is_ws(#[trigger] s@[k]),
            decreases end,
        {
            end = end - 1;
        }

        proof {
            Self::lemma_trim_front_at(s@, start as int);
            let t1 = s@.subrange(start as int, n as int);
            assert(forall|k: int|
                (end - start) <= k < t1.len() ==> is_ws(#[trigger] t1[k]));
            Self::lemma_trim_back_at(t1, end - start);
            assert(trimmed(s@) == t1.subrange(0, end - start));
        }

        if end - start != 2 {
            return Err(ParseError::WrongLength);
        }

        let c0 = s.get_char(start);
        let c1 = s.get_char(start + 1);
        proof {
            assert(trimmed(s@)[0] == c0);
            assert(trimmed(s@)[1] == c1);
        }

        match (Self::digit_of(c0), Self::digit_of(c1)) {
            (Some(x_int), Some(y_int)) => {
                self.cells[y_int as usize][x_int as usize] = CellState::CircleTaken;
                Ok(())
            },
            _ => Err(ParseError::NotDigits),
        }
    }
}

} // verus!
