//! A three-by-three mark board stored as one flat, row-major array, with
//! the index arithmetic that maps plane coordinates onto it.

use vstd::prelude::*;

verus! {

/// The side length of the square board.
pub const BOARD_SIZE: usize = 3;

/// The number of cells of the board.
pub const BOARD_CELLS: usize = 9;

/// One cell of the board: empty, or taken by one of the two marks.
#[derive(Clone, Copy, Debug, PartialEq, Eq, Structural)]
pub enum CellValue {
    /// Taken by the cross player.
    Cross,
    /// Not yet taken.
    Empty,
    /// Taken by the circle player.
    Circle,
}

impl Default for CellValue {
    fn default() -> (r: Self)
        ensures
            r == CellValue::Empty,
    {
        CellValue::Empty
    }
}

/// A row-major three-by-three grid held in one flat array.
#[derive(Clone, Copy, Debug)]
pub struct Board {
    /// The nine cells, row-major: the cell at column `x`, row `y` sits at
    /// index `y * 3 + x`.
    pub cells: [CellValue; BOARD_CELLS],
}

impl Default for Board {
    fn default() -> (r: Self)
        ensures
            r.cells@.len() == 9,
            forall|i: int| 0 <= i < 9 ==> r.cells@[i] == CellValue::Empty,
    {
        Board { cells: [CellValue::Empty; 9] }
    }
}

impl Board {
    /// A board with every cell empty.
    pub fn new() -> (r: Self)
        ensures
            r.cells@.len() == 9,
            forall|i: int| 0 <= i < 9 ==> r.cells@[i] == CellValue::Empty,
    {
        Self::default()
    }

    /// The flat index of the cell at column `x`, row `y`. Coordinates up to
    /// and including the side length are accepted, a quirk of the bound
    /// check kept as the board's rule; anything larger is rejected.
    pub fn calc_index(x: usize, y: usize) -> (r: Result<usize, String>)
        ensures
            (x <= 3 && y <= 3) <==> r is Ok,
            r is Ok ==> r->Ok_0 == y * 3 + x,
            r is Err ==> r->Err_0@ == "index out of bounds for the board"@,
    {
        let width = BOARD_SIZE;
        if x > width || y > width {
            return Err("index out of bounds for the board".to_owned());
        }
        return Ok(y * width + x);
    }

    /// The column and row of the cell at flat index `i`.
    pub fn calc_xy(i: usize) -> (r: Result<(usize, usize), String>)
        ensures
            r is Ok,
            r->Ok_0 == (i % 3, i / 3),
    {
        let y = i / BOARD_SIZE;
        let x = i % BOARD_SIZE;
        return Ok((x, y));
    }

    /// A shared borrow of the cell at column `x`, row `y`. The caller keeps
    /// the accepted coordinates inside the array: the bound check lets the
    /// side length itself through, so only coordinate pairs whose flat index
    /// stays below the cell count may be passed.
    pub fn get_cell_ref(&self, x: usize, y: usize) -> (r: Result<&CellValue, String>)
        requires
            x <= 3 && y <= 3 ==> y * 3 + x < 9,
        ensures
            (x <= 3 && y <= 3) <==> r is Ok,
            r is Ok ==> *r->Ok_0 == self.cells@[y * 3 + x],
            r is Err ==> r->Err_0@ == "index out of bounds for the board"@,
    {
        let idx = match Self::calc_index(x, y) {
            Ok(i) => i,
            Err(e) => {
                return Err(e);
            },
        };
        Ok(&self.cells[idx])
    }

    /// Write `value` into the cell at column `x`, row `y`; in place of a
    /// mutable borrow of the cell, the new value is taken directly. The
    /// caller keeps the accepted coordinates inside the array, as for
    /// `get_cell_ref`.
    pub fn get_cell_mut(&mut self, x: usize, y: usize, value: CellValue) -> (r: Result<
        (),
        String,
    >)
        requires
            x <= 3 && y <= 3 ==> y * 3 + x < 9,
        ensures
            (x <= 3 && y <= 3) <==> r is Ok,
            r is Ok ==> final(self).cells@ == old(self).cells@.update((y * 3 + x) as int, value),
            r is Err ==> final(self).cells@ == old(self).cells@,
            r is Err ==> r->Err_0@ == "index out of bounds for the board"@,
    {
        let idx = match Self::calc_index(x, y) {
            Ok(i) => i,
            Err(e) => {
                return Err(e);
            },
        };
        self.cells[idx] = value;
        Ok(())
    }

    /// Write `value` into every cell of the column selection starting at
    /// flat index `x` and stepping by the side length; in place of mutable
    /// borrows of the cells, the new value is taken directly. For a column
    /// index below the side length this is the whole column; larger starts
    /// touch the tail of that stepping, or nothing.
    pub fn get_col_mut(&mut self, x: usize, value: CellValue) -> (r: Result<(), String>)
        ensures
            r is Ok,
            forall|i: int|
                0 <= i < 9 ==> final(self).cells@[i] == if i >= x && (i - x) % 3 == 0 {
                    value
                } else {
                    old(self).cells@[i]
                },
    {
        let mut idx = x;
        while idx < 9
            invariant
                idx >= x,
                (idx - x) % 3 == 0,
                self.cells@.len() == 9,
                forall|i: int|
                    0 <= i < 9 ==> self.cells@[i] == if i >= x && i < idx && (i - x) % 3 == 0 {
                        value
                    } else {
                        old(self).cells@[i]
                    },
            decreases 12 - idx,
        {
            self.cells[idx] = value;
            idx = idx + 3;
        }
        Ok(())
    }

    /// Write `value` into every cell of row `y`; in place of mutable borrows
    /// of the cells, the new value is taken directly. A row index beyond the
    /// board touches nothing.
    pub fn get_row_mut(&mut self, y: usize, value: CellValue) -> (r: Result<(), String>)
        requires
            y <= usize::MAX / 3,
        ensures
            r is Ok,
            forall|i: int|
                0 <= i < 9 ==> final(self).cells@[i] == if y * 3 <= i < y * 3 + 3 {
                    value
                } else {
                    old(self).cells@[i]
                },
    {
        let base = y * BOARD_SIZE;
        let mut k: usize = 0;
        while k < 3
            invariant
                k <= 3,
                base == y * 3,
                self.cells@.len() == 9,
                forall|i: int|
                    0 <= i < 9 ==> self.cells@[i] == if base <= i < base + k {
                        value
                    } else {
                        old(self).cells@[i]
                    },
            decreases 3 - k,
        {
            if base < 9 {
                let idx = base + k;
                if idx < 9 {
                    self.cells[idx] = value;
                }
            }
            k = k + 1;
        }
        Ok(())
    }

    /// The printable glyph of one cell.
    pub open spec fn glyph_spec(v: CellValue) -> Seq<char> {
        match v {
            CellValue::Empty => "*"@,
            CellValue::Circle => "O"@,
            CellValue::Cross => "X"@,
        }
    }

    /// The glyphs of the first `k` cells in flat order, a line break before
    /// each row.
    pub open spec fn cells_text(cells: Seq<CellValue>, k: int) -> Seq<char>
        decreases k,
    {
        if k <= 0 {
            Seq::empty()
        } else {
            let prefix = Self::cells_text(cells, k - 1) + if (k - 1) % 3 == 0 {
                "\n"@
            } else {
                Seq::<char>::empty()
            };
            prefix + Self::glyph_spec(cells[k - 1])
        }
    }

    /// The whole printable board: each row on its own line, walked in flat
    /// order, with a closing line break.
    pub open spec fn board_text_spec(cells: Seq<CellValue>) -> Seq<char> {
        Self::cells_text(cells, 9) + "\n"@
    }

    /// The board flattened to printable text.
    pub fn draw_board_flattened(&self) -> (s: String)
        ensures
            s@ == Self::board_text_spec(self.cells@),
    {
        let mut s = String::new();
        let mut i: usize = 0;
        while i < 9
            invariant
                i <= 9,
                s@ == Self::cells_text(self.cells@, i as int),
            decreases 9 - i,
        {
            if i % 3 == 0 {
                s.append("\n");
            }
            let glyph = match self.cells[i] {
                CellValue::Empty => "*",
                CellValue::Circle => "O",
                CellValue::Cross => "X",
            };
            s.append(glyph);
            i = i + 1;
            proof {
                assert(s@ =~= Self::cells_text(self.cells@, i as int));
            }
        }
        s.append("\n");
        proof {
            assert(s@ =~= Self::board_text_spec(self.cells@));
        }
        s
    }
}

} // verus!
