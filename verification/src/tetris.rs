//! The falling-block board: pieces spawn at the top of a fixed grid, descend
//! one row per tick until the floor or settled cells block them, and are
//! stamped into the grid under a per-piece identity tag.

use vstd::prelude::*;

verus! {

/// The cell value that marks an empty grid position.
pub const PX_EMPTY: u8 = 0;

/// The closed set of piece variants the board knows how to draw.
#[derive(Clone, Copy, Debug, PartialEq, Eq, Structural)]
pub enum Piece {
    /// A two-by-two block in the lower-left of the bounding box.
    Cube,
    /// A one-wide vertical bar along the left column.
    Bar,
    /// A corner tromino in the lower-left of the bounding box.
    Tri,
}

/// Occupancy of the four-by-four bounding box of a piece variant: `1` where
/// the variant fills the cell at row `y`, column `x`, `0` elsewhere, and `0`
/// outside the box.
pub open spec fn shape_spec(p: Piece, y: int, x: int) -> u8 {
    if 0 <= y < 4 && 0 <= x < 4 {
        match p {
            Piece::Cube => if (y == 2 || y == 3) && (x == 0 || x == 1) {
                1u8
            } else {
                0u8
            },
            Piece::Bar => if x == 0 {
                1u8
            } else {
                0u8
            },
            Piece::Tri => if (y == 3 && (x == 0 || x == 1)) || (y == 2 && x == 1) {
                1u8
            } else {
                0u8
            },
        }
    } else {
        0u8
    }
}

/// The fixed four-by-four occupancy pattern of a piece variant.
pub fn shape_of(p: Piece) -> (r: [[u8; 4]; 4])
    ensures
        forall|y: int, x: int| 0 <= y < 4 && 0 <= x < 4 ==> r[y][x] == shape_spec(p, y, x),
{
    match p {
        Piece::Cube => [
            [0u8, 0u8, 0u8, 0u8],
            [0u8, 0u8, 0u8, 0u8],
            [1u8, 1u8, 0u8, 0u8],
            [1u8, 1u8, 0u8, 0u8],
        ],
        Piece::Bar => [
            [1u8, 0u8, 0u8, 0u8],
            [1u8, 0u8, 0u8, 0u8],
            [1u8, 0u8, 0u8, 0u8],
            [1u8, 0u8, 0u8, 0u8],
        ],
        Piece::Tri => [
            [0u8, 0u8, 0u8, 0u8],
            [0u8, 0u8, 0u8, 0u8],
            [0u8, 1u8, 0u8, 0u8],
            [1u8, 1u8, 0u8, 0u8],
        ],
    }
}

/// A drawable piece: anything that yields a fixed four-by-four occupancy
/// pattern of zeroes and ones, the shape being a pure function of the
/// variant it stands for.
pub trait Drawable {
    /// The variant whose pattern this drawable yields.
    spec fn variant(&self) -> Piece;

    /// The fixed four-by-four occupancy pattern of the drawable.
    fn get_sprite(&self) -> (r: [[u8; 4]; 4])
        ensures
            forall|y: int, x: int|
                0 <= y < 4 && 0 <= x < 4 ==> r[y][x] == shape_spec(self.variant(), y, x),
    ;
}

/// The two-by-two block piece.
#[derive(Clone, Copy, Debug, PartialEq, Eq, Structural)]
pub struct FourCube;

impl Default for FourCube {
    fn default() -> (r: Self)
        ensures
            r == (FourCube {  }),
    {
        FourCube {  }
    }
}

impl Drawable for FourCube {
    open spec fn variant(&self) -> Piece {
        Piece::Cube
    }

    fn get_sprite(&self) -> (r: [[u8; 4]; 4]) {
        shape_of(Piece::Cube)
    }
}

/// The one-by-four vertical bar piece.
#[derive(Clone, Copy, Debug, PartialEq, Eq, Structural)]
pub struct FourBar;

impl Default for FourBar {
    fn default() -> (r: Self)
        ensures
            r == (FourBar {  }),
    {
        FourBar {  }
    }
}

impl Drawable for FourBar {
    open spec fn variant(&self) -> Piece {
        Piece::Bar
    }

    fn get_sprite(&self) -> (r: [[u8; 4]; 4]) {
        shape_of(Piece::Bar)
    }
}

/// The corner tromino piece.
#[derive(Clone, Copy, Debug, PartialEq, Eq, Structural)]
pub struct TriThing;

impl Default for TriThing {
    fn default() -> (r: Self)
        ensures
            r == (TriThing {  }),
    {
        TriThing {  }
    }
}

impl Drawable for TriThing {
    open spec fn variant(&self) -> Piece {
        Piece::Tri
    }

    fn get_sprite(&self) -> (r: [[u8; 4]; 4]) {
        shape_of(Piece::Tri)
    }
}

/// The variant a drawn byte selects: a low band gives the block, a middle
/// band the corner tromino, everything else the bar. The exact weights are
/// policy; every variant has a non-empty band.
pub open spec fn pick_spec(choice: u8) -> Piece {
    if choice < 40 {
        Piece::Cube
    } else if 100 <= choice && choice < 200 {
        Piece::Tri
    } else {
        Piece::Bar
    }
}

/// The piece variant selected for a drawn byte.
pub fn pick_piece(choice: u8) -> (p: Piece)
    ensures
        p == pick_spec(choice),
{
    if choice < 40 {
        Piece::Cube
    } else if 100 <= choice && choice < 200 {
        Piece::Tri
    } else {
        Piece::Bar
    }
}

/// Relies on rand::random: one byte drawn from the thread-local generator.
/// Nothing is assumed about which value comes back.
#[verifier::external_body]
fn random_byte() -> u8 {
    rand::random()
}

/// One pseudo-randomly chosen piece per call: a byte is drawn and mapped
/// through the weighted bands, so every variant can come back and the call
/// never fails.
pub fn random_piece() -> (p: Piece)
    ensures
        exists|b: u8| p == pick_spec(b),
{
    let choice: u8 = random_byte();
    let p = pick_piece(choice);
    proof {
        assert(p == pick_spec(choice));
    }
    p
}

/// The smaller of two values, used to clamp coordinates.
pub open spec fn cap(v: int, m: int) -> int {
    if v <= m {
        v
    } else {
        m
    }
}

/// The identity tag of the piece at list index `i`: counted down from the
/// largest cell value, so that `0` stays reserved for empty cells. Only the
/// first 255 pieces get distinct tags; beyond that the count wraps and tags
/// can collide, a hard capacity limit of the encoding.
pub open spec fn tag_of(i: int) -> u8 {
    (255 - (i % 256)) as u8
}

/// An all-empty grid of `h` rows by `w` columns.
pub open spec fn empty_grid(w: int, h: int) -> Seq<Seq<u8>> {
    Seq::new(h as nat, |y: int| Seq::new(w as nat, |x: int| PX_EMPTY))
}

/// A board that owns a settled-cell grid and the list of active pieces with
/// their anchor positions. The anchor is the grid coordinate of a piece's
/// four-by-four bounding-box top-left corner.
pub struct Board {
    /// Row-major grid of cell values; `0` is empty, any other value is the
    /// identity tag of the piece stamped there.
    pub pixels: Vec<Vec<u8>>,
    /// Fixed number of columns.
    pub width: usize,
    /// Fixed number of rows.
    pub height: usize,
    /// The spawned pieces, in spawn order.
    pub sprites: Vec<Piece>,
    /// The anchor of each piece, parallel to `sprites`.
    pub sprite_locations: Vec<(usize, usize)>,
    /// The index of the piece that receives horizontal input.
    pub active: Option<usize>,
}

impl Board {
    /// The grid as a sequence of rows of cell values.
    pub open spec fn grid(self) -> Seq<Seq<u8>> {
        Seq::new(self.pixels@.len(), |y: int| self.pixels@[y]@)
    }

    /// Well-formedness: fixed dimensions held by the grid, parallel piece and
    /// position lists, an in-range active index, and every anchor row at most
    /// the height (the row is clamped there and never passes it).
    pub open spec fn wf(self) -> bool {
        &&& 1 <= self.width
        &&& 1 <= self.height
        &&& self.height <= usize::MAX - 4
        &&& self.pixels@.len() == self.height
        &&& forall|y: int|
            0 <= y < self.pixels@.len() ==> (#[trigger] self.pixels@[y])@.len() == self.width
        &&& self.sprites@.len() == self.sprite_locations@.len()
        &&& match self.active {
            Some(i) => i < self.sprites@.len(),
            None => true,
        }
        &&& forall|i: int|
            0 <= i < self.sprite_locations@.len() ==> (#[trigger] self.sprite_locations@[i]).1
                <= self.height
    }

    /// The board's fixed width.
    pub fn width(&self) -> (w: usize)
        ensures
            w == self.width,
    {
        self.width
    }

    /// The board's fixed height.
    pub fn height(&self) -> (h: usize)
        ensures
            h == self.height,
    {
        self.height
    }

    /// How many pieces have been spawned onto the board.
    pub fn piece_count(&self) -> (n: usize)
        ensures
            n == self.sprites@.len(),
    {
        self.sprites.len()
    }

    /// The current anchor of the piece at list index `i`.
    pub fn piece_location(&self, i: usize) -> (loc: (usize, usize))
        requires
            i < self.sprite_locations@.len(),
        ensures
            loc == self.sprite_locations@[i as int],
    {
        self.sprite_locations[i]
    }

    /// The index of the piece currently receiving horizontal input, if any.
    pub fn active_index(&self) -> (a: Option<usize>)
        ensures
            a == self.active,
    {
        self.active
    }

    /// A fresh board: an all-empty grid of the given dimensions and no pieces.
    pub fn new(width: usize, height: usize) -> (b: Board)
        requires
            1 <= width,
            1 <= height,
            height <= usize::MAX - 4,
        ensures
            b.wf(),
            b.width == width,
            b.height == height,
            b.grid() == empty_grid(width as int, height as int),
            b.sprites@.len() == 0,
            b.sprite_locations@.len() == 0,
            b.active is None,
    {
        let board = Self::gen_empty_board(width, height);
        let b = Self {
            width,
            height,
            pixels: board,
            sprites: Vec::new(),
            sprite_locations: Vec::new(),
            active: None,
        };
        proof {
            assert(b.grid() =~~= empty_grid(width as int, height as int));
        }
        b
    }

    /// An all-empty row-major grid of the given dimensions.
    fn gen_empty_board(width: usize, height: usize) -> (g: Vec<Vec<u8>>)
        ensures
            g@.len() == height,
            forall|y: int| 0 <= y < height ==> (#[trigger] g@[y])@.len() == width,
            forall|y: int, x: int|
                0 <= y < height && 0 <= x < width ==> (#[trigger] g@[y]@[x]) == PX_EMPTY,
    {
        let mut board: Vec<Vec<u8>> = Vec::new();
        let mut y: usize = 0;
        while y < height
            invariant
                y <= height,
                board@.len() == y,
                forall|j: int| 0 <= j < y ==> (#[trigger] board@[j])@.len() == width,
                forall|j: int, x: int|
                    0 <= j < y && 0 <= x < width ==> (#[trigger] board@[j]@[x]) == PX_EMPTY,
            decreases height - y,
        {
            let mut row: Vec<u8> = Vec::new();
            let mut x: usize = 0;
            while x < width
                invariant
                    x <= width,
                    row@.len() == x,
                    forall|k: int| 0 <= k < x ==> (#[trigger] row@[k]) == PX_EMPTY,
                decreases width - x,
            {
                row.push(PX_EMPTY);
                x = x + 1;
            }
            board.push(row);
            y = y + 1;
        }
        board
    }

    /// Reset every settled cell to empty; the pieces and their anchors are
    /// untouched.
    pub fn clear_board(&mut self)
        requires
            old(self).wf(),
        ensures
            final(self).wf(),
            final(self).grid() == empty_grid(old(self).width as int, old(self).height as int),
            final(self).width == old(self).width,
            final(self).height == old(self).height,
            final(self).sprites@ == old(self).sprites@,
            final(self).sprite_locations@ == old(self).sprite_locations@,
            final(self).active == old(self).active,
    {
        let mut y: usize = 0;
        while y < self.pixels.len()
            invariant
                self.wf(),
                y <= self.pixels@.len(),
                self.width == old(self).width,
                self.height == old(self).height,
                self.sprites@ == old(self).sprites@,
                self.sprite_locations@ == old(self).sprite_locations@,
                self.active == old(self).active,
                forall|j: int, x: int|
                    0 <= j < y && 0 <= x < self.width ==> (#[trigger] self.pixels@[j]@[x])
                        == PX_EMPTY,
            decreases self.pixels@.len() - y,
        {
            let mut x: usize = 0;
            while x < self.pixels[y].len()
                invariant
                    self.wf(),
                    y < self.pixels@.len(),
                    x <= self.pixels@[y as int]@.len(),
                    self.width == old(self).width,
                    self.height == old(self).height,
                    self.sprites@ == old(self).sprites@,
                    self.sprite_locations@ == old(self).sprite_locations@,
                    self.active == old(self).active,
                    forall|j: int, k: int|
                        0 <= j < y && 0 <= k < self.width ==> (#[trigger] self.pixels@[j]@[k])
                            == PX_EMPTY,
                    forall|k: int| 0 <= k < x ==> (#[trigger] self.pixels@[y as int]@[k]) == PX_EMPTY,
                decreases self.pixels@[y as int]@.len() - x,
            {
                self.pixels[y][x] = PX_EMPTY;
                x = x + 1;
            }
            y = y + 1;
        }
        proof {
            assert(self.grid() =~~= empty_grid(old(self).width as int, old(self).height as int));
        }
    }

    /// Append a freshly made piece: its anchor starts at the horizontal
    /// center of the top row, and it becomes the sole piece that receives
    /// horizontal input.
    pub fn new_sprite(&mut self, sprite: Piece)
        requires
            old(self).wf(),
        ensures
            final(self).wf(),
            final(self).sprites@ == old(self).sprites@.push(sprite),
            final(self).sprite_locations@ == old(self).sprite_locations@.push(
                ((old(self).width / 2) as usize, 0usize),
            ),
            final(self).active == Some(old(self).sprites@.len() as usize),
            final(self).pixels@ == old(self).pixels@,
            final(self).width == old(self).width,
            final(self).height == old(self).height,
    {
        let init_pos = (self.width / 2, 0);
        self.sprites.push(sprite);
        let idx = self.sprites.len() - 1;
        self.sprite_locations.push(init_pos);
        self.active = Some(idx);
    }

    /// Move the active piece one column to the right. The anchor column
    /// saturates at the machine bound; no grid bound is applied here, the
    /// clamped draw and collision passes keep every index in range.
    pub open spec fn shift_right(x: usize) -> usize {
        if x < usize::MAX {
            (x + 1) as usize
        } else {
            x
        }
    }

    /// Move the active piece one column to the left, stopping at zero.
    pub open spec fn shift_left(x: usize) -> usize {
        if x > 0 {
            (x - 1) as usize
        } else {
            x
        }
    }

    /// Nudge the active piece one column sideways: right when `dir_right`
    /// holds, left otherwise. Without an active piece nothing happens. This
    /// operation applies no grid bound of its own; a piece can be nudged
    /// off-grid and is silently truncated by the next clamped draw.
    pub fn input(&mut self, dir_right: bool)
        requires
            old(self).wf(),
        ensures
            final(self).wf(),
            final(self).pixels@ == old(self).pixels@,
            final(self).width == old(self).width,
            final(self).height == old(self).height,
            final(self).sprites@ == old(self).sprites@,
            final(self).active == old(self).active,
            final(self).sprite_locations@.len() == old(self).sprite_locations@.len(),
            match old(self).active {
                Some(i) => {
                    let loc = old(self).sprite_locations@[i as int];
                    let moved = if dir_right {
                        Self::shift_right(loc.0)
                    } else {
                        Self::shift_left(loc.0)
                    };
                    final(self).sprite_locations@ == old(self).sprite_locations@.update(
                        i as int,
                        (moved, loc.1),
                    )
                },
                None => final(self).sprite_locations@ == old(self).sprite_locations@,
            },
    {
        if let Some(active_idx) = self.active {
            let pos = self.sprite_locations[active_idx];
            let moved = if dir_right {
                pos.0.saturating_add(1)
            } else {
                pos.0.saturating_sub(1)
            };
            self.sprite_locations[active_idx] = (moved, pos.1);
        }
    }

    /// What a piece reads in the scratch grid: the settled grid with every
    /// cell carrying the piece's own tag erased, so a piece never collides
    /// with its own previous-frame footprint.
    pub open spec fn scratch_cell(g: Seq<Seq<u8>>, t: u8, y: int, x: int) -> u8 {
        if g[y][x] == t {
            PX_EMPTY
        } else {
            g[y][x]
        }
    }

    /// Whether the bounding-box cell at row `py`, column `px` of a piece
    /// blocks its descent: the cell is occupied in the piece's pattern and
    /// the prospective grid cell one row down (each axis clamped to the grid)
    /// already holds another piece's footprint, or the prospective clamped
    /// row would sit at the grid height.
    pub open spec fn blocked_at(
        g: Seq<Seq<u8>>,
        w: int,
        h: int,
        p: Piece,
        loc: (usize, usize),
        t: u8,
        py: int,
        px: int,
    ) -> bool {
        let now_x = cap(px + loc.0, w - 1);
        let now_y = cap(py + loc.1, h - 1);
        let future_x = cap(now_x, w - 1);
        let future_y = cap(now_y + 1, h - 1);
        (shape_spec(p, py, px) != 0 && Self::scratch_cell(g, t, future_y, future_x) != PX_EMPTY)
            || future_y == h
    }

    /// Whether any of the sixteen bounding-box cells blocks the descent of a
    /// piece with tag `t` at anchor `loc` over grid `g`.
    pub open spec fn collides(
        g: Seq<Seq<u8>>,
        w: int,
        h: int,
        p: Piece,
        loc: (usize, usize),
        t: u8,
    ) -> bool {
        exists|py: int, px: int|
            0 <= py < 4 && 0 <= px < 4 && Self::blocked_at(g, w, h, p, loc, t, py, px)
    }

    /// Where one tick takes a piece: blocked pieces keep their anchor, free
    /// pieces descend one row, the row clamped to at most the grid height.
    pub open spec fn step_loc(
        g: Seq<Seq<u8>>,
        w: int,
        h: int,
        p: Piece,
        loc: (usize, usize),
        t: u8,
    ) -> (usize, usize) {
        if Self::collides(g, w, h, p, loc, t) {
            loc
        } else {
            (loc.0, cap(loc.1 + 1, h) as usize)
        }
    }

    /// Whether a cell among the first scanned of the bounding box blocks the
    /// descent: all cells in rows before `py`, and those before `px` in row
    /// `py` itself.
    pub open spec fn blocked_before(
        g: Seq<Seq<u8>>,
        w: int,
        h: int,
        p: Piece,
        loc: (usize, usize),
        t: u8,
        py: int,
        px: int,
    ) -> bool {
        exists|a: int, b: int|
            0 <= a < 4 && 0 <= b < 4 && (a < py || (a == py && b < px)) && Self::blocked_at(
                g,
                w,
                h,
                p,
                loc,
                t,
                a,
                b,
            )
    }

    /// Scanning one more bounding-box cell extends the scanned prefix by
    /// exactly that cell.
    proof fn lemma_blocked_before_step(
        g: Seq<Seq<u8>>,
        w: int,
        h: int,
        p: Piece,
        loc: (usize, usize),
        t: u8,
        py: int,
        px: int,
    )
        requires
            0 <= py < 4,
            0 <= px < 4,
        ensures
            Self::blocked_before(g, w, h, p, loc, t, py, px + 1) <==> (Self::blocked_before(
                g,
                w,
                h,
                p,
                loc,
                t,
                py,
                px,
            ) || Self::blocked_at(g, w, h, p, loc, t, py, px)),
    {
        if Self::blocked_before(g, w, h, p, loc, t, py, px + 1) {
            let (a, b) = choose|a: int, b: int|
                0 <= a < 4 && 0 <= b < 4 && (a < py || (a == py && b < px + 1))
                    && Self::blocked_at(g, w, h, p, loc, t, a, b);
            if !(a == py && b == px) {
                assert(a < py || (a == py && b < px));
                assert(Self::blocked_before(g, w, h, p, loc, t, py, px));
            }
        }
        if Self::blocked_before(g, w, h, p, loc, t, py, px) {
            let (a, b) = choose|a: int, b: int|
                0 <= a < 4 && 0 <= b < 4 && (a < py || (a == py && b < px)) && Self::blocked_at(
                    g,
                    w,
                    h,
                    p,
                    loc,
                    t,
                    a,
                    b,
                );
            assert(a < py || (a == py && b < px + 1));
            assert(Self::blocked_before(g, w, h, p, loc, t, py, px + 1));
        }
        if Self::blocked_at(g, w, h, p, loc, t, py, px) {
            assert(Self::blocked_before(g, w, h, p, loc, t, py, px + 1));
        }
    }

    /// Finishing a bounding-box row leaves the same scanned prefix as
    /// standing at the start of the next row.
    proof fn lemma_blocked_row_end(
        g: Seq<Seq<u8>>,
        w: int,
        h: int,
        p: Piece,
        loc: (usize, usize),
        t: u8,
        py: int,
    )
        requires
            0 <= py < 4,
        ensures
            Self::blocked_before(g, w, h, p, loc, t, py + 1, 0) <==> Self::blocked_before(
                g,
                w,
                h,
                p,
                loc,
                t,
                py,
                4,
            ),
    {
        if Self::blocked_before(g, w, h, p, loc, t, py + 1, 0) {
            let (a, b) = choose|a: int, b: int|
                0 <= a < 4 && 0 <= b < 4 && (a < py + 1 || (a == py + 1 && b < 0))
                    && Self::blocked_at(g, w, h, p, loc, t, a, b);
            assert(a < py || (a == py && b < 4));
            assert(Self::blocked_before(g, w, h, p, loc, t, py, 4));
        }
        if Self::blocked_before(g, w, h, p, loc, t, py, 4) {
            let (a, b) = choose|a: int, b: int|
                0 <= a < 4 && 0 <= b < 4 && (a < py || (a == py && b < 4)) && Self::blocked_at(
                    g,
                    w,
                    h,
                    p,
                    loc,
                    t,
                    a,
                    b,
                );
            assert(a < py + 1 || (a == py + 1 && b < 0));
            assert(Self::blocked_before(g, w, h, p, loc, t, py + 1, 0));
        }
    }

    /// Having scanned all four rows of the bounding box is exactly the
    /// collision test over the whole box.
    proof fn lemma_blocked_full(
        g: Seq<Seq<u8>>,
        w: int,
        h: int,
        p: Piece,
        loc: (usize, usize),
        t: u8,
    )
        ensures
            Self::blocked_before(g, w, h, p, loc, t, 4, 0) <==> Self::collides(g, w, h, p, loc, t),
    {
        if Self::blocked_before(g, w, h, p, loc, t, 4, 0) {
            let (a, b) = choose|a: int, b: int|
                0 <= a < 4 && 0 <= b < 4 && (a < 4 || (a == 4 && b < 0)) && Self::blocked_at(
                    g,
                    w,
                    h,
                    p,
                    loc,
                    t,
                    a,
                    b,
                );
            assert(Self::collides(g, w, h, p, loc, t));
        }
        if Self::collides(g, w, h, p, loc, t) {
            let (a, b) = choose|a: int, b: int|
                0 <= a < 4 && 0 <= b < 4 && Self::blocked_at(g, w, h, p, loc, t, a, b);
            assert(a < 4 || (a == 4 && b < 0));
            assert(Self::blocked_before(g, w, h, p, loc, t, 4, 0));
        }
    }

    /// The grid after writing the first `k` of the sixteen bounding-box
    /// cells of one piece, in row-major scan order: an occupied pattern cell
    /// writes the piece's tag, an empty one writes the empty value, and both
    /// coordinates are clamped to the grid, so later writes of the same scan
    /// win where clamping folds several box cells onto one grid cell.
    pub open spec fn stamp_k(
        g: Seq<Seq<u8>>,
        w: int,
        h: int,
        p: Piece,
        loc: (usize, usize),
        t: u8,
        k: int,
    ) -> Seq<Seq<u8>>
        decreases k,
    {
        if k <= 0 {
            g
        } else {
            let g1 = Self::stamp_k(g, w, h, p, loc, t, k - 1);
            let py = (k - 1) / 4;
            let px = (k - 1) % 4;
            let dx = cap(px + loc.0, w - 1);
            let dy = cap(py + loc.1, h - 1);
            let v: u8 = if shape_spec(p, py, px) == 1 {
                t
            } else {
                PX_EMPTY
            };
            g1.update(dy, g1[dy].update(dx, v))
        }
    }

    /// The grid after stamping one whole piece.
    pub open spec fn stamp_piece(
        g: Seq<Seq<u8>>,
        w: int,
        h: int,
        p: Piece,
        loc: (usize, usize),
        t: u8,
    ) -> Seq<Seq<u8>> {
        Self::stamp_k(g, w, h, p, loc, t, 16)
    }

    /// The grid after stamping the first `n` pieces in list order, each under
    /// its own identity tag: where footprints overlap, the later-indexed
    /// piece wins.
    pub open spec fn stamp_all(
        g: Seq<Seq<u8>>,
        w: int,
        h: int,
        ps: Seq<Piece>,
        locs: Seq<(usize, usize)>,
        n: int,
    ) -> Seq<Seq<u8>>
        decreases n,
    {
        if n <= 0 {
            g
        } else {
            Self::stamp_piece(
                Self::stamp_all(g, w, h, ps, locs, n - 1),
                w,
                h,
                ps[n - 1],
                locs[n - 1],
                tag_of(n - 1),
            )
        }
    }

    /// Stamping keeps the grid's dimensions.
    proof fn lemma_stamp_k_dims(
        g: Seq<Seq<u8>>,
        w: int,
        h: int,
        p: Piece,
        loc: (usize, usize),
        t: u8,
        k: int,
    )
        requires
            1 <= w,
            1 <= h,
            g.len() == h,
            forall|y: int| 0 <= y < h ==> (#[trigger] g[y]).len() == w,
        ensures
            Self::stamp_k(g, w, h, p, loc, t, k).len() == h,
            forall|y: int|
                0 <= y < h ==> (#[trigger] Self::stamp_k(g, w, h, p, loc, t, k)[y]).len() == w,
        decreases k,
    {
        if k > 0 {
            Self::lemma_stamp_k_dims(g, w, h, p, loc, t, k - 1);
        }
    }

    /// Stamping a list of pieces keeps the grid's dimensions.
    proof fn lemma_stamp_all_dims(
        g: Seq<Seq<u8>>,
        w: int,
        h: int,
        ps: Seq<Piece>,
        locs: Seq<(usize, usize)>,
        n: int,
    )
        requires
            1 <= w,
            1 <= h,
            g.len() == h,
            forall|y: int| 0 <= y < h ==> (#[trigger] g[y]).len() == w,
        ensures
            Self::stamp_all(g, w, h, ps, locs, n).len() == h,
            forall|y: int|
                0 <= y < h ==> (#[trigger] Self::stamp_all(g, w, h, ps, locs, n)[y]).len() == w,
        decreases n,
    {
        if n > 0 {
            Self::lemma_stamp_all_dims(g, w, h, ps, locs, n - 1);
            Self::lemma_stamp_k_dims(
                Self::stamp_all(g, w, h, ps, locs, n - 1),
                w,
                h,
                ps[n - 1],
                locs[n - 1],
                tag_of(n - 1),
                16,
            );
        }
    }

    /// Stamp every piece's pattern into the grid at its current anchor, in
    /// list order, using each piece's identity tag for occupied cells; each
    /// write is clamped to the grid, and later pieces overwrite earlier ones
    /// where footprints overlap.
    pub fn draw_sprite(&mut self)
        requires
            old(self).wf(),
        ensures
            final(self).wf(),
            final(self).width == old(self).width,
            final(self).height == old(self).height,
            final(self).sprites@ == old(self).sprites@,
            final(self).sprite_locations@ == old(self).sprite_locations@,
            final(self).active == old(self).active,
            final(self).grid() == Self::stamp_all(
                old(self).grid(),
                old(self).width as int,
                old(self).height as int,
                old(self).sprites@,
                old(self).sprite_locations@,
                old(self).sprites@.len() as int,
            ),
    {
        let ghost g0 = old(self).grid();
        let ghost w = old(self).width as int;
        let ghost h = old(self).height as int;
        let ghost ps = old(self).sprites@;
        let ghost locs = old(self).sprite_locations@;
        let n = self.sprites.len();
        let mut idx: usize = 0;
        while idx < n
            invariant
                self.wf(),
                idx <= n,
                n == self.sprites@.len(),
                self.width == old(self).width,
                self.height == old(self).height,
                self.sprites@ == ps,
                self.sprite_locations@ == locs,
                self.active == old(self).active,
                w == self.width as int,
                h == self.height as int,
                g0.len() == h,
                forall|y: int| 0 <= y < h ==> (#[trigger] g0[y]).len() == w,
                self.grid() == Self::stamp_all(g0, w, h, ps, locs, idx as int),
            decreases n - idx,
        {
            let piece = self.sprites[idx];
            let pattern = shape_of(piece);
            let our_key = Self::tag_for_index(idx);
            let (x, y) = self.sprite_locations[idx];
            let ghost base = Self::stamp_all(g0, w, h, ps, locs, idx as int);
            proof {
                Self::lemma_stamp_all_dims(g0, w, h, ps, locs, idx as int);
            }

            let mut py: usize = 0;
            while py < 4
                invariant
                    self.wf(),
                    py <= 4,
                    idx < n,
                    n == self.sprites@.len(),
                    self.width == old(self).width,
                    self.height == old(self).height,
                    self.sprites@ == ps,
                    self.sprite_locations@ == locs,
                    self.active == old(self).active,
                    w == self.width as int,
                    h == self.height as int,
                    piece == ps[idx as int],
                    our_key == tag_of(idx as int),
                    (x, y) == locs[idx as int],
                    forall|yy: int, xx: int|
                        0 <= yy < 4 && 0 <= xx < 4 ==> pattern[yy][xx] == shape_spec(piece, yy, xx),
                    self.grid() == Self::stamp_k(
                        base,
                        w,
                        h,
                        piece,
                        (x, y),
                        our_key,
                        4 * py as int,
                    ),
                decreases 4 - py,
            {
                let mut px: usize = 0;
                while px < 4
                    invariant
                        self.wf(),
                        py < 4,
                        px <= 4,
                        idx < n,
                        n == self.sprites@.len(),
                        self.width == old(self).width,
                        self.height == old(self).height,
                        self.sprites@ == ps,
                        self.sprite_locations@ == locs,
                        self.active == old(self).active,
                        w == self.width as int,
                        h == self.height as int,
                        piece == ps[idx as int],
                        our_key == tag_of(idx as int),
                        (x, y) == locs[idx as int],
                        forall|yy: int, xx: int|
                            0 <= yy < 4 && 0 <= xx < 4 ==> pattern[yy][xx] == shape_spec(
                                piece,
                                yy,
                                xx,
                            ),
                        self.grid() == Self::stamp_k(
                            base,
                            w,
                            h,
                            piece,
                            (x, y),
                            our_key,
                            4 * py as int + px as int,
                        ),
                    decreases 4 - px,
                {
                    let draw_x = crate::umin(self.width - 1, x.saturating_add(px));
                    let draw_y = crate::umin(self.height - 1, py + y);
                    let v: u8 = if pattern[py][px] == 1 {
                        our_key
                    } else {
                        PX_EMPTY
                    };
                    let ghost before = self.grid();
                    self.pixels[draw_y][draw_x] = v;
                    proof {
                        let k = 4 * py as int + px as int + 1;
                        assert((k - 1) / 4 == py as int && (k - 1) % 4 == px as int) by (nonlinear_arith)
                            requires
                                0 <= py < 4,
                                0 <= px < 4,
                                k == 4 * py as int + px as int + 1,
                        {}
                        assert(draw_x as int == cap(px as int + x as int, w - 1));
                        assert(draw_y as int == cap(py as int + y as int, h - 1));
                        assert(self.grid() =~~= before.update(
                            draw_y as int,
                            before[draw_y as int].update(draw_x as int, v),
                        ));
                        assert(self.grid() == Self::stamp_k(
                            base,
                            w,
                            h,
                            piece,
                            (x, y),
                            our_key,
                            k,
                        ));
                    }
                    px = px + 1;
                }
                py = py + 1;
            }
            idx = idx + 1;
            proof {
                assert(self.grid() == Self::stamp_all(g0, w, h, ps, locs, idx as int));
            }
        }
    }

    /// Whether bounding-box cell `k` (row-major scan order) of a piece at
    /// anchor `loc` lands on grid cell (`r`, `c`) after clamping.
    pub open spec fn box_cell_hits(
        loc: (usize, usize),
        w: int,
        h: int,
        k: int,
        r: int,
        c: int,
    ) -> bool {
        cap((k % 4) + loc.0, w - 1) == c && cap((k / 4) + loc.1, h - 1) == r
    }

    /// Whether any of the first `k` bounding-box cells of a piece at anchor
    /// `loc` lands on grid cell (`r`, `c`).
    pub open spec fn covered_by(loc: (usize, usize), w: int, h: int, k: int, r: int, c: int) -> bool {
        exists|j: int| 0 <= j < k && Self::box_cell_hits(loc, w, h, j, r, c)
    }

    /// Where one of the first `k` stamped box cells lands on a grid cell,
    /// the stamped value there does not depend on the grid underneath.
    proof fn lemma_stamp_k_covered_same(
        g1: Seq<Seq<u8>>,
        g2: Seq<Seq<u8>>,
        w: int,
        h: int,
        p: Piece,
        loc: (usize, usize),
        t: u8,
        k: int,
        r: int,
        c: int,
    )
        requires
            1 <= w,
            1 <= h,
            g1.len() == h,
            forall|y: int| 0 <= y < h ==> (#[trigger] g1[y]).len() == w,
            g2.len() == h,
            forall|y: int| 0 <= y < h ==> (#[trigger] g2[y]).len() == w,
            0 <= r < h,
            0 <= c < w,
            Self::covered_by(loc, w, h, k, r, c),
        ensures
            Self::stamp_k(g1, w, h, p, loc, t, k)[r][c] == Self::stamp_k(g2, w, h, p, loc, t, k)[r][c],
        decreases k,
    {
        let j = choose|j: int| 0 <= j < k && Self::box_cell_hits(loc, w, h, j, r, c);
        Self::lemma_stamp_k_dims(g1, w, h, p, loc, t, k - 1);
        Self::lemma_stamp_k_dims(g2, w, h, p, loc, t, k - 1);
        if Self::box_cell_hits(loc, w, h, k - 1, r, c) {
        } else {
            assert(j < k - 1);
            assert(Self::covered_by(loc, w, h, k - 1, r, c));
            Self::lemma_stamp_k_covered_same(g1, g2, w, h, p, loc, t, k - 1, r, c);
        }
    }

    /// Where the clamped footprint box of the last-stamped piece covers a
    /// grid cell, the stamped grid shows exactly what that piece alone would
    /// write there on an empty grid: the later-indexed piece wins every
    /// overlap with earlier pieces.
    pub proof fn lemma_last_write_wins(
        g: Seq<Seq<u8>>,
        w: int,
        h: int,
        ps: Seq<Piece>,
        locs: Seq<(usize, usize)>,
        n: int,
        r: int,
        c: int,
    )
        requires
            1 <= w,
            1 <= h,
            g.len() == h,
            forall|y: int| 0 <= y < h ==> (#[trigger] g[y]).len() == w,
            1 <= n,
            0 <= r < h,
            0 <= c < w,
            Self::covered_by(locs[n - 1], w, h, 16, r, c),
        ensures
            Self::stamp_all(g, w, h, ps, locs, n)[r][c] == Self::stamp_piece(
                empty_grid(w, h),
                w,
                h,
                ps[n - 1],
                locs[n - 1],
                tag_of(n - 1),
            )[r][c],
    {
        Self::lemma_stamp_all_dims(g, w, h, ps, locs, n - 1);
        Self::lemma_stamp_k_covered_same(
            Self::stamp_all(g, w, h, ps, locs, n - 1),
            empty_grid(w, h),
            w,
            h,
            ps[n - 1],
            locs[n - 1],
            tag_of(n - 1),
            16,
            r,
            c,
        );
    }

    /// A piece that nothing blocks, whose anchor row lies strictly above the
    /// last grid row, descends by exactly one row in a tick.
    pub proof fn lemma_free_piece_descends(
        g: Seq<Seq<u8>>,
        w: int,
        h: int,
        p: Piece,
        loc: (usize, usize),
        t: u8,
    )
        requires
            !Self::collides(g, w, h, p, loc, t),
            loc.1 < h - 1,
        ensures
            Self::step_loc(g, w, h, p, loc, t) == (loc.0, (loc.1 + 1) as usize),
    {
    }

    /// The tick clamps every anchor row at the grid height, and a row that
    /// has reached the height never advances further: the floor stop.
    pub proof fn lemma_floor_stop(
        g: Seq<Seq<u8>>,
        w: int,
        h: int,
        p: Piece,
        loc: (usize, usize),
        t: u8,
    )
        requires
            loc.1 <= h,
        ensures
            Self::step_loc(g, w, h, p, loc, t).1 <= h,
            loc.1 == h ==> Self::step_loc(g, w, h, p, loc, t).1 == h,
    {
    }

    /// Nudging the active piece right and then left returns its anchor
    /// column to its original value, for every column below the machine
    /// bound where the rightward move saturates.
    pub proof fn lemma_input_round_trip(x: usize)
        requires
            x < usize::MAX,
        ensures
            Self::shift_left(Self::shift_right(x)) == x,
    {
    }

    /// Every in-range cell of a freshly built grid is empty, so reading any
    /// cell of a fresh board gives the empty value.
    pub proof fn lemma_new_board_empty(w: int, h: int, x: int, y: int)
        requires
            0 <= x < w,
            0 <= y < h,
        ensures
            empty_grid(w, h)[y][x] == PX_EMPTY,
    {
    }

    /// The printable glyph of a cell value: blank for empty, a filled glyph
    /// for the literal value one, a generic piece glyph for any other tag.
    /// A piece whose tag happens to equal one is therefore shown as the
    /// filled glyph, an ambiguity the encoding accepts.
    pub open spec fn glyph_spec(v: u8) -> Seq<char> {
        if v == 1 {
            "**"@
        } else if v == PX_EMPTY {
            "  "@
        } else {
            "[]"@
        }
    }

    /// The glyphs of the first `k` cells of one row.
    pub open spec fn row_text(row: Seq<u8>, k: int) -> Seq<char>
        decreases k,
    {
        if k <= 0 {
            Seq::empty()
        } else {
            Self::row_text(row, k - 1) + Self::glyph_spec(row[k - 1])
        }
    }

    /// The horizontal rule of the border, two characters per column.
    pub open spec fn rule_text(w: int) -> Seq<char>
        decreases w,
    {
        if w <= 0 {
            Seq::empty()
        } else {
            Self::rule_text(w - 1) + "=="@
        }
    }

    /// One full border line.
    pub open spec fn border_line(w: int) -> Seq<char> {
        "||"@ + Self::rule_text(w) + "||"@ + "|\n"@
    }

    /// One printed grid row between its side rules.
    pub open spec fn row_line(row: Seq<u8>, w: int) -> Seq<char> {
        "||"@ + Self::row_text(row, w) + "||"@ + "|\n"@
    }

    /// The printed lines of the first `k` grid rows, top to bottom.
    pub open spec fn rows_text(g: Seq<Seq<u8>>, w: int, k: int) -> Seq<char>
        decreases k,
    {
        if k <= 0 {
            Seq::empty()
        } else {
            Self::rows_text(g, w, k - 1) + Self::row_line(g[k - 1], w)
        }
    }

    /// The whole printable frame: the grid between two border lines.
    pub open spec fn frame_text_spec(g: Seq<Seq<u8>>, w: int, h: int) -> Seq<char> {
        Self::border_line(w) + Self::rows_text(g, w, h) + Self::border_line(w)
    }

    /// The printable glyph of one cell value.
    pub fn glyph_for(v: u8) -> (r: &'static str)
        ensures
            r@ == Self::glyph_spec(v),
    {
        if v == 1 {
            "**"
        } else if v == PX_EMPTY {
            "  "
        } else {
            "[]"
        }
    }

    /// Append one border line to the text being built.
    fn push_border(s: &mut String, width: usize)
        ensures
            final(s)@ == old(s)@ + Self::border_line(width as int),
    {
        let ghost base = s@;
        s.append("||");
        let mut x: usize = 0;
        while x < width
            invariant
                x <= width,
                s@ == base + "||"@ + Self::rule_text(x as int),
            decreases width - x,
        {
            s.append("==");
            x = x + 1;
            proof {
                assert(s@ =~= base + "||"@ + Self::rule_text(x as int));
            }
        }
        s.append("||");
        s.append("|\n");
        proof {
            assert(s@ =~= base + Self::border_line(width as int));
        }
    }

    /// Translate the grid into its printable frame, the bordered rows of
    /// glyphs printed top to bottom.
    pub fn frame_text(&self) -> (s: String)
        requires
            self.wf(),
        ensures
            s@ == Self::frame_text_spec(self.grid(), self.width as int, self.height as int),
    {
        let mut s = String::new();
        Self::push_border(&mut s, self.width);
        let ghost g = self.grid();
        let ghost w = self.width as int;
        let mut y: usize = 0;
        while y < self.height
            invariant
                self.wf(),
                y <= self.height,
                g == self.grid(),
                w == self.width as int,
                s@ == Self::border_line(w) + Self::rows_text(g, w, y as int),
            decreases self.height - y,
        {
            let ghost row_base = s@;
            s.append("||");
            let mut x: usize = 0;
            while x < self.width
                invariant
                    self.wf(),
                    y < self.height,
                    x <= self.width,
                    g == self.grid(),
                    w == self.width as int,
                    s@ == row_base + "||"@ + Self::row_text(g[y as int], x as int),
                decreases self.width - x,
            {
                let val = self.pixels[y][x];
                let to_print = Self::glyph_for(val);
                s.append(to_print);
                x = x + 1;
                proof {
                    assert(s@ =~= row_base + "||"@ + Self::row_text(g[y as int], x as int));
                }
            }
            s.append("||");
            s.append("|\n");
            y = y + 1;
            proof {
                assert(s@ =~= Self::border_line(w) + Self::rows_text(g, w, y as int));
            }
        }
        Self::push_border(&mut s, self.width);
        proof {
            assert(s@ =~= Self::frame_text_spec(g, w, self.height as int));
        }
        s
    }

    /// One full frame: the settled grid is rebuilt from every piece's
    /// current footprint (in list order, later pieces overwriting earlier
    /// ones), every piece then takes its tick of movement against the
    /// just-stamped grid, and the stamped grid's printable text is returned.
    pub fn render_frame(&mut self) -> (s: String)
        requires
            old(self).wf(),
        ensures
            final(self).wf(),
            final(self).width == old(self).width,
            final(self).height == old(self).height,
            final(self).sprites@ == old(self).sprites@,
            final(self).active == old(self).active,
            final(self).grid() == Self::stamp_all(
                empty_grid(old(self).width as int, old(self).height as int),
                old(self).width as int,
                old(self).height as int,
                old(self).sprites@,
                old(self).sprite_locations@,
                old(self).sprites@.len() as int,
            ),
            final(self).sprite_locations@.len() == old(self).sprite_locations@.len(),
            forall|i: int|
                0 <= i < old(self).sprite_locations@.len() ==> final(self).sprite_locations@[i]
                    == Self::step_loc(
                    final(self).grid(),
                    old(self).width as int,
                    old(self).height as int,
                    old(self).sprites@[i],
                    old(self).sprite_locations@[i],
                    tag_of(i),
                ),
            s@ == Self::frame_text_spec(
                final(self).grid(),
                old(self).width as int,
                old(self).height as int,
            ),
    {
        self.clear_board();
        self.draw_sprite();
        self.move_sprite();
        self.frame_text()
    }

    /// The settled cell value at column `x`, row `y`.
    pub fn get_cell(&self, x: usize, y: usize) -> (v: u8)
        requires
            self.wf(),
            x < self.width,
            y < self.height,
        ensures
            v == self.grid()[y as int][x as int],
    {
        return self.pixels[y][x];
    }

    /// The identity tag of the piece at list index `idx`.
    fn tag_for_index(idx: usize) -> (t: u8)
        ensures
            t == tag_of(idx as int),
    {
        let low: usize = idx % 256;
        255u8 - (low as u8)
    }

    /// One simulation tick: every piece, in list order, descends one row
    /// unless a settled cell of another piece or the floor blocks it; a
    /// blocked piece keeps its anchor for this tick. The grid itself is not
    /// touched here.
    pub fn move_sprite(&mut self)
        requires
            old(self).wf(),
        ensures
            final(self).wf(),
            final(self).pixels@ == old(self).pixels@,
            final(self).width == old(self).width,
            final(self).height == old(self).height,
            final(self).sprites@ == old(self).sprites@,
            final(self).active == old(self).active,
            final(self).sprite_locations@.len() == old(self).sprite_locations@.len(),
            forall|i: int|
                0 <= i < old(self).sprite_locations@.len() ==> final(self).sprite_locations@[i]
                    == Self::step_loc(
                    old(self).grid(),
                    old(self).width as int,
                    old(self).height as int,
                    old(self).sprites@[i],
                    old(self).sprite_locations@[i],
                    tag_of(i),
                ),
    {
        let ghost g0 = old(self).grid();
        let ghost w = old(self).width as int;
        let ghost h = old(self).height as int;
        let n = self.sprite_locations.len();
        let mut idx: usize = 0;
        while idx < n
            invariant
                self.wf(),
                idx <= n,
                n == self.sprite_locations@.len(),
                self.pixels@ == old(self).pixels@,
                self.width == old(self).width,
                self.height == old(self).height,
                self.sprites@ == old(self).sprites@,
                self.active == old(self).active,
                g0 == old(self).grid(),
                w == old(self).width as int,
                h == old(self).height as int,
                forall|i: int|
                    0 <= i < idx ==> self.sprite_locations@[i] == Self::step_loc(
                        g0,
                        w,
                        h,
                        old(self).sprites@[i],
                        old(self).sprite_locations@[i],
                        tag_of(i),
                    ),
                forall|i: int|
                    idx <= i < n ==> self.sprite_locations@[i] == old(
                        self,
                    ).sprite_locations@[i],
            decreases n - idx,
        {
            let piece = self.sprites[idx];
            let key = Self::tag_for_index(idx);
            let (current_x, current_y) = self.sprite_locations[idx];
            proof {
                assert(self.grid() =~~= g0);
                assert((current_x, current_y) == old(self).sprite_locations@[idx as int]);
            }

            // Scratch grid: the settled grid with this piece's own tag erased.
            let mut scratch: Vec<Vec<u8>> = Vec::new();
            let mut y: usize = 0;
            while y < self.height
                invariant
                    self.wf(),
                    y <= self.height,
                    self.pixels@ == old(self).pixels@,
                    self.width == old(self).width,
                    self.height == old(self).height,
                    g0 == old(self).grid(),
                    scratch@.len() == y,
                    forall|j: int| 0 <= j < y ==> (#[trigger] scratch@[j])@.len() == self.width,
                    forall|j: int, k: int|
                        0 <= j < y && 0 <= k < self.width ==> (#[trigger] scratch@[j]@[k])
                            == Self::scratch_cell(g0, key, j, k),
                decreases self.height - y,
            {
                let mut row: Vec<u8> = Vec::new();
                let mut x: usize = 0;
                while x < self.width
                    invariant
                        self.wf(),
                        y < self.height,
                        x <= self.width,
                        self.pixels@ == old(self).pixels@,
                        self.width == old(self).width,
                        self.height == old(self).height,
                        g0 == old(self).grid(),
                        row@.len() == x,
                        forall|k: int|
                            0 <= k < x ==> (#[trigger] row@[k]) == Self::scratch_cell(
                                g0,
                                key,
                                y as int,
                                k,
                            ),
                    decreases self.width - x,
                {
                    let v = self.pixels[y][x];
                    if v == key {
                        row.push(PX_EMPTY);
                    } else {
                        row.push(v);
                    }
                    x = x + 1;
                }
                scratch.push(row);
                y = y + 1;
            }

            let mut move_valid = true;
            let desired_y = crate::umin(self.height, current_y + 1);
            let pattern = shape_of(piece);
            let mut py: usize = 0;
            while py < 4
                invariant
                    self.wf(),
                    py <= 4,
                    self.width == old(self).width,
                    self.height == old(self).height,
                    g0 == old(self).grid(),
                    w == self.width as int,
                    h == self.height as int,
                    current_y <= self.height,
                    scratch@.len() == self.height,
                    forall|j: int| 0 <= j < h ==> (#[trigger] scratch@[j])@.len() == self.width,
                    forall|j: int, k: int|
                        0 <= j < h && 0 <= k < w ==> (#[trigger] scratch@[j]@[k])
                            == Self::scratch_cell(g0, key, j, k),
                    forall|yy: int, xx: int|
                        0 <= yy < 4 && 0 <= xx < 4 ==> pattern[yy][xx] == shape_spec(piece, yy, xx),
                    move_valid == !Self::blocked_before(
                        g0,
                        w,
                        h,
                        piece,
                        (current_x, current_y),
                        key,
                        py as int,
                        0,
                    ),
                decreases 4 - py,
            {
                let mut px: usize = 0;
                while px < 4
                    invariant
                        self.wf(),
                        py < 4,
                        px <= 4,
                        self.width == old(self).width,
                        self.height == old(self).height,
                        g0 == old(self).grid(),
                        w == self.width as int,
                        h == self.height as int,
                        current_y <= self.height,
                        scratch@.len() == self.height,
                        forall|j: int| 0 <= j < h ==> (#[trigger] scratch@[j])@.len() == self.width,
                        forall|j: int, k: int|
                            0 <= j < h && 0 <= k < w ==> (#[trigger] scratch@[j]@[k])
                                == Self::scratch_cell(g0, key, j, k),
                        forall|yy: int, xx: int|
                            0 <= yy < 4 && 0 <= xx < 4 ==> pattern[yy][xx] == shape_spec(
                                piece,
                                yy,
                                xx,
                            ),
                        move_valid == !Self::blocked_before(
                            g0,
                            w,
                            h,
                            piece,
                            (current_x, current_y),
                            key,
                            py as int,
                            px as int,
                        ),
                    decreases 4 - px,
                {
                    let now_x = crate::umin(self.width - 1, current_x.saturating_add(px));
                    let now_y = crate::umin(self.height - 1, py + current_y);
                    let future_x = crate::umin(self.width - 1, now_x);
                    let future_y = crate::umin(self.height - 1, now_y + 1);

                    let current_val = pattern[py][px];
                    let future_val = scratch[future_y][future_x];

                    proof {
                        assert(now_x as int == cap(px as int + current_x as int, w - 1));
                        assert(future_y as int == cap(
                            cap(py as int + current_y as int, h - 1) + 1,
                            h - 1,
                        ));
                        assert(future_val == Self::scratch_cell(
                            g0,
                            key,
                            future_y as int,
                            future_x as int,
                        ));
                    }
                    let mut hit_here = false;
                    if current_val != 0 && future_val != 0 {
                        move_valid = false;
                        hit_here = true;
                    }
                    if future_y == self.height {
                        move_valid = false;
                        hit_here = true;
                    }
                    proof {
                        assert(hit_here == Self::blocked_at(
                            g0,
                            w,
                            h,
                            piece,
                            (current_x, current_y),
                            key,
                            py as int,
                            px as int,
                        ));
                        Self::lemma_blocked_before_step(
                            g0,
                            w,
                            h,
                            piece,
                            (current_x, current_y),
                            key,
                            py as int,
                            px as int,
                        );
                    }
                    px = px + 1;
                }
                proof {
                    Self::lemma_blocked_row_end(
                        g0,
                        w,
                        h,
                        piece,
                        (current_x, current_y),
                        key,
                        py as int,
                    );
                }
                py = py + 1;
            }

            proof {
                Self::lemma_blocked_full(g0, w, h, piece, (current_x, current_y), key);
            }

            if move_valid {
                self.sprite_locations[idx] = (current_x, desired_y);
            }
            proof {
                assert(self.sprite_locations@[idx as int] == Self::step_loc(
                    g0,
                    w,
                    h,
                    old(self).sprites@[idx as int],
                    old(self).sprite_locations@[idx as int],
                    tag_of(idx as int),
                ));
            }
            idx = idx + 1;
        }
    }
}

} // verus!
