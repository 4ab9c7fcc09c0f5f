//! Small console-game engines on fixed grids: a falling-block board with
//! multi-cell pieces, and two three-by-three mark boards, together with the
//! rules that drive them.

pub mod tetris;
pub mod tik_tak;
pub mod tik_tak_flat;

use vstd::prelude::*;

verus! {

/// The smaller of two machine integers; every coordinate that touches a grid
/// is clamped through this before it is used as an index.
pub fn umin(a: usize, b: usize) -> (r: usize)
    ensures
        r == if a <= b { a } else { b },
{
    if a <= b {
        a
    } else {
        b
    }
}

} // verus!
