use vstd::prelude::*;

use crate::constants::{LEVEL_X_MAX, LEVEL_Y_MAX};

verus! {

/// One coordinate after a move along one axis of length `dim`: below zero it
/// becomes `dim - 1`, at or past `dim` it becomes zero.
pub open spec fn wrap_coord(c: u16, d: i16, dim: u16) -> u16 {
    let s = c as int + d as int;
    if s < 0 {
        (dim - 1) as u16
    } else if s >= dim {
        0
    } else {
        s as u16
    }
}

/// A cell moved by `delta` on the torus, each axis on its own.
pub open spec fn wrap(pos: (u16, u16), delta: (i16, i16)) -> (u16, u16) {
    (wrap_coord(pos.0, delta.0, LEVEL_X_MAX), wrap_coord(pos.1, delta.1, LEVEL_Y_MAX))
}

/// The cell lies on the board.
pub open spec fn in_bounds(pos: (u16, u16)) -> bool {
    pos.0 < LEVEL_X_MAX && pos.1 < LEVEL_Y_MAX
}

/// One of the four unit steps.
pub open spec fn is_unit_delta(d: (i16, i16)) -> bool {
    ||| d == (-1i16, 0i16)
    ||| d == (1i16, 0i16)
    ||| d == (0i16, 1i16)
    ||| d == (0i16, -1i16)
}

/// The opposite step.
pub open spec fn neg_delta(d: (i16, i16)) -> (i16, i16) {
    ((-d.0) as i16, (-d.1) as i16)
}

/// Two cells are the same.
pub fn same_cell(a: (u16, u16), b: (u16, u16)) -> (r: bool)
    ensures
        r == (a == b),
{
    a.0 == b.0 && a.1 == b.1
}

/// Adds `delta` to `pos` on the torus. Total: the result is always on the
/// board, whatever the inputs.
pub fn add_delta(pos: (u16, u16), delta: (i16, i16)) -> (r: (u16, u16))
    ensures
        r == wrap(pos, delta),
        in_bounds(r),
{
    let mut to_check: (i32, i32) = (pos.0 as i32 + delta.0 as i32, pos.1 as i32 + delta.1 as i32);

    if to_check.0 < 0 {
        to_check.0 = LEVEL_X_MAX as i32 - 1;
    } else if to_check.0 >= LEVEL_X_MAX as i32 {
        to_check.0 = 0;
    }

    if to_check.1 < 0 {
        to_check.1 = LEVEL_Y_MAX as i32 - 1;
    } else if to_check.1 >= LEVEL_Y_MAX as i32 {
        to_check.1 = 0;
    }

    (to_check.0 as u16, to_check.1 as u16)
}

/// Moving a cell of the board one unit step and then the opposite step
/// brings it back where it was.
pub proof fn lemma_wrap_inverse(pos: (u16, u16), delta: (i16, i16))
    requires
        in_bounds(pos),
        is_unit_delta(delta),
    ensures
        wrap(wrap(pos, delta), neg_delta(delta)) == pos,
        is_unit_delta(neg_delta(delta)),
{
}

} // verus!
