use vstd::prelude::*;

verus! {

/// Index of the face pointing towards negative y.
pub const DOWN: usize = 0;
/// Index of the face pointing towards positive y.
pub const UP: usize = 1;
/// Index of the face pointing towards negative z.
pub const NORTH: usize = 2;
/// Index of the face pointing towards positive z.
pub const SOUTH: usize = 3;
/// Index of the face pointing towards negative x.
pub const WEST: usize = 4;
/// Index of the face pointing towards positive x.
pub const EAST: usize = 5;

/// For each face, the index of the face on the other side.
pub const OPPOSITE_FACING: [usize; 6] = [1, 0, 3, 2, 5, 4];
/// For each face, the unit step along x.
pub const STEP_X: [i32; 6] = [0, 0, 0, 0, -1, 1];
/// For each face, the unit step along y.
pub const STEP_Y: [i32; 6] = [-1, 1, 0, 0, 0, 0];
/// For each face, the unit step along z.
pub const STEP_Z: [i32; 6] = [0, 0, -1, 1, 0, 0];

/// The printable name of each face.
pub const NAMES: [&'static str; 6] = ["DOWN", "UP", "NORTH", "SOUTH", "WEST", "EAST"];

/// Taking the opposite face twice gives the face back.
pub proof fn lemma_opposite_involution(f: usize)
    requires
        f < 6,
    ensures
        OPPOSITE_FACING@[f as int] < 6,
        OPPOSITE_FACING@[OPPOSITE_FACING@[f as int] as int] == f,
        OPPOSITE_FACING@[f as int] != f,
{
}

/// The step towards the opposite face is the negated step.
pub proof fn lemma_opposite_step(f: usize)
    requires
        f < 6,
    ensures
        STEP_X@[OPPOSITE_FACING@[f as int] as int] == -STEP_X@[f as int],
        STEP_Y@[OPPOSITE_FACING@[f as int] as int] == -STEP_Y@[f as int],
        STEP_Z@[OPPOSITE_FACING@[f as int] as int] == -STEP_Z@[f as int],
{
}

/// The absolute value of `x`.
pub open spec fn abs(x: int) -> int {
    if x < 0 {
        -x
    } else {
        x
    }
}

/// Each face steps along exactly one axis, by one.
pub proof fn lemma_unit_step(f: usize)
    requires
        f < 6,
    ensures
        abs(STEP_X@[f as int] as int) + abs(STEP_Y@[f as int] as int) + abs(STEP_Z@[f as int] as int)
            == 1,
{
}

} // verus!
