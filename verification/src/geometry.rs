//! The fixed topology of the cube: face, corner and movement labels, the
//! adjacency table giving each face its four neighboring border sides, and
//! the arithmetic mapping from a border side to concrete grid coordinates.

use vstd::prelude::*;

verus! {

/// One of the six fixed face identities.
#[derive(Clone, Copy, Debug)]
pub enum Face {
    Up,
    Left,
    Front,
    Right,
    Back,
    Down,
}

/// One of the four grid-corner labels, used only to parameterize the
/// coordinate mapping of a neighboring face's border.
#[derive(Clone, Copy)]
pub enum Corner {
    TopLeft,
    TopRight,
    BottomLeft,
    BottomRight,
}

/// One of the three turn senses.
#[derive(Clone, Copy, Debug)]
pub enum Movement {
    Clockwise,
    CounterClockwise,
    Half,
}

/// "The border of face `.0`, near corner `.1`": an adjacency-table entry.
#[derive(Clone, Copy)]
pub struct Side(pub Face, pub Corner);

/// The index of a face in the cube's grid storage.
pub open spec fn face_index(f: Face) -> int {
    match f {
        Face::Up => 0,
        Face::Left => 1,
        Face::Front => 2,
        Face::Right => 3,
        Face::Back => 4,
        Face::Down => 5,
    }
}

/// The adjacency table: the `k`-th of the four ordered border sides around
/// face `f`. The order is significant: it fixes the cyclic direction in
/// which border cells shift during a clockwise turn of `f`. Kept opaque;
/// proofs go through `lemma_slot_inverse` and the `get_sides` contract.
#[verifier::opaque]
pub open spec fn side_of(f: Face, k: int) -> Side {
    match f {
        Face::Up => {
            if k == 0 {
                Side(Face::Back, Corner::TopRight)
            } else if k == 1 {
                Side(Face::Right, Corner::TopRight)
            } else if k == 2 {
                Side(Face::Front, Corner::TopRight)
            } else {
                Side(Face::Left, Corner::TopRight)
            }
        },
        Face::Left => {
            if k == 0 {
                Side(Face::Up, Corner::TopLeft)
            } else if k == 1 {
                Side(Face::Front, Corner::TopLeft)
            } else if k == 2 {
                Side(Face::Down, Corner::TopLeft)
            } else {
                Side(Face::Back, Corner::BottomRight)
            }
        },
        Face::Front => {
            if k == 0 {
                Side(Face::Up, Corner::BottomLeft)
            } else if k == 1 {
                Side(Face::Right, Corner::TopLeft)
            } else if k == 2 {
                Side(Face::Down, Corner::TopRight)
            } else {
                Side(Face::Left, Corner::BottomRight)
            }
        },
        Face::Right => {
            if k == 0 {
                Side(Face::Up, Corner::BottomRight)
            } else if k == 1 {
                Side(Face::Back, Corner::TopLeft)
            } else if k == 2 {
                Side(Face::Down, Corner::BottomRight)
            } else {
                Side(Face::Front, Corner::BottomRight)
            }
        },
        Face::Back => {
            if k == 0 {
                Side(Face::Up, Corner::TopRight)
            } else if k == 1 {
                Side(Face::Left, Corner::TopLeft)
            } else if k == 2 {
                Side(Face::Down, Corner::BottomLeft)
            } else {
                Side(Face::Right, Corner::BottomRight)
            }
        },
        Face::Down => {
            if k == 0 {
                Side(Face::Front, Corner::BottomLeft)
            } else if k == 1 {
                Side(Face::Right, Corner::BottomLeft)
            } else if k == 2 {
                Side(Face::Back, Corner::BottomLeft)
            } else {
                Side(Face::Left, Corner::BottomLeft)
            }
        },
    }
}

/// Which slot (0 to 3) face with index `g` occupies in the adjacency list
/// of `f`, or -1 when `g` is not adjacent to `f` (it is `f` itself or the
/// face opposite `f`). Kept opaque; proofs go through `lemma_slot_inverse`.
#[verifier::opaque]
pub open spec fn slot_of(f: Face, g: int) -> int {
    if face_index(side_of(f, 0).0) == g {
        0
    } else if face_index(side_of(f, 1).0) == g {
        1
    } else if face_index(side_of(f, 2).0) == g {
        2
    } else if face_index(side_of(f, 3).0) == g {
        3
    } else {
        -1
    }
}

/// The grid cell reached by walking `i` steps along the border edge of a
/// neighboring face named by `corner`, offset `depth` layers inward.
pub open spec fn pos_spec(corner: Corner, i: int, size: int, depth: int) -> (int, int) {
    match corner {
        Corner::TopLeft => (i, depth),
        Corner::TopRight => (depth, size - 1 - i),
        Corner::BottomRight => (size - 1 - i, size - 1 - depth),
        Corner::BottomLeft => (size - 1 - depth, i),
    }
}

/// Whether cell `(r, c)` lies on the border row or column that `corner`
/// selects at the given `depth`.
pub open spec fn on_border(corner: Corner, r: int, c: int, size: int, depth: int) -> bool {
    match corner {
        Corner::TopLeft => c == depth,
        Corner::TopRight => r == depth,
        Corner::BottomRight => c == size - 1 - depth,
        Corner::BottomLeft => r == size - 1 - depth,
    }
}

/// The walk index `i` with `pos_spec(corner, i, size, depth) == (r, c)`,
/// for a cell on the border that `corner` selects.
pub open spec fn border_index(corner: Corner, r: int, c: int, size: int) -> int {
    match corner {
        Corner::TopLeft => r,
        Corner::TopRight => size - 1 - c,
        Corner::BottomRight => size - 1 - r,
        Corner::BottomLeft => c,
    }
}

/// `pos_spec` and (`on_border`, `border_index`) are mutually inverse
/// descriptions of the same border cells.
pub proof fn lemma_border_round_trip(corner: Corner, i: int, size: int, depth: int)
    requires
        0 <= i < size,
        0 <= depth < size,
    ensures
        ({
            let (r, c) = pos_spec(corner, i, size, depth);
            &&& 0 <= r < size
            &&& 0 <= c < size
            &&& on_border(corner, r, c, size, depth)
            &&& border_index(corner, r, c, size) == i
        }),
{
}

/// For a cell on the border named by `corner` at `depth`, `pos_spec` maps
/// its `border_index` back to the cell itself.
pub proof fn lemma_border_index_inverse(corner: Corner, r: int, c: int, size: int, depth: int)
    requires
        0 <= r < size,
        0 <= c < size,
        0 <= depth < size,
        on_border(corner, r, c, size, depth),
    ensures
        0 <= border_index(corner, r, c, size) < size,
        pos_spec(corner, border_index(corner, r, c, size), size, depth) == (r, c),
{
}

/// The four neighbors of any face are four distinct faces, none of them
/// the turning face itself, so `slot_of` inverts the adjacency table:
/// every face index is either the slot of exactly one neighbor or gets
/// slot -1, and the turning face itself gets -1.
pub proof fn lemma_slot_inverse(f: Face)
    ensures
        forall|k: int| 0 <= k < 4 ==> slot_of(f, face_index(#[trigger] side_of(f, k).0)) == k,
        forall|k: int| 0 <= k < 4 ==> 0 <= face_index(#[trigger] side_of(f, k).0) < 6,
        forall|g: int| -1 <= #[trigger] slot_of(f, g) < 4,
        forall|g: int|
            #[trigger] slot_of(f, g) >= 0 ==> face_index(side_of(f, slot_of(f, g)).0) == g,
        slot_of(f, face_index(f)) == -1,
{
    reveal(side_of);
    reveal(slot_of);
}

/// The grid-storage index of a face: a bounds-checked accessor in place
/// of a raw enum-to-integer cast.
pub fn face_to_index(face: Face) -> (i: usize)
    ensures
        i == face_index(face),
{
    match face {
        Face::Up => 0,
        Face::Left => 1,
        Face::Front => 2,
        Face::Right => 3,
        Face::Back => 4,
        Face::Down => 5,
    }
}

/// The exact cell affected on a neighboring face bordering the turning
/// face near `corner`, for walk step `move_count` at layer `depth`.
pub fn position_based_off_corner_and_move_count(
    corner: Corner,
    move_count: usize,
    size: usize,
    depth: usize,
) -> (pos: (usize, usize))
    requires
        move_count < size,
        depth < size,
    ensures
        (pos.0 as int, pos.1 as int) == pos_spec(corner, move_count as int, size as int, depth as int),
        pos.0 < size,
        pos.1 < size,
{
    match corner {
        Corner::TopLeft => (move_count, depth),
        Corner::TopRight => (depth, size - 1 - move_count),
        Corner::BottomRight => (size - 1 - move_count, size - 1 - depth),
        Corner::BottomLeft => (size - 1 - depth, move_count),
    }
}

/// The ordered list of the four border sides adjacent to `face`, as the
/// adjacency table gives them.
pub fn get_sides(face: Face) -> (sides: [Side; 4])
    ensures
        forall|k: int| 0 <= k < 4 ==> sides[k] == side_of(face, k),
{
    proof {
        reveal(side_of);
    }
    match face {
        Face::Up => [
            Side(Face::Back, Corner::TopRight),
            Side(Face::Right, Corner::TopRight),
            Side(Face::Front, Corner::TopRight),
            Side(Face::Left, Corner::TopRight),
        ],
        Face::Left => [
            Side(Face::Up, Corner::TopLeft),
            Side(Face::Front, Corner::TopLeft),
            Side(Face::Down, Corner::TopLeft),
            Side(Face::Back, Corner::BottomRight),
        ],
        Face::Front => [
            Side(Face::Up, Corner::BottomLeft),
            Side(Face::Right, Corner::TopLeft),
            Side(Face::Down, Corner::TopRight),
            Side(Face::Left, Corner::BottomRight),
        ],
        Face::Right => [
            Side(Face::Up, Corner::BottomRight),
            Side(Face::Back, Corner::TopLeft),
            Side(Face::Down, Corner::BottomRight),
            Side(Face::Front, Corner::BottomRight),
        ],
        Face::Back => [
            Side(Face::Up, Corner::TopRight),
            Side(Face::Left, Corner::TopLeft),
            Side(Face::Down, Corner::BottomLeft),
            Side(Face::Right, Corner::BottomRight),
        ],
        Face::Down => [
            Side(Face::Front, Corner::BottomLeft),
            Side(Face::Right, Corner::BottomLeft),
            Side(Face::Back, Corner::BottomLeft),
            Side(Face::Left, Corner::BottomLeft),
        ],
    }
}

} // verus!
