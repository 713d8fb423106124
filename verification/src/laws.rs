//! The algebraic laws of the rotation engine, proved over the pointwise
//! rotation specification that `rotate_face` realizes.

use vstd::prelude::*;

use crate::cube::{cube_wf, Color};
use crate::geometry::{
    border_index, face_index, lemma_border_index_inverse, lemma_border_round_trip,
    lemma_slot_inverse, on_border, side_of, slot_of, Face, Movement,
};
use crate::rotation::{rotate_spec, shift_of};

verus! {

/// The movement that undoes a movement: the quarter turns undo each
/// other, and a half turn undoes itself.
pub open spec fn inverse_of(m: Movement) -> Movement {
    match m {
        Movement::Clockwise => Movement::CounterClockwise,
        Movement::CounterClockwise => Movement::Clockwise,
        Movement::Half => Movement::Half,
    }
}

/// A rotation keeps the cube's shape.
pub proof fn lemma_rotate_wf(v: Seq<Seq<Seq<Color>>>, f: Face, m: Movement, d: int, n: int)
    requires
        cube_wf(v, n),
    ensures
        cube_wf(rotate_spec(v, f, m, d, n), n),
{
    let w = rotate_spec(v, f, m, d, n);
    assert(v[0].len() == n);
    assert forall|g: int| 0 <= g < 6 implies (#[trigger] w[g]).len() == n by {}
    assert forall|g: int, r: int| 0 <= g < 6 && 0 <= r < n implies (#[trigger] w[g][r]).len()
        == n by {}
}

/// One cell of the inverse law: after a turn and its inverse turn, the
/// cell `(g, r, c)` holds its original color.
#[verifier::rlimit(100)]
proof fn lemma_cell_inverse(
    v: Seq<Seq<Seq<Color>>>,
    f: Face,
    m: Movement,
    d: int,
    n: int,
    g: int,
    r: int,
    c: int,
)
    requires
        cube_wf(v, n),
        0 <= d < n,
        0 <= g < 6,
        0 <= r < n,
        0 <= c < n,
    ensures
        rotate_spec(rotate_spec(v, f, m, d, n), f, inverse_of(m), d, n)[g][r][c] == v[g][r][c],
{
    lemma_slot_inverse(f);
    let k = slot_of(f, g);
    if k >= 0 && on_border(side_of(f, k).1, r, c, n, d) {
        lemma_border_index_inverse(side_of(f, k).1, r, c, n, d);
        let i = border_index(side_of(f, k).1, r, c, n);
        let ks = (k + shift_of(inverse_of(m))) % 4;
        lemma_border_round_trip(side_of(f, ks).1, i, n, d);
        assert((ks + shift_of(m)) % 4 == k);
        lemma_border_round_trip(side_of(f, k).1, i, n, d);
    }
}

/// One cell of the quarter-quarter law: after two clockwise quarter
/// turns, the cell `(g, r, c)` holds what one half turn gives it.
proof fn lemma_cell_quarter_quarter(
    v: Seq<Seq<Seq<Color>>>,
    f: Face,
    d: int,
    n: int,
    g: int,
    r: int,
    c: int,
)
    requires
        cube_wf(v, n),
        0 <= d < n,
        0 <= g < 6,
        0 <= r < n,
        0 <= c < n,
    ensures
        rotate_spec(rotate_spec(v, f, Movement::Clockwise, d, n), f, Movement::Clockwise, d, n)[g][r][c]
            == rotate_spec(v, f, Movement::Half, d, n)[g][r][c],
{
    lemma_slot_inverse(f);
    let k = slot_of(f, g);
    if k >= 0 && on_border(side_of(f, k).1, r, c, n, d) {
        lemma_border_index_inverse(side_of(f, k).1, r, c, n, d);
        let i = border_index(side_of(f, k).1, r, c, n);
        let ks = (k + 3) % 4;
        lemma_border_round_trip(side_of(f, ks).1, i, n, d);
        assert((ks + 3) % 4 == (k + 2) % 4);
        lemma_border_round_trip(side_of(f, (k + 2) % 4).1, i, n, d);
    }
}

/// Inverse law: rotating a face and then rotating it back with the
/// inverse movement, at the same depth, restores the cube exactly.
pub proof fn lemma_rotate_inverse(v: Seq<Seq<Seq<Color>>>, f: Face, m: Movement, d: int, n: int)
    requires
        cube_wf(v, n),
        0 <= d < n,
    ensures
        rotate_spec(rotate_spec(v, f, m, d, n), f, inverse_of(m), d, n) == v,
{
    let v2 = rotate_spec(rotate_spec(v, f, m, d, n), f, inverse_of(m), d, n);
    assert forall|g: int, r: int, c: int| 0 <= g < 6 && 0 <= r < n && 0 <= c < n implies
        v2[g][r][c] == v[g][r][c] by {
        lemma_cell_inverse(v, f, m, d, n, g, r, c);
    }
    assert(v2 =~~= v);
}

/// Two successive clockwise quarter turns of the same face and depth
/// amount to one half turn.
pub proof fn lemma_quarter_quarter(v: Seq<Seq<Seq<Color>>>, f: Face, d: int, n: int)
    requires
        cube_wf(v, n),
        0 <= d < n,
    ensures
        rotate_spec(
            rotate_spec(v, f, Movement::Clockwise, d, n),
            f,
            Movement::Clockwise,
            d,
            n,
        ) == rotate_spec(v, f, Movement::Half, d, n),
{
    let v2 = rotate_spec(rotate_spec(v, f, Movement::Clockwise, d, n), f, Movement::Clockwise, d, n);
    let vh = rotate_spec(v, f, Movement::Half, d, n);
    assert forall|g: int, r: int, c: int| 0 <= g < 6 && 0 <= r < n && 0 <= c < n implies
        v2[g][r][c] == vh[g][r][c] by {
        lemma_cell_quarter_quarter(v, f, d, n, g, r, c);
    }
    assert(v2 =~~= vh);
}

/// Order-4 law: four clockwise quarter turns of the same face and depth
/// restore the cube exactly, and so do two half turns.
pub proof fn lemma_rotate_order_four(v: Seq<Seq<Seq<Color>>>, f: Face, d: int, n: int)
    requires
        cube_wf(v, n),
        0 <= d < n,
    ensures
        rotate_spec(
            rotate_spec(
                rotate_spec(
                    rotate_spec(v, f, Movement::Clockwise, d, n),
                    f,
                    Movement::Clockwise,
                    d,
                    n,
                ),
                f,
                Movement::Clockwise,
                d,
                n,
            ),
            f,
            Movement::Clockwise,
            d,
            n,
        ) == v,
        rotate_spec(rotate_spec(v, f, Movement::Half, d, n), f, Movement::Half, d, n) == v,
{
    let v2 = rotate_spec(rotate_spec(v, f, Movement::Clockwise, d, n), f, Movement::Clockwise, d, n);
    lemma_quarter_quarter(v, f, d, n);
    lemma_rotate_wf(v, f, Movement::Half, d, n);
    lemma_quarter_quarter(v2, f, d, n);
    lemma_rotate_inverse(v, f, Movement::Half, d, n);
}

/// Locality law: a rotation of face `f` at depth `d` leaves every
/// facelet alone except those of `f`'s own grid when `d` is 0, and, on
/// each of the four adjacent faces, the single border row or column that
/// the adjacency corner selects at depth `d`. In particular a face that
/// is not `f` and not adjacent to `f` (the opposite face) never changes.
pub proof fn lemma_rotate_locality(
    v: Seq<Seq<Seq<Color>>>,
    f: Face,
    m: Movement,
    d: int,
    n: int,
    g: int,
    r: int,
    c: int,
)
    requires
        cube_wf(v, n),
        0 <= d < n,
        0 <= g < 6,
        0 <= r < n,
        0 <= c < n,
        !(g == face_index(f) && d == 0),
        slot_of(f, g) >= 0 ==> !on_border(side_of(f, slot_of(f, g)).1, r, c, n, d),
    ensures
        rotate_spec(v, f, m, d, n)[g][r][c] == v[g][r][c],
{
}

} // verus!
