//! The checkerboard pattern: a composite built purely from half turns
//! of inner layers around three axes, specified as a fold of the
//! rotation specification over the fixed depth sequence.

use vstd::prelude::*;

use crate::cube::{cube_count, Color, RubiksCube};
use crate::geometry::{Face, Movement};
use crate::rotation::{rotate_face, rotate_spec};

verus! {

/// The layer depths the checkerboard turns for one axis face, from
/// `depth` on: every odd depth below the middle, each paired with its
/// mirror layer counted from the far side when the two differ.
pub open spec fn cb_depths_from(size: int, depth: int) -> Seq<int>
    decreases size - depth,
    when depth >= 1
{
    if depth < 1 || (size + 1) / 2 <= depth {
        Seq::empty()
    } else if depth != size - depth - 1 {
        seq![depth, size - depth - 1] + cb_depths_from(size, depth + 2)
    } else {
        seq![depth] + cb_depths_from(size, depth + 2)
    }
}

/// The cube after half-turning face `f` at each depth of `depths` in
/// order.
pub open spec fn half_turns(
    v: Seq<Seq<Seq<Color>>>,
    f: Face,
    depths: Seq<int>,
    size: int,
) -> Seq<Seq<Seq<Color>>>
    decreases depths.len(),
{
    if depths.len() == 0 {
        v
    } else {
        half_turns(
            rotate_spec(v, f, Movement::Half, depths[0], size),
            f,
            depths.drop_first(),
            size,
        )
    }
}

/// The cube after the whole checkerboard composite: the half-turn
/// sequence around the Right, then Up, then Front axis.
pub open spec fn checkerboard_spec(v: Seq<Seq<Seq<Color>>>, size: int) -> Seq<Seq<Seq<Color>>> {
    half_turns(
        half_turns(
            half_turns(v, Face::Right, cb_depths_from(size, 1), size),
            Face::Up,
            cb_depths_from(size, 1),
            size,
        ),
        Face::Front,
        cb_depths_from(size, 1),
        size,
    )
}

/// Apply the checkerboard half-turn sequence for one axis face.
pub fn checkerboard_face(rc: &mut RubiksCube, face: Face)
    requires
        old(rc).well_formed(),
    ensures
        final(rc).well_formed(),
        final(rc).size == old(rc).size,
        final(rc)@ == half_turns(
            old(rc)@,
            face,
            cb_depths_from(old(rc).size as int, 1),
            old(rc).size as int,
        ),
        forall|e: Color| #[trigger] cube_count(final(rc)@, e) == cube_count(old(rc)@, e),
{
    let size = rc.size;
    let half = (size - 1) / 2 + 1;
    let ghost n = size as int;
    let ghost v0 = rc@;
    proof {
        assert(half == (n + 1) / 2);
    }
    let mut depth: usize = 1;
    while depth < half
        invariant
            rc.well_formed(),
            rc.size == size,
            1 <= depth,
            n == size as int,
            half == (n + 1) / 2,
            half_turns(rc@, face, cb_depths_from(n, depth as int), n) == half_turns(
                v0,
                face,
                cb_depths_from(n, 1),
                n,
            ),
            forall|e: Color| #[trigger] cube_count(rc@, e) == cube_count(v0, e),
        decreases size - depth,
    {
        let ghost d = depth as int;
        let ghost ds = cb_depths_from(n, d);
        let ghost rest = cb_depths_from(n, d + 2);
        let ghost vpre = rc@;
        proof {
            assert(2 * (depth as int) < n + 1);
            assert(depth < size);
        }
        let mirror = size - depth - 1;
        rotate_face(rc, face, Movement::Half, depth);
        let ghost v1 = rc@;
        if depth != mirror {
            proof {
                assert(ds == seq![d, n - d - 1] + rest);
                assert(ds[0] == d);
                assert(ds.drop_first() =~= seq![n - d - 1] + rest);
                assert(half_turns(vpre, face, ds, n) == half_turns(v1, face, ds.drop_first(), n));
                assert((seq![n - d - 1] + rest)[0] == n - d - 1);
                assert((seq![n - d - 1] + rest).drop_first() =~= rest);
            }
            rotate_face(rc, face, Movement::Half, mirror);
            proof {
                assert(half_turns(v1, face, seq![n - d - 1] + rest, n) == half_turns(
                    rc@,
                    face,
                    rest,
                    n,
                ));
            }
        } else {
            proof {
                assert(ds == seq![d] + rest);
                assert(ds[0] == d);
                assert(ds.drop_first() =~= rest);
                assert(half_turns(vpre, face, ds, n) == half_turns(v1, face, rest, n));
            }
        }
        depth = depth + 2;
    }
    proof {
        assert(cb_depths_from(n, depth as int) == Seq::<int>::empty());
    }
}

/// Apply the checkerboard composite pattern: for each of the Right, Up
/// and Front faces in turn, half-turn every odd inner layer and its
/// mirror layer. The result is exactly `checkerboard_spec` of the prior
/// state, and every color keeps its facelet count.
pub fn checkerboard(rc: &mut RubiksCube)
    requires
        old(rc).well_formed(),
    ensures
        final(rc).well_formed(),
        final(rc).size == old(rc).size,
        final(rc)@ == checkerboard_spec(old(rc)@, old(rc).size as int),
        forall|e: Color| #[trigger] cube_count(final(rc)@, e) == cube_count(old(rc)@, e),
{
    checkerboard_face(rc, Face::Right);
    checkerboard_face(rc, Face::Up);
    checkerboard_face(rc, Face::Front);
}

} // verus!
