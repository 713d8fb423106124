//! The rotation engine: the pointwise specification of a layer turn and
//! the in-place implementation that realizes it, built from aliasing-safe
//! 2-cycle and 4-cycle cell permutations.

use vstd::prelude::*;

use crate::cube::{cube_count, cube_wf, Color, RubiksCube};
use crate::geometry::{
    border_index, face_index, on_border, pos_spec, side_of, slot_of, Face, Movement,
};
use crate::geometry::{
    face_to_index, get_sides, lemma_border_index_inverse, lemma_border_round_trip,
    lemma_slot_inverse, position_based_off_corner_and_move_count,
};

verus! {

/// The cell of the turning face whose old value lands at `(r, c)` when
/// the face's own grid turns, with `s` the largest index (`size - 1`).
pub open spec fn self_src(m: Movement, r: int, c: int, s: int) -> (int, int) {
    match m {
        Movement::Clockwise => (s - c, r),
        Movement::CounterClockwise => (c, s - r),
        Movement::Half => (s - r, s - c),
    }
}

/// How many slots backward through the ordered neighbor list a border
/// cell's new value comes from.
pub open spec fn shift_of(m: Movement) -> int {
    match m {
        Movement::Clockwise => 3,
        Movement::CounterClockwise => 1,
        Movement::Half => 2,
    }
}

/// The value at `(g, r, c)` after the border permutation of a turn of
/// `f`: a border cell of a neighboring face takes the value of the
/// matching border cell `shift_of(m)` slots along; all else is unchanged.
pub open spec fn side_cell_after(
    v: Seq<Seq<Seq<Color>>>,
    f: Face,
    m: Movement,
    depth: int,
    size: int,
    g: int,
    r: int,
    c: int,
) -> Color {
    let k = slot_of(f, g);
    if k >= 0 && on_border(side_of(f, k).1, r, c, size, depth) {
        let i = border_index(side_of(f, k).1, r, c, size);
        let ks = (k + shift_of(m)) % 4;
        let src = pos_spec(side_of(f, ks).1, i, size, depth);
        v[face_index(side_of(f, ks).0)][src.0][src.1]
    } else {
        v[g][r][c]
    }
}

/// The value at `(g, r, c)` after a full turn of `f`: at depth 0 the
/// turning face's own grid turns as well; the border permutation applies
/// at every depth.
pub open spec fn cell_after(
    v: Seq<Seq<Seq<Color>>>,
    f: Face,
    m: Movement,
    depth: int,
    size: int,
    g: int,
    r: int,
    c: int,
) -> Color {
    if g == face_index(f) && depth == 0 {
        let src = self_src(m, r, c, size - 1);
        v[g][src.0][src.1]
    } else {
        side_cell_after(v, f, m, depth, size, g, r, c)
    }
}

/// The whole cube after rotating face `f` with movement `m` at the given
/// layer depth: the pointwise permutation of facelets that a turn is.
pub open spec fn rotate_spec(
    v: Seq<Seq<Seq<Color>>>,
    f: Face,
    m: Movement,
    depth: int,
    size: int,
) -> Seq<Seq<Seq<Color>>> {
    Seq::new(
        6,
        |g: int|
            Seq::new(
                size as nat,
                |r: int| Seq::new(size as nat, |c: int| cell_after(v, f, m, depth, size, g, r, c)),
            ),
    )
}

/// The smaller of two integers.
pub open spec fn min2(a: int, b: int) -> int {
    if a <= b {
        a
    } else {
        b
    }
}

/// The concentric ring a grid cell lies on: its distance from the
/// nearest edge, with `s` the largest index (`size - 1`).
pub open spec fn ring_of(r: int, c: int, s: int) -> int {
    min2(min2(r, c), min2(s - r, s - c))
}

/// The canonical representative of a cell's 4-cycle orbit under a
/// quarter turn of the grid: the column of the orbit's member on the top
/// edge of its ring.
pub open spec fn rep_of(r: int, c: int, s: int) -> int {
    let m = ring_of(r, c, s);
    if r == m && c < s - m {
        c
    } else if c == s - m && r < s - m {
        r
    } else if r == s - m && c > m {
        s - c
    } else {
        s - r
    }
}

/// Whether the orbit of `(r, c)` comes strictly before position `i` of
/// ring `o` in the order the in-place rotation walks the grid.
pub open spec fn orbit_done(r: int, c: int, s: int, o: int, i: int) -> bool {
    ring_of(r, c, s) < o || (ring_of(r, c, s) == o && rep_of(r, c, s) < i)
}

/// Every cell's ring and representative are in range; only the center
/// cell of an odd grid has a ring reaching the middle, and all three
/// movements fix that cell.
proof fn lemma_ring_rep_range(r: int, c: int, s: int, m: Movement)
    requires
        0 <= r <= s,
        0 <= c <= s,
    ensures
        0 <= ring_of(r, c, s),
        2 * ring_of(r, c, s) <= s,
        2 * ring_of(r, c, s) < s ==> ring_of(r, c, s) <= rep_of(r, c, s) < s - ring_of(r, c, s),
        2 * ring_of(r, c, s) == s ==> r == c && 2 * r == s && self_src(m, r, c, s) == (r, c),
{
}

/// The four cells the in-place rotation cycles at step `(o, i)` are
/// exactly the cells of orbit `(o, i)`: each has that ring and
/// representative, they are pairwise distinct, and no other cell shares
/// them. The quarter-turn source map sends each to the next.
proof fn lemma_orbit_cells(s: int, o: int, i: int)
    requires
        0 <= o,
        2 * o < s,
        o <= i < s - o,
    ensures
        ring_of(o, i, s) == o && rep_of(o, i, s) == i,
        ring_of(s - i, o, s) == o && rep_of(s - i, o, s) == i,
        ring_of(s - o, s - i, s) == o && rep_of(s - o, s - i, s) == i,
        ring_of(i, s - o, s) == o && rep_of(i, s - o, s) == i,
        forall|r: int, c: int|
            0 <= r <= s && 0 <= c <= s && ring_of(r, c, s) == o && #[trigger] rep_of(r, c, s) == i
                ==> ((r, c) == (o, i) || (r, c) == (s - i, o) || (r, c) == (s - o, s - i) || (r, c)
                == (i, s - o)),
{
}

/// Swap the two distinct cells `a` and `b`: the aliasing-safe 2-cycle
/// (read both old values, then write both).
fn swap2(rc: &mut RubiksCube, a: (usize, usize, usize), b: (usize, usize, usize))
    requires
        old(rc).well_formed(),
        a.0 < 6 && a.1 < old(rc).size && a.2 < old(rc).size,
        b.0 < 6 && b.1 < old(rc).size && b.2 < old(rc).size,
        !(a.0 == b.0 && a.1 == b.1 && a.2 == b.2),
    ensures
        final(rc).well_formed(),
        final(rc).size == old(rc).size,
        final(rc)@[a.0 as int][a.1 as int][a.2 as int] == old(rc)@[b.0 as int][b.1 as int][b.2 as int],
        final(rc)@[b.0 as int][b.1 as int][b.2 as int] == old(rc)@[a.0 as int][a.1 as int][a.2 as int],
        forall|g: int, r: int, c: int|
            0 <= g < 6 && 0 <= r < old(rc).size && 0 <= c < old(rc).size && !(g == a.0 && r == a.1
                && c == a.2) && !(g == b.0 && r == b.1 && c == b.2)
                ==> #[trigger] final(rc)@[g][r][c] == old(rc)@[g][r][c],
        forall|e: Color| #[trigger] cube_count(final(rc)@, e) == cube_count(old(rc)@, e),
{
    let ghost v0 = rc@;
    let va = rc.get_cell(a.0, a.1, a.2);
    let vb = rc.get_cell(b.0, b.1, b.2);
    rc.set_cell(a.0, a.1, a.2, vb);
    let ghost v1 = rc@;
    rc.set_cell(b.0, b.1, b.2, va);
    proof {
        assert forall|e: Color| #[trigger] cube_count(rc@, e) == cube_count(v0, e) by {
            crate::cube::lemma_cube_count_write_cell(v0, a.0 as int, a.1 as int, a.2 as int, vb, e);
            crate::cube::lemma_cube_count_write_cell(v1, b.0 as int, b.1 as int, b.2 as int, va, e);
        }
    }
}

/// Rotate the four distinct cells `a <- b <- c <- d <- a`: the
/// aliasing-safe 4-cycle (read all four old values, then write all four).
fn cycle4(
    rc: &mut RubiksCube,
    a: (usize, usize, usize),
    b: (usize, usize, usize),
    c: (usize, usize, usize),
    d: (usize, usize, usize),
)
    requires
        old(rc).well_formed(),
        a.0 < 6 && a.1 < old(rc).size && a.2 < old(rc).size,
        b.0 < 6 && b.1 < old(rc).size && b.2 < old(rc).size,
        c.0 < 6 && c.1 < old(rc).size && c.2 < old(rc).size,
        d.0 < 6 && d.1 < old(rc).size && d.2 < old(rc).size,
        !(a.0 == b.0 && a.1 == b.1 && a.2 == b.2),
        !(a.0 == c.0 && a.1 == c.1 && a.2 == c.2),
        !(a.0 == d.0 && a.1 == d.1 && a.2 == d.2),
        !(b.0 == c.0 && b.1 == c.1 && b.2 == c.2),
        !(b.0 == d.0 && b.1 == d.1 && b.2 == d.2),
        !(c.0 == d.0 && c.1 == d.1 && c.2 == d.2),
    ensures
        final(rc).well_formed(),
        final(rc).size == old(rc).size,
        final(rc)@[a.0 as int][a.1 as int][a.2 as int] == old(rc)@[b.0 as int][b.1 as int][b.2 as int],
        final(rc)@[b.0 as int][b.1 as int][b.2 as int] == old(rc)@[c.0 as int][c.1 as int][c.2 as int],
        final(rc)@[c.0 as int][c.1 as int][c.2 as int] == old(rc)@[d.0 as int][d.1 as int][d.2 as int],
        final(rc)@[d.0 as int][d.1 as int][d.2 as int] == old(rc)@[a.0 as int][a.1 as int][a.2 as int],
        forall|g: int, r: int, cc: int|
            0 <= g < 6 && 0 <= r < old(rc).size && 0 <= cc < old(rc).size && !(g == a.0 && r == a.1
                && cc == a.2) && !(g == b.0 && r == b.1 && cc == b.2) && !(g == c.0 && r == c.1
                && cc == c.2) && !(g == d.0 && r == d.1 && cc == d.2)
                ==> #[trigger] final(rc)@[g][r][cc] == old(rc)@[g][r][cc],
        forall|e: Color| #[trigger] cube_count(final(rc)@, e) == cube_count(old(rc)@, e),
{
    let ghost v0 = rc@;
    let va = rc.get_cell(a.0, a.1, a.2);
    let vb = rc.get_cell(b.0, b.1, b.2);
    let vc = rc.get_cell(c.0, c.1, c.2);
    let vd = rc.get_cell(d.0, d.1, d.2);
    rc.set_cell(a.0, a.1, a.2, vb);
    let ghost v1 = rc@;
    rc.set_cell(b.0, b.1, b.2, vc);
    let ghost v2 = rc@;
    rc.set_cell(c.0, c.1, c.2, vd);
    let ghost v3 = rc@;
    rc.set_cell(d.0, d.1, d.2, va);
    proof {
        assert forall|e: Color| #[trigger] cube_count(rc@, e) == cube_count(v0, e) by {
            crate::cube::lemma_cube_count_write_cell(v0, a.0 as int, a.1 as int, a.2 as int, vb, e);
            crate::cube::lemma_cube_count_write_cell(v1, b.0 as int, b.1 as int, b.2 as int, vc, e);
            crate::cube::lemma_cube_count_write_cell(v2, c.0 as int, c.1 as int, c.2 as int, vd, e);
            crate::cube::lemma_cube_count_write_cell(v3, d.0 as int, d.1 as int, d.2 as int, va, e);
        }
    }
}

/// Turn the grid of `face` in place by walking its concentric rings and
/// cycling each 4-cell orbit; every other face is untouched.
fn rotate_grid(rc: &mut RubiksCube, face: Face, movement: Movement)
    requires
        old(rc).well_formed(),
    ensures
        final(rc).well_formed(),
        final(rc).size == old(rc).size,
        forall|r: int, c: int|
            0 <= r < old(rc).size && 0 <= c < old(rc).size
                ==> #[trigger] final(rc)@[face_index(face)][r][c] == old(rc)@[face_index(face)][self_src(
                movement,
                r,
                c,
                old(rc).size - 1,
            ).0][self_src(movement, r, c, old(rc).size - 1).1],
        forall|g: int, r: int, c: int|
            0 <= g < 6 && g != face_index(face) && 0 <= r < old(rc).size && 0 <= c < old(rc).size
                ==> #[trigger] final(rc)@[g][r][c] == old(rc)@[g][r][c],
        forall|e: Color| #[trigger] cube_count(final(rc)@, e) == cube_count(old(rc)@, e),
{
    let fi = face_to_index(face);
    let size = rc.size;
    let s = size - 1;
    let ghost v0 = rc@;
    let mut o: usize = 0;
    while o < size / 2
        invariant
            rc.well_formed(),
            rc.size == size,
            1 <= size,
            s == size - 1,
            fi == face_index(face),
            o <= size / 2,
            cube_wf(v0, size as int),
            forall|g: int, r: int, c: int|
                0 <= g < 6 && g != fi && 0 <= r < size && 0 <= c < size
                    ==> #[trigger] rc@[g][r][c] == v0[g][r][c],
            forall|r: int, c: int|
                0 <= r < size && 0 <= c < size ==> #[trigger] rc@[fi as int][r][c] == (
                if ring_of(r, c, s as int) < o {
                    v0[fi as int][self_src(movement, r, c, s as int).0][self_src(
                        movement,
                        r,
                        c,
                        s as int,
                    ).1]
                } else {
                    v0[fi as int][r][c]
                }),
            forall|e: Color| #[trigger] cube_count(rc@, e) == cube_count(v0, e),
        decreases size / 2 - o,
    {
        proof {
            assert forall|r: int, c: int| 0 <= r < size && 0 <= c < size implies rc@[fi as int][r][c]
                == (if orbit_done(r, c, s as int, o as int, o as int) {
                v0[fi as int][self_src(movement, r, c, s as int).0][self_src(
                    movement,
                    r,
                    c,
                    s as int,
                ).1]
            } else {
                v0[fi as int][r][c]
            }) by {
                lemma_ring_rep_range(r, c, s as int, movement);
            }
        }
        let mut i: usize = o;
        while i < s - o
            invariant
                rc.well_formed(),
                rc.size == size,
                1 <= size,
                s == size - 1,
                fi == face_index(face),
                2 * o < s,
                o <= i <= s - o,
                cube_wf(v0, size as int),
                forall|g: int, r: int, c: int|
                    0 <= g < 6 && g != fi && 0 <= r < size && 0 <= c < size
                        ==> #[trigger] rc@[g][r][c] == v0[g][r][c],
                forall|r: int, c: int|
                    0 <= r < size && 0 <= c < size ==> #[trigger] rc@[fi as int][r][c] == (
                    if orbit_done(r, c, s as int, o as int, i as int) {
                        v0[fi as int][self_src(movement, r, c, s as int).0][self_src(
                            movement,
                            r,
                            c,
                            s as int,
                        ).1]
                    } else {
                        v0[fi as int][r][c]
                    }),
                forall|e: Color| #[trigger] cube_count(rc@, e) == cube_count(v0, e),
            decreases s - o - i,
        {
            proof {
                lemma_orbit_cells(s as int, o as int, i as int);
            }
            let p0 = (fi, o, i);
            let p1 = (fi, s - i, o);
            let p2 = (fi, s - o, s - i);
            let p3 = (fi, i, s - o);
            match movement {
                Movement::Clockwise => cycle4(rc, p0, p1, p2, p3),
                Movement::CounterClockwise => cycle4(rc, p0, p3, p2, p1),
                Movement::Half => {
                    swap2(rc, p0, p2);
                    swap2(rc, p1, p3);
                },
            }
            proof {
                assert forall|r: int, c: int| 0 <= r < size && 0 <= c < size implies rc@[fi as int][r][c]
                    == (if orbit_done(r, c, s as int, o as int, i + 1) {
                    v0[fi as int][self_src(movement, r, c, s as int).0][self_src(
                        movement,
                        r,
                        c,
                        s as int,
                    ).1]
                } else {
                    v0[fi as int][r][c]
                }) by {
                    lemma_orbit_cells(s as int, o as int, i as int);
                    lemma_ring_rep_range(r, c, s as int, movement);
                }
            }
            i = i + 1;
        }
        proof {
            assert forall|r: int, c: int| 0 <= r < size && 0 <= c < size implies rc@[fi as int][r][c]
                == (if ring_of(r, c, s as int) < o + 1 {
                v0[fi as int][self_src(movement, r, c, s as int).0][self_src(
                    movement,
                    r,
                    c,
                    s as int,
                ).1]
            } else {
                v0[fi as int][r][c]
            }) by {
                lemma_ring_rep_range(r, c, s as int, movement);
            }
        }
        o = o + 1;
    }
    proof {
        assert forall|r: int, c: int| 0 <= r < size && 0 <= c < size implies rc@[fi as int][r][c]
            == v0[fi as int][self_src(movement, r, c, s as int).0][self_src(
            movement,
            r,
            c,
            s as int,
        ).1] by {
            lemma_ring_rep_range(r, c, s as int, movement);
        }
    }
}

/// Whether the border permutation of a turn of `f` has already reached
/// cell `(g, r, c)` after `i` walk steps: the cell lies on the selected
/// border of a neighboring face and its walk index is below `i`.
spec fn border_done(f: Face, depth: int, size: int, g: int, r: int, c: int, i: int) -> bool {
    let k = slot_of(f, g);
    &&& k >= 0
    &&& on_border(side_of(f, k).1, r, c, size, depth)
    &&& border_index(side_of(f, k).1, r, c, size) < i
}

/// The `k`-th of the four border cells affected at walk step `i`: face
/// index, row and column.
spec fn border_cell(f: Face, k: int, i: int, size: int, depth: int) -> (int, int, int) {
    let sd = side_of(f, k);
    let p = pos_spec(sd.1, i, size, depth);
    (face_index(sd.0), p.0, p.1)
}

/// The color at a (face, row, column) triple.
spec fn cell_at(v: Seq<Seq<Seq<Color>>>, p: (int, int, int)) -> Color {
    v[p.0][p.1][p.2]
}

/// One walk step of the border permutation, seen at one cell: if the
/// step's four cells each took the value of the cell
/// `shift_of(movement)` slots along and nothing else moved, the cell
/// `(g, r, c)` now agrees with the permutation advanced from `i` to
/// `i + 1`.
proof fn lemma_border_step(
    v0: Seq<Seq<Seq<Color>>>,
    vpre: Seq<Seq<Seq<Color>>>,
    vpost: Seq<Seq<Seq<Color>>>,
    face: Face,
    movement: Movement,
    depth: int,
    size: int,
    i: int,
    g: int,
    r: int,
    c: int,
)
    requires
        cube_wf(v0, size),
        0 <= depth < size,
        0 <= i < size,
        forall|g: int, r: int, c: int|
            0 <= g < 6 && 0 <= r < size && 0 <= c < size ==> #[trigger] vpre[g][r][c] == (
            if border_done(face, depth, size, g, r, c, i) {
                side_cell_after(v0, face, movement, depth, size, g, r, c)
            } else {
                v0[g][r][c]
            }),
        cell_at(vpost, border_cell(face, 0, i, size, depth)) == cell_at(
            vpre,
            border_cell(face, (0 + shift_of(movement)) % 4, i, size, depth),
        ),
        cell_at(vpost, border_cell(face, 1, i, size, depth)) == cell_at(
            vpre,
            border_cell(face, (1 + shift_of(movement)) % 4, i, size, depth),
        ),
        cell_at(vpost, border_cell(face, 2, i, size, depth)) == cell_at(
            vpre,
            border_cell(face, (2 + shift_of(movement)) % 4, i, size, depth),
        ),
        cell_at(vpost, border_cell(face, 3, i, size, depth)) == cell_at(
            vpre,
            border_cell(face, (3 + shift_of(movement)) % 4, i, size, depth),
        ),
        forall|gg: int, rr: int, cc: int|
            0 <= gg < 6 && 0 <= rr < size && 0 <= cc < size && (gg, rr, cc) != border_cell(
                face,
                0,
                i,
                size,
                depth,
            ) && (gg, rr, cc) != border_cell(face, 1, i, size, depth) && (gg, rr, cc)
                != border_cell(face, 2, i, size, depth) && (gg, rr, cc) != border_cell(
                face,
                3,
                i,
                size,
                depth,
            ) ==> #[trigger] vpost[gg][rr][cc] == vpre[gg][rr][cc],
        0 <= g < 6,
        0 <= r < size,
        0 <= c < size,
    ensures
        vpost[g][r][c] == (if border_done(face, depth, size, g, r, c, i + 1) {
            side_cell_after(v0, face, movement, depth, size, g, r, c)
        } else {
            v0[g][r][c]
        }),
{
    lemma_slot_inverse(face);
    lemma_border_round_trip(side_of(face, 0).1, i, size, depth);
    lemma_border_round_trip(side_of(face, 1).1, i, size, depth);
    lemma_border_round_trip(side_of(face, 2).1, i, size, depth);
    lemma_border_round_trip(side_of(face, 3).1, i, size, depth);
    let k = slot_of(face, g);
    if k >= 0 && on_border(side_of(face, k).1, r, c, size, depth) {
        lemma_border_index_inverse(side_of(face, k).1, r, c, size, depth);
        let bi = border_index(side_of(face, k).1, r, c, size);
        if bi == i {
            let ks = (k + shift_of(movement)) % 4;
            lemma_border_round_trip(side_of(face, ks).1, i, size, depth);
            assert((g, r, c) == border_cell(face, k, i, size, depth));
            assert(cell_at(vpost, border_cell(face, k, i, size, depth)) == cell_at(
                vpre,
                border_cell(face, ks, i, size, depth),
            ));
            assert(!border_done(
                face,
                depth,
                size,
                border_cell(face, ks, i, size, depth).0,
                border_cell(face, ks, i, size, depth).1,
                border_cell(face, ks, i, size, depth).2,
                i,
            ));
        }
    }
}

/// Cyclically permute the border cells of the four faces adjacent to
/// `face` at the given layer depth, one aliasing-safe 4-cycle (or pair
/// of swaps) per walk step.
#[verifier::rlimit(100)]
fn cycle_borders(rc: &mut RubiksCube, face: Face, movement: Movement, depth: usize)
    requires
        old(rc).well_formed(),
        depth < old(rc).size,
    ensures
        final(rc).well_formed(),
        final(rc).size == old(rc).size,
        forall|g: int, r: int, c: int|
            0 <= g < 6 && 0 <= r < old(rc).size && 0 <= c < old(rc).size
                ==> #[trigger] final(rc)@[g][r][c] == side_cell_after(
                old(rc)@,
                face,
                movement,
                depth as int,
                old(rc).size as int,
                g,
                r,
                c,
            ),
        forall|e: Color| #[trigger] cube_count(final(rc)@, e) == cube_count(old(rc)@, e),
{
    let sides = get_sides(face);
    let g0 = face_to_index(sides[0].0);
    let g1 = face_to_index(sides[1].0);
    let g2 = face_to_index(sides[2].0);
    let g3 = face_to_index(sides[3].0);
    let size = rc.size;
    let ghost v0 = rc@;
    proof {
        assert forall|g: int, r: int, c: int| 0 <= g < 6 && 0 <= r < size && 0 <= c < size implies
            rc@[g][r][c] == (if border_done(face, depth as int, size as int, g, r, c, 0) {
            side_cell_after(v0, face, movement, depth as int, size as int, g, r, c)
        } else {
            v0[g][r][c]
        }) by {
            if slot_of(face, g) >= 0 && on_border(
                side_of(face, slot_of(face, g)).1,
                r,
                c,
                size as int,
                depth as int,
            ) {
                lemma_border_index_inverse(
                    side_of(face, slot_of(face, g)).1,
                    r,
                    c,
                    size as int,
                    depth as int,
                );
            }
        }
    }
    let mut i: usize = 0;
    while i < size
        invariant
            rc.well_formed(),
            rc.size == size,
            1 <= size,
            depth < size,
            i <= size,
            g0 == face_index(side_of(face, 0).0),
            g1 == face_index(side_of(face, 1).0),
            g2 == face_index(side_of(face, 2).0),
            g3 == face_index(side_of(face, 3).0),
            sides[0] == side_of(face, 0),
            sides[1] == side_of(face, 1),
            sides[2] == side_of(face, 2),
            sides[3] == side_of(face, 3),
            cube_wf(v0, size as int),
            forall|g: int, r: int, c: int|
                0 <= g < 6 && 0 <= r < size && 0 <= c < size ==> #[trigger] rc@[g][r][c] == (
                if border_done(face, depth as int, size as int, g, r, c, i as int) {
                    side_cell_after(v0, face, movement, depth as int, size as int, g, r, c)
                } else {
                    v0[g][r][c]
                }),
            forall|e: Color| #[trigger] cube_count(rc@, e) == cube_count(v0, e),
        decreases size - i,
    {
        proof {
            lemma_slot_inverse(face);
            lemma_border_round_trip(side_of(face, 0).1, i as int, size as int, depth as int);
            lemma_border_round_trip(side_of(face, 1).1, i as int, size as int, depth as int);
            lemma_border_round_trip(side_of(face, 2).1, i as int, size as int, depth as int);
            lemma_border_round_trip(side_of(face, 3).1, i as int, size as int, depth as int);
        }
        let q0 = position_based_off_corner_and_move_count(sides[0].1, i, size, depth);
        let q1 = position_based_off_corner_and_move_count(sides[1].1, i, size, depth);
        let q2 = position_based_off_corner_and_move_count(sides[2].1, i, size, depth);
        let q3 = position_based_off_corner_and_move_count(sides[3].1, i, size, depth);
        let ghost vpre = rc@;
        match movement {
            Movement::Clockwise => cycle4(
                rc,
                (g0, q0.0, q0.1),
                (g3, q3.0, q3.1),
                (g2, q2.0, q2.1),
                (g1, q1.0, q1.1),
            ),
            Movement::CounterClockwise => cycle4(
                rc,
                (g0, q0.0, q0.1),
                (g1, q1.0, q1.1),
                (g2, q2.0, q2.1),
                (g3, q3.0, q3.1),
            ),
            Movement::Half => {
                swap2(rc, (g0, q0.0, q0.1), (g2, q2.0, q2.1));
                swap2(rc, (g1, q1.0, q1.1), (g3, q3.0, q3.1));
            },
        }
        proof {
            assert(border_cell(face, 0, i as int, size as int, depth as int) == (
                g0 as int,
                q0.0 as int,
                q0.1 as int,
            ));
            assert(border_cell(face, 1, i as int, size as int, depth as int) == (
                g1 as int,
                q1.0 as int,
                q1.1 as int,
            ));
            assert(border_cell(face, 2, i as int, size as int, depth as int) == (
                g2 as int,
                q2.0 as int,
                q2.1 as int,
            ));
            assert(border_cell(face, 3, i as int, size as int, depth as int) == (
                g3 as int,
                q3.0 as int,
                q3.1 as int,
            ));
            assert(cell_at(rc@, border_cell(face, 0, i as int, size as int, depth as int))
                == cell_at(
                vpre,
                border_cell(
                    face,
                    (0 + shift_of(movement)) % 4,
                    i as int,
                    size as int,
                    depth as int,
                ),
            ));
            assert(cell_at(rc@, border_cell(face, 1, i as int, size as int, depth as int))
                == cell_at(
                vpre,
                border_cell(
                    face,
                    (1 + shift_of(movement)) % 4,
                    i as int,
                    size as int,
                    depth as int,
                ),
            ));
            assert(cell_at(rc@, border_cell(face, 2, i as int, size as int, depth as int))
                == cell_at(
                vpre,
                border_cell(
                    face,
                    (2 + shift_of(movement)) % 4,
                    i as int,
                    size as int,
                    depth as int,
                ),
            ));
            assert(cell_at(rc@, border_cell(face, 3, i as int, size as int, depth as int))
                == cell_at(
                vpre,
                border_cell(
                    face,
                    (3 + shift_of(movement)) % 4,
                    i as int,
                    size as int,
                    depth as int,
                ),
            ));
            assert forall|g: int, r: int, c: int|
                0 <= g < 6 && 0 <= r < size && 0 <= c < size implies #[trigger] rc@[g][r][c] == (
                if border_done(face, depth as int, size as int, g, r, c, i + 1) {
                    side_cell_after(v0, face, movement, depth as int, size as int, g, r, c)
                } else {
                    v0[g][r][c]
                }) by {
                lemma_border_step(
                    v0,
                    vpre,
                    rc@,
                    face,
                    movement,
                    depth as int,
                    size as int,
                    i as int,
                    g,
                    r,
                    c,
                );
            }
        }
        i = i + 1;
    }
    proof {
        assert forall|g: int, r: int, c: int| 0 <= g < 6 && 0 <= r < size && 0 <= c < size implies
            rc@[g][r][c] == side_cell_after(v0, face, movement, depth as int, size as int, g, r, c) by {
            if slot_of(face, g) >= 0 && on_border(
                side_of(face, slot_of(face, g)).1,
                r,
                c,
                size as int,
                depth as int,
            ) {
                lemma_border_index_inverse(
                    side_of(face, slot_of(face, g)).1,
                    r,
                    c,
                    size as int,
                    depth as int,
                );
            }
        }
    }
}

/// Rotate face `face` of the cube with the given movement at layer
/// `depth`: at depth 0 the face's own grid turns in place, and at every
/// depth the border cells of the four adjacent faces shift cyclically.
/// The result is exactly `rotate_spec` of the prior state, and the
/// multiset of colors over the whole cube is conserved: for every color,
/// as many facelets hold it afterwards as before.
pub fn rotate_face(rc: &mut RubiksCube, face: Face, movement: Movement, depth: usize)
    requires
        old(rc).well_formed(),
        depth < old(rc).size,
    ensures
        final(rc).well_formed(),
        final(rc).size == old(rc).size,
        final(rc)@ == rotate_spec(old(rc)@, face, movement, depth as int, old(rc).size as int),
        forall|e: Color| #[trigger] cube_count(final(rc)@, e) == cube_count(old(rc)@, e),
{
    let ghost v0 = rc@;
    let ghost n = rc.size as int;
    if depth == 0 {
        rotate_grid(rc, face, movement);
    }
    let ghost v1 = rc@;
    cycle_borders(rc, face, movement, depth);
    proof {
        lemma_slot_inverse(face);
        assert forall|g: int, r: int, c: int| 0 <= g < 6 && 0 <= r < n && 0 <= c < n implies
            rc@[g][r][c] == cell_after(v0, face, movement, depth as int, n, g, r, c) by {
            let k = slot_of(face, g);
            if k >= 0 && on_border(side_of(face, k).1, r, c, n, depth as int) {
                lemma_border_index_inverse(side_of(face, k).1, r, c, n, depth as int);
                let i = border_index(side_of(face, k).1, r, c, n);
                let ks = (k + shift_of(movement)) % 4;
                lemma_border_round_trip(side_of(face, ks).1, i, n, depth as int);
            }
        }
        assert(rc@ =~~= rotate_spec(v0, face, movement, depth as int, n));
    }
}

} // verus!
