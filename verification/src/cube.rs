//! The cube state container: six N x N grids of colors, with the
//! well-formedness invariant on their shape and verified cell access.

use vstd::prelude::*;

verus! {

/// A facelet color from the fixed six-color palette.
#[derive(Clone, Copy, Debug, PartialEq, Eq, Structural)]
pub enum Color {
    White,
    Yellow,
    Red,
    Orange,
    Blue,
    Green,
}

/// The cube: `faces[g]` is the N x N grid of face index `g` (see
/// `geometry::face_index`), with `faces[g][r][c]` the facelet at row `r`,
/// column `c`. `size` is N, fixed at construction.
#[derive(Clone, Debug)]
pub struct RubiksCube {
    pub size: usize,
    pub faces: Vec<Vec<Vec<Color>>>,
}

impl View for RubiksCube {
    type V = Seq<Seq<Seq<Color>>>;

    open spec fn view(&self) -> Seq<Seq<Seq<Color>>> {
        self.faces@.map_values(|face: Vec<Vec<Color>>| face@.map_values(|row: Vec<Color>| row@))
    }
}

/// A cube view of size `n`: exactly six grids, each exactly n x n.
pub open spec fn cube_wf(v: Seq<Seq<Seq<Color>>>, n: int) -> bool {
    &&& v.len() == 6
    &&& forall|g: int| 0 <= g < 6 ==> (#[trigger] v[g]).len() == n
    &&& forall|g: int, r: int| 0 <= g < 6 && 0 <= r < n ==> (#[trigger] v[g][r]).len() == n
}

/// The color each face starts with in the solved state.
pub open spec fn start_color(g: int) -> Color {
    if g == 0 {
        Color::Yellow
    } else if g == 1 {
        Color::Orange
    } else if g == 2 {
        Color::Blue
    } else if g == 3 {
        Color::Red
    } else if g == 4 {
        Color::Green
    } else {
        Color::White
    }
}

/// The solved cube of size `n`: each face uniformly its start color.
pub open spec fn solved_cube(n: int) -> Seq<Seq<Seq<Color>>> {
    Seq::new(6, |g: int| Seq::new(n as nat, |r: int| Seq::new(n as nat, |c: int| start_color(g))))
}

impl RubiksCube {
    /// The shape invariant: six grids, each `size` x `size`, with
    /// `size >= 1`.
    pub open spec fn well_formed(&self) -> bool {
        &&& 1 <= self.size
        &&& cube_wf(self@, self.size as int)
    }

    /// Construct a solved cube of the given size.
    pub fn new(size: usize) -> (rc: RubiksCube)
        requires
            1 <= size,
        ensures
            rc.well_formed(),
            rc.size == size,
            rc@ == solved_cube(size as int),
    {
        let mut faces: Vec<Vec<Vec<Color>>> = Vec::new();
        let mut g: usize = 0;
        while g < 6
            invariant
                g <= 6,
                faces@.len() == g,
                forall|gi: int| 0 <= gi < g ==> (#[trigger] faces@[gi])@.map_values(
                    |row: Vec<Color>| row@,
                ) == solved_cube(size as int)[gi],
            decreases 6 - g,
        {
            let color = match g {
                0 => Color::Yellow,
                1 => Color::Orange,
                2 => Color::Blue,
                3 => Color::Red,
                4 => Color::Green,
                _ => Color::White,
            };
            let grid = uniform_grid(size, color);
            proof {
                assert(grid@.map_values(|row: Vec<Color>| row@) =~~= solved_cube(
                    size as int,
                )[g as int]);
            }
            faces.push(grid);
            g = g + 1;
        }
        let rc = RubiksCube { size, faces };
        proof {
            assert(rc@ =~~= solved_cube(size as int));
        }
        rc
    }

    /// Read the facelet at face index `f`, row `r`, column `c`.
    pub fn get_cell(&self, f: usize, r: usize, c: usize) -> (color: Color)
        requires
            self.well_formed(),
            f < 6,
            r < self.size,
            c < self.size,
        ensures
            color == self@[f as int][r as int][c as int],
    {
        self.faces[f][r][c]
    }

    /// Write the facelet at face index `f`, row `r`, column `c`; every
    /// other facelet keeps its value.
    pub fn set_cell(&mut self, f: usize, r: usize, c: usize, color: Color)
        requires
            old(self).well_formed(),
            f < 6,
            r < old(self).size,
            c < old(self).size,
        ensures
            final(self).well_formed(),
            final(self).size == old(self).size,
            final(self)@ == write_cell(old(self)@, f as int, r as int, c as int, color),
            final(self)@[f as int][r as int][c as int] == color,
            forall|g: int, i: int, j: int|
                0 <= g < 6 && 0 <= i < old(self).size && 0 <= j < old(self).size && !(g == f && i
                    == r && j == c) ==> #[trigger] final(self)@[g][i][j] == old(self)@[g][i][j],
    {
        proof {
            assert(self@[f as int].len() == self.faces@[f as int]@.len());
            assert(self@[f as int][r as int].len() == self.faces@[f as int]@[r as int]@.len());
        }
        let row: &mut Vec<Color> = &mut self.faces[f][r];
        row[c] = color;
        proof {
            assert(self@ =~~= old(self)@.update(
                f as int,
                old(self)@[f as int].update(r as int, old(self)@[f as int][r as int].update(c as int, color)),
            ));
        }
    }
}

impl PartialEq for RubiksCube {
    /// Two cubes are equal when they have the same size and every
    /// facelet agrees.
    fn eq(&self, other: &RubiksCube) -> (r: bool) {
        if self.size != other.size {
            return false;
        }
        if self.faces.len() != other.faces.len() {
            proof {
                assert(self@.len() != other@.len());
            }
            return false;
        }
        let mut g: usize = 0;
        while g < self.faces.len()
            invariant
                g <= self.faces@.len(),
                self.faces@.len() == other.faces@.len(),
                self@.len() == self.faces@.len(),
                other@.len() == other.faces@.len(),
                forall|gi: int| 0 <= gi < g ==> #[trigger] self@[gi] == other@[gi],
            decreases self.faces@.len() - g,
        {
            proof {
                assert(self@[g as int] == self.faces@[g as int]@.map_values(
                    |row: Vec<Color>| row@,
                ));
                assert(other@[g as int] == other.faces@[g as int]@.map_values(
                    |row: Vec<Color>| row@,
                ));
            }
            if self.faces[g].len() != other.faces[g].len() {
                proof {
                    assert(self@[g as int].len() != other@[g as int].len());
                }
                return false;
            }
            let mut r: usize = 0;
            while r < self.faces[g].len()
                invariant
                    g < self.faces@.len(),
                    self.faces@.len() == other.faces@.len(),
                    self@.len() == self.faces@.len(),
                    other@.len() == other.faces@.len(),
                    r <= self@[g as int].len(),
                    self@[g as int].len() == other@[g as int].len(),
                    self@[g as int].len() == self.faces@[g as int]@.len(),
                    other@[g as int].len() == other.faces@[g as int]@.len(),
                    forall|ri: int|
                        0 <= ri < r ==> #[trigger] self@[g as int][ri] == other@[g as int][ri],
                decreases self@[g as int].len() - r,
            {
                proof {
                    assert(self@[g as int][r as int] == self.faces@[g as int]@[r as int]@);
                    assert(other@[g as int][r as int] == other.faces@[g as int]@[r as int]@);
                }
                if self.faces[g][r].len() != other.faces[g][r].len() {
                    proof {
                        assert(self@[g as int][r as int].len() != other@[g as int][r as int].len());
                        assert(self@[g as int] != other@[g as int]);
                    }
                    return false;
                }
                let mut c: usize = 0;
                while c < self.faces[g][r].len()
                    invariant
                        g < self.faces@.len(),
                        r < self.faces@[g as int]@.len(),
                        r < other.faces@[g as int]@.len(),
                        self@.len() == self.faces@.len(),
                        other@.len() == other.faces@.len(),
                        self.faces@.len() == other.faces@.len(),
                        self@[g as int][r as int] == self.faces@[g as int]@[r as int]@,
                        other@[g as int][r as int] == other.faces@[g as int]@[r as int]@,
                        c <= self@[g as int][r as int].len(),
                        self@[g as int][r as int].len() == other@[g as int][r as int].len(),
                        forall|ci: int|
                            0 <= ci < c ==> #[trigger] self@[g as int][r as int][ci] == other@[g as int][r as int][ci],
                    decreases self@[g as int][r as int].len() - c,
                {
                    if self.faces[g][r][c] != other.faces[g][r][c] {
                        proof {
                            assert(self@[g as int][r as int][c as int] != other@[g as int][r as int][c as int]);
                            assert(self@[g as int][r as int] != other@[g as int][r as int]);
                            assert(self@[g as int] != other@[g as int]);
                        }
                        return false;
                    }
                    c = c + 1;
                }
                proof {
                    assert(self@[g as int][r as int] =~= other@[g as int][r as int]);
                }
                r = r + 1;
            }
            proof {
                assert(self@[g as int] =~~= other@[g as int]);
            }
            g = g + 1;
        }
        proof {
            assert(self@ =~~= other@);
        }
        true
    }
}

impl vstd::std_specs::cmp::PartialEqSpecImpl for RubiksCube {
    open spec fn obeys_eq_spec() -> bool {
        true
    }

    open spec fn eq_spec(&self, other: &RubiksCube) -> bool {
        self.size == other.size && self@ == other@
    }
}

/// How many facelets of a row hold color `e`.
pub open spec fn row_count(s: Seq<Color>, e: Color) -> int
    decreases s.len(),
{
    if s.len() <= 0 {
        0
    } else {
        row_count(s.drop_last(), e) + if s.last() == e {
            1int
        } else {
            0int
        }
    }
}

/// How many facelets of a face grid hold color `e`.
pub open spec fn grid_count(g: Seq<Seq<Color>>, e: Color) -> int
    decreases g.len(),
{
    if g.len() <= 0 {
        0
    } else {
        grid_count(g.drop_last(), e) + row_count(g.last(), e)
    }
}

/// How many facelets of the whole cube hold color `e`. Two cubes with the
/// same `cube_count` for every color carry the same multiset of colors.
pub open spec fn cube_count(v: Seq<Seq<Seq<Color>>>, e: Color) -> int
    decreases v.len(),
{
    if v.len() <= 0 {
        0
    } else {
        cube_count(v.drop_last(), e) + grid_count(v.last(), e)
    }
}

/// The view of the cube after writing color `x` at face `g`, row `r`,
/// column `c`.
pub open spec fn write_cell(v: Seq<Seq<Seq<Color>>>, g: int, r: int, c: int, x: Color) -> Seq<
    Seq<Seq<Color>>,
> {
    v.update(g, v[g].update(r, v[g][r].update(c, x)))
}

proof fn lemma_row_count_update(s: Seq<Color>, i: int, x: Color, e: Color)
    requires
        0 <= i < s.len(),
    ensures
        row_count(s.update(i, x), e) + (if s[i] == e {
            1int
        } else {
            0int
        }) == row_count(s, e) + (if x == e {
            1int
        } else {
            0int
        }),
    decreases s.len(),
{
    let t = s.update(i, x);
    if i == s.len() - 1 {
        assert(t.drop_last() =~= s.drop_last());
    } else {
        assert(t.drop_last() =~= s.drop_last().update(i, x));
        lemma_row_count_update(s.drop_last(), i, x, e);
    }
}

proof fn lemma_grid_count_update(g: Seq<Seq<Color>>, r: int, row: Seq<Color>, e: Color)
    requires
        0 <= r < g.len(),
    ensures
        grid_count(g.update(r, row), e) + row_count(g[r], e) == grid_count(g, e) + row_count(
            row,
            e,
        ),
    decreases g.len(),
{
    let t = g.update(r, row);
    if r == g.len() - 1 {
        assert(t.drop_last() =~= g.drop_last());
    } else {
        assert(t.drop_last() =~= g.drop_last().update(r, row));
        lemma_grid_count_update(g.drop_last(), r, row, e);
    }
}

proof fn lemma_cube_count_update(v: Seq<Seq<Seq<Color>>>, gi: int, grid: Seq<Seq<Color>>, e: Color)
    requires
        0 <= gi < v.len(),
    ensures
        cube_count(v.update(gi, grid), e) + grid_count(v[gi], e) == cube_count(v, e) + grid_count(
            grid,
            e,
        ),
    decreases v.len(),
{
    let t = v.update(gi, grid);
    if gi == v.len() - 1 {
        assert(t.drop_last() =~= v.drop_last());
    } else {
        assert(t.drop_last() =~= v.drop_last().update(gi, grid));
        lemma_cube_count_update(v.drop_last(), gi, grid, e);
    }
}

/// Writing one cell trades away the old color of that cell for the new
/// one and changes no other count: the basis of color conservation.
pub proof fn lemma_cube_count_write_cell(
    v: Seq<Seq<Seq<Color>>>,
    g: int,
    r: int,
    c: int,
    x: Color,
    e: Color,
)
    requires
        0 <= g < v.len(),
        0 <= r < v[g].len(),
        0 <= c < v[g][r].len(),
    ensures
        cube_count(write_cell(v, g, r, c, x), e) + (if v[g][r][c] == e {
            1int
        } else {
            0int
        }) == cube_count(v, e) + (if x == e {
            1int
        } else {
            0int
        }),
{
    lemma_row_count_update(v[g][r], c, x, e);
    lemma_grid_count_update(v[g], r, v[g][r].update(c, x), e);
    lemma_cube_count_update(v, g, v[g].update(r, v[g][r].update(c, x)), e);
}

/// A `size` x `size` grid uniformly filled with `color`.
fn uniform_grid(size: usize, color: Color) -> (grid: Vec<Vec<Color>>)
    ensures
        grid@.len() == size,
        forall|r: int| 0 <= r < size ==> (#[trigger] grid@[r])@.len() == size,
        forall|r: int, c: int| 0 <= r < size && 0 <= c < size ==> (#[trigger] grid@[r]@[c]) == color,
{
    let mut grid: Vec<Vec<Color>> = Vec::new();
    let mut r: usize = 0;
    while r < size
        invariant
            r <= size,
            grid@.len() == r,
            forall|i: int| 0 <= i < r ==> (#[trigger] grid@[i])@.len() == size,
            forall|i: int, j: int| 0 <= i < r && 0 <= j < size ==> (#[trigger] grid@[i]@[j]) == color,
        decreases size - r,
    {
        let mut row: Vec<Color> = Vec::new();
        let mut c: usize = 0;
        while c < size
            invariant
                c <= size,
                row@.len() == c,
                forall|j: int| 0 <= j < c ==> (#[trigger] row@[j]) == color,
            decreases size - c,
        {
            row.push(color);
            c = c + 1;
        }
        grid.push(row);
        r = r + 1;
    }
    grid
}

} // verus!
