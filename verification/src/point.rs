//! A position in a two-dimensional grid.
//!
//! Coordinates are unsigned. Stepping below zero or above `usize::MAX` wraps
//! around, as two's-complement arithmetic would; a wrapped coordinate is far
//! outside any grid, so bounds filtering (see `grid`) discards it.

use vstd::prelude::*;

verus! {

/// A point in a 2D grid, addressed by column `x` and row `y`.
#[derive(Debug, Clone, Copy, PartialEq, Eq, Hash, Structural)]
pub struct Point {
    pub x: usize,
    pub y: usize,
}

/// The coordinate one step down from `a`, wrapping below zero.
pub open spec fn step_down_spec(a: usize) -> usize {
    if a == 0 {
        usize::MAX
    } else {
        (a - 1) as usize
    }
}

/// The coordinate one step up from `a`, wrapping above `usize::MAX`.
pub open spec fn step_up_spec(a: usize) -> usize {
    if a == usize::MAX {
        0
    } else {
        (a + 1) as usize
    }
}

/// The absolute difference of two coordinates, as a mathematical integer.
pub open spec fn abs_diff(a: usize, b: usize) -> int {
    if a >= b {
        a - b
    } else {
        b - a
    }
}

/// The `k`-th coordinate stepping from `a` toward `b`.
pub open spec fn toward(a: usize, b: usize, k: int) -> usize {
    if a <= b {
        (a + k) as usize
    } else {
        (a - k) as usize
    }
}

/// The number of lattice positions from `a` to `b`, both included.
pub open spec fn span(a: usize, b: usize) -> int {
    abs_diff(a, b) + 1
}

/// The lattice points of the axis-aligned rectangle spanned by `a` and `b`:
/// for each x from `a.x` toward `b.x`, every y from `a.y` toward `b.y`, all
/// endpoints included.
pub open spec fn line_points(a: Point, b: Point) -> Seq<Point> {
    Seq::new(
        (span(a.x, b.x) * span(a.y, b.y)) as nat,
        |k: int|
            Point {
                x: toward(a.x, b.x, k / span(a.y, b.y)),
                y: toward(a.y, b.y, k % span(a.y, b.y)),
            },
    )
}

fn step_down(a: usize) -> (r: usize)
    ensures
        r == step_down_spec(a),
{
    if a == 0 {
        usize::MAX
    } else {
        a - 1
    }
}

fn step_up(a: usize) -> (r: usize)
    ensures
        r == step_up_spec(a),
{
    if a == usize::MAX {
        0
    } else {
        a + 1
    }
}

impl Point {
    /// The four orthogonal neighbor candidates: left, right, up, down.
    pub open spec fn orthogonal_candidates(self) -> Seq<Point> {
        seq![
            Point { x: step_down_spec(self.x), y: self.y },
            Point { x: step_up_spec(self.x), y: self.y },
            Point { x: self.x, y: step_down_spec(self.y) },
            Point { x: self.x, y: step_up_spec(self.y) },
        ]
    }

    /// The four diagonal neighbor candidates: up-left, up-right, down-left,
    /// down-right.
    pub open spec fn diagonal_candidates(self) -> Seq<Point> {
        seq![
            Point { x: step_down_spec(self.x), y: step_down_spec(self.y) },
            Point { x: step_up_spec(self.x), y: step_down_spec(self.y) },
            Point { x: step_down_spec(self.x), y: step_up_spec(self.y) },
            Point { x: step_up_spec(self.x), y: step_up_spec(self.y) },
        ]
    }

    /// Returns a new `Point`. No validation: bounds are enforced only by grids.
    pub fn new(x: usize, y: usize) -> (p: Self)
        ensures
            p == (Point { x, y }),
    {
        Point { x, y }
    }

    /// The Manhattan distance `|a.x - b.x| + |a.y - b.y|`, computed with
    /// absolute differences so that it never underflows.
    pub fn manhattan_distance(&self, other: &Self) -> (d: usize)
        requires
            abs_diff(self.x, other.x) + abs_diff(self.y, other.y) <= usize::MAX,
        ensures
            d == abs_diff(self.x, other.x) + abs_diff(self.y, other.y),
    {
        let dx = if self.x >= other.x {
            self.x - other.x
        } else {
            other.x - self.x
        };
        let dy = if self.y >= other.y {
            self.y - other.y
        } else {
            other.y - self.y
        };
        dx + dy
    }

    /// All eight neighbor candidates: the orthogonal ones followed by the
    /// diagonal ones, order preserved.
    pub fn neighbors(&self) -> (r: Vec<Point>)
        ensures
            r@ == self.orthogonal_candidates() + self.diagonal_candidates(),
            r@.len() == 8,
    {
        let mut r = self.orthogonal_neighbors();
        let mut d = self.diagonal_neighbors();
        r.append(&mut d);
        r
    }

    /// The orthogonal neighbor candidates in the order left, right, up, down.
    pub fn orthogonal_neighbors(&self) -> (r: Vec<Point>)
        ensures
            r@ == self.orthogonal_candidates(),
    {
        let mut r: Vec<Point> = Vec::new();
        r.push(Point { x: step_down(self.x), y: self.y });
        r.push(Point { x: step_up(self.x), y: self.y });
        r.push(Point { x: self.x, y: step_down(self.y) });
        r.push(Point { x: self.x, y: step_up(self.y) });
        proof {
            assert(r@ =~= self.orthogonal_candidates());
        }
        r
    }

    /// All lattice points in the axis-aligned rectangle spanned by `a` and
    /// `b`, iterated x-major from `a` toward `b`, both corners included.
    /// (The name is historical: this fills the rectangle, it does not trace
    /// a segment.)
    pub fn line(a: Point, b: Point) -> (r: Vec<Point>)
        requires
            span(a.x, b.x) * span(a.y, b.y) <= usize::MAX,
        ensures
            r@ == line_points(a, b),
    {
        let dx = if a.x >= b.x {
            a.x - b.x
        } else {
            b.x - a.x
        };
        let dy = if a.y >= b.y {
            a.y - b.y
        } else {
            b.y - a.y
        };
        proof {
            assert(span(a.x, b.x) <= span(a.x, b.x) * span(a.y, b.y)) by (nonlinear_arith)
                requires
                    span(a.y, b.y) >= 1,
                    span(a.x, b.x) >= 1,
            {
            }
            assert(span(a.y, b.y) <= span(a.x, b.x) * span(a.y, b.y)) by (nonlinear_arith)
                requires
                    span(a.y, b.y) >= 1,
                    span(a.x, b.x) >= 1,
            {
            }
        }
        let sx = dx + 1;
        let sy = dy + 1;
        let mut r: Vec<Point> = Vec::new();
        let mut i: usize = 0;
        while i < sx
            invariant
                sx == span(a.x, b.x),
                sy == span(a.y, b.y),
                sx * sy <= usize::MAX,
                i <= sx,
                r@.len() == i * sy,
                forall|k: int| 0 <= k < r@.len() ==> #[trigger] r@[k] == line_points(a, b)[k],
            decreases sx - i,
        {
            let mut j: usize = 0;
            proof {
                assert((i + 1) * sy <= sx * sy) by (nonlinear_arith)
                    requires
                        i + 1 <= sx,
                        sy >= 1,
                {
                }
                assert((i + 1) * sy == i * sy + sy) by (nonlinear_arith);
            }
            while j < sy
                invariant
                    sx == span(a.x, b.x),
                    sy == span(a.y, b.y),
                    sx * sy <= usize::MAX,
                    i < sx,
                    j <= sy,
                    i * sy + sy <= usize::MAX,
                    r@.len() == i * sy + j,
                    forall|k: int| 0 <= k < r@.len() ==> #[trigger] r@[k] == line_points(a, b)[k],
                decreases sy - j,
            {
                let x = if a.x <= b.x {
                    a.x + i
                } else {
                    a.x - i
                };
                let y = if a.y <= b.y {
                    a.y + j
                } else {
                    a.y - j
                };
                proof {
                    vstd::arithmetic::div_mod::lemma_fundamental_div_mod_converse(
                        i * sy + j,
                        sy as int,
                        i as int,
                        j as int,
                    );
                    assert(i * sy + j < sx * sy) by (nonlinear_arith)
                        requires
                            0 <= i < sx,
                            0 <= j < sy,
                    {
                    }
                    assert(line_points(a, b)[i * sy + j] == (Point { x, y }));
                }
                r.push(Point { x, y });
                j += 1;
            }
            i += 1;
        }
        proof {
            assert(r@ =~= line_points(a, b));
        }
        r
    }

    /// The diagonal neighbor candidates in the order up-left, up-right,
    /// down-left, down-right.
    pub fn diagonal_neighbors(&self) -> (r: Vec<Point>)
        ensures
            r@ == self.diagonal_candidates(),
    {
        let mut r: Vec<Point> = Vec::new();
        r.push(Point { x: step_down(self.x), y: step_down(self.y) });
        r.push(Point { x: step_up(self.x), y: step_down(self.y) });
        r.push(Point { x: step_down(self.x), y: step_up(self.y) });
        r.push(Point { x: step_up(self.x), y: step_up(self.y) });
        proof {
            assert(r@ =~= self.diagonal_candidates());
        }
        r
    }
}

impl From<(usize, usize)> for Point {
    /// Builds the point `(x, y)` from the pair `(x, y)`.
    fn from(pair: (usize, usize)) -> (p: Self) {
        Point { x: pair.0, y: pair.1 }
    }
}

impl vstd::std_specs::convert::FromSpecImpl<(usize, usize)> for Point {
    open spec fn obeys_from_spec() -> bool {
        true
    }

    open spec fn from_spec(pair: (usize, usize)) -> Self {
        Point { x: pair.0, y: pair.1 }
    }
}

impl From<Point> for (usize, usize) {
    /// Splits the point `(x, y)` into the pair `(x, y)`.
    fn from(p: Point) -> (pair: Self) {
        (p.x, p.y)
    }
}

impl vstd::std_specs::convert::FromSpecImpl<Point> for (usize, usize) {
    open spec fn obeys_from_spec() -> bool {
        true
    }

    open spec fn from_spec(p: Point) -> Self {
        (p.x, p.y)
    }
}

} // verus!
