//! A bare row-major matrix addressed by `(x, y)` tuples.
//!
//! Unlike [`crate::grid::Grid`], the matrix exposes its storage directly and
//! expects its callers to stay in bounds; it is the minimal variant for code
//! that manages coordinates itself.

use vstd::prelude::*;

verus! {

/// A matrix of values, stored in row-major order.
pub struct Matrix<T> {
    /// The width of the matrix.
    pub width: usize,
    /// The height of the matrix.
    pub height: usize,
    /// The values of the matrix, row by row.
    pub values: Vec<T>,
}

/// The `(x, y)` pairs of the four in-bounds orthogonal neighbors of `(x, y)`
/// in a `w` by `h` matrix, in the order left, right, up, down.
pub open spec fn ortho_tuples(x: usize, y: usize, w: usize, h: usize) -> Seq<(usize, usize)> {
    (if x > 0 {
        seq![((x - 1) as usize, y)]
    } else {
        Seq::empty()
    }) + (if x + 1 < w {
        seq![((x + 1) as usize, y)]
    } else {
        Seq::empty()
    }) + (if y > 0 {
        seq![(x, (y - 1) as usize)]
    } else {
        Seq::empty()
    }) + (if y + 1 < h {
        seq![(x, (y + 1) as usize)]
    } else {
        Seq::empty()
    })
}

/// The `(x, y)` pairs of the four in-bounds diagonal neighbors of `(x, y)`
/// in a `w` by `h` matrix, in the order up-left, up-right, down-left,
/// down-right.
pub open spec fn diag_tuples(x: usize, y: usize, w: usize, h: usize) -> Seq<(usize, usize)> {
    (if x > 0 && y > 0 {
        seq![((x - 1) as usize, (y - 1) as usize)]
    } else {
        Seq::empty()
    }) + (if x + 1 < w && y > 0 {
        seq![((x + 1) as usize, (y - 1) as usize)]
    } else {
        Seq::empty()
    }) + (if x > 0 && y + 1 < h {
        seq![((x - 1) as usize, (y + 1) as usize)]
    } else {
        Seq::empty()
    }) + (if x + 1 < w && y + 1 < h {
        seq![((x + 1) as usize, (y + 1) as usize)]
    } else {
        Seq::empty()
    })
}

impl<T> Matrix<T> {
    /// The stored values fill the rectangle exactly.
    pub open spec fn wf(&self) -> bool {
        self.values@.len() == self.width * self.height
    }

    /// The value stored at `(x, y)`.
    pub open spec fn cell(&self, x: usize, y: usize) -> T {
        self.values@[y * self.width + x]
    }

    /// Returns the value at the given coordinates.
    pub fn get(&self, x: usize, y: usize) -> (r: &T)
        requires
            self.wf(),
            x < self.width,
            y < self.height,
        ensures
            *r == self.cell(x, y),
    {
        let n = self.values.len();
        proof {
            crate::grid::lemma_row_major_index(
                x as int,
                y as int,
                self.width as int,
                self.height as int,
            );
            assert(y * self.width + x < n);
        }
        &self.values[y * self.width + x]
    }

    /// Returns a mutable reference to the value at the given coordinates.
    pub fn get_mut(&mut self, pos: (usize, usize)) -> (r: &mut T)
        requires
            old(self).wf(),
            pos.0 < old(self).width,
            pos.1 < old(self).height,
        ensures
            *r == old(self).cell(pos.0, pos.1),
            final(self).width == old(self).width,
            final(self).height == old(self).height,
            final(self).wf(),
            final(self).values@ == old(self).values@.update(
                pos.1 * old(self).width + pos.0,
                *final(r),
            ),
    {
        let (x, y) = pos;
        let n = self.values.len();
        proof {
            crate::grid::lemma_row_major_index(
                x as int,
                y as int,
                self.width as int,
                self.height as int,
            );
            assert(y * self.width + x < n);
        }
        &mut self.values[y * self.width + x]
    }

    /// Stores `value` at the given coordinates.
    pub fn set(&mut self, pos: (usize, usize), value: T)
        requires
            old(self).wf(),
            pos.0 < old(self).width,
            pos.1 < old(self).height,
        ensures
            final(self).width == old(self).width,
            final(self).height == old(self).height,
            final(self).wf(),
            final(self).values@ == old(self).values@.update(
                pos.1 * old(self).width + pos.0,
                value,
            ),
    {
        let (x, y) = pos;
        let n = self.values.len();
        proof {
            crate::grid::lemma_row_major_index(
                x as int,
                y as int,
                self.width as int,
                self.height as int,
            );
            assert(y * self.width + x < n);
        }
        self.values.set(y * self.width + x, value);
    }

    /// All in-bounds neighbors of `(x, y)`: the orthogonal ones followed by
    /// the diagonal ones.
    pub fn neighbors(&self, pos: (usize, usize)) -> (r: Vec<(usize, usize)>)
        requires
            pos.0 < self.width,
            pos.1 < self.height,
        ensures
            r@ == ortho_tuples(pos.0, pos.1, self.width, self.height) + diag_tuples(
                pos.0,
                pos.1,
                self.width,
                self.height,
            ),
    {
        let mut r = self.orthogonal_neighbors(pos);
        let mut d = self.diagonal_neighbors(pos);
        r.append(&mut d);
        r
    }

    /// The in-bounds orthogonal neighbors of `(x, y)`, in the order left,
    /// right, up, down.
    pub fn orthogonal_neighbors(&self, pos: (usize, usize)) -> (r: Vec<(usize, usize)>)
        requires
            pos.0 < self.width,
            pos.1 < self.height,
        ensures
            r@ == ortho_tuples(pos.0, pos.1, self.width, self.height),
    {
        let (x, y) = pos;
        let mut r: Vec<(usize, usize)> = Vec::new();
        if x > 0 {
            r.push((x - 1, y));
        }
        if x < self.width - 1 {
            r.push((x + 1, y));
        }
        if y > 0 {
            r.push((x, y - 1));
        }
        if y < self.height - 1 {
            r.push((x, y + 1));
        }
        proof {
            assert(r@ =~= ortho_tuples(x, y, self.width, self.height));
        }
        r
    }

    /// The in-bounds diagonal neighbors of `(x, y)`, in the order up-left,
    /// up-right, down-left, down-right.
    pub fn diagonal_neighbors(&self, pos: (usize, usize)) -> (r: Vec<(usize, usize)>)
        requires
            pos.0 < self.width,
            pos.1 < self.height,
        ensures
            r@ == diag_tuples(pos.0, pos.1, self.width, self.height),
    {
        let (x, y) = pos;
        let mut r: Vec<(usize, usize)> = Vec::new();
        if x > 0 && y > 0 {
            r.push((x - 1, y - 1));
        }
        if x < self.width - 1 && y > 0 {
            r.push((x + 1, y - 1));
        }
        if x > 0 && y < self.height - 1 {
            r.push((x - 1, y + 1));
        }
        if x < self.width - 1 && y < self.height - 1 {
            r.push((x + 1, y + 1));
        }
        proof {
            assert(r@ =~= diag_tuples(x, y, self.width, self.height));
        }
        r
    }
}

} // verus!
