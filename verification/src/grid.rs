//! A dense matrix of values addressed by [`Point`] coordinates.
//!
//! The cells are stored in row-major order: the value at `(x, y)` lives at
//! linear offset `y * width + x`. Accesses outside `[0, width) x [0, height)`
//! fail with [`GridError::OutOfBounds`]; nothing wraps or clamps.

use crate::point::Point;
use vstd::prelude::*;

verus! {

/// How a grid operation can fail.
#[derive(Debug, Clone, Copy, PartialEq, Eq, Structural)]
pub enum GridError {
    /// A coordinate lay outside `[0, width) x [0, height)`.
    OutOfBounds,
    /// Ingestion input was empty or its rows had unequal lengths.
    MalformedInput,
}

/// A matrix of values, stored in row-major order.
#[derive(Debug, Clone, PartialEq, Eq)]
pub struct Grid<T> {
    /// The width of the matrix.
    pub width: usize,
    /// The height of the matrix.
    pub height: usize,
    /// The cells in row-major order. Kept well-formed (`wf`) by every method;
    /// mutate it only through them.
    pub values: Vec<T>,
}

impl<T> View for Grid<T> {
    type V = Seq<T>;

    /// The cells of the grid in row-major order.
    closed spec fn view(&self) -> Seq<T> {
        self.values@
    }
}

/// The subsequence of `s` whose points lie inside a `w` by `h` rectangle,
/// order preserved.
pub open spec fn keep_in_bounds(s: Seq<Point>, w: usize, h: usize) -> Seq<Point>
    decreases s.len(),
{
    if s.len() == 0 {
        Seq::empty()
    } else {
        let prev = keep_in_bounds(s.drop_last(), w, h);
        let p = s.last();
        if p.x < w && p.y < h {
            prev.push(p)
        } else {
            prev
        }
    }
}

/// `q` differs from `p` by exactly one unit step along exactly one axis.
pub open spec fn unit_step(p: Point, q: Point) -> bool {
    ||| (crate::point::abs_diff(p.x, q.x) == 1 && p.y == q.y)
    ||| (p.x == q.x && crate::point::abs_diff(p.y, q.y) == 1)
}

/// Keeps the points of `cands` that lie inside a `w` by `h` rectangle.
fn retain_in_bounds(cands: Vec<Point>, w: usize, h: usize) -> (r: Vec<Point>)
    ensures
        r@ == keep_in_bounds(cands@, w, h),
{
    let mut r: Vec<Point> = Vec::new();
    let mut i: usize = 0;
    while i < cands.len()
        invariant
            i <= cands@.len(),
            r@ == keep_in_bounds(cands@.take(i as int), w, h),
        decreases cands@.len() - i,
    {
        let p = cands[i];
        proof {
            assert(cands@.take(i + 1).drop_last() =~= cands@.take(i as int));
            assert(cands@.take(i + 1).last() == cands@[i as int]);
        }
        if p.x < w && p.y < h {
            r.push(p);
        }
        i += 1;
    }
    proof {
        assert(cands@.take(cands@.len() as int) =~= cands@);
    }
    r
}

/// The lines of `s` as split at `'\n'`: the text before the first separator,
/// the text between consecutive separators, and the (possibly empty) text
/// after the last one. Separators are not part of any line.
pub open spec fn raw_lines(s: Seq<char>) -> Seq<Seq<char>>
    decreases s.len(),
{
    if s.len() == 0 {
        seq![Seq::<char>::empty()]
    } else {
        let prev = raw_lines(s.drop_last());
        if s.last() == '\n' {
            prev.push(Seq::<char>::empty())
        } else {
            prev.update(prev.len() - 1, prev.last().push(s.last()))
        }
    }
}

/// A line with its trailing carriage return removed, if it has one.
pub open spec fn strip_cr(l: Seq<char>) -> Seq<char> {
    if l.len() > 0 && l.last() == '\r' {
        l.drop_last()
    } else {
        l
    }
}

/// Strips carriage returns and drops the lines left blank.
pub open spec fn content_lines_of(raw: Seq<Seq<char>>) -> Seq<Seq<char>>
    decreases raw.len(),
{
    if raw.len() == 0 {
        Seq::empty()
    } else {
        let prev = content_lines_of(raw.drop_last());
        let l = strip_cr(raw.last());
        if l.len() == 0 {
            prev
        } else {
            prev.push(l)
        }
    }
}

/// The non-blank lines of `s`, in text order, line terminators stripped.
pub open spec fn content_lines(s: Seq<char>) -> Seq<Seq<char>> {
    content_lines_of(raw_lines(s))
}

/// Every row has the length of the first.
pub open spec fn rectangular(rows: Seq<Seq<char>>) -> bool {
    forall|i: int| 0 <= i < rows.len() ==> (#[trigger] rows[i]).len() == rows[0].len()
}

/// `s` splits into at least one non-blank line, all of equal length.
pub open spec fn text_shape_ok(s: Seq<char>) -> bool {
    content_lines(s).len() > 0 && rectangular(content_lines(s))
}

/// Splitting never yields an empty sequence of raw lines.
proof fn lemma_raw_lines_nonempty(s: Seq<char>)
    ensures
        raw_lines(s).len() >= 1,
    decreases s.len(),
{
    if s.len() > 0 {
        lemma_raw_lines_nonempty(s.drop_last());
    }
}

/// Splits `s` into its non-blank lines, stripping line terminators.
pub(crate) fn split_lines(s: &str) -> (rows: Vec<Vec<char>>)
    ensures
        rows@.map_values(|r: Vec<char>| r@) == content_lines(s@),
{
    let n = s.unicode_len();
    let mut rows: Vec<Vec<char>> = Vec::new();
    let mut cur: Vec<char> = Vec::new();
    let mut i: usize = 0;
    while i < n
        invariant
            n == s@.len(),
            i <= n,
            cur@ == raw_lines(s@.take(i as int)).last(),
            rows@.map_values(|r: Vec<char>| r@) == content_lines_of(
                raw_lines(s@.take(i as int)).drop_last(),
            ),
        decreases n - i,
    {
        let ghost raw = raw_lines(s@.take(i as int));
        proof {
            lemma_raw_lines_nonempty(s@.take(i as int));
            assert(s@.take(i + 1).drop_last() =~= s@.take(i as int));
            assert(s@.take(i + 1).last() == s@[i as int]);
        }
        let c = s.get_char(i);
        if c == '\n' {
            proof {
                assert(raw_lines(s@.take(i + 1)) == raw.push(Seq::<char>::empty()));
                assert(raw_lines(s@.take(i + 1)).drop_last() =~= raw);
            }
            if cur.len() > 0 {
                let lastc = cur[cur.len() - 1];
                if lastc == '\r' {
                    cur.pop();
                }
            }
            proof {
                assert(cur@ == strip_cr(raw.last()));
                assert(raw.drop_last().push(raw.last()) =~= raw);
            }
            if cur.len() > 0 {
                let done = cur;
                cur = Vec::new();
                rows.push(done);
                proof {
                    assert(rows@.map_values(|r: Vec<char>| r@) =~= content_lines_of(raw));
                }
            } else {
                proof {
                    assert(rows@.map_values(|r: Vec<char>| r@) =~= content_lines_of(raw));
                }
            }
        } else {
            cur.push(c);
            proof {
                let raw2 = raw_lines(s@.take(i + 1));
                assert(raw2 == raw.update(raw.len() - 1, raw.last().push(s@[i as int])));
                assert(raw2.drop_last() =~= raw.drop_last());
                assert(raw2.last() == cur@);
            }
        }
        i += 1;
    }
    proof {
        assert(s@.take(n as int) =~= s@);
        lemma_raw_lines_nonempty(s@);
    }
    let ghost raw = raw_lines(s@);
    if cur.len() > 0 {
        let lastc = cur[cur.len() - 1];
        if lastc == '\r' {
            cur.pop();
        }
    }
    proof {
        assert(cur@ == strip_cr(raw.last()));
        assert(raw.drop_last().push(raw.last()) =~= raw);
    }
    if cur.len() > 0 {
        rows.push(cur);
        proof {
            assert(rows@.map_values(|r: Vec<char>| r@) =~= content_lines_of(raw));
        }
    } else {
        proof {
            assert(rows@.map_values(|r: Vec<char>| r@) =~= content_lines_of(raw));
        }
    }
    rows
}

/// Splits `s` into its non-blank lines as subslices of `s`, line
/// terminators stripped.
pub(crate) fn split_line_spans<'a>(s: &'a str) -> (pieces: Vec<&'a str>)
    ensures
        pieces@.map_values(|p: &str| p@) == content_lines(s@),
{
    let n = s.unicode_len();
    let mut pieces: Vec<&str> = Vec::new();
    let mut start: usize = 0;
    let mut i: usize = 0;
    while i < n
        invariant
            n == s@.len(),
            start <= i && i <= n,
            raw_lines(s@.take(i as int)).last() == s@.subrange(start as int, i as int),
            pieces@.map_values(|p: &str| p@) == content_lines_of(
                raw_lines(s@.take(i as int)).drop_last(),
            ),
        decreases n - i,
    {
        let ghost raw = raw_lines(s@.take(i as int));
        proof {
            lemma_raw_lines_nonempty(s@.take(i as int));
            assert(s@.take(i + 1).drop_last() =~= s@.take(i as int));
            assert(s@.take(i + 1).last() == s@[i as int]);
        }
        let c = s.get_char(i);
        if c == '\n' {
            proof {
                assert(raw_lines(s@.take(i + 1)) == raw.push(Seq::<char>::empty()));
                assert(raw_lines(s@.take(i + 1)).drop_last() =~= raw);
            }
            let mut end = i;
            if end > start && s.get_char(end - 1) == '\r' {
                end -= 1;
                proof {
                    assert(s@.subrange(start as int, i as int).last() == s@[i - 1]);
                    assert(s@.subrange(start as int, i as int).drop_last() =~= s@.subrange(
                        start as int,
                        end as int,
                    ));
                    assert(strip_cr(raw.last()) == s@.subrange(start as int, end as int));
                }
            } else {
                proof {
                    assert(strip_cr(raw.last()) == s@.subrange(start as int, end as int));
                }
            }
            if end > start {
                let piece = s.substring_char(start, end);
                pieces.push(piece);
            }
            proof {
                assert(raw.drop_last().push(raw.last()) =~= raw);
                assert(pieces@.map_values(|p: &str| p@) =~= content_lines_of(raw));
            }
            start = i + 1;
            proof {
                assert(s@.subrange(start as int, i + 1) =~= Seq::<char>::empty());
            }
        } else {
            proof {
                let raw2 = raw_lines(s@.take(i + 1));
                assert(raw2 == raw.update(raw.len() - 1, raw.last().push(s@[i as int])));
                assert(raw2.drop_last() =~= raw.drop_last());
                assert(s@.subrange(start as int, i + 1) =~= s@.subrange(start as int, i as int)
                    .push(s@[i as int]));
            }
        }
        i += 1;
    }
    proof {
        assert(s@.take(n as int) =~= s@);
        lemma_raw_lines_nonempty(s@);
    }
    let ghost raw = raw_lines(s@);
    let mut end = n;
    if end > start && s.get_char(end - 1) == '\r' {
        end -= 1;
        proof {
            assert(s@.subrange(start as int, n as int).last() == s@[n - 1]);
            assert(s@.subrange(start as int, n as int).drop_last() =~= s@.subrange(
                start as int,
                end as int,
            ));
            assert(strip_cr(raw.last()) == s@.subrange(start as int, end as int));
        }
    } else {
        proof {
            assert(strip_cr(raw.last()) == s@.subrange(start as int, end as int));
        }
    }
    if end > start {
        let piece = s.substring_char(start, end);
        pieces.push(piece);
    }
    proof {
        assert(raw.drop_last().push(raw.last()) =~= raw);
        assert(pieces@.map_values(|p: &str| p@) =~= content_lines_of(raw));
    }
    pieces
}

/// Every element of `s` is `v` or a clone of `v`.
pub open spec fn filled_with<T: Clone>(s: Seq<T>, v: T) -> bool {
    forall|i: int| 0 <= i < s.len() ==> cloned(v, #[trigger] s[i])
}

/// A row-major offset stays below `width * height` for an in-bounds cell.
pub proof fn lemma_row_major_index(x: int, y: int, w: int, h: int)
    requires
        0 <= x < w,
        0 <= y < h,
    ensures
        0 <= y * w + x < w * h,
{
    assert(y * w + x < w * h) by (nonlinear_arith)
        requires
            0 <= x < w,
            0 <= y < h,
    {
    }
}

impl<T> Grid<T> {
    /// The stored cells fill the rectangle exactly.
    pub open spec fn wf(&self) -> bool {
        self@.len() == self.width * self.height
    }

    /// Whether `p` addresses a cell of this grid.
    pub open spec fn in_bounds(&self, p: Point) -> bool {
        p.x < self.width && p.y < self.height
    }

    /// The linear row-major offset of `p`.
    pub open spec fn offset_of(&self, p: Point) -> int {
        p.y * self.width + p.x
    }

    /// The value stored at `p`.
    pub open spec fn cell(&self, p: Point) -> T {
        self@[self.offset_of(p)]
    }

    /// Returns a new `Grid` with the given width and height, every cell
    /// initialized with the default value of `T`.
    pub fn new(width: usize, height: usize) -> (g: Self) where T: Default + Clone
        requires
            width * height <= usize::MAX,
        ensures
            g.width == width,
            g.height == height,
            g.wf(),
            exists|d: T|
                call_ensures(<T as Default>::default, (), d) && filled_with(g@, d),
    {
        let d: T = T::default();
        Grid::new_with_value(width, height, d)
    }

    /// Returns a new `Grid` with the given width and height, every cell
    /// initialized with a copy of `value`.
    pub fn new_with_value(width: usize, height: usize, value: T) -> (g: Self) where T: Clone
        requires
            width * height <= usize::MAX,
        ensures
            g.width == width,
            g.height == height,
            g.wf(),
            filled_with(g@, value),
    {
        let values: Vec<T> = vec![value; width * height];
        Grid { width, height, values }
    }

    /// Returns the value at the given coordinates, or `OutOfBounds` when the
    /// point lies outside the grid.
    pub fn get(&self, point: Point) -> (r: Result<&T, GridError>)
        requires
            self.wf(),
        ensures
            match r {
                Ok(v) => self.in_bounds(point) && *v == self.cell(point),
                Err(e) => !self.in_bounds(point) && e == GridError::OutOfBounds,
            },
    {
        if point.x < self.width && point.y < self.height {
            let n = self.values.len();
            proof {
                lemma_row_major_index(
                    point.x as int,
                    point.y as int,
                    self.width as int,
                    self.height as int,
                );
                assert(point.y * self.width + point.x < n);
            }
            Ok(&self.values[point.y * self.width + point.x])
        } else {
            Err(GridError::OutOfBounds)
        }
    }

    /// Returns a mutable reference to the value at the given coordinates.
    /// Only in-bounds coordinates have a cell to borrow, so the caller must
    /// stay inside the grid; `get` and `set` are the checked entry points.
    pub fn get_mut(&mut self, point: Point) -> (r: &mut T)
        requires
            old(self).wf(),
            old(self).in_bounds(point),
        ensures
            *r == old(self).cell(point),
            final(self).width == old(self).width,
            final(self).height == old(self).height,
            final(self).wf(),
            final(self)@ == old(self)@.update(old(self).offset_of(point), *final(r)),
    {
        let n = self.values.len();
        proof {
            lemma_row_major_index(
                point.x as int,
                point.y as int,
                self.width as int,
                self.height as int,
            );
            assert(point.y * self.width + point.x < n);
        }
        &mut self.values[point.y * self.width + point.x]
    }

    /// Stores `value` at the given coordinates, or fails with `OutOfBounds`
    /// (leaving the grid unchanged) when the point lies outside the grid.
    pub fn set(&mut self, point: Point, value: T) -> (r: Result<(), GridError>)
        requires
            old(self).wf(),
        ensures
            final(self).width == old(self).width,
            final(self).height == old(self).height,
            final(self).wf(),
            match r {
                Ok(()) => old(self).in_bounds(point) && final(self)@ == old(self)@.update(
                    old(self).offset_of(point),
                    value,
                ),
                Err(e) => {
                    &&& !old(self).in_bounds(point)
                    &&& e == GridError::OutOfBounds
                    &&& final(self)@ == old(self)@
                },
            },
    {
        if point.x < self.width && point.y < self.height {
            let n = self.values.len();
            proof {
                lemma_row_major_index(
                    point.x as int,
                    point.y as int,
                    self.width as int,
                    self.height as int,
                );
                assert(point.y * self.width + point.x < n);
            }
            self.values.set(point.y * self.width + point.x, value);
            Ok(())
        } else {
            Err(GridError::OutOfBounds)
        }
    }

    /// Returns a new `Grid` from a string. The string is split into its
    /// non-blank lines (rows, in text order) and each line into characters
    /// (columns, left to right); `f` converts each character into a cell.
    /// Fails with `MalformedInput` when no non-blank line remains or when the
    /// lines have unequal lengths.
    pub fn from_str_precomp<F: Fn(char) -> T>(s: &str, f: F) -> (r: Result<Self, GridError>)
        requires
            forall|c: char| #[trigger] f.requires((c,)),
        ensures
            match r {
                Ok(g) => {
                    &&& text_shape_ok(s@)
                    &&& g.wf()
                    &&& g.height == content_lines(s@).len()
                    &&& g.width == content_lines(s@)[0].len()
                    &&& forall|y: int, x: int|
                        0 <= y < g.height && 0 <= x < g.width ==> f.ensures(
                            (content_lines(s@)[y][x],),
                            #[trigger] g@[y * g.width + x],
                        )
                },
                Err(e) => e == GridError::MalformedInput && !text_shape_ok(s@),
            },
    {
        let ghost lines = content_lines(s@);
        let rows = split_lines(s);
        proof {
            assert(rows@.map_values(|r: Vec<char>| r@).len() == lines.len());
        }
        if rows.len() == 0 {
            proof {
                assert(lines.len() == 0);
                assert(!text_shape_ok(s@));
            }
            return Err(GridError::MalformedInput);
        }
        let width = rows[0].len();
        let height = rows.len();
        proof {
            assert(rows@.map_values(|r: Vec<char>| r@)[0] == rows@[0]@);
        }
        let mut y: usize = 0;
        while y < height
            invariant
                lines == content_lines(s@),
                height == rows@.len(),
                y <= height,
                rows@.map_values(|r: Vec<char>| r@) == lines,
                width as int == lines[0].len(),
                forall|j: int| 0 <= j < y ==> (#[trigger] lines[j]).len() == width,
            decreases height - y,
        {
            proof {
                assert(rows@.map_values(|r: Vec<char>| r@)[y as int] == rows@[y as int]@);
            }
            if rows[y].len() != width {
                proof {
                    assert(content_lines(s@)[y as int].len() != content_lines(s@)[0].len());
                    assert(!rectangular(content_lines(s@)));
                    assert(!text_shape_ok(s@));
                }
                return Err(GridError::MalformedInput);
            }
            y += 1;
        }
        proof {
            assert(rectangular(lines));
        }
        let mut values: Vec<T> = Vec::new();
        let mut y: usize = 0;
        while y < height
            invariant
                lines == content_lines(s@),
                height == rows@.len(),
                y <= height,
                rows@.map_values(|r: Vec<char>| r@) == lines,
                width as int == lines[0].len(),
                forall|j: int| 0 <= j < height ==> (#[trigger] lines[j]).len() == width,
                forall|c: char| #[trigger] f.requires((c,)),
                values@.len() == y * width,
                forall|j: int, x: int|
                    0 <= j < y && 0 <= x < width ==> f.ensures(
                        (lines[j][x],),
                        #[trigger] values@[j * width + x],
                    ),
            decreases height - y,
        {
            let mut x: usize = 0;
            while x < width
                invariant
                    lines == content_lines(s@),
                    height == rows@.len(),
                    y < height,
                    x <= width,
                    rows@.map_values(|r: Vec<char>| r@) == lines,
                    width as int == lines[0].len(),
                    forall|j: int| 0 <= j < height ==> (#[trigger] lines[j]).len() == width,
                    forall|c: char| #[trigger] f.requires((c,)),
                    values@.len() == y * width + x,
                    forall|j: int, k: int|
                        0 <= j < y && 0 <= k < width ==> f.ensures(
                            (lines[j][k],),
                            #[trigger] values@[j * width + k],
                        ),
                    forall|k: int|
                        0 <= k < x ==> f.ensures(
                            (lines[y as int][k],),
                            #[trigger] values@[y as int * width + k],
                        ),
                decreases width - x,
            {
                proof {
                    assert(rows@.map_values(|r: Vec<char>| r@)[y as int] == rows@[y as int]@);
                    lemma_row_major_index(x as int, y as int, width as int, height as int);
                }
                let row = &rows[y];
                let cell = f(row[x]);
                values.push(cell);
                x += 1;
                proof {
                    assert forall|j: int, k: int| 0 <= j < y && 0 <= k < width implies f.ensures(
                        (lines[j][k],),
                        #[trigger] values@[j * width + k],
                    ) by {
                        assert(j * width + k < y * width) by (nonlinear_arith)
                            requires
                                0 <= j < y,
                                0 <= k < width,
                        {
                        }
                    }
                }
            }
            proof {
                assert(y * width + width == (y + 1) * width) by (nonlinear_arith);
            }
            y += 1;
        }
        proof {
            assert(values@.len() == height * width);
            assert((height * width) as int == width * height) by (nonlinear_arith);
        }
        Ok(Grid { width, height, values })
    }

    /// All in-bounds neighbors of `point`: the orthogonal ones followed by
    /// the diagonal ones, each list order-preserving.
    pub fn neighbors(&self, point: Point) -> (r: Vec<Point>)
        ensures
            r@ == keep_in_bounds(point.orthogonal_candidates(), self.width, self.height)
                + keep_in_bounds(point.diagonal_candidates(), self.width, self.height),
    {
        let mut r = self.orthogonal_neighbors(point);
        let mut d = self.diagonal_neighbors(point);
        r.append(&mut d);
        r
    }

    /// The in-bounds orthogonal neighbors of `point`, in the candidate order
    /// left, right, up, down.
    pub fn orthogonal_neighbors(&self, point: Point) -> (r: Vec<Point>)
        ensures
            r@ == keep_in_bounds(point.orthogonal_candidates(), self.width, self.height),
    {
        retain_in_bounds(point.orthogonal_neighbors(), self.width, self.height)
    }

    /// The in-bounds diagonal neighbors of `point`, in the candidate order
    /// up-left, up-right, down-left, down-right.
    pub fn diagonal_neighbors(&self, point: Point) -> (r: Vec<Point>)
        ensures
            r@ == keep_in_bounds(point.diagonal_candidates(), self.width, self.height),
    {
        retain_in_bounds(point.diagonal_neighbors(), self.width, self.height)
    }
}

/// What `replace` does to one cell: a matched cell now holds a copy of `v`,
/// an unmatched one is untouched.
pub open spec fn replaced_cell<T: Clone, F: Fn(&T) -> bool>(
    predicate: F,
    before: T,
    after: T,
    v: T,
) -> bool {
    ||| (predicate.ensures((&before,), true) && cloned(v, after))
    ||| (predicate.ensures((&before,), false) && after == before)
}

/// `b` is an answer the predicate can give for the value `t`.
pub open spec fn decides<T, F: Fn(&T) -> bool>(predicate: F, t: T, b: bool) -> bool {
    predicate.ensures((&t,), b)
}

/// Applying `replace` a second time with the same predicate and value
/// changes nothing, for a deterministic predicate and a replacement value
/// whose clones equal it (as holds for plain values): every cell the
/// predicate matched already holds `v`, and every other cell was left as it
/// was.
pub proof fn lemma_replace_twice<T: Clone, F: Fn(&T) -> bool>(
    predicate: F,
    before: Seq<T>,
    mid: Seq<T>,
    after: Seq<T>,
    v: T,
)
    requires
        mid.len() == before.len(),
        after.len() == mid.len(),
        forall|i: int|
            0 <= i < before.len() ==> #[trigger] replaced_cell(predicate, before[i], mid[i], v),
        forall|i: int|
            0 <= i < mid.len() ==> #[trigger] replaced_cell(predicate, mid[i], after[i], v),
        forall|t: T, b1: bool, b2: bool|
            #[trigger] decides(predicate, t, b1) && #[trigger] decides(predicate, t, b2) ==> b1
                == b2,
        forall|c: T| #[trigger] cloned(v, c) ==> c == v,
    ensures
        after == mid,
{
    assert forall|i: int| 0 <= i < mid.len() implies after[i] == mid[i] by {
        assert(replaced_cell(predicate, before[i], mid[i], v));
        assert(replaced_cell(predicate, mid[i], after[i], v));
        if predicate.ensures((&mid[i],), true) && cloned(v, after[i]) {
            if predicate.ensures((&before[i],), true) && cloned(v, mid[i]) {
                assert(mid[i] == v);
                assert(after[i] == v);
            } else {
                assert(mid[i] == before[i]);
                assert(decides(predicate, before[i], false));
                assert(decides(predicate, before[i], true));
                assert(false);
            }
        }
    }
    assert(after =~= mid);
}

/// The cells of `s` after replacing every element satisfying `pred` with `v`.
pub open spec fn replace_model<T>(s: Seq<T>, pred: spec_fn(T) -> bool, v: T) -> Seq<T> {
    Seq::new(s.len(), |i: int| if pred(s[i]) { v } else { s[i] })
}

/// Replacing a second time with the same predicate and value changes
/// nothing: every cell the predicate matched already holds `v`, and every
/// other cell was left as it was.
pub proof fn lemma_replace_idempotent<T>(s: Seq<T>, pred: spec_fn(T) -> bool, v: T)
    ensures
        replace_model(replace_model(s, pred, v), pred, v) == replace_model(s, pred, v),
{
    assert(replace_model(replace_model(s, pred, v), pred, v) =~= replace_model(s, pred, v));
}

impl<T> Grid<T> {
    /// Replaces every cell whose value matches `predicate` with a copy of
    /// `value`; all other cells keep their value. The dimensions and the cell
    /// count never change.
    #[verifier::loop_isolation(false)]
    pub fn replace<F: Fn(&T) -> bool>(&mut self, predicate: F, value: T) where T: Clone
        requires
            old(self).wf(),
            forall|t: T| #[trigger] predicate.requires((&t,)),
        ensures
            final(self).width == old(self).width,
            final(self).height == old(self).height,
            final(self).wf(),
            final(self)@.len() == old(self)@.len(),
            forall|i: int|
                0 <= i < old(self)@.len() ==> #[trigger] replaced_cell(
                    predicate,
                    old(self)@[i],
                    final(self)@[i],
                    value,
                ),
    {
        let n = self.values.len();
        let mut i: usize = 0;
        while i < n
            invariant
                n == self.values@.len(),
                i <= n,
                self.width == old(self).width,
                self.height == old(self).height,
                self.values@.len() == old(self).values@.len(),
                forall|t: T| #[trigger] predicate.requires((&t,)),
                forall|j: int| i <= j < n ==> self@[j] == old(self)@[j],
                forall|j: int|
                    0 <= j < i ==> #[trigger] replaced_cell(
                        predicate,
                        old(self)@[j],
                        self@[j],
                        value,
                    ),
            decreases n - i,
        {
            let ghost before = self.values@;
            let hit = predicate(&self.values[i]);
            proof {
                assert(predicate.ensures((&old(self)@[i as int],), hit));
            }
            if hit {
                let v = value.clone();
                proof {
                    assert(cloned(value, v));
                }
                self.values.set(i, v);
            }
            proof {
                assert forall|j: int| 0 <= j < i + 1 implies #[trigger] replaced_cell(
                    predicate,
                    old(self)@[j],
                    self@[j],
                    value,
                ) by {
                    if j < i as int {
                        assert(self@[j] == before[j]);
                        assert(replaced_cell(predicate, old(self)@[j], before[j], value));
                    }
                }
            }
            i += 1;
        }
    }
}

impl Grid<char> {
    /// Returns a new `Grid` from a string: one row per non-blank line, one
    /// `char` cell per character. Fails with `MalformedInput` when no
    /// non-blank line remains or when the lines have unequal lengths.
    pub fn from_str(s: &str) -> (r: Result<Grid<char>, GridError>)
        ensures
            match r {
                Ok(g) => {
                    &&& text_shape_ok(s@)
                    &&& g.wf()
                    &&& g.height == content_lines(s@).len()
                    &&& g.width == content_lines(s@)[0].len()
                    &&& forall|y: int, x: int|
                        0 <= y < g.height && 0 <= x < g.width ==> #[trigger] g@[y * g.width + x]
                            == content_lines(s@)[y][x]
                },
                Err(e) => e == GridError::MalformedInput && !text_shape_ok(s@),
            },
    {
        let identity = |c: char| -> (rr: char)
            ensures
                rr == c,
            { c };
        proof {
            assert(forall|c: char| #[trigger] identity.requires((c,)));
        }
        let r = Grid::from_str_precomp(s, identity);
        match r {
            Ok(g) => {
                proof {
                    assert forall|y: int, x: int|
                        0 <= y < g.height && 0 <= x < g.width implies #[trigger] g@[y * g.width
                        + x] == content_lines(s@)[y][x] by {
                        assert(identity.ensures(
                            (content_lines(s@)[y][x],),
                            g@[y * g.width + x],
                        ));
                    }
                }
                Ok(g)
            },
            Err(e) => Err(e),
        }
    }
}

/// The coordinates of the true cells of `s`, read as a row-major grid of
/// width `w`, in row-major order.
pub open spec fn true_points_seq(s: Seq<bool>, w: usize) -> Seq<Point>
    decreases s.len(),
{
    if s.len() == 0 {
        Seq::empty()
    } else {
        let prev = true_points_seq(s.drop_last(), w);
        if s.last() {
            prev.push(
                Point {
                    x: (((s.len() - 1) as int) % (w as int)) as usize,
                    y: (((s.len() - 1) as int) / (w as int)) as usize,
                },
            )
        } else {
            prev
        }
    }
}

impl<T> Grid<T> {
    /// Builds a grid from one vector per row. Fails with `MalformedInput`
    /// when there are no rows or when the rows have unequal lengths.
    pub fn from_rows(rows: Vec<Vec<T>>) -> (r: Result<Self, GridError>)
        ensures
            match r {
                Ok(g) => {
                    &&& rows@.len() > 0
                    &&& forall|j: int|
                        0 <= j < rows@.len() ==> (#[trigger] rows@[j])@.len() == rows@[0]@.len()
                    &&& g.wf()
                    &&& g.height == rows@.len()
                    &&& g.width == rows@[0]@.len()
                    &&& forall|y: int, x: int|
                        0 <= y < g.height && 0 <= x < g.width ==> #[trigger] g@[y * g.width + x]
                            == rows@[y]@[x]
                },
                Err(e) => {
                    &&& e == GridError::MalformedInput
                    &&& !(rows@.len() > 0 && (forall|j: int|
                        0 <= j < rows@.len() ==> (#[trigger] rows@[j])@.len() == rows@[0]@.len()))
                },
            },
    {
        if rows.len() == 0 {
            return Err(GridError::MalformedInput);
        }
        let width = rows[0].len();
        let height = rows.len();
        let mut y: usize = 0;
        while y < height
            invariant
                height == rows@.len(),
                y <= height,
                width as int == rows@[0]@.len(),
                forall|j: int| 0 <= j < y ==> (#[trigger] rows@[j])@.len() == width,
            decreases height - y,
        {
            if rows[y].len() != width {
                return Err(GridError::MalformedInput);
            }
            y += 1;
        }
        let ghost rows0 = rows@;
        let mut rest = rows;
        let mut values: Vec<T> = Vec::new();
        let mut y: usize = 0;
        while y < height
            invariant
                height == rows0.len(),
                y <= height,
                width as int == rows0[0]@.len(),
                forall|j: int| 0 <= j < height ==> (#[trigger] rows0[j])@.len() == width,
                rest@ == rows0.skip(y as int),
                values@.len() == y * width,
                forall|j: int, x: int|
                    0 <= j < y && 0 <= x < width ==> #[trigger] values@[j * width + x]
                        == rows0[j]@[x],
            decreases height - y,
        {
            let mut row = rest.remove(0);
            proof {
                assert(rows0.skip(y as int)[0] == rows0[y as int]);
                assert(rows0.skip(y as int).remove(0) =~= rows0.skip(y + 1));
            }
            values.append(&mut row);
            proof {
                assert forall|j: int, x: int|
                    0 <= j < y + 1 && 0 <= x < width implies #[trigger] values@[j * width + x]
                    == rows0[j]@[x] by {
                    if j < y as int {
                        assert(j * width + x < y * width) by (nonlinear_arith)
                            requires
                                0 <= j < y,
                                0 <= x < width,
                        {
                        }
                    }
                }
                assert(y * width + width == (y + 1) * width) by (nonlinear_arith);
            }
            y += 1;
        }
        proof {
            assert((height * width) as int == width * height) by (nonlinear_arith);
        }
        Ok(Grid { width, height, values })
    }
}

impl<T> Grid<T> {
    /// Consumes the grid and returns every cell with its coordinates, in
    /// row-major order.
    pub fn into_cells(self) -> (r: Vec<(Point, T)>)
        requires
            self.wf(),
        ensures
            r@.len() == self@.len(),
            forall|k: int|
                0 <= k < r@.len() ==> #[trigger] r@[k] == (
                    Point {
                        x: (k % (self.width as int)) as usize,
                        y: (k / (self.width as int)) as usize,
                    },
                    self@[k],
                ),
    {
        let ghost orig = self@;
        let ghost w0 = self.width;
        let ghost h0 = self.height;
        let w = self.width;
        let n = self.values.len();
        let mut vals = self.values;
        let mut r: Vec<(Point, T)> = Vec::new();
        let mut k: usize = 0;
        while vals.len() > 0
            invariant
                orig.len() == w0 * h0,
                orig.len() == n,
                w == w0,
                orig.len() == k + vals@.len(),
                vals@ == orig.skip(k as int),
                r@.len() == k,
                forall|j: int|
                    0 <= j < k ==> #[trigger] r@[j] == (
                        Point { x: (j % (w0 as int)) as usize, y: (j / (w0 as int)) as usize },
                        orig[j],
                    ),
            decreases vals@.len(),
        {
            proof {
                assert(w0 > 0) by {
                    if w0 == 0 {
                        assert(w0 * h0 == 0) by (nonlinear_arith)
                            requires
                                w0 == 0,
                        {
                        }
                    }
                }
                assert(orig.skip(k as int)[0] == orig[k as int]);
                assert(orig.skip(k as int).remove(0) =~= orig.skip(k + 1));
            }
            let v = vals.remove(0);
            let x = k % w;
            let y = k / w;
            r.push((Point { x, y }, v));
            k += 1;
        }
        proof {
            assert(orig.skip(k as int).len() == 0);
        }
        r
    }
}

impl Grid<bool> {
    /// The coordinates holding `true`, in row-major order.
    pub fn true_points(&self) -> (r: Vec<Point>)
        requires
            self.wf(),
        ensures
            r@ == true_points_seq(self@, self.width),
    {
        let n = self.values.len();
        let mut r: Vec<Point> = Vec::new();
        let mut i: usize = 0;
        while i < n
            invariant
                self.wf(),
                n == self@.len(),
                i <= n,
                r@ == true_points_seq(self@.take(i as int), self.width),
            decreases n - i,
        {
            proof {
                assert(self.width > 0) by {
                    if self.width == 0 {
                        assert(self.width * self.height == 0) by (nonlinear_arith)
                            requires
                                self.width == 0,
                        {
                        }
                    }
                }
                assert(self@.take(i + 1).drop_last() =~= self@.take(i as int));
                assert(self@.take(i + 1).last() == self@[i as int]);
            }
            if self.values[i] {
                let x = i % self.width;
                let y = i / self.width;
                r.push(Point { x, y });
            }
            i += 1;
        }
        proof {
            assert(self@.take(n as int) =~= self@);
        }
        r
    }

    /// The textual rendering of the grid: one row of `'#'` (true) and `'.'`
    /// (false) characters per grid row, each row followed by `'\n'`.
    pub fn render(&self) -> (r: Vec<char>)
        requires
            self.wf(),
            (self.width + 1) * self.height <= usize::MAX,
        ensures
            r@.len() == (self.width + 1) * self.height,
            forall|y: int, x: int|
                0 <= y < self.height && 0 <= x < self.width ==> #[trigger] r@[y * (self.width + 1)
                    + x] == (if self@[y * self.width + x] {
                    '#'
                } else {
                    '.'
                }),
            forall|y: int|
                0 <= y < self.height ==> #[trigger] r@[y * (self.width + 1) + self.width] == '\n',
    {
        if self.height == 0 {
            proof {
                assert((self.width + 1) * 0 == 0) by (nonlinear_arith);
            }
            let r: Vec<char> = Vec::new();
            return r;
        }
        proof {
            assert(self.width + 1 <= (self.width + 1) * self.height) by (nonlinear_arith)
                requires
                    self.height >= 1,
            {
            }
        }
        let w1 = self.width + 1;
        let mut r: Vec<char> = Vec::new();
        let mut y: usize = 0;
        while y < self.height
            invariant
                self.wf(),
                w1 == self.width + 1,
                (self.width + 1) * self.height <= usize::MAX,
                y <= self.height,
                r@.len() == y * w1,
                forall|j: int, k: int|
                    0 <= j < y && 0 <= k < self.width ==> #[trigger] r@[j * w1 + k] == (if self@[j
                        * self.width + k] {
                        '#'
                    } else {
                        '.'
                    }),
                forall|j: int| 0 <= j < y ==> #[trigger] r@[j * w1 + self.width] == '\n',
            decreases self.height - y,
        {
            let ghost yo = y as int;
            proof {
                assert((yo + 1) * w1 == yo * w1 + w1) by (nonlinear_arith);
                assert((yo + 1) * w1 <= self.height * w1) by (nonlinear_arith)
                    requires
                        yo + 1 <= self.height,
                        w1 >= 1,
                {
                }
                assert(self.height * w1 == (self.width + 1) * self.height) by (nonlinear_arith)
                    requires
                        w1 == self.width + 1,
                {
                }
            }
            let mut x: usize = 0;
            while x < self.width
                invariant
                    self.wf(),
                    w1 == self.width + 1,
                    yo == y as int,
                    y < self.height,
                    x <= self.width,
                    r@.len() == yo * w1 + x,
                    yo * w1 + w1 <= usize::MAX,
                    forall|j: int, k: int|
                        0 <= j < yo && 0 <= k < self.width ==> #[trigger] r@[j * w1 + k] == (
                        if self@[j * self.width + k] {
                            '#'
                        } else {
                            '.'
                        }),
                    forall|j: int| 0 <= j < yo ==> #[trigger] r@[j * w1 + self.width] == '\n',
                    forall|k: int|
                        0 <= k < x ==> #[trigger] r@[yo * w1 + k] == (if self@[yo * self.width
                            + k] {
                            '#'
                        } else {
                            '.'
                        }),
                decreases self.width - x,
            {
                let n = self.values.len();
                proof {
                    lemma_row_major_index(
                        x as int,
                        y as int,
                        self.width as int,
                        self.height as int,
                    );
                    assert(y * self.width + x < n);
                }
                let c = if self.values[y * self.width + x] {
                    '#'
                } else {
                    '.'
                };
                r.push(c);
                x += 1;
                proof {
                    assert forall|j: int, k: int|
                        0 <= j < yo && 0 <= k < self.width implies #[trigger] r@[j * w1 + k] == (
                    if self@[j * self.width + k] {
                        '#'
                    } else {
                        '.'
                    }) by {
                        assert(j * w1 + k < yo * w1) by (nonlinear_arith)
                            requires
                                0 <= j < yo,
                                0 <= k < w1,
                        {
                        }
                    }
                    assert forall|j: int| 0 <= j < yo implies #[trigger] r@[j * w1 + self.width]
                        == '\n' by {
                        assert(j * w1 + self.width < yo * w1) by (nonlinear_arith)
                            requires
                                0 <= j < yo,
                                self.width < w1,
                        {
                        }
                    }
                }
            }
            r.push('\n');
            y += 1;
            proof {
                assert(r@.len() == (yo + 1) * w1);
                assert forall|j: int, k: int|
                    0 <= j < yo + 1 && 0 <= k < self.width implies #[trigger] r@[j * w1 + k] == (
                if self@[j * self.width + k] {
                    '#'
                } else {
                    '.'
                }) by {
                    if j < yo {
                        assert(j * w1 + k < j * w1 + w1) by (nonlinear_arith)
                            requires
                                0 <= k < w1,
                        {
                        }
                        assert(j * w1 + w1 <= yo * w1) by (nonlinear_arith)
                            requires
                                j < yo,
                                w1 >= 1,
                        {
                        }
                    }
                }
                assert forall|j: int| 0 <= j < yo + 1 implies #[trigger] r@[j * w1 + self.width]
                    == '\n' by {
                    if j < yo {
                        assert(j * w1 + w1 <= yo * w1) by (nonlinear_arith)
                            requires
                                j < yo,
                                w1 >= 1,
                        {
                        }
                    }
                }
            }
        }
        proof {
            assert(self.height * w1 == (self.width + 1) * self.height) by (nonlinear_arith)
                requires
                    w1 == self.width + 1,
            {
            }
        }
        r
    }
}

/// Writing `v` at an in-bounds coordinate and then reading that coordinate
/// yields `v` again, whatever the grid held there before: the relation that
/// `set` establishes makes `get` return `v`.
pub proof fn lemma_set_then_get<T>(before: Grid<T>, after: Grid<T>, p: Point, v: T)
    requires
        before.wf(),
        before.in_bounds(p),
        after.width == before.width,
        after.height == before.height,
        after@ == before@.update(before.offset_of(p), v),
    ensures
        after.wf(),
        after.in_bounds(p),
        after.cell(p) == v,
{
    lemma_row_major_index(p.x as int, p.y as int, before.width as int, before.height as int);
}

/// The orthogonal neighbors of an in-bounds point: there are at most four,
/// each lies strictly inside the rectangle, and each differs from the point
/// by exactly one unit step along one axis. A corner point of a rectangle
/// that is at least 2 wide and 2 tall has exactly two of them.
pub proof fn lemma_orthogonal_neighbors_shape(p: Point, w: usize, h: usize)
    requires
        p.x < w,
        p.y < h,
    ensures
        keep_in_bounds(p.orthogonal_candidates(), w, h).len() <= 4,
        forall|i: int|
            0 <= i < keep_in_bounds(p.orthogonal_candidates(), w, h).len() ==> {
                let q = #[trigger] keep_in_bounds(p.orthogonal_candidates(), w, h)[i];
                q.x < w && q.y < h && unit_step(p, q)
            },
        (p.x == 0 || p.x == w - 1) && (p.y == 0 || p.y == h - 1) && w >= 2 && h >= 2
            ==> keep_in_bounds(p.orthogonal_candidates(), w, h).len() == 2,
{
    reveal_with_fuel(keep_in_bounds, 5);
    let c = p.orthogonal_candidates();
    assert(c.drop_last() =~= c.take(3));
    assert(c.take(3).drop_last() =~= c.take(2));
    assert(c.take(2).drop_last() =~= c.take(1));
    assert(c.take(1).drop_last() =~= c.take(0));
    assert(c.take(0).len() == 0);
}

} // verus!
