//! Parsing helpers that turn a block of text into values, one caller-supplied
//! conversion at a time. The first conversion failure is returned unchanged.

use crate::grid::content_lines;
use vstd::prelude::*;

verus! {

/// Some cell of `lines` is one that `f` converts to the error `e`.
pub open spec fn cell_conversion_fails<T, E, F: Fn(char) -> Result<T, E>>(
    f: F,
    lines: Seq<Seq<char>>,
    e: E,
) -> bool {
    exists|y: int, x: int|
        {
            &&& 0 <= y < lines.len()
            &&& 0 <= x < lines[y].len()
            &&& f.ensures((#[trigger] lines[y][x],), Err(e))
        }
}

/// `v` is a value that `f` can produce from a string slice holding `line`.
pub open spec fn line_parsed<T, E, F: Fn(&str) -> Result<T, E>>(
    f: F,
    line: Seq<char>,
    v: T,
) -> bool {
    exists|l: &str|
        {
            &&& #[trigger] l@ == line
            &&& f.ensures((l,), Ok(v))
        }
}

/// Some line of `lines` is one that `f` converts to the error `e`.
pub open spec fn line_conversion_fails<T, E, F: Fn(&str) -> Result<T, E>>(
    f: F,
    lines: Seq<Seq<char>>,
    e: E,
) -> bool {
    exists|l: &str, y: int|
        {
            &&& 0 <= y < lines.len()
            &&& #[trigger] l@ == #[trigger] lines[y]
            &&& f.ensures((l,), Err(e))
        }
}

/// The general parsing interface. Implemented for `str`.
pub trait Parseable {
    /// The characters of the text.
    spec fn text(&self) -> Seq<char>;

    /// Parses the text into a matrix: one row per non-blank line, one
    /// converted value per character. The first conversion failure is
    /// returned unchanged.
    fn to_matrix<T, E, F: Fn(char) -> Result<T, E>>(&self, f: F) -> (r: Result<Vec<Vec<T>>, E>)
        requires
            forall|c: char| #[trigger] f.requires((c,)),
        ensures
            match r {
                Ok(rows) => {
                    &&& rows@.len() == content_lines(self.text()).len()
                    &&& forall|y: int|
                        0 <= y < rows@.len() ==> (#[trigger] rows@[y])@.len() == content_lines(
                            self.text(),
                        )[y].len()
                    &&& forall|y: int, x: int|
                        0 <= y < rows@.len() && 0 <= x < content_lines(self.text())[y].len()
                            ==> f.ensures(
                            (content_lines(self.text())[y][x],),
                            Ok(#[trigger] rows@[y]@[x]),
                        )
                },
                Err(e) => cell_conversion_fails(f, content_lines(self.text()), e),
            },
    ;

    /// Parses the text line by line: one converted value per non-blank line.
    /// The first conversion failure is returned unchanged.
    fn to_vec<T, E, F: Fn(&str) -> Result<T, E>>(&self, f: F) -> (r: Result<Vec<T>, E>)
        requires
            forall|l: &str| #[trigger] f.requires((l,)),
        ensures
            match r {
                Ok(out) => {
                    &&& out@.len() == content_lines(self.text()).len()
                    &&& forall|y: int|
                        0 <= y < out@.len() ==> line_parsed(
                            f,
                            content_lines(self.text())[y],
                            #[trigger] out@[y],
                        )
                },
                Err(e) => line_conversion_fails(f, content_lines(self.text()), e),
            },
    ;
}

impl Parseable for str {
    /// The characters of this string.
    open spec fn text(&self) -> Seq<char> {
        self@
    }

    fn to_matrix<T, E, F: Fn(char) -> Result<T, E>>(&self, f: F) -> (r: Result<Vec<Vec<T>>, E>) {
        let ghost lines = content_lines(self@);
        let rows = crate::grid::split_lines(self);
        let mut out: Vec<Vec<T>> = Vec::new();
        let mut y: usize = 0;
        while y < rows.len()
            invariant
                lines == content_lines(self@),
                rows@.map_values(|v: Vec<char>| v@) == lines,
                forall|c: char| #[trigger] f.requires((c,)),
                y <= rows@.len(),
                out@.len() == y,
                forall|j: int|
                    0 <= j < y ==> (#[trigger] out@[j])@.len() == lines[j].len(),
                forall|j: int, x: int|
                    0 <= j < y && 0 <= x < lines[j].len() ==> f.ensures(
                        (lines[j][x],),
                        Ok(#[trigger] out@[j]@[x]),
                    ),
            decreases rows@.len() - y,
        {
            proof {
                assert(rows@.map_values(|v: Vec<char>| v@)[y as int] == rows@[y as int]@);
            }
            let row = &rows[y];
            let mut converted: Vec<T> = Vec::new();
            let mut x: usize = 0;
            while x < row.len()
                invariant
                    lines == content_lines(self@),
                    rows@.map_values(|v: Vec<char>| v@) == lines,
                    forall|c: char| #[trigger] f.requires((c,)),
                    y < rows@.len(),
                    row@ == lines[y as int],
                    x <= row@.len(),
                    converted@.len() == x,
                    forall|k: int|
                        0 <= k < x ==> f.ensures(
                            (lines[y as int][k],),
                            Ok(#[trigger] converted@[k]),
                        ),
                decreases row@.len() - x,
            {
                proof {
                    assert(rows@.map_values(|v: Vec<char>| v@)[y as int] == rows@[y as int]@);
                }
                let c = row[x];
                match f(c) {
                    Ok(v) => {
                        converted.push(v);
                    },
                    Err(e) => {
                        proof {
                            assert(lines[y as int][x as int] == c);
                            assert(f.ensures((lines[y as int][x as int],), Err::<T, E>(e)));
                            assert(cell_conversion_fails(f, lines, e));
                            assert(cell_conversion_fails(f, content_lines(self.text()), e));
                        }
                        return Err(e);
                    },
                }
                x += 1;
            }
            out.push(converted);
            y += 1;
        }
        Ok(out)
    }

    fn to_vec<T, E, F: Fn(&str) -> Result<T, E>>(&self, f: F) -> (r: Result<Vec<T>, E>) {
        let ghost lines = content_lines(self@);
        let pieces = crate::grid::split_line_spans(self);
        let mut out: Vec<T> = Vec::new();
        let mut y: usize = 0;
        while y < pieces.len()
            invariant
                lines == content_lines(self@),
                pieces@.map_values(|p: &str| p@) == lines,
                forall|l: &str| #[trigger] f.requires((l,)),
                y <= pieces@.len(),
                out@.len() == y,
                forall|j: int| 0 <= j < y ==> line_parsed(f, lines[j], #[trigger] out@[j]),
            decreases pieces@.len() - y,
        {
            proof {
                assert(pieces@.map_values(|p: &str| p@)[y as int] == pieces@[y as int]@);
            }
            let piece = pieces[y];
            match f(piece) {
                Ok(v) => {
                    proof {
                        assert(piece@ == lines[y as int]);
                        assert(f.ensures((piece,), Ok::<T, E>(v)));
                        assert(line_parsed(f, lines[y as int], v));
                    }
                    out.push(v);
                },
                Err(e) => {
                    proof {
                        assert(piece@ == lines[y as int]);
                        assert(f.ensures((piece,), Err::<T, E>(e)));
                        assert(line_conversion_fails(f, lines, e));
                        assert(line_conversion_fails(f, content_lines(self.text()), e));
                    }
                    return Err(e);
                },
            }
            y += 1;
        }
        Ok(out)
    }
}

} // verus!
