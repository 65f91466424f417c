//! A grid of pixels and its plain-text portable pixmap (`P3`) rendering.

use vstd::prelude::*;
use crate::color::Color;
use crate::pixel::{self, Pixel};
use crate::text::{decimal, push_decimal, push_newline, push_space};

verus! {

/// A `height` by `width` grid of pixels, indexed by `(row, column)`.
#[derive(Clone)]
pub struct Canvas {
    width: usize,
    height: usize,
    pixels: Vec<Vec<Pixel>>,
}

/// The pixel of the color `(0, 0, 0)`.
pub open spec fn black() -> Pixel {
    Pixel { color: Color { r: 0, g: 0, b: 0 } }
}

/// One row as text: the colors' levels, all separated by single spaces.
pub open spec fn row_text(row: Seq<Pixel>) -> Seq<char>
    decreases row.len(),
{
    if row.len() == 0 {
        Seq::empty()
    } else if row.len() == 1 {
        row[0].color.spec_text()
    } else {
        row_text(row.drop_last()) + seq![' '] + row.last().color.spec_text()
    }
}

/// All rows as text, each followed by a line break.
pub open spec fn rows_text(rows: Seq<Seq<Pixel>>) -> Seq<char>
    decreases rows.len(),
{
    if rows.len() == 0 {
        Seq::empty()
    } else {
        rows_text(rows.drop_last()) + row_text(rows.last()) + seq!['\n']
    }
}

/// The header: format tag, `width height`, and the largest level.
pub open spec fn ppm_header(width: nat, height: nat) -> Seq<char> {
    seq!['P', '3', '\n'] + decimal(width) + seq![' '] + decimal(height) + seq!['\n', '2', '5', '5', '\n']
}

/// The whole image file.
pub open spec fn ppm_text(width: nat, height: nat, rows: Seq<Seq<Pixel>>) -> Seq<char> {
    ppm_header(width, height) + rows_text(rows)
}

/// A canvas of `height` rows and `width` columns, every pixel black.
pub fn new(height: usize, width: usize) -> (c: Canvas)
    ensures
        c.wf(),
        c.spec_height() == height,
        c.spec_width() == width,
        forall|i: int, j: int|
            0 <= i < height && 0 <= j < width ==> #[trigger] c.spec_pixel(i, j) == black(),
{
    let mut pixels: Vec<Vec<Pixel>> = Vec::new();
    let mut i: usize = 0;
    while i < height
        invariant
            i <= height,
            pixels@.len() == i,
            forall|k: int| 0 <= k < i ==> #[trigger] pixels@[k]@.len() == width,
            forall|k: int, j: int| 0 <= k < i && 0 <= j < width ==> #[trigger] pixels@[k]@[j] == black(),
        decreases height - i,
    {
        let mut row: Vec<Pixel> = Vec::new();
        let mut j: usize = 0;
        while j < width
            invariant
                j <= width,
                row@.len() == j,
                forall|k: int| 0 <= k < j ==> #[trigger] row@[k] == black(),
            decreases width - j,
        {
            row.push(pixel::new(0, 0, 0));
            j = j + 1;
        }
        pixels.push(row);
        i = i + 1;
    }
    Canvas { width, height, pixels }
}

impl Canvas {
    /// Rows and columns have the recorded sizes.
    pub closed spec fn wf(&self) -> bool {
        &&& self.pixels@.len() == self.height
        &&& forall|i: int| 0 <= i < self.height ==> #[trigger] self.pixels@[i]@.len() == self.width
    }

    pub closed spec fn spec_width(&self) -> nat {
        self.width as nat
    }

    pub closed spec fn spec_height(&self) -> nat {
        self.height as nat
    }

    /// The pixel at `(row, column)`.
    pub closed spec fn spec_pixel(&self, row: int, column: int) -> Pixel {
        self.pixels@[row]@[column]
    }

    /// The pixels, row by row.
    pub open spec fn spec_rows(&self) -> Seq<Seq<Pixel>> {
        Seq::new(self.spec_height(), |i: int| Seq::new(self.spec_width(), |j: int| self.spec_pixel(i, j)))
    }

    /// Number of columns.
    pub fn width(&self) -> (r: usize)
        ensures
            r == self.spec_width(),
    {
        self.width
    }

    /// Number of rows.
    pub fn height(&self) -> (r: usize)
        ensures
            r == self.spec_height(),
    {
        self.height
    }

    /// The pixel at `(row, column)`.
    pub fn pixel(&self, row: usize, column: usize) -> (p: Pixel)
        requires
            self.wf(),
            row < self.spec_height(),
            column < self.spec_width(),
        ensures
            p == self.spec_pixel(row as int, column as int),
    {
        self.pixels[row][column]
    }

    /// Replaces the pixel at `(row, column)`; every other pixel is kept.
    pub fn set_pixel(&mut self, row: usize, column: usize, p: Pixel)
        requires
            old(self).wf(),
            row < old(self).spec_height(),
            column < old(self).spec_width(),
        ensures
            final(self).wf(),
            final(self).spec_height() == old(self).spec_height(),
            final(self).spec_width() == old(self).spec_width(),
            final(self).spec_pixel(row as int, column as int) == p,
            forall|i: int, j: int|
                0 <= i < old(self).spec_height() && 0 <= j < old(self).spec_width() && (i != row || j
                    != column) ==> #[trigger] final(self).spec_pixel(i, j) == old(self).spec_pixel(i, j),
    {
        let mut line = self.pixels[row].clone();
        line.set(column, p);
        self.pixels.set(row, line);
    }

    /// Renders the canvas as a plain-text pixmap: the header `P3`, then
    /// `width height`, then `255`, each on its own line, then one line per
    /// row holding every pixel's `r g b` levels separated by single spaces.
    pub fn to_ppm(self) -> (s: String)
        requires
            self.wf(),
        ensures
            s@ == ppm_text(self.spec_width(), self.spec_height(), self.spec_rows()),
    {
        let mut s = String::new();
        s.append("P3\n");
        push_decimal(&mut s, self.width as u64);
        push_space(&mut s);
        push_decimal(&mut s, self.height as u64);
        s.append("\n255\n");
        proof {
            reveal_strlit("P3\n");
            reveal_strlit("\n255\n");
            assert(s@ =~= ppm_header(self.width as nat, self.height as nat));
        }
        let ghost header = s@;
        let ghost rows = self.spec_rows();
        let mut i: usize = 0;
        while i < self.height
            invariant
                self.wf(),
                rows == self.spec_rows(),
                i <= self.height,
                s@ == header + rows_text(rows.subrange(0, i as int)),
            decreases self.height - i,
        {
            let ghost before = s@;
            let mut j: usize = 0;
            while j < self.width
                invariant
                    self.wf(),
                    rows == self.spec_rows(),
                    i < self.height,
                    j <= self.width,
                    s@ == before + row_text(rows[i as int].subrange(0, j as int)),
                decreases self.width - j,
            {
                if j > 0 {
                    push_space(&mut s);
                }
                self.pixels[i][j].color.push_text(&mut s);
                proof {
                    let row = rows[i as int].subrange(0, j + 1);
                    assert(row.drop_last() =~= rows[i as int].subrange(0, j as int));
                    assert(row.last() == self.spec_pixel(i as int, j as int));
                    if j == 0 {
                        assert(row_text(rows[i as int].subrange(0, 0)) =~= Seq::<char>::empty());
                    }
                }
                j = j + 1;
            }
            push_newline(&mut s);
            proof {
                assert(rows[i as int].subrange(0, self.width as int) =~= rows[i as int]);
                let done = rows.subrange(0, i + 1);
                assert(done.drop_last() =~= rows.subrange(0, i as int));
            }
            i = i + 1;
        }
        assert(rows.subrange(0, self.height as int) =~= rows);
        s
    }
}

} // verus!
