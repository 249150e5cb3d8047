use vstd::prelude::*;

use crate::point_and_color::Color;

verus! {

/// Width and height of an image, in pixels.
#[derive(Clone, Copy)]
pub struct Resolution {
    pub width: usize,
    pub height: usize,
}

/// An image held as scanlines: `self.0[y][x]` is the pixel in column `x` of
/// row `y`, with row 0 at the top.
pub struct PixelGrid(pub Vec<Vec<Color>>);

impl View for PixelGrid {
    type V = Seq<Seq<Color>>;

    open spec fn view(&self) -> Seq<Seq<Color>> {
        self.0@.map_values(|row: Vec<Color>| row@)
    }
}

/// Whether a color is black, with a zero meaningless byte.
pub open spec fn is_black(c: Color) -> bool {
    c.0 == 0 && c.1 == 0 && c.2 == 0 && c.has_zero_padding()
}

/// Whether `rows` has `res.height` rows of `res.width` black pixels each.
pub open spec fn is_blank(rows: Seq<Seq<Color>>, res: Resolution) -> bool {
    &&& rows.len() == res.height
    &&& forall|y: int| 0 <= y < rows.len() ==> #[trigger] rows[y].len() == res.width
    &&& forall|y: int, x: int|
        0 <= y < rows.len() && 0 <= x < rows[y].len() ==> is_black(#[trigger] rows[y][x])
}

/// Whether `(x, y)` names a pixel of `rows`.
pub open spec fn in_bounds(rows: Seq<Seq<Color>>, x: int, y: int) -> bool {
    0 <= y < rows.len() && 0 <= x < rows[y].len()
}

/// `rows` with the pixel at `(x, y)` replaced by `color`.
pub open spec fn with_pixel(rows: Seq<Seq<Color>>, x: int, y: int, color: Color) -> Seq<Seq<Color>> {
    rows.update(y, rows[y].update(x, color))
}

/// Whether every row of `rows` has `width` pixels.
pub open spec fn is_rectangular(rows: Seq<Seq<Color>>, width: nat) -> bool {
    forall|y: int| 0 <= y < rows.len() ==> #[trigger] rows[y].len() == width
}

/// In a grid whose rows all have `width` pixels, the pixels taken row after
/// row number `rows * width`, and the one in column `x` of row `y` comes at
/// position `y * width + x`.
pub proof fn lemma_row_major_index(rows: Seq<Seq<Color>>, width: nat, x: int, y: int)
    requires
        is_rectangular(rows, width),
        0 <= y < rows.len(),
        0 <= x < width,
    ensures
        rows.flatten().len() == rows.len() * width,
        rows.flatten()[y * width + x] == rows[y][x],
    decreases rows.len(),
{
    let rest = rows.drop_first();
    let flat = rows.flatten();
    assert(flat == rows.first() + rest.flatten());
    assert(rows.first().len() == width);
    assert(is_rectangular(rest, width)) by {
        assert forall|j: int| 0 <= j < rest.len() implies #[trigger] rest[j].len() == width by {
            assert(rest[j] == rows[j + 1]);
        }
    }
    assert(rows.len() * width == width + rest.len() * width) by (nonlinear_arith)
        requires
            rest.len() == rows.len() - 1,
    ;
    if rest.len() == 0 {
        assert(rest.flatten() =~= Seq::<Color>::empty());
    } else {
        lemma_row_major_index(rest, width, 0, 0);
    }
    assert(flat.len() == rows.len() * width);
    if y == 0 {
        assert(flat[x] == rows.first()[x]);
    } else {
        lemma_row_major_index(rest, width, x, y - 1);
        assert(y * width + x == width + ((y - 1) * width + x)) by (nonlinear_arith);
        assert((y - 1) * width + x >= 0) by (nonlinear_arith)
            requires
                y >= 1,
                x >= 0,
        ;
        assert(rest[y - 1] == rows[y]);
        assert((y - 1) * width + x < rest.len() * width) by (nonlinear_arith)
            requires
                y - 1 < rest.len(),
                0 <= x < width,
        ;
        assert(flat[width + ((y - 1) * width + x)] == rest.flatten()[(y - 1) * width + x]);
    }
}

/// After a pixel is set, the image read row after row shows the new color
/// at that pixel's position and the old color at every other pixel.
pub proof fn lemma_set_pixel_shows_in_row_major(
    rows: Seq<Seq<Color>>,
    width: nat,
    x: int,
    y: int,
    color: Color,
    other_x: int,
    other_y: int,
)
    requires
        is_rectangular(rows, width),
        in_bounds(rows, x, y),
        in_bounds(rows, other_x, other_y),
        other_x != x || other_y != y,
    ensures
        with_pixel(rows, x, y, color).flatten().len() == rows.flatten().len(),
        with_pixel(rows, x, y, color).flatten()[y * width + x] == color,
        with_pixel(rows, x, y, color).flatten()[other_y * width + other_x] == rows.flatten()[other_y
            * width + other_x],
{
    let after = with_pixel(rows, x, y, color);
    assert(is_rectangular(after, width)) by {
        assert forall|j: int| 0 <= j < after.len() implies #[trigger] after[j].len() == width by {
            if j != y {
                assert(after[j] == rows[j]);
            }
        }
    }
    lemma_row_major_index(rows, width, x, y);
    lemma_row_major_index(after, width, x, y);
    lemma_row_major_index(rows, width, other_x, other_y);
    lemma_row_major_index(after, width, other_x, other_y);
}

/// The number that a sequence of ASCII decimal digits stands for.
pub open spec fn decimal_value(digits: Seq<u8>) -> int
    decreases digits.len(),
{
    if digits.len() == 0 {
        0
    } else {
        decimal_value(digits.drop_last()) * 10 + (digits.last() - 48)
    }
}

/// The ASCII digits of `n` in base ten, most significant first, without
/// leading zeros.
pub open spec fn decimal(n: nat) -> Seq<u8>
    decreases n,
{
    if n < 10 {
        seq![(n + 48) as u8]
    } else {
        decimal(n / 10).push((n % 10 + 48) as u8)
    }
}

/// The digits written for a number are ASCII digits, the first of them
/// not a zero unless the number is zero, and they read back as that number.
pub proof fn lemma_decimal_reads_back(n: nat)
    ensures
        decimal(n).len() > 0,
        forall|i: int| 0 <= i < decimal(n).len() ==> 48 <= #[trigger] decimal(n)[i] <= 57,
        n > 0 ==> decimal(n)[0] != 48,
        decimal_value(decimal(n)) == n,
    decreases n,
{
    if n >= 10 {
        lemma_decimal_reads_back(n / 10);
        let d = decimal(n);
        assert(d.drop_last() =~= decimal(n / 10));
        assert(d[0] == decimal(n / 10)[0]);
        assert(d.last() == (n % 10 + 48) as u8);
        assert(d.last() - 48 == n % 10);
        assert(decimal_value(d) == decimal_value(d.drop_last()) * 10 + (d.last() - 48));
        assert((n / 10) * 10 + n % 10 == n);
    } else {
        assert(decimal(n).drop_last() =~= Seq::<u8>::empty());
        assert(decimal(n).last() == (n + 48) as u8);
        assert(decimal_value(decimal(n)) == decimal_value(decimal(n).drop_last()) * 10 + (decimal(
            n,
        ).last() - 48));
    }
}

/// The text of one pixel in a plain PPM body: the three channels in
/// decimal, each followed by a space.
pub open spec fn pixel_text(c: Color) -> Seq<u8> {
    decimal(c.0 as nat) + seq![32u8] + decimal(c.1 as nat) + seq![32u8] + decimal(c.2 as nat)
        + seq![32u8]
}

/// The text of one scanline: its pixels, left to right.
pub open spec fn scanline_text(row: Seq<Color>) -> Seq<u8>
    decreases row.len(),
{
    if row.len() == 0 {
        seq![]
    } else {
        scanline_text(row.drop_last()) + pixel_text(row.last())
    }
}

/// The body of the image: each scanline, top to bottom, followed by a
/// line feed.
pub open spec fn body_text(rows: Seq<Seq<Color>>) -> Seq<u8>
    decreases rows.len(),
{
    if rows.len() == 0 {
        seq![]
    } else {
        body_text(rows.drop_last()) + scanline_text(rows.last()) + seq![10u8]
    }
}

/// The text of two runs of pixels, one after the other, is the text of the
/// first run followed by the text of the second: pixels are written left
/// to right.
pub proof fn lemma_scanline_text_concat(a: Seq<Color>, b: Seq<Color>)
    ensures
        scanline_text(a + b) == scanline_text(a) + scanline_text(b),
    decreases b.len(),
{
    if b.len() == 0 {
        assert(a + b =~= a);
        assert(scanline_text(b) =~= Seq::<u8>::empty());
        assert(scanline_text(a) + scanline_text(b) =~= scanline_text(a));
    } else {
        assert((a + b).drop_last() =~= a + b.drop_last());
        assert((a + b).last() == b.last());
        lemma_scanline_text_concat(a, b.drop_last());
        assert(scanline_text(a + b) =~= scanline_text(a) + scanline_text(b));
    }
}

/// A single pixel is written as its red, green and blue channels in
/// decimal, in that order, each followed by a space.
pub proof fn lemma_scanline_text_one_pixel(c: Color)
    ensures
        scanline_text(seq![c]) == decimal(c.0 as nat) + seq![32u8] + decimal(c.1 as nat) + seq![
            32u8,
        ] + decimal(c.2 as nat) + seq![32u8],
{
    assert(seq![c].drop_last() =~= Seq::<Color>::empty());
    assert(scanline_text(seq![c].drop_last()) =~= Seq::<u8>::empty());
    assert(scanline_text(seq![c]) =~= pixel_text(c));
}

/// The body of two runs of rows, one above the other, is the body of the
/// upper run followed by the body of the lower run: scanlines are written
/// top to bottom.
pub proof fn lemma_body_text_concat(a: Seq<Seq<Color>>, b: Seq<Seq<Color>>)
    ensures
        body_text(a + b) == body_text(a) + body_text(b),
    decreases b.len(),
{
    if b.len() == 0 {
        assert(a + b =~= a);
        assert(body_text(b) =~= Seq::<u8>::empty());
        assert(body_text(a) + body_text(b) =~= body_text(a));
    } else {
        assert((a + b).drop_last() =~= a + b.drop_last());
        assert((a + b).last() == b.last());
        lemma_body_text_concat(a, b.drop_last());
        assert(body_text(a + b) =~= body_text(a) + body_text(b));
    }
}

/// A single row is written as its scanline followed by a line feed.
pub proof fn lemma_body_text_one_row(row: Seq<Color>)
    ensures
        body_text(seq![row]) == scanline_text(row) + seq![10u8],
{
    assert(seq![row].drop_last() =~= Seq::<Seq<Color>>::empty());
    assert(body_text(seq![row].drop_last()) =~= Seq::<u8>::empty());
    assert(body_text(seq![row]) =~= scanline_text(row) + seq![10u8]);
}

/// Row `y` of an image is written after every row above it and before
/// every row below it.
pub proof fn lemma_body_text_row_order(rows: Seq<Seq<Color>>, y: int)
    requires
        0 <= y < rows.len(),
    ensures
        body_text(rows) == body_text(rows.take(y)) + scanline_text(rows[y]) + seq![10u8]
            + body_text(rows.skip(y + 1)),
{
    assert(rows =~= rows.take(y) + (seq![rows[y]] + rows.skip(y + 1)));
    lemma_body_text_concat(rows.take(y), seq![rows[y]] + rows.skip(y + 1));
    lemma_body_text_concat(seq![rows[y]], rows.skip(y + 1));
    lemma_body_text_one_row(rows[y]);
    assert(body_text(rows) =~= body_text(rows.take(y)) + scanline_text(rows[y]) + seq![10u8]
        + body_text(rows.skip(y + 1)));
}

/// The header of the image: `P3`, then the width (the length of the first
/// row) and the height (the number of rows), then the largest channel value
/// 255, each on a line.
pub open spec fn header_text(rows: Seq<Seq<Color>>) -> Seq<u8> {
    seq![80u8, 51u8, 10u8] + decimal(rows[0].len()) + seq![32u8] + decimal(rows.len()) + seq![
        10u8,
    ] + seq![50u8, 53u8, 53u8, 10u8]
}

/// The whole plain-PPM text of an image.
pub open spec fn ppm_text(rows: Seq<Seq<Color>>) -> Seq<u8> {
    header_text(rows) + body_text(rows)
}

/// Appends the decimal digits of `n`.
fn push_decimal(dest: &mut Vec<u8>, n: usize)
    ensures
        final(dest)@ == old(dest)@ + decimal(n as nat),
    decreases n,
{
    if n >= 10 {
        push_decimal(dest, n / 10);
    }
    let digit: u8 = (n % 10) as u8;
    dest.push(digit + 48);
    proof {
        if n >= 10 {
            assert(old(dest)@ + decimal(n as nat) =~= old(dest)@ + decimal((n / 10) as nat) + seq![
                (digit + 48) as u8,
            ]);
        }
    }
}

impl PixelGrid {
    /// A black image of the given resolution.
    pub fn new(res: Resolution) -> (grid: Self)
        ensures
            is_blank(grid@, res),
    {
        let mut rows: Vec<Vec<Color>> = Vec::new();
        for j in 0..res.height
            invariant
                rows@.len() == j,
                forall|y: int| 0 <= y < j ==> #[trigger] rows@[y]@.len() == res.width,
                forall|y: int, x: int|
                    0 <= y < j && 0 <= x < rows@[y]@.len() ==> is_black(#[trigger] rows@[y]@[x]),
        {
            let mut row: Vec<Color> = Vec::new();
            for i in 0..res.width
                invariant
                    row@.len() == i,
                    forall|x: int| 0 <= x < i ==> is_black(#[trigger] row@[x]),
            {
                row.push(Color::new(0, 0, 0));
            }
            rows.push(row);
        }
        let grid = PixelGrid(rows);
        assert(grid@.len() == res.height);
        grid
    }

    /// Whether `(x, y)` names a pixel of the image.
    pub fn contains(&self, x: usize, y: usize) -> (b: bool)
        ensures
            b == in_bounds(self@, x as int, y as int),
    {
        y < self.0.len() && x < self.0[y].len()
    }

    /// Sets the pixel in column `x` of row `y` to `color`, leaving every
    /// other pixel as it was.
    pub fn set_pixel(&mut self, x: usize, y: usize, color: Color)
        requires
            in_bounds(old(self)@, x as int, y as int),
        ensures
            final(self)@ == with_pixel(old(self)@, x as int, y as int, color),
    {
        self.0[y][x] = color;
        assert(self@ =~= with_pixel(old(self)@, x as int, y as int, color));
    }

    /// Appends the image, as plain PPM text, to `dest`: the header gives
    /// the width, then the height.
    pub fn save_as_ppm(&self, dest: &mut Vec<u8>)
        requires
            self@.len() > 0,
        ensures
            final(dest)@ == old(dest)@ + ppm_text(self@),
    {
        let rows = &self.0;
        dest.push(80u8);
        dest.push(51u8);
        dest.push(10u8);
        push_decimal(dest, rows[0].len());
        dest.push(32u8);
        push_decimal(dest, rows.len());
        dest.push(10u8);
        dest.push(50u8);
        dest.push(53u8);
        dest.push(53u8);
        dest.push(10u8);
        assert(dest@ =~= old(dest)@ + header_text(self@));
        let ghost start = dest@;
        for y in 0..rows.len()
            invariant
                rows@.len() == self@.len(),
                self@ == rows@.map_values(|row: Vec<Color>| row@),
                start == old(dest)@ + header_text(self@),
                dest@ == start + body_text(self@.take(y as int)),
        {
            let row = &rows[y];
            let ghost line_start = dest@;
            for x in 0..row.len()
                invariant
                    dest@ == line_start + scanline_text(row@.take(x as int)),
            {
                let (r, g, b) = row[x].rgb();
                let ghost before = dest@;
                push_decimal(dest, r as usize);
                dest.push(32u8);
                push_decimal(dest, g as usize);
                dest.push(32u8);
                push_decimal(dest, b as usize);
                dest.push(32u8);
                assert(row@.take(x + 1).drop_last() =~= row@.take(x as int));
                assert(dest@ =~= before + pixel_text(row@[x as int]));
            }
            dest.push(10u8);
            assert(row@.take(row@.len() as int) =~= row@);
            assert(self@.take(y + 1).drop_last() =~= self@.take(y as int));
            assert(self@.take(y + 1).last() == row@);
        }
        assert(self@.take(self@.len() as int) =~= self@);
    }

    /// All pixels, row after row, each row left to right.
    pub fn row_major(&self) -> (pixels: Vec<Color>)
        ensures
            pixels@ == self@.flatten(),
    {
        let rows = &self.0;
        let mut pixels: Vec<Color> = Vec::new();
        for y in 0..rows.len()
            invariant
                rows@.len() == self@.len(),
                self@ == rows@.map_values(|row: Vec<Color>| row@),
                pixels@ == self@.take(y as int).flatten(),
        {
            let row = &rows[y];
            let ghost before = pixels@;
            for x in 0..row.len()
                invariant
                    pixels@ == before + row@.take(x as int),
            {
                pixels.push(row[x]);
                assert(row@.take(x + 1) =~= row@.take(x as int).push(row@[x as int]));
            }
            assert(row@.take(row@.len() as int) =~= row@);
            proof {
                self@.take(y as int).lemma_flatten_push(row@);
                assert(self@.take(y + 1) =~= self@.take(y as int).push(row@));
            }
        }
        assert(self@.take(self@.len() as int) =~= self@);
        pixels
    }
}

} // verus!
