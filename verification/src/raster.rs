//! Pixel drawing on a linear BGRA framebuffer.
//!
//! A framebuffer is a byte sequence; pixel `(x, y)` of a screen that is
//! `width` pixels wide occupies the four bytes starting at
//! `(y * width + x) * 4`, in the order blue, green, red, alpha. Writes outside
//! the screen, or past the end of the buffer, are dropped.
use vstd::prelude::*;
use vstd::arithmetic::div_mod::{
    lemma_fundamental_div_mod, lemma_fundamental_div_mod_converse, lemma_mod_pos_bound,
};

use crate::color::{Color, channel, lemma_bgra_bytes};
use crate::wire::le_bytes;

verus! {

/// A set of screen coordinates.
pub type Region = spec_fn(int, int) -> bool;

/// The pixel index of a screen that is `width` pixels wide fits the machine's
/// address arithmetic.
pub open spec fn screen_fits(width: int, height: int) -> bool {
    0 <= width * height * 4 <= usize::MAX
}

/// A screen whose pixel indices fit the machine's address arithmetic, and
/// whose sides leave room in a `usize` for layout offsets around them.
pub open spec fn screen_ok(width: int, height: int) -> bool {
    &&& screen_fits(width, height)
    &&& width * 4 + 4096 <= usize::MAX
    &&& height * 4 + 4096 <= usize::MAX
}

/// Whether a paint of `region` stores into byte `i` of a buffer of `len` bytes.
pub open spec fn pixel_painted(len: int, width: int, height: int, region: Region, i: int) -> bool {
    let p = i / 4;
    &&& width > 0
    &&& 0 <= i
    &&& p / width < height
    &&& 4 * p + 3 < len
    &&& region(p % width, p / width)
}

/// The buffer after every on-screen pixel of `region` is set to `color`.
pub open spec fn paint(fb: Seq<u8>, width: int, height: int, region: Region, color: Color) -> Seq<u8> {
    Seq::new(
        fb.len(),
        |i: int|
            if pixel_painted(fb.len() as int, width, height, region, i) {
                channel(color, i % 4)
            } else {
                fb[i]
            },
    )
}

/// The single pixel `(x, y)`.
pub open spec fn point(x: int, y: int) -> Region {
    |px: int, py: int| px == x && py == y
}

/// The axis-aligned rectangle with corner `(x, y)`, `w` pixels wide and `h` high.
pub open spec fn rect(x: int, y: int, w: int, h: int) -> Region {
    |px: int, py: int| x <= px < x + w && y <= py < y + h
}

/// The union of two regions.
pub open spec fn union(a: Region, b: Region) -> Region {
    |px: int, py: int| a(px, py) || b(px, py)
}

/// The buffer after each `(region, color)` layer is painted in order.
pub open spec fn paint_layers(fb: Seq<u8>, width: int, height: int, layers: Seq<(Region, Color)>) -> Seq<u8>
    decreases layers.len(),
{
    if layers.len() == 0 {
        fb
    } else {
        let last = layers.last();
        paint(paint_layers(fb, width, height, layers.drop_last()), width, height, last.0, last.1)
    }
}

/// Pixel index `p` has column `x` and row `y` exactly when it is `y * w + x`.
pub proof fn lemma_pixel_coords(p: int, w: int, x: int, y: int)
    requires
        w > 0,
        0 <= x < w,
        0 <= p,
    ensures
        (p % w == x && p / w == y) <==> p == y * w + x,
{
    if p == y * w + x {
        lemma_fundamental_div_mod_converse(p, w, y, x);
    }
    if p % w == x && p / w == y {
        lemma_fundamental_div_mod(p, w);
        assert(p == w * y + x);
        assert(w * y == y * w) by (nonlinear_arith);
    }
}

/// The column of a pixel index lies on the screen.
pub proof fn lemma_column_bound(p: int, w: int)
    requires
        w > 0,
        0 <= p,
    ensures
        0 <= p % w < w,
        0 <= p / w,
{
    lemma_mod_pos_bound(p, w);
    assert(0 <= p / w) by (nonlinear_arith)
        requires
            w > 0,
            0 <= p,
    ;
}

/// Two regions that agree on the screen paint the same bytes.
pub proof fn lemma_paint_ext(fb: Seq<u8>, width: int, height: int, a: Region, b: Region, color: Color)
    requires
        forall|px: int, py: int| 0 <= px < width && 0 <= py < height ==> #[trigger] a(px, py) == b(px, py),
    ensures
        paint(fb, width, height, a, color) == paint(fb, width, height, b, color),
{
    assert forall|i: int| 0 <= i < fb.len() implies pixel_painted(fb.len() as int, width, height, a, i)
        == pixel_painted(fb.len() as int, width, height, b, i) by {
        if width > 0 {
            lemma_column_bound(i / 4, width);
        }
    }
    assert(paint(fb, width, height, a, color) =~= paint(fb, width, height, b, color));
}

/// Painting two regions one after the other in one color paints their union.
pub proof fn lemma_paint_union(fb: Seq<u8>, width: int, height: int, a: Region, b: Region, color: Color)
    ensures
        paint(paint(fb, width, height, a, color), width, height, b, color)
            == paint(fb, width, height, union(a, b), color),
{
    assert(paint(paint(fb, width, height, a, color), width, height, b, color)
        =~= paint(fb, width, height, union(a, b), color));
}

/// Painting an empty region leaves the buffer as it is.
pub proof fn lemma_paint_nothing(fb: Seq<u8>, width: int, height: int, a: Region, color: Color)
    requires
        forall|px: int, py: int| 0 <= px < width && 0 <= py < height ==> !#[trigger] a(px, py),
    ensures
        paint(fb, width, height, a, color) == fb,
{
    assert forall|i: int| 0 <= i < fb.len() implies !pixel_painted(fb.len() as int, width, height, a, i) by {
        if width > 0 {
            lemma_column_bound(i / 4, width);
        }
    }
    assert(paint(fb, width, height, a, color) =~= fb);
}

/// Sets pixel `(x, y)` to `color`; a pixel off the screen or past the end of
/// the buffer is left alone.
pub fn put_pixel(fb: &mut Vec<u8>, width: usize, height: usize, x: usize, y: usize, color: Color)
    requires
        screen_fits(width as int, height as int),
    ensures
        final(fb)@ == paint(old(fb)@, width as int, height as int, point(x as int, y as int), color),
{
    let ghost old_fb = fb@;
    let ghost len = fb@.len() as int;
    if x >= width || y >= height {
        proof {
            lemma_paint_nothing(old_fb, width as int, height as int, point(x as int, y as int), color);
        }
        return;
    }
    proof {
        assert(y * width + x < width * height) by (nonlinear_arith)
            requires
                y < height,
                x < width,
        ;
    }
    let index = (y * width + x) * 4;
    if index + 3 >= fb.len() {
        proof {
            assert forall|i: int| 0 <= i < len implies !pixel_painted(len, width as int, height as int, point(x as int, y as int), i) by {
                lemma_pixel_coords(i / 4, width as int, x as int, y as int);
            }
            assert(paint(old_fb, width as int, height as int, point(x as int, y as int), color) =~= old_fb);
        }
        return;
    }
    fb.set(index, color.b);
    fb.set(index + 1, color.g);
    fb.set(index + 2, color.r);
    fb.set(index + 3, 0xff);
    proof {
        let k = (y * width + x) as int;
        assert forall|i: int| 0 <= i < len implies
            #[trigger] fb@[i] == paint(old_fb, width as int, height as int, point(x as int, y as int), color)[i] by {
            lemma_pixel_coords(i / 4, width as int, x as int, y as int);
            if i / 4 == k {
                assert(4 * k <= i < 4 * k + 4);
            } else {
                assert(i < 4 * k || i >= 4 * k + 4);
            }
        }
        assert(fb@ =~= paint(old_fb, width as int, height as int, point(x as int, y as int), color));
    }
}

/// The part of a rectangle fill done after the rows before `yy`, and the
/// columns before `xx` of row `yy`.
spec fn fill_progress(x: int, y: int, end_x: int, yy: int, xx: int) -> Region {
    |px: int, py: int| (y <= py < yy && x <= px < end_x) || (py == yy && x <= px < xx)
}

/// Fills the rectangle with corner `(x, y)`, `w` pixels wide and `h` high,
/// clipped to the screen.
pub fn fill_rect(
    fb: &mut Vec<u8>,
    width: usize,
    height: usize,
    x: usize,
    y: usize,
    w: usize,
    h: usize,
    color: Color,
)
    requires
        screen_fits(width as int, height as int),
        x + w <= usize::MAX,
        y + h <= usize::MAX,
    ensures
        final(fb)@ == paint(old(fb)@, width as int, height as int, rect(x as int, y as int, w as int, h as int), color),
{
    let ghost old_fb = fb@;
    let ghost wi = width as int;
    let ghost hi = height as int;
    let end_y = if y + h < height { y + h } else { height };
    let end_x = if x + w < width { x + w } else { width };
    let mut yy = y;
    proof {
        lemma_paint_nothing(old_fb, wi, hi, fill_progress(x as int, y as int, end_x as int, y as int, x as int), color);
    }
    while yy < end_y
        invariant
            screen_fits(wi, hi),
            wi == width,
            hi == height,
            end_y <= height,
            x <= end_x || end_x == width,
            end_y == (if y + h < height { y + h } else { height as int }),
            end_x == (if x + w < width { x + w } else { width as int }),
            y <= yy,
            yy <= end_y || yy == y,
            fb@ == paint(old_fb, wi, hi, fill_progress(x as int, y as int, end_x as int, yy as int, x as int), color),
        decreases end_y - yy,
    {
        let mut xx = x;
        while xx < end_x
            invariant
                screen_fits(wi, hi),
                wi == width,
                hi == height,
                y <= yy < end_y <= height,
                end_x <= width,
                x <= xx,
                xx <= end_x || xx == x,
                fb@ == paint(old_fb, wi, hi, fill_progress(x as int, y as int, end_x as int, yy as int, xx as int), color),
            decreases end_x - xx,
        {
            let ghost before = fb@;
            put_pixel(fb, width, height, xx, yy, color);
            proof {
                let p0 = fill_progress(x as int, y as int, end_x as int, yy as int, xx as int);
                let p1 = fill_progress(x as int, y as int, end_x as int, yy as int, xx + 1);
                lemma_paint_union(old_fb, wi, hi, p0, point(xx as int, yy as int), color);
                lemma_paint_ext(old_fb, wi, hi, union(p0, point(xx as int, yy as int)), p1, color);
            }
            xx = xx + 1;
        }
        proof {
            let p0 = fill_progress(x as int, y as int, end_x as int, yy as int, xx as int);
            let p1 = fill_progress(x as int, y as int, end_x as int, yy + 1, x as int);
            lemma_paint_ext(old_fb, wi, hi, p0, p1, color);
        }
        yy = yy + 1;
    }
    proof {
        lemma_paint_ext(
            old_fb,
            wi,
            hi,
            fill_progress(x as int, y as int, end_x as int, yy as int, x as int),
            rect(x as int, y as int, w as int, h as int),
            color,
        );
    }
}

/// The 3x5 glyph of decimal digit `d`, row by row; 1 marks a lit cell.
pub open spec fn digit_glyph(d: int) -> Seq<u8> {
    if d == 0 {
        seq![1, 1, 1, 1, 0, 1, 1, 0, 1, 1, 0, 1, 1, 1, 1]
    } else if d == 1 {
        seq![0, 1, 0, 1, 1, 0, 0, 1, 0, 0, 1, 0, 1, 1, 1]
    } else if d == 2 {
        seq![1, 1, 1, 0, 0, 1, 1, 1, 1, 1, 0, 0, 1, 1, 1]
    } else if d == 3 {
        seq![1, 1, 1, 0, 0, 1, 1, 1, 1, 0, 0, 1, 1, 1, 1]
    } else if d == 4 {
        seq![1, 0, 1, 1, 0, 1, 1, 1, 1, 0, 0, 1, 0, 0, 1]
    } else if d == 5 {
        seq![1, 1, 1, 1, 0, 0, 1, 1, 1, 0, 0, 1, 1, 1, 1]
    } else if d == 6 {
        seq![1, 1, 1, 1, 0, 0, 1, 1, 1, 1, 0, 1, 1, 1, 1]
    } else if d == 7 {
        seq![1, 1, 1, 0, 0, 1, 0, 0, 1, 0, 0, 1, 0, 0, 1]
    } else if d == 8 {
        seq![1, 1, 1, 1, 0, 1, 1, 1, 1, 1, 0, 1, 1, 1, 1]
    } else {
        seq![1, 1, 1, 1, 0, 1, 1, 1, 1, 0, 0, 1, 1, 1, 1]
    }
}

/// The square of glyph cell `k` (row `k / 3`, column `k % 3`) of a digit
/// drawn at `(x, y)` with cells `scale` pixels wide.
pub open spec fn glyph_cell(x: int, y: int, scale: int, k: int) -> Region {
    rect(x + (k % 3) * scale, y + (k / 3) * scale, scale, scale)
}

/// The lit cells among the first `n` cells of the glyph of `d`.
pub open spec fn glyph_cells(d: int, x: int, y: int, scale: int, n: int) -> Region
    decreases n,
{
    if n <= 0 {
        |px: int, py: int| false
    } else if digit_glyph(d)[n - 1] == 1 {
        union(glyph_cells(d, x, y, scale, n - 1), glyph_cell(x, y, scale, n - 1))
    } else {
        glyph_cells(d, x, y, scale, n - 1)
    }
}

/// The pixels that decimal digit `d` lights when drawn at `(x, y)`.
pub open spec fn digit_region(d: int, x: int, y: int, scale: int) -> Region {
    glyph_cells(d % 10, x, y, scale, 15)
}

/// The glyph of digit `d` as a table.
fn glyph(d: usize) -> (g: [u8; 15])
    requires
        d < 10,
    ensures
        g@ == digit_glyph(d as int),
{
    let g = if d == 0 {
        [1, 1, 1, 1, 0, 1, 1, 0, 1, 1, 0, 1, 1, 1, 1]
    } else if d == 1 {
        [0, 1, 0, 1, 1, 0, 0, 1, 0, 0, 1, 0, 1, 1, 1]
    } else if d == 2 {
        [1, 1, 1, 0, 0, 1, 1, 1, 1, 1, 0, 0, 1, 1, 1]
    } else if d == 3 {
        [1, 1, 1, 0, 0, 1, 1, 1, 1, 0, 0, 1, 1, 1, 1]
    } else if d == 4 {
        [1, 0, 1, 1, 0, 1, 1, 1, 1, 0, 0, 1, 0, 0, 1]
    } else if d == 5 {
        [1, 1, 1, 1, 0, 0, 1, 1, 1, 0, 0, 1, 1, 1, 1]
    } else if d == 6 {
        [1, 1, 1, 1, 0, 0, 1, 1, 1, 1, 0, 1, 1, 1, 1]
    } else if d == 7 {
        [1, 1, 1, 0, 0, 1, 0, 0, 1, 0, 0, 1, 0, 0, 1]
    } else if d == 8 {
        [1, 1, 1, 1, 0, 1, 1, 1, 1, 1, 0, 1, 1, 1, 1]
    } else {
        [1, 1, 1, 1, 0, 1, 1, 1, 1, 0, 0, 1, 1, 1, 1]
    };
    assert(g@ =~= digit_glyph(d as int));
    g
}

/// Draws decimal digit `digit % 10` as a 3x5 glyph of `scale`-pixel squares
/// with its corner at `(x, y)`.
pub fn draw_digit(
    fb: &mut Vec<u8>,
    width: usize,
    height: usize,
    digit: usize,
    x: usize,
    y: usize,
    scale: usize,
    color: Color,
)
    requires
        screen_fits(width as int, height as int),
        x + 3 * scale <= usize::MAX,
        y + 5 * scale <= usize::MAX,
    ensures
        final(fb)@ == paint(old(fb)@, width as int, height as int,
            digit_region(digit as int, x as int, y as int, scale as int), color),
{
    let ghost old_fb = fb@;
    let ghost d = (digit % 10) as int;
    let pattern = glyph(digit % 10);
    proof {
        lemma_paint_nothing(old_fb, width as int, height as int, glyph_cells(d, x as int, y as int, scale as int, 0), color);
    }
    let mut row: usize = 0;
    while row < 5
        invariant
            screen_fits(width as int, height as int),
            x + 3 * scale <= usize::MAX,
            y + 5 * scale <= usize::MAX,
            row <= 5,
            d == digit % 10,
            pattern@ == digit_glyph(d),
            fb@ == paint(old_fb, width as int, height as int, glyph_cells(d, x as int, y as int, scale as int, row * 3), color),
        decreases 5 - row,
    {
        let mut col: usize = 0;
        while col < 3
            invariant
                screen_fits(width as int, height as int),
                x + 3 * scale <= usize::MAX,
                y + 5 * scale <= usize::MAX,
                row < 5,
                col <= 3,
                d == digit % 10,
                pattern@ == digit_glyph(d),
                fb@ == paint(old_fb, width as int, height as int, glyph_cells(d, x as int, y as int, scale as int, row * 3 + col), color),
            decreases 3 - col,
        {
            let k = row * 3 + col;
            proof {
                lemma_fundamental_div_mod_converse(k as int, 3, row as int, col as int);
                assert(col * scale <= 2 * scale && row * scale <= 4 * scale) by (nonlinear_arith)
                    requires col < 3, row < 5;
            }
            if pattern[k] == 1 {
                fill_rect(fb, width, height, x + col * scale, y + row * scale, scale, scale, color);
                proof {
                    lemma_paint_union(old_fb, width as int, height as int,
                        glyph_cells(d, x as int, y as int, scale as int, k as int),
                        glyph_cell(x as int, y as int, scale as int, k as int), color);
                }
            }
            col = col + 1;
        }
        row = row + 1;
    }
}

/// The pixels of the disk of radius `r` around `(cx, cy)`.
pub open spec fn disk(cx: int, cy: int, r: int) -> Region {
    |px: int, py: int| (px - cx) * (px - cx) + (py - cy) * (py - cy) <= r * r
}

/// The part of a disk fill done after the rows of the box before `yy`, and
/// the columns before `xx` of row `yy`.
spec fn disk_progress(cx: int, cy: int, r: int, sx: int, ex: int, sy: int, yy: int, xx: int) -> Region {
    |px: int, py: int|
        disk(cx, cy, r)(px, py) && ((sy <= py < yy && sx <= px <= ex) || (py == yy && sx <= px < xx))
}

/// Fills the disk of radius `radius` around `(cx, cy)`, clipped to the screen.
pub fn draw_circle(
    fb: &mut Vec<u8>,
    width: usize,
    height: usize,
    cx: usize,
    cy: usize,
    radius: usize,
    color: Color,
)
    requires
        screen_fits(width as int, height as int),
        2 * radius * radius <= isize::MAX,
        cx + radius <= isize::MAX,
        cy + radius <= isize::MAX,
    ensures
        final(fb)@ == paint(old(fb)@, width as int, height as int, disk(cx as int, cy as int, radius as int), color),
{
    let ghost old_fb = fb@;
    let ghost wi = width as int;
    let ghost hi = height as int;
    proof {
        assert(radius * radius <= 2 * radius * radius) by (nonlinear_arith);
    }
    let r2 = (radius * radius) as isize;
    let start_y = cy.saturating_sub(radius);
    let end_y = if cy + radius < height.saturating_sub(1) { cy + radius } else { height.saturating_sub(1) };
    let start_x = cx.saturating_sub(radius);
    let end_x = if cx + radius < width.saturating_sub(1) { cx + radius } else { width.saturating_sub(1) };
    let mut y = start_y;
    proof {
        lemma_paint_nothing(old_fb, wi, hi, disk_progress(cx as int, cy as int, radius as int,
            start_x as int, end_x as int, start_y as int, y as int, start_x as int), color);
    }
    while y <= end_y
        invariant
            screen_fits(wi, hi),
            wi == width,
            hi == height,
            r2 == radius * radius,
            2 * radius * radius <= isize::MAX,
            cx + radius <= isize::MAX,
            cy + radius <= isize::MAX,
            start_x == (if cx >= radius { cx - radius } else { 0 }),
            start_y == (if cy >= radius { cy - radius } else { 0 }),
            end_x <= cx + radius,
            end_y <= cy + radius,
            end_x == (if cx + radius < width - 1 { cx + radius } else if width >= 1 { width - 1 } else { 0 }),
            end_y == (if cy + radius < height - 1 { cy + radius } else if height >= 1 { height - 1 } else { 0 }),
            start_y <= y,
            y <= end_y + 1 || y == start_y,
            fb@ == paint(old_fb, wi, hi, disk_progress(cx as int, cy as int, radius as int,
                start_x as int, end_x as int, start_y as int, y as int, start_x as int), color),
        decreases end_y + 1 - y,
    {
        let mut x = start_x;
        while x <= end_x
            invariant
                screen_fits(wi, hi),
                wi == width,
                hi == height,
                r2 == radius * radius,
                2 * radius * radius <= isize::MAX,
                cx + radius <= isize::MAX,
                cy + radius <= isize::MAX,
                start_x == (if cx >= radius { cx - radius } else { 0 }),
                start_y == (if cy >= radius { cy - radius } else { 0 }),
                end_x <= cx + radius,
                end_y <= cy + radius,
                start_y <= y <= end_y,
                start_x <= x,
                x <= end_x + 1 || x == start_x,
                fb@ == paint(old_fb, wi, hi, disk_progress(cx as int, cy as int, radius as int,
                    start_x as int, end_x as int, start_y as int, y as int, x as int), color),
            decreases end_x + 1 - x,
        {
            let dx = x as isize - cx as isize;
            let dy = y as isize - cy as isize;
            proof {
                assert(-(radius as int) <= dx <= radius);
                assert(-(radius as int) <= dy <= radius);
                assert(dx * dx <= radius * radius) by (nonlinear_arith)
                    requires -(radius as int) <= dx <= radius;
                assert(dy * dy <= radius * radius) by (nonlinear_arith)
                    requires -(radius as int) <= dy <= radius;
                assert(0 <= dx * dx) by (nonlinear_arith);
                assert(0 <= dy * dy) by (nonlinear_arith);
                assert(dx * dx + dy * dy <= 2 * radius * radius) by (nonlinear_arith)
                    requires dx * dx <= radius * radius, dy * dy <= radius * radius;
            }
            let ghost p0 = disk_progress(cx as int, cy as int, radius as int, start_x as int, end_x as int, start_y as int, y as int, x as int);
            if dx * dx + dy * dy <= r2 {
                put_pixel(fb, width, height, x, y, color);
                proof {
                    lemma_paint_union(old_fb, wi, hi, p0, point(x as int, y as int), color);
                    lemma_paint_ext(old_fb, wi, hi, union(p0, point(x as int, y as int)),
                        disk_progress(cx as int, cy as int, radius as int, start_x as int, end_x as int, start_y as int, y as int, x + 1), color);
                }
            } else {
                proof {
                    lemma_paint_ext(old_fb, wi, hi, p0,
                        disk_progress(cx as int, cy as int, radius as int, start_x as int, end_x as int, start_y as int, y as int, x + 1), color);
                }
            }
            x = x + 1;
        }
        proof {
            lemma_paint_ext(old_fb, wi, hi,
                disk_progress(cx as int, cy as int, radius as int, start_x as int, end_x as int, start_y as int, y as int, x as int),
                disk_progress(cx as int, cy as int, radius as int, start_x as int, end_x as int, start_y as int, y + 1, start_x as int), color);
        }
        y = y + 1;
    }
    proof {
        assert forall|px: int, py: int| 0 <= px < wi && 0 <= py < hi implies
            #[trigger] disk_progress(cx as int, cy as int, radius as int, start_x as int, end_x as int, start_y as int, y as int, start_x as int)(px, py)
            == disk(cx as int, cy as int, radius as int)(px, py) by {
            if disk(cx as int, cy as int, radius as int)(px, py) {
                assert(0 <= (py - cy) * (py - cy)) by (nonlinear_arith);
                assert(0 <= (px - cx) * (px - cx)) by (nonlinear_arith);
                lemma_square_bound(px - cx, radius as int, (py - cy) * (py - cy));
                lemma_square_bound(py - cy, radius as int, (px - cx) * (px - cx));
            }
        }
        lemma_paint_ext(old_fb, wi, hi,
            disk_progress(cx as int, cy as int, radius as int, start_x as int, end_x as int, start_y as int, y as int, start_x as int),
            disk(cx as int, cy as int, radius as int), color);
    }
}

/// A coordinate offset whose square fits in the disk lies within the radius.
proof fn lemma_square_bound(d: int, r: int, other: int)
    requires
        r >= 0,
        other >= 0,
        d * d + other <= r * r,
    ensures
        -r <= d <= r,
{
    if d > r {
        assert(d * d > r * r) by (nonlinear_arith)
            requires d > r, r >= 0;
    }
    if d < -r {
        assert(d * d > r * r) by (nonlinear_arith)
            requires d < -r, r >= 0;
    }
}

/// Painting one more layer on top of a stack of layers.
pub proof fn lemma_paint_layers_push(fb: Seq<u8>, width: int, height: int, layers: Seq<(Region, Color)>, top: (Region, Color))
    ensures
        paint_layers(fb, width, height, layers.push(top)) == paint(paint_layers(fb, width, height, layers), width, height, top.0, top.1),
{
    assert(layers.push(top).drop_last() =~= layers);
}

/// A buffer of `len` zero bytes.
pub open spec fn zeros(len: int) -> Seq<u8> {
    Seq::new(len as nat, |i: int| 0u8)
}

/// Sets every byte of the framebuffer to zero.
pub fn clear(fb: &mut Vec<u8>)
    ensures
        final(fb)@ == zeros(old(fb)@.len() as int),
{
    let mut i: usize = 0;
    while i < fb.len()
        invariant
            i <= fb@.len(),
            fb@.len() == old(fb)@.len(),
            forall|j: int| 0 <= j < i ==> #[trigger] fb@[j] == 0,
        decreases fb@.len() - i,
    {
        fb.set(i, 0);
        i += 1;
    }
    proof {
        assert(fb@ =~= zeros(old(fb)@.len() as int));
    }
}

/// Ten to the `k`.
pub open spec fn pow10(k: nat) -> int
    decreases k,
{
    if k == 0 { 1 } else { 10 * pow10((k - 1) as nat) }
}

/// The pixels of the last `n` decimal digits of `v` drawn left to right
/// from `(x, y)`, each glyph four cells right of the previous.
pub open spec fn digits_region(v: int, n: int, x: int, y: int, scale: int) -> Region
    decreases n,
{
    if n <= 0 {
        |px: int, py: int| false
    } else {
        union(digits_region(v / 10, n - 1, x, y, scale), digit_region(v, x + 4 * scale * (n - 1), y, scale))
    }
}

/// Painting layer `k` of `scene` over its first `k` layers paints its first
/// `k + 1` layers.
pub proof fn lemma_next_layer(fb: Seq<u8>, width: int, height: int, scene: Seq<(Region, Color)>, k: int)
    requires
        0 <= k < scene.len(),
    ensures
        paint(paint_layers(fb, width, height, scene.subrange(0, k)), width, height, scene[k].0, scene[k].1)
            == paint_layers(fb, width, height, scene.subrange(0, k + 1)),
{
    lemma_paint_layers_push(fb, width, height, scene.subrange(0, k), scene[k]);
    assert(scene.subrange(0, k).push(scene[k]) =~= scene.subrange(0, k + 1));
}

/// Whether the pixel indices of a `width` by `height` screen fit the
/// machine's address arithmetic.
pub fn screen_fits_check(width: usize, height: usize) -> (ok: bool)
    ensures
        ok == screen_fits(width as int, height as int),
{
    match width.checked_mul(height) {
        Some(p) => match p.checked_mul(4) {
            Some(_) => true,
            None => false,
        },
        None => {
            proof {
                assert(width * height * 4 > usize::MAX) by (nonlinear_arith)
                    requires width * height > usize::MAX;
            }
            false
        },
    }
}

/// Whether a `width` by `height` screen leaves room for layout offsets.
pub fn screen_ok_check(width: usize, height: usize) -> (ok: bool)
    ensures
        ok == screen_ok(width as int, height as int),
{
    screen_fits_check(width, height) && width <= (usize::MAX - 4096) / 4 && height <= (usize::MAX - 4096) / 4
}

/// A digit is drawn as its last decimal digit: `d` and `d % 10` light the
/// same pixels.
pub proof fn lemma_digit_mod_ten(d: int, x: int, y: int, scale: int)
    ensures
        digit_region(d, x, y, scale) == digit_region(d % 10, x, y, scale),
{
    assert((d % 10) % 10 == d % 10);
}

/// Storing the packed word of a color little-endian at a pixel's offset
/// leaves the same bytes as painting that pixel in the color.
pub proof fn lemma_pixel_word(fb: Seq<u8>, width: int, height: int, x: int, y: int, c: Color, word: u32)
    requires
        word as int == c.b as int + 256 * (c.g as int) + 65536 * (c.r as int) + 0xff00_0000,
        0 <= x < width,
        0 <= y < height,
        (y * width + x) * 4 + 3 < fb.len(),
    ensures
        paint(fb, width, height, point(x, y), c)
            == fb.subrange(0, (y * width + x) * 4) + le_bytes(word) + fb.subrange((y * width + x) * 4 + 4, fb.len() as int),
{
    let k = y * width + x;
    assert(0 <= k) by (nonlinear_arith)
        requires 0 <= x, 0 <= y, 0 <= width, k == y * width + x;
    lemma_bgra_bytes(c, word);
    let lhs = paint(fb, width, height, point(x, y), c);
    let rhs = fb.subrange(0, k * 4) + le_bytes(word) + fb.subrange(k * 4 + 4, fb.len() as int);
    assert forall|i: int| 0 <= i < fb.len() implies #[trigger] lhs[i] == rhs[i] by {
        lemma_pixel_coords(i / 4, width, x, y);
        if i / 4 == k {
            assert(4 * k <= i < 4 * k + 4);
            assert(rhs[i] == le_bytes(word)[i - 4 * k]);
        } else {
            assert(i < 4 * k || i >= 4 * k + 4);
        }
    }
    assert(lhs =~= rhs);
}

/// Painting a region twice in one color is the same as painting it once.
pub proof fn lemma_paint_idempotent(fb: Seq<u8>, width: int, height: int, a: Region, color: Color)
    ensures
        paint(paint(fb, width, height, a, color), width, height, a, color) == paint(fb, width, height, a, color),
{
    assert(paint(paint(fb, width, height, a, color), width, height, a, color) =~= paint(fb, width, height, a, color));
}

/// A later layer wins: where two paints overlap, the second color shows,
/// and bytes that neither paints keep their value.
pub proof fn lemma_paint_over(fb: Seq<u8>, width: int, height: int, a: Region, ca: Color, b: Region, cb: Color, i: int)
    requires
        0 <= i < fb.len(),
    ensures
        paint(paint(fb, width, height, a, ca), width, height, b, cb)[i] ==
            if pixel_painted(fb.len() as int, width, height, b, i) { channel(cb, i % 4) }
            else if pixel_painted(fb.len() as int, width, height, a, i) { channel(ca, i % 4) }
            else { fb[i] },
{
}

} // verus!
