//! The kernel side of the snake game: reading a frame record that the user
//! program submits, and drawing it.
use vstd::prelude::*;

use crate::color::Color;
use crate::raster::{Region, paint, paint_layers, rect, union, zeros, screen_fits, fill_rect, draw_digit,
    digit_region, digits_region, clear, lemma_paint_union, lemma_paint_ext, lemma_paint_layers_push};
use crate::snake::{FramePoint, SnakeFrame, SNAKE_FRAME_MAGIC, SNAKE_FRAME_SIZE, MAX_SNAKE, points_wire,
    snake_frame_wire, lemma_points_wire_len, lemma_points_wire_index};
use crate::wire::{le_bytes, le_value, read_u32, lemma_le_roundtrip};

verus! {

/// Background.
#[verifier::allow_in_spec]
pub fn black() -> Color
    returns (Color { r: 8, g: 10, b: 14 }),
{
    Color { r: 8, g: 10, b: 14 }
}

/// Board border.
#[verifier::allow_in_spec]
pub fn wall() -> Color
    returns (Color { r: 40, g: 50, b: 65 }),
{
    Color { r: 40, g: 50, b: 65 }
}

/// Snake head.
#[verifier::allow_in_spec]
pub fn head_color() -> Color
    returns (Color { r: 255, g: 230, b: 90 }),
{
    Color { r: 255, g: 230, b: 90 }
}

/// Snake body.
#[verifier::allow_in_spec]
pub fn body_color() -> Color
    returns (Color { r: 80, g: 235, b: 90 }),
{
    Color { r: 80, g: 235, b: 90 }
}

/// Food.
#[verifier::allow_in_spec]
pub fn food_color() -> Color
    returns (Color { r: 255, g: 70, b: 90 }),
{
    Color { r: 255, g: 70, b: 90 }
}

/// Score digits.
#[verifier::allow_in_spec]
pub fn text_color() -> Color
    returns (Color { r: 210, g: 225, b: 240 }),
{
    Color { r: 210, g: 225, b: 240 }
}

/// `bytes` holds the record `f`: the words, the food cell and the snake
/// cells at their offsets.
pub open spec fn snake_frame_decodes(bytes: Seq<u8>, f: SnakeFrame) -> bool {
    &&& f.magic == le_value(bytes, 0)
    &&& f.width == le_value(bytes, 4)
    &&& f.height == le_value(bytes, 8)
    &&& f.len == le_value(bytes, 12)
    &&& f.score == le_value(bytes, 16)
    &&& f.food == (FramePoint { x: bytes[20], y: bytes[21] })
    &&& f.snake@.len() == MAX_SNAKE
    &&& forall|i: int| 0 <= i < MAX_SNAKE ==> #[trigger] f.snake@[i] == (FramePoint { x: bytes[24 + 2 * i], y: bytes[25 + 2 * i] })
}

/// Reads a snake frame record. Fails when fewer bytes than a record are
/// given or the record does not start with [`SNAKE_FRAME_MAGIC`].
pub fn parse_snake_frame(bytes: &[u8]) -> (r: Option<SnakeFrame>)
    ensures
        r is Some <==> (bytes@.len() >= SNAKE_FRAME_SIZE && le_value(bytes@, 0) == SNAKE_FRAME_MAGIC),
        r matches Some(f) ==> snake_frame_decodes(bytes@, f),
{
    if bytes.len() < SNAKE_FRAME_SIZE {
        return None;
    }
    let magic = read_u32(bytes, 0);
    if magic != SNAKE_FRAME_MAGIC {
        return None;
    }
    let mut snake: Vec<FramePoint> = Vec::new();
    let mut i: usize = 0;
    while i < MAX_SNAKE
        invariant
            bytes@.len() >= SNAKE_FRAME_SIZE,
            i <= MAX_SNAKE,
            snake@.len() == i,
            forall|j: int| 0 <= j < i ==> #[trigger] snake@[j] == (FramePoint { x: bytes@[24 + 2 * j], y: bytes@[25 + 2 * j] }),
        decreases MAX_SNAKE - i,
    {
        snake.push(FramePoint { x: bytes[24 + 2 * i], y: bytes[25 + 2 * i] });
        i += 1;
    }
    Some(SnakeFrame {
        magic,
        width: read_u32(bytes, 4),
        height: read_u32(bytes, 8),
        len: read_u32(bytes, 12),
        score: read_u32(bytes, 16),
        food: FramePoint { x: bytes[20], y: bytes[21] },
        snake,
    })
}

/// A record encoded by the user program decodes to the same fields.
pub proof fn lemma_snake_frame_roundtrip(
    magic: u32,
    width: u32,
    height: u32,
    len: u32,
    score: u32,
    food: FramePoint,
    snake: Seq<FramePoint>,
    f: SnakeFrame,
)
    requires
        snake.len() == MAX_SNAKE,
    ensures
        snake_frame_wire(magic, width, height, len, score, food, snake).len() == SNAKE_FRAME_SIZE,
        le_value(snake_frame_wire(magic, width, height, len, score, food, snake), 0) == magic,
        snake_frame_decodes(snake_frame_wire(magic, width, height, len, score, food, snake), f) <==> (
            f.magic == magic && f.width == width && f.height == height && f.len == len && f.score == score
                && f.food == food && f.snake@ == snake),
{
    let w = snake_frame_wire(magic, width, height, len, score, food, snake);
    lemma_points_wire_len(snake);
    assert(w.subrange(0, 4) =~= le_bytes(magic));
    assert(w.subrange(4, 8) =~= le_bytes(width));
    assert(w.subrange(8, 12) =~= le_bytes(height));
    assert(w.subrange(12, 16) =~= le_bytes(len));
    assert(w.subrange(16, 20) =~= le_bytes(score));
    lemma_le_roundtrip(magic, w, 0);
    lemma_le_roundtrip(width, w, 4);
    lemma_le_roundtrip(height, w, 8);
    lemma_le_roundtrip(len, w, 12);
    lemma_le_roundtrip(score, w, 16);
    assert(w[20] == food.x && w[21] == food.y);
    assert forall|i: int| 0 <= i < MAX_SNAKE implies w[24 + 2 * i] == snake[i].x && w[25 + 2 * i] == snake[i].y by {
        lemma_points_wire_index(snake, i);
    }
    if snake_frame_decodes(w, f) {
        assert(f.snake@ =~= snake);
    }
}

/// Draws `value` as three digits: the hundreds (modulo ten), the tens and
/// the ones, each glyph four cells right of the previous.
pub fn draw_number(
    fb: &mut Vec<u8>,
    width: usize,
    height: usize,
    value: usize,
    x: usize,
    y: usize,
    scale: usize,
    color: Color,
)
    requires
        screen_fits(width as int, height as int),
        x + 11 * scale <= usize::MAX,
        y + 5 * scale <= usize::MAX,
    ensures
        final(fb)@ == paint(old(fb)@, width as int, height as int,
            digits_region(value as int, 3, x as int, y as int, scale as int), color),
{
    let ghost f0 = fb@;
    let mut value = value;
    let ghost v = value as int;
    let hundreds = value / 100;
    value %= 100;
    let tens = value / 10;
    let ones = value % 10;
    draw_digit(fb, width, height, hundreds, x, y, scale, color);
    draw_digit(fb, width, height, tens, x + 4 * scale, y, scale, color);
    draw_digit(fb, width, height, ones, x + 8 * scale, y, scale, color);
    proof {
        let (w, h) = (width as int, height as int);
        let r1 = digit_region(v / 100, x as int, y as int, scale as int);
        let r2 = digit_region((v % 100) / 10, x + 4 * scale, y as int, scale as int);
        let r3 = digit_region((v % 100) % 10, x + 8 * scale, y as int, scale as int);
        lemma_paint_union(f0, w, h, r1, r2, color);
        lemma_paint_union(f0, w, h, union(r1, r2), r3, color);
        assert((v % 100) / 10 % 10 == (v / 10) % 10 && (v % 100) % 10 == v % 10 && v / 10 / 10 == v / 100) by {
            vstd::arithmetic::div_mod::lemma_div_denominator(v, 10, 10);
            vstd::arithmetic::div_mod::lemma_mod_breakdown(v, 10, 10);
        }
        assert(digit_region((v % 100) / 10, x + 4 * scale, y as int, scale as int)
            == digit_region(v / 10, x + 4 * scale * (3 - 2), y as int, scale as int));
        assert(digit_region((v % 100) % 10, x + 8 * scale, y as int, scale as int)
            == digit_region(v, x + 4 * scale * (3 - 1), y as int, scale as int));
        assert(digit_region(v / 100, x as int, y as int, scale as int)
            == digit_region(v / 10 / 10, x + 4 * scale * (3 - 3), y as int, scale as int));
        reveal_with_fuel(digits_region, 4);
        lemma_paint_ext(f0, w, h, union(union(r1, r2), r3), digits_region(v, 3, x as int, y as int, scale as int), color);
    }
}

/// Side of a board cell in pixels: as large as fits a screen margin of 80
/// by 120 pixels, and at least 4.
pub open spec fn cell_size(width: int, height: int, board_w: int, board_h: int) -> int {
    let fit_w = (width - 80) / board_w;
    let fit_h = (height - 120) / board_h;
    let c = if fit_w < fit_h { fit_w } else { fit_h };
    if c > 4 { c } else { 4 }
}

/// The board, with its border, fits the screen and its coordinates fit a
/// `usize`; a frame with an empty board draws nothing but the cleared
/// screen.
pub open spec fn snake_view_fits(width: int, height: int, f: SnakeFrame) -> bool {
    let bw = f.width as int;
    let bh = f.height as int;
    bw == 0 || bh == 0 || {
        let c = cell_size(width, height, bw, bh);
        &&& width >= 80
        &&& height >= 120
        &&& bw * c + 16 <= width
        &&& bh * c + 86 + 256 * c <= usize::MAX
    }
}

/// The layers of a snake frame on a `width` by `height` screen: background,
/// board border, board, score, food, then the snake from tail to head.
pub open spec fn snake_scene(width: int, height: int, f: SnakeFrame) -> Seq<(Region, Color)> {
    let bw = f.width as int;
    let bh = f.height as int;
    let c = cell_size(width, height, bw, bh);
    let ox = (width - bw * c) / 2;
    let oy: int = 70;
    let fx = ox + f.food.x * c;
    let fy = oy + f.food.y * c;
    let n = if f.len < MAX_SNAKE { f.len as int } else { MAX_SNAKE as int };
    let side = if c >= 4 { c - 4 } else { 0 };
    seq![
        (rect(0, 0, width, height), black()),
        (rect(ox - 8, oy - 8, bw * c + 16, bh * c + 16), wall()),
        (rect(ox, oy, bw * c, bh * c), black()),
        (digits_region(f.score as int, 3, ox, 24, 6), text_color()),
        (rect(fx + c / 5, fy + c / 5, c * 3 / 5, c * 3 / 5), food_color()),
    ] + Seq::new(n as nat, |k: int| {
        let i = n - 1 - k;
        (rect(ox + f.snake@[i].x * c + 2, oy + f.snake@[i].y * c + 2, side, side),
            if i == 0 { head_color() } else { body_color() })
    })
}

/// The framebuffer after drawing `f`: cleared, then, unless the board is
/// empty, the layers of [`snake_scene`].
pub open spec fn snake_image(fb: Seq<u8>, width: int, height: int, f: SnakeFrame) -> Seq<u8> {
    if f.width == 0 || f.height == 0 {
        zeros(fb.len() as int)
    } else {
        paint_layers(zeros(fb.len() as int), width, height, snake_scene(width, height, f))
    }
}

/// Draws a snake frame on a `width` by `height` screen.
pub fn draw_frame(fb: &mut Vec<u8>, width: usize, height: usize, frame: &SnakeFrame)
    requires
        screen_fits(width as int, height as int),
        frame.snake@.len() == MAX_SNAKE,
        snake_view_fits(width as int, height as int, *frame),
    ensures
        final(fb)@ == snake_image(old(fb)@, width as int, height as int, *frame),
{
    clear(fb);
    let board_w = frame.width as usize;
    let board_h = frame.height as usize;
    if board_w == 0 || board_h == 0 {
        return;
    }
    let ghost base = fb@;
    let ghost (wi, hi) = (width as int, height as int);
    let ghost scene = snake_scene(wi, hi, *frame);
    let fit_w = (width - 80) / board_w;
    let fit_h = (height - 120) / board_h;
    let c0 = if fit_w < fit_h { fit_w } else { fit_h };
    let cell = if c0 > 4 { c0 } else { 4 };
    proof {
        assert(cell == cell_size(wi, hi, board_w as int, board_h as int));
        assert(fit_w <= width) by (nonlinear_arith)
            requires fit_w == (width - 80) / (board_w as int), board_w >= 1, width >= 80;
        assert(cell <= width);
        assert(width * height * 4 <= usize::MAX);
        assert(width * 480 <= width * height * 4) by (nonlinear_arith)
            requires height >= 120;
        assert(256 * cell + 100 <= usize::MAX);
        assert(0 <= board_w * cell <= width - 16);
    }
    let origin_x = (width - board_w * cell) / 2;
    let origin_y: usize = 70;
    let ghost mut done: Seq<(Region, Color)> = Seq::empty();

    fill_rect(fb, width, height, 0, 0, width, height, black());
    proof {
        lemma_paint_layers_push(base, wi, hi, done, scene[0]);
        done = done.push(scene[0]);
    }
    fill_rect(fb, width, height, origin_x - 8, origin_y - 8, board_w * cell + 16, board_h * cell + 16, wall());
    proof {
        lemma_paint_layers_push(base, wi, hi, done, scene[1]);
        done = done.push(scene[1]);
    }
    fill_rect(fb, width, height, origin_x, origin_y, board_w * cell, board_h * cell, black());
    proof {
        lemma_paint_layers_push(base, wi, hi, done, scene[2]);
        done = done.push(scene[2]);
    }
    draw_number(fb, width, height, frame.score as usize, origin_x, 24, 6, text_color());
    proof {
        lemma_paint_layers_push(base, wi, hi, done, scene[3]);
        done = done.push(scene[3]);
    }
    proof {
        assert(frame.food.x * cell <= 255 * cell) by (nonlinear_arith)
            requires frame.food.x <= 255;
        assert(frame.food.y * cell <= 255 * cell) by (nonlinear_arith)
            requires frame.food.y <= 255;
    }
    let food_x = origin_x + frame.food.x as usize * cell;
    let food_y = origin_y + frame.food.y as usize * cell;
    fill_rect(fb, width, height, food_x + cell / 5, food_y + cell / 5, cell * 3 / 5, cell * 3 / 5, food_color());
    proof {
        lemma_paint_layers_push(base, wi, hi, done, scene[4]);
        done = done.push(scene[4]);
        assert(done =~= scene.subrange(0, 5));
    }
    let len = if (frame.len as usize) < MAX_SNAKE { frame.len as usize } else { MAX_SNAKE };
    let side = cell.saturating_sub(4);
    let mut i = len;
    while i > 0
        invariant
            screen_fits(wi, hi),
            wi == width,
            hi == height,
            frame.snake@.len() == MAX_SNAKE,
            len <= MAX_SNAKE,
            len == (if frame.len < MAX_SNAKE { frame.len as int } else { MAX_SNAKE as int }),
            i <= len,
            256 * cell + 100 <= usize::MAX,
            origin_x <= width,
            cell <= width,
            width * 480 <= usize::MAX,
            cell == cell_size(wi, hi, board_w as int, board_h as int),
            origin_x == (wi - board_w * cell) / 2,
            origin_y == 70,
            side == (if cell >= 4 { cell - 4 } else { 0 }),
            board_w == frame.width,
            board_h == frame.height,
            scene == snake_scene(wi, hi, *frame),
            scene.len() == 5 + len,
            fb@ == paint_layers(base, wi, hi, scene.subrange(0, 5 + (len - i))),
        decreases i,
    {
        i -= 1;
        let point = frame.snake[i];
        proof {
            assert(point.x * cell <= 255 * cell) by (nonlinear_arith)
                requires point.x <= 255;
            assert(point.y * cell <= 255 * cell) by (nonlinear_arith)
                requires point.y <= 255;
        }
        let x = origin_x + point.x as usize * cell;
        let y = origin_y + point.y as usize * cell;
        proof {
            assert(x + 2 + side <= width + 256 * width + 2);
            assert(y + 2 + side <= 72 + 256 * cell);
        }
        let color = if i == 0 { head_color() } else { body_color() };
        fill_rect(fb, width, height, x + 2, y + 2, side, side, color);
        proof {
            let k = 5 + (len - 1 - i);
            assert(scene[k] == (rect(x + 2, y + 2, side as int, side as int), color));
            lemma_paint_layers_push(base, wi, hi, scene.subrange(0, k), scene[k]);
            assert(scene.subrange(0, k).push(scene[k]) =~= scene.subrange(0, k + 1));
        }
    }
    proof {
        assert(scene.subrange(0, 5 + len as int) =~= scene);
    }
}

/// Whether a snake frame can be drawn on a `width` by `height` screen.
pub fn view_fits(width: usize, height: usize, frame: &SnakeFrame) -> (ok: bool)
    ensures
        ok == (screen_fits(width as int, height as int) && snake_view_fits(width as int, height as int, *frame)),
{
    if !crate::raster::screen_fits_check(width, height) {
        return false;
    }
    let board_w = frame.width as usize;
    let board_h = frame.height as usize;
    if board_w == 0 || board_h == 0 {
        return true;
    }
    if width < 80 || height < 120 {
        return false;
    }
    let fit_w = (width - 80) / board_w;
    let fit_h = (height - 120) / board_h;
    let c0 = if fit_w < fit_h { fit_w } else { fit_h };
    let cell = if c0 > 4 { c0 } else { 4 };
    proof {
        assert(cell == cell_size(width as int, height as int, board_w as int, board_h as int));
        assert(fit_w <= width) by (nonlinear_arith)
            requires fit_w == (width - 80) / (board_w as int), board_w >= 1, width >= 80;
        assert(width * 480 <= width * height * 4) by (nonlinear_arith)
            requires height >= 120;
    }
    let row = match board_w.checked_mul(cell) {
        Some(r) => r,
        None => return false,
    };
    if row > width - 16 || width < 16 {
        return false;
    }
    let col = match board_h.checked_mul(cell) {
        Some(c) => c,
        None => return false,
    };
    col <= usize::MAX - 86 - 256 * cell
}

} // verus!
