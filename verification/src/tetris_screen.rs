//! The kernel side of the Tetris game: reading a frame record that the user
//! program submits, and drawing it.
use vstd::prelude::*;

use crate::color::Color;
use crate::raster::{Region, paint, paint_layers, rect, union, zeros, screen_fits, fill_rect, draw_digit,
    digit_region, digits_region, pow10, lemma_paint_union, lemma_paint_ext, lemma_paint_layers_push};
use crate::tetris::{TetrisFrame, TETRIS_FRAME_MAGIC, TETRIS_FRAME_SIZE, tetris_frame_wire};
use crate::wire::{le_bytes, le_value, read_u32, lemma_le_roundtrip};

verus! {

/// Board width in cells.
pub const BOARD_W: usize = 10;
/// Board height in cells.
pub const BOARD_H: usize = 20;

/// Background.
#[verifier::allow_in_spec]
pub fn black() -> Color
    returns (Color { r: 7, g: 9, b: 14 }),
{
    Color { r: 7, g: 9, b: 14 }
}

/// Board border.
#[verifier::allow_in_spec]
pub fn wall() -> Color
    returns (Color { r: 42, g: 49, b: 66 }),
{
    Color { r: 42, g: 49, b: 66 }
}

/// Empty cell.
#[verifier::allow_in_spec]
pub fn grid() -> Color
    returns (Color { r: 19, g: 24, b: 34 }),
{
    Color { r: 19, g: 24, b: 34 }
}

/// Score digits.
#[verifier::allow_in_spec]
pub fn text() -> Color
    returns (Color { r: 225, g: 232, b: 245 }),
{
    Color { r: 225, g: 232, b: 245 }
}

/// Z piece and the game-over bar.
#[verifier::allow_in_spec]
pub fn red() -> Color
    returns (Color { r: 239, g: 68, b: 68 }),
{
    Color { r: 239, g: 68, b: 68 }
}

/// L piece.
#[verifier::allow_in_spec]
pub fn orange() -> Color
    returns (Color { r: 249, g: 115, b: 22 }),
{
    Color { r: 249, g: 115, b: 22 }
}

/// O piece.
#[verifier::allow_in_spec]
pub fn yellow() -> Color
    returns (Color { r: 250, g: 204, b: 21 }),
{
    Color { r: 250, g: 204, b: 21 }
}

/// S piece and the line count.
#[verifier::allow_in_spec]
pub fn green() -> Color
    returns (Color { r: 34, g: 197, b: 94 }),
{
    Color { r: 34, g: 197, b: 94 }
}

/// I piece and the level.
#[verifier::allow_in_spec]
pub fn cyan() -> Color
    returns (Color { r: 34, g: 211, b: 238 }),
{
    Color { r: 34, g: 211, b: 238 }
}

/// J piece.
#[verifier::allow_in_spec]
pub fn blue() -> Color
    returns (Color { r: 59, g: 130, b: 246 }),
{
    Color { r: 59, g: 130, b: 246 }
}

/// T piece.
#[verifier::allow_in_spec]
pub fn purple() -> Color
    returns (Color { r: 168, g: 85, b: 247 }),
{
    Color { r: 168, g: 85, b: 247 }
}

/// The color of a board cell: the piece colors by glyph, the grid color for
/// anything else.
#[verifier::allow_in_spec]
pub fn color_for(cell: u8) -> Color
    returns (if cell == 73 { cyan() } else if cell == 79 { yellow() } else if cell == 84 { purple() }
        else if cell == 83 { green() } else if cell == 90 { red() } else if cell == 74 { blue() }
        else if cell == 76 { orange() } else { grid() }),
{
    match cell {
        73 => cyan(),
        79 => yellow(),
        84 => purple(),
        83 => green(),
        90 => red(),
        74 => blue(),
        76 => orange(),
        _ => grid(),
    }
}

/// `bytes` holds the record `f`.
pub open spec fn tetris_frame_decodes(bytes: Seq<u8>, f: TetrisFrame) -> bool {
    &&& f.magic == le_value(bytes, 0)
    &&& f.width == le_value(bytes, 4)
    &&& f.height == le_value(bytes, 8)
    &&& f.score == le_value(bytes, 12)
    &&& f.lines == le_value(bytes, 16)
    &&& f.level == le_value(bytes, 20)
    &&& f.game_over == le_value(bytes, 24)
    &&& f.cells@ == bytes.subrange(28, 28 + (BOARD_W * BOARD_H) as int)
}

/// Reads a Tetris frame record. Fails when fewer bytes than a record are
/// given or the record does not start with [`TETRIS_FRAME_MAGIC`].
pub fn parse_tetris_frame(bytes: &[u8]) -> (r: Option<TetrisFrame>)
    ensures
        r is Some <==> (bytes@.len() >= TETRIS_FRAME_SIZE && le_value(bytes@, 0) == TETRIS_FRAME_MAGIC),
        r matches Some(f) ==> tetris_frame_decodes(bytes@, f),
{
    if bytes.len() < TETRIS_FRAME_SIZE {
        return None;
    }
    let magic = read_u32(bytes, 0);
    if magic != TETRIS_FRAME_MAGIC {
        return None;
    }
    let mut cells: Vec<u8> = Vec::new();
    let mut i: usize = 0;
    while i < BOARD_W * BOARD_H
        invariant
            bytes@.len() >= TETRIS_FRAME_SIZE,
            i <= BOARD_W * BOARD_H,
            cells@ == bytes@.subrange(28, 28 + i as int),
        decreases BOARD_W * BOARD_H - i,
    {
        cells.push(bytes[28 + i]);
        i += 1;
        proof {
            assert(cells@ =~= bytes@.subrange(28, 28 + i as int));
        }
    }
    Some(TetrisFrame {
        magic,
        width: read_u32(bytes, 4),
        height: read_u32(bytes, 8),
        score: read_u32(bytes, 12),
        lines: read_u32(bytes, 16),
        level: read_u32(bytes, 20),
        game_over: read_u32(bytes, 24),
        cells,
    })
}

/// A record encoded by the user program decodes to the same fields.
pub proof fn lemma_tetris_frame_roundtrip(
    magic: u32,
    width: u32,
    height: u32,
    score: u32,
    lines: u32,
    level: u32,
    game_over: u32,
    cells: Seq<u8>,
    f: TetrisFrame,
)
    requires
        cells.len() == BOARD_W * BOARD_H,
    ensures
        tetris_frame_wire(magic, width, height, score, lines, level, game_over, cells).len() == TETRIS_FRAME_SIZE,
        le_value(tetris_frame_wire(magic, width, height, score, lines, level, game_over, cells), 0) == magic,
        tetris_frame_decodes(tetris_frame_wire(magic, width, height, score, lines, level, game_over, cells), f) <==> (
            f.magic == magic && f.width == width && f.height == height && f.score == score && f.lines == lines
                && f.level == level && f.game_over == game_over && f.cells@ == cells),
{
    let w = tetris_frame_wire(magic, width, height, score, lines, level, game_over, cells);
    assert(w.subrange(0, 4) =~= le_bytes(magic));
    assert(w.subrange(4, 8) =~= le_bytes(width));
    assert(w.subrange(8, 12) =~= le_bytes(height));
    assert(w.subrange(12, 16) =~= le_bytes(score));
    assert(w.subrange(16, 20) =~= le_bytes(lines));
    assert(w.subrange(20, 24) =~= le_bytes(level));
    assert(w.subrange(24, 28) =~= le_bytes(game_over));
    assert(w.subrange(28, 228) =~= cells);
    lemma_le_roundtrip(magic, w, 0);
    lemma_le_roundtrip(width, w, 4);
    lemma_le_roundtrip(height, w, 8);
    lemma_le_roundtrip(score, w, 12);
    lemma_le_roundtrip(lines, w, 16);
    lemma_le_roundtrip(level, w, 20);
    lemma_le_roundtrip(game_over, w, 24);
}

/// Number of decimal digits shown for `v`: its digit count, at most five.
pub open spec fn digit_count(v: int) -> int {
    if v >= 10000 { 5 } else if v >= 1000 { 4 } else if v >= 100 { 3 } else if v >= 10 { 2 } else { 1 }
}

/// The pixels of `value` drawn without leading zeros, in at most five digits.
pub open spec fn number_region(value: int, x: int, y: int, scale: int) -> Region {
    digits_region(value, digit_count(value), x, y, scale)
}

/// No pixels.
pub open spec fn nothing() -> Region {
    |px: int, py: int| false
}

/// Draws `value` in decimal without leading zeros, in at most five digits;
/// from 100000 on the digit for ten-thousands shows its value modulo ten.
pub fn draw_number(
    fb: &mut Vec<u8>,
    width: usize,
    height: usize,
    value: usize,
    x: usize,
    y: usize,
    scale: usize,
    color: Color,
)
    requires
        screen_fits(width as int, height as int),
        x + 20 * scale <= usize::MAX,
        y + 5 * scale <= usize::MAX,
    ensures
        final(fb)@ == paint(old(fb)@, width as int, height as int,
            number_region(value as int, x as int, y as int, scale as int), color),
{
    let ghost v = value as int;
    let ghost f0 = fb@;
    let ghost n = digit_count(v);
    let ghost (w, h) = (width as int, height as int);
    let mut value = value;
    let mut divisor: usize = 10000;
    let mut started = false;
    let mut offset: usize = 0;
    let ghost mut kk: int = 4;
    proof {
        reveal_with_fuel(pow10, 6);
        vstd::arithmetic::div_mod::lemma_mod_pos_bound(v, 1);
    }
    while divisor > 0
        invariant
            screen_fits(w, h),
            w == width,
            h == height,
            x + 20 * scale <= usize::MAX,
            y + 5 * scale <= usize::MAX,
            n == digit_count(v),
            v >= 0,
            -1 <= kk <= 4,
            divisor == if kk >= 0 { pow10(kk as nat) } else { 0 },
            value == if kk == 4 { v } else { v % pow10((kk + 1) as nat) },
            started == (kk < 4 && (kk == -1 || v >= pow10((kk + 1) as nat))),
            started ==> 1 <= n - 1 - kk <= 5,
            offset == if started { 4 * scale * (n - 1 - kk) } else { 0 },
            fb@ == paint(f0, w, h,
                if started { digits_region(v / pow10((kk + 1) as nat), n - 1 - kk, x as int, y as int, scale as int) }
                else { nothing() }, color),
        decreases kk + 1,
    {
        proof {
            reveal_with_fuel(pow10, 6);
        }
        let ghost p = pow10(kk as nat);
        let ghost big = pow10((kk + 1) as nat);
        let ghost before = fb@;
        let digit = value / divisor;
        value %= divisor;
        proof {
            assert(big == 10 * p);
            assert(p > 0);
            vstd::arithmetic::div_mod::lemma_div_denominator(v, p, 10);
            vstd::arithmetic::div_mod::lemma_mod_breakdown(v, p, 10);
            vstd::arithmetic::div_mod::lemma_mod_mod(v, p, 10);
            vstd::arithmetic::div_mod::lemma_mod_pos_bound(v, p);
            vstd::arithmetic::div_mod::lemma_div_pos_is_pos(v, p);
            if kk < 4 {
                assert(digit == (v / p) % 10) by {
                    vstd::arithmetic::div_mod::lemma_fundamental_div_mod_converse(v % big, p, (v / p) % 10, v % p);
                }
                assert(value == v % p);
            } else {
                assert(digit == v / p);
                assert(value == v % p);
            }
            assert(digit % 10 == (v / p) % 10);
            if !started {
                assert(value == v % p);
                if kk < 4 {
                    vstd::arithmetic::div_mod::lemma_small_mod(v as nat, big as nat);
                }
                assert(digit == v / p);
                if v >= p {
                    assert(digit >= 1) by {
                        vstd::arithmetic::div_mod::lemma_div_non_zero(v, p);
                    }
                } else {
                    vstd::arithmetic::div_mod::lemma_basic_div(v, p);
                    assert(digit == 0);
                }
            }
        }
        if digit != 0 || started || divisor == 1 {
            proof {
                if !started {
                    assert(n == kk + 1);
                }
                assert(offset + 3 * scale <= 19 * scale) by (nonlinear_arith)
                    requires offset == 4 * scale * (n - 1 - kk) || offset == 0, n - 1 - kk <= 4, scale >= 0;
            }
            let ghost was_started = started;
            started = true;
            draw_digit(fb, width, height, digit, x + offset, y, scale, color);
            proof {
                let old_region = if was_started {
                    digits_region(v / big, n - 1 - kk, x as int, y as int, scale as int)
                } else {
                    nothing()
                };
                let d = digit_region(digit as int, x + offset, y as int, scale as int);
                lemma_paint_union(f0, w, h, old_region, d, color);
                assert(d == digit_region(v / p, x + 4 * scale * (n - kk - 1), y as int, scale as int)) by {
                    assert(offset == 4 * scale * (n - kk - 1)) by (nonlinear_arith)
                        requires offset == 4 * scale * (n - 1 - kk) || (offset == 0 && n - 1 - kk == 0);
                }
                assert(digits_region(v / p, n - kk, x as int, y as int, scale as int)
                    == union(digits_region(v / p / 10, n - kk - 1, x as int, y as int, scale as int),
                        digit_region(v / p, x + 4 * scale * (n - kk - 1), y as int, scale as int)));
                if !was_started {
                    lemma_paint_ext(f0, w, h, union(old_region, d),
                        digits_region(v / p, n - kk, x as int, y as int, scale as int), color);
                }
                assert(4 * scale * (n - 1 - kk) + 4 * scale == 4 * scale * (n - kk)) by (nonlinear_arith);
                assert(4 * scale * (n - kk) <= 20 * scale) by (nonlinear_arith)
                    requires n - kk <= 5, scale >= 0;
            }
            offset += 4 * scale;
        }
        divisor /= 10;
        proof {
            kk = kk - 1;
        }
    }
    proof {
        reveal_with_fuel(pow10, 2);
        assert(v / 1 == v);
    }
}

/// Side of a board cell in pixels: as large as fits a screen margin of 220
/// by 60 pixels, and at least 8.
pub open spec fn cell_size(width: int, height: int) -> int {
    let fit_w = (width - 220) / (BOARD_W as int);
    let fit_h = (height - 60) / (BOARD_H as int);
    let c = if fit_w < fit_h { fit_w } else { fit_h };
    if c > 8 { c } else { 8 }
}

/// The board with its border fits the screen.
pub open spec fn tetris_view_fits(width: int, height: int) -> bool {
    let c = cell_size(width, height);
    &&& width >= 220
    &&& height >= 60
    &&& BOARD_W * c <= width
    &&& BOARD_H * c + 16 <= height
}

/// The layers of a Tetris frame: background, score, lines and level, board
/// border, grid, the two hundred cells row by row, and the game-over bar.
pub open spec fn tetris_scene(width: int, height: int, f: TetrisFrame) -> Seq<(Region, Color)> {
    let c = cell_size(width, height);
    let bw = BOARD_W * c;
    let bh = BOARD_H * c;
    let ox = (width - bw) / 2 + 70;
    let oy = (height - bh) / 2;
    seq![
        (rect(0, 0, width, height), black()),
        (number_region(f.score as int, 36, 28, 5), text()),
        (number_region(f.lines as int, 36, 70, 4), green()),
        (number_region(f.level as int, 36, 104, 4), cyan()),
        (rect(ox - 8, oy - 8, bw + 16, bh + 16), wall()),
        (rect(ox, oy, bw, bh), grid()),
    ] + Seq::new((BOARD_W * BOARD_H) as nat, |k: int|
        (rect(ox + (k % 10) * c + 1, oy + (k / 10) * c + 1, c - 2, c - 2), color_for(f.cells@[k])))
    + if f.game_over != 0 {
        seq![(rect(ox + c, oy + bh / 2 - 18, bw - c * 2, 36), red())]
    } else {
        Seq::empty()
    }
}

/// Draws a Tetris frame on a `width` by `height` screen.
pub fn draw_frame(fb: &mut Vec<u8>, width: usize, height: usize, frame: &TetrisFrame)
    requires
        screen_fits(width as int, height as int),
        frame.cells@.len() == BOARD_W * BOARD_H,
        tetris_view_fits(width as int, height as int),
    ensures
        final(fb)@ == paint_layers(old(fb)@, width as int, height as int, tetris_scene(width as int, height as int, *frame)),
{
    let ghost base = fb@;
    let ghost (wi, hi) = (width as int, height as int);
    let ghost scene = tetris_scene(wi, hi, *frame);
    let ghost mut done: Seq<(Region, Color)> = Seq::empty();
    proof {
        assert(width * 60 <= width * height) by (nonlinear_arith)
            requires height >= 60;
        assert(height * 220 <= width * height) by (nonlinear_arith)
            requires width >= 220;
        assert(width * height * 4 <= usize::MAX);
    }
    fill_rect(fb, width, height, 0, 0, width, height, black());
    proof {
        lemma_paint_layers_push(base, wi, hi, done, scene[0]);
        done = done.push(scene[0]);
    }
    draw_number(fb, width, height, frame.score as usize, 36, 28, 5, text());
    proof {
        lemma_paint_layers_push(base, wi, hi, done, scene[1]);
        done = done.push(scene[1]);
    }
    draw_number(fb, width, height, frame.lines as usize, 36, 70, 4, green());
    proof {
        lemma_paint_layers_push(base, wi, hi, done, scene[2]);
        done = done.push(scene[2]);
    }
    draw_number(fb, width, height, frame.level as usize, 36, 104, 4, cyan());
    proof {
        lemma_paint_layers_push(base, wi, hi, done, scene[3]);
        done = done.push(scene[3]);
    }
    let fit_w = (width - 220) / BOARD_W;
    let fit_h = (height - 60) / BOARD_H;
    let c0 = if fit_w < fit_h { fit_w } else { fit_h };
    let cell = if c0 > 8 { c0 } else { 8 };
    let board_w = BOARD_W * cell;
    let board_h = BOARD_H * cell;
    let origin_x = (width - board_w) / 2 + 70;
    let origin_y = (height - board_h) / 2;
    proof {
        assert(cell == cell_size(wi, hi));
        assert(origin_y >= 8);
    }
    fill_rect(fb, width, height, origin_x - 8, origin_y - 8, board_w + 16, board_h + 16, wall());
    proof {
        lemma_paint_layers_push(base, wi, hi, done, scene[4]);
        done = done.push(scene[4]);
    }
    fill_rect(fb, width, height, origin_x, origin_y, board_w, board_h, grid());
    proof {
        lemma_paint_layers_push(base, wi, hi, done, scene[5]);
        done = done.push(scene[5]);
        assert(done =~= scene.subrange(0, 6));
    }
    let mut y: usize = 0;
    while y < BOARD_H
        invariant
            screen_fits(wi, hi),
            wi == width,
            hi == height,
            tetris_view_fits(wi, hi),
            frame.cells@.len() == BOARD_W * BOARD_H,
            cell == cell_size(wi, hi),
            board_w == BOARD_W * cell,
            board_h == BOARD_H * cell,
            origin_x == (wi - board_w) / 2 + 70,
            origin_y == (hi - board_h) / 2,
            scene == tetris_scene(wi, hi, *frame),
            y <= BOARD_H,
            width * 240 <= usize::MAX,
            height * 240 <= usize::MAX,
            fb@ == paint_layers(base, wi, hi, scene.subrange(0, 6 + (y * BOARD_W) as int)),
        decreases BOARD_H - y,
    {
        let mut x: usize = 0;
        while x < BOARD_W
            invariant
                screen_fits(wi, hi),
                wi == width,
                hi == height,
                tetris_view_fits(wi, hi),
                frame.cells@.len() == BOARD_W * BOARD_H,
                cell == cell_size(wi, hi),
                board_w == BOARD_W * cell,
                board_h == BOARD_H * cell,
                origin_x == (wi - board_w) / 2 + 70,
                origin_y == (hi - board_h) / 2,
                scene == tetris_scene(wi, hi, *frame),
                y < BOARD_H,
                x <= BOARD_W,
                width * 240 <= usize::MAX,
                height * 240 <= usize::MAX,
                fb@ == paint_layers(base, wi, hi, scene.subrange(0, 6 + (y * BOARD_W + x) as int)),
            decreases BOARD_W - x,
        {
            let cell_value = frame.cells[y * BOARD_W + x];
            let color = color_for(cell_value);
            proof {
                assert(x * cell <= 10 * cell) by (nonlinear_arith)
                    requires x <= 10, cell >= 0;
                assert(y * cell <= 20 * cell) by (nonlinear_arith)
                    requires y <= 20, cell >= 0;
            }
            let px = origin_x + x * cell;
            let py = origin_y + y * cell;
            fill_rect(fb, width, height, px + 1, py + 1, cell - 2, cell - 2, color);
            proof {
                let k = (y * BOARD_W + x) as int;
                vstd::arithmetic::div_mod::lemma_fundamental_div_mod_converse(k, 10, y as int, x as int);
                assert(scene[6 + k] == (rect(px + 1, py + 1, cell - 2, cell - 2), color));
                lemma_paint_layers_push(base, wi, hi, scene.subrange(0, 6 + k), scene[6 + k]);
                assert(scene.subrange(0, 6 + k).push(scene[6 + k]) =~= scene.subrange(0, 6 + k + 1));
            }
            x += 1;
        }
        y += 1;
    }
    if frame.game_over != 0 {
        fill_rect(fb, width, height, origin_x + cell, origin_y + board_h / 2 - 18, board_w - cell * 2, 36, red());
        proof {
            lemma_paint_layers_push(base, wi, hi, scene.subrange(0, 206), scene[206]);
            assert(scene.subrange(0, 206).push(scene[206]) =~= scene);
        }
    } else {
        proof {
            assert(scene.subrange(0, 206) =~= scene);
        }
    }
}

/// Whether a Tetris frame can be drawn on a `width` by `height` screen.
pub fn view_fits(width: usize, height: usize) -> (ok: bool)
    ensures
        ok == (screen_fits(width as int, height as int) && tetris_view_fits(width as int, height as int)),
{
    if !crate::raster::screen_fits_check(width, height) || width < 220 || height < 60 {
        return false;
    }
    let fit_w = (width - 220) / BOARD_W;
    let fit_h = (height - 60) / BOARD_H;
    let c0 = if fit_w < fit_h { fit_w } else { fit_h };
    let cell = if c0 > 8 { c0 } else { 8 };
    proof {
        assert(cell == cell_size(width as int, height as int));
        assert(width * 60 <= width * height) by (nonlinear_arith)
            requires height >= 60;
        assert(height * 220 <= width * height) by (nonlinear_arith)
            requires width >= 220;
        assert(cell <= width);
        assert(cell <= height);
    }
    BOARD_W * cell <= width && BOARD_H * cell + 16 <= height
}

} // verus!
