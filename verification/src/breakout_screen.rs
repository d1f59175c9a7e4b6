//! The kernel side of the breakout game: reading a frame record that the
//! user program submits, drawing it, and the scripted demo that the kernel
//! plays by itself.
use vstd::prelude::*;
use vstd::string::*;

use crate::color::Color;
use crate::raster::{Region, paint, paint_layers, rect, union, screen_ok, fill_rect, draw_digit, digit_region,
    digits_region, lemma_paint_union, lemma_paint_ext, lemma_paint_nothing, lemma_next_layer};
use crate::breakout::{BreakoutFrame, BREAKOUT_FRAME_MAGIC, BREAKOUT_FRAME_SIZE, BRICK_COUNT, breakout_frame_wire};
use crate::text::{decimal, decimal_text, push_str};
use crate::wire::{copy_bytes, push_bytes, le_bytes, le_value, read_u32, read_i32, lemma_le_roundtrip, lemma_i32_u32_roundtrip};

verus! {

/// Background.
#[verifier::allow_in_spec]
pub fn bg() -> Color
    returns (Color { r: 5, g: 8, b: 16 }),
{
    Color { r: 5, g: 8, b: 16 }
}

/// Walls.
#[verifier::allow_in_spec]
pub fn wall() -> Color
    returns (Color { r: 51, g: 65, b: 85 }),
{
    Color { r: 51, g: 65, b: 85 }
}

/// Paddle.
#[verifier::allow_in_spec]
pub fn paddle() -> Color
    returns (Color { r: 45, g: 212, b: 191 }),
{
    Color { r: 45, g: 212, b: 191 }
}

/// Ball.
#[verifier::allow_in_spec]
pub fn ball() -> Color
    returns (Color { r: 250, g: 204, b: 21 }),
{
    Color { r: 250, g: 204, b: 21 }
}

/// Digits.
#[verifier::allow_in_spec]
pub fn text() -> Color
    returns (Color { r: 226, g: 232, b: 240 }),
{
    Color { r: 226, g: 232, b: 240 }
}

/// The "saved" mark.
#[verifier::allow_in_spec]
pub fn save() -> Color
    returns (Color { r: 34, g: 197, b: 94 }),
{
    Color { r: 34, g: 197, b: 94 }
}

/// The game-over bar.
#[verifier::allow_in_spec]
pub fn over() -> Color
    returns (Color { r: 239, g: 68, b: 68 }),
{
    Color { r: 239, g: 68, b: 68 }
}

/// Color of the bricks of row `row`.
#[verifier::allow_in_spec]
pub fn brick_color(row: usize) -> Color
    returns (if row % 6 == 0 { Color { r: 248, g: 113, b: 113 } } else if row % 6 == 1 { Color { r: 251, g: 146, b: 60 } }
        else if row % 6 == 2 { Color { r: 250, g: 204, b: 21 } } else if row % 6 == 3 { Color { r: 74, g: 222, b: 128 } }
        else if row % 6 == 4 { Color { r: 56, g: 189, b: 248 } } else { Color { r: 168, g: 85, b: 247 } }),
{
    let r = row % 6;
    if r == 0 {
        Color { r: 248, g: 113, b: 113 }
    } else if r == 1 {
        Color { r: 251, g: 146, b: 60 }
    } else if r == 2 {
        Color { r: 250, g: 204, b: 21 }
    } else if r == 3 {
        Color { r: 74, g: 222, b: 128 }
    } else if r == 4 {
        Color { r: 56, g: 189, b: 248 }
    } else {
        Color { r: 168, g: 85, b: 247 }
    }
}

/// `bytes` holds the record `f`.
pub open spec fn breakout_frame_decodes(bytes: Seq<u8>, f: BreakoutFrame) -> bool {
    &&& f.magic == le_value(bytes, 0)
    &&& f.width == le_value(bytes, 4)
    &&& f.height == le_value(bytes, 8)
    &&& f.paddle_x == le_value(bytes, 12) as i32
    &&& f.ball_x == le_value(bytes, 16) as i32
    &&& f.ball_y == le_value(bytes, 20) as i32
    &&& f.bricks@ == bytes.subrange(24, 84)
    &&& f.score == le_value(bytes, 84)
    &&& f.lives == le_value(bytes, 88)
    &&& f.level == le_value(bytes, 92)
    &&& f.saved == le_value(bytes, 96)
    &&& f.game_over == le_value(bytes, 100)
}

/// Whether the bytes hold a whole breakout frame record with the right tag.
pub fn looks_like_breakout_frame(bytes: &[u8]) -> (ok: bool)
    ensures
        ok == (bytes@.len() >= BREAKOUT_FRAME_SIZE && le_value(bytes@, 0) == BREAKOUT_FRAME_MAGIC),
{
    if bytes.len() < BREAKOUT_FRAME_SIZE {
        return false;
    }
    read_u32(bytes, 0) == BREAKOUT_FRAME_MAGIC
}

/// Reads a breakout frame record. Fails when fewer bytes than a record are
/// given or the record does not start with [`BREAKOUT_FRAME_MAGIC`].
pub fn parse_breakout_frame(bytes: &[u8]) -> (r: Option<BreakoutFrame>)
    ensures
        r is Some <==> (bytes@.len() >= BREAKOUT_FRAME_SIZE && le_value(bytes@, 0) == BREAKOUT_FRAME_MAGIC),
        r matches Some(f) ==> breakout_frame_decodes(bytes@, f),
{
    if !looks_like_breakout_frame(bytes) {
        return None;
    }
    Some(BreakoutFrame {
        magic: read_u32(bytes, 0),
        width: read_u32(bytes, 4),
        height: read_u32(bytes, 8),
        paddle_x: read_i32(bytes, 12),
        ball_x: read_i32(bytes, 16),
        ball_y: read_i32(bytes, 20),
        bricks: copy_bytes(bytes, 24, BRICK_COUNT),
        score: read_u32(bytes, 84),
        lives: read_u32(bytes, 88),
        level: read_u32(bytes, 92),
        saved: read_u32(bytes, 96),
        game_over: read_u32(bytes, 100),
    })
}

/// A record encoded by the user program decodes to the same fields.
pub proof fn lemma_breakout_frame_roundtrip(frame: BreakoutFrame, f: BreakoutFrame)
    requires
        frame.bricks@.len() == BRICK_COUNT,
    ensures
        frame.wire().len() == BREAKOUT_FRAME_SIZE,
        le_value(frame.wire(), 0) == frame.magic,
        breakout_frame_decodes(frame.wire(), f) <==> (
            f.magic == frame.magic && f.width == frame.width && f.height == frame.height
                && f.paddle_x == frame.paddle_x && f.ball_x == frame.ball_x && f.ball_y == frame.ball_y
                && f.bricks@ == frame.bricks@ && f.score == frame.score && f.lives == frame.lives
                && f.level == frame.level && f.saved == frame.saved && f.game_over == frame.game_over),
{
    let w = frame.wire();
    assert(w.subrange(0, 4) =~= le_bytes(frame.magic));
    assert(w.subrange(4, 8) =~= le_bytes(frame.width));
    assert(w.subrange(8, 12) =~= le_bytes(frame.height));
    assert(w.subrange(12, 16) =~= le_bytes(frame.paddle_x as u32));
    assert(w.subrange(16, 20) =~= le_bytes(frame.ball_x as u32));
    assert(w.subrange(20, 24) =~= le_bytes(frame.ball_y as u32));
    assert(w.subrange(24, 84) =~= frame.bricks@);
    assert(w.subrange(84, 88) =~= le_bytes(frame.score));
    assert(w.subrange(88, 92) =~= le_bytes(frame.lives));
    assert(w.subrange(92, 96) =~= le_bytes(frame.level));
    assert(w.subrange(96, 100) =~= le_bytes(frame.saved));
    assert(w.subrange(100, 104) =~= le_bytes(frame.game_over));
    lemma_le_roundtrip(frame.magic, w, 0);
    lemma_le_roundtrip(frame.width, w, 4);
    lemma_le_roundtrip(frame.height, w, 8);
    lemma_le_roundtrip(frame.paddle_x as u32, w, 12);
    lemma_le_roundtrip(frame.ball_x as u32, w, 16);
    lemma_le_roundtrip(frame.ball_y as u32, w, 20);
    lemma_le_roundtrip(frame.score, w, 84);
    lemma_le_roundtrip(frame.lives, w, 88);
    lemma_le_roundtrip(frame.level, w, 92);
    lemma_le_roundtrip(frame.saved, w, 96);
    lemma_le_roundtrip(frame.game_over, w, 100);
    lemma_i32_u32_roundtrip(frame.paddle_x);
    lemma_i32_u32_roundtrip(frame.ball_x);
    lemma_i32_u32_roundtrip(frame.ball_y);
}

/// Draws `value` as three digits: hundreds, tens and ones, each modulo ten.
pub fn draw_number(
    fb: &mut Vec<u8>,
    width: usize,
    height: usize,
    value: usize,
    x: usize,
    y: usize,
    scale: usize,
    color: Color,
)
    requires
        screen_ok(width as int, height as int),
        x + 11 * scale <= usize::MAX,
        y + 5 * scale <= usize::MAX,
    ensures
        final(fb)@ == paint(old(fb)@, width as int, height as int,
            digits_region(value as int, 3, x as int, y as int, scale as int), color),
{
    let ghost f0 = fb@;
    let ghost v = value as int;
    draw_digit(fb, width, height, value / 100 % 10, x, y, scale, color);
    draw_digit(fb, width, height, value / 10 % 10, x + 4 * scale, y, scale, color);
    draw_digit(fb, width, height, value % 10, x + 8 * scale, y, scale, color);
    proof {
        let (w, h) = (width as int, height as int);
        let r1 = digit_region(v / 100 % 10, x as int, y as int, scale as int);
        let r2 = digit_region(v / 10 % 10, x + 4 * scale, y as int, scale as int);
        let r3 = digit_region(v % 10, x + 8 * scale, y as int, scale as int);
        lemma_paint_union(f0, w, h, r1, r2, color);
        lemma_paint_union(f0, w, h, union(r1, r2), r3, color);
        assert(v / 10 / 10 == v / 100) by {
            vstd::arithmetic::div_mod::lemma_div_denominator(v, 10, 10);
        }
        assert((v / 100 % 10) % 10 == (v / 100) % 10 && (v / 10 % 10) % 10 == (v / 10) % 10 && (v % 10) % 10 == v % 10) by {
            vstd::arithmetic::div_mod::lemma_mod_mod(v / 100, 10, 1);
            vstd::arithmetic::div_mod::lemma_mod_mod(v / 10, 10, 1);
            vstd::arithmetic::div_mod::lemma_mod_mod(v, 10, 1);
        }
        assert(r1 == digit_region(v / 10 / 10, x + 4 * scale * (3 - 3), y as int, scale as int));
        assert(r2 == digit_region(v / 10, x + 4 * scale * (3 - 2), y as int, scale as int));
        assert(r3 == digit_region(v, x + 4 * scale * (3 - 1), y as int, scale as int));
        reveal_with_fuel(digits_region, 4);
        lemma_paint_ext(f0, w, h, union(union(r1, r2), r3), digits_region(v, 3, x as int, y as int, scale as int), color);
    }
}

/// No pixels.
pub open spec fn nothing() -> Region {
    |px: int, py: int| false
}

/// Width of the playing field on a `width`-pixel screen.
pub open spec fn board_width(width: int) -> int {
    if width - 104 > 260 { width - 104 } else { 260 }
}

/// Height of the playing field on a `height`-pixel screen.
pub open spec fn board_height(height: int) -> int {
    if height - 72 > 180 { height - 72 } else { 180 }
}

/// `v` limited below by 0 and above by `hi`.
pub open spec fn clip(v: i32, hi: int) -> int {
    let a = if v > 0 { v as int } else { 0 };
    if a < hi { a } else { hi }
}

/// The screen is wide enough for the level digit, and for the "saved" mark
/// and the game-over bar when they show.
pub open spec fn breakout_view_fits(width: int, height: int, f: BreakoutFrame) -> bool {
    &&& width >= 16
    &&& f.saved != 0 ==> width >= 140 && height >= 30
    &&& f.game_over != 0 ==> width >= 240 && height >= 48
}

/// The layers of a breakout frame: background, the three walls, score,
/// lives and level, the sixty bricks (empty where a brick has fallen),
/// paddle, ball, the "saved" mark and the game-over bar.
pub open spec fn breakout_scene(width: int, height: int, f: BreakoutFrame) -> Seq<(Region, Color)> {
    let bx = 52int;
    let by = 46int;
    let bw = board_width(width);
    let bh = board_height(height);
    let brick_w = (bw - 40 - 9 * 5) / 10;
    seq![
        (rect(0, 0, width, height), bg()),
        (rect(bx, by, bw, 5), wall()),
        (rect(bx, by, 5, bh), wall()),
        (rect(bx + bw - 5, by, 5, bh), wall()),
        (digits_region(f.score as int, 3, 72, 14, 5), text()),
        (digits_region(f.lives as int, 3, if width > 126 { width - 126 } else { 0 }, 14, 5), text()),
        (digit_region(f.level as int, width / 2 - 8, 16, 4), text()),
    ] + Seq::new(BRICK_COUNT as nat, |k: int|
        (if f.bricks@[k] != 0 { rect(bx + 20 + (k % 10) * (brick_w + 5), by + 24 + (k / 10) * 23, brick_w, 18) } else { nothing() },
            brick_color((k / 10) as usize)))
    + seq![
        (rect(bx + clip(f.paddle_x, if bw > 86 { bw - 86 } else { 0 }), by + bh - 30, 86, 12), paddle()),
        (rect(bx + clip(f.ball_x, if bw > 12 { bw - 12 } else { 0 }), by + clip(f.ball_y, if bh > 12 { bh - 12 } else { 0 }), 12, 12), ball()),
    ] + (if f.saved != 0 { seq![(rect(width / 2 - 70, height - 30, 140, 12), save())] } else { Seq::empty() })
    + (if f.game_over != 0 { seq![(rect(width / 2 - 120, height / 2 - 24, 240, 48), over())] } else { Seq::empty() })
}

/// Draws a breakout frame on a `width` by `height` screen.
#[verifier::rlimit(40)]
pub fn draw_frame(fb: &mut Vec<u8>, width: usize, height: usize, frame: &BreakoutFrame)
    requires
        screen_ok(width as int, height as int),
        frame.bricks@.len() == BRICK_COUNT,
        breakout_view_fits(width as int, height as int, *frame),
    ensures
        final(fb)@ == paint_layers(old(fb)@, width as int, height as int,
            breakout_scene(width as int, height as int, *frame)),
{
    let ghost base = fb@;
    let ghost (wi, hi) = (width as int, height as int);
    let ghost scene = breakout_scene(wi, hi, *frame);
    proof {
        assert(scene.subrange(0, 0) =~= Seq::<(Region, Color)>::empty());
        lemma_next_layer(base, wi, hi, scene, 0);
    }
    fill_rect(fb, width, height, 0, 0, width, height, bg());
    let board_x: usize = 52;
    let board_y: usize = 46;
    let board_w = if width.saturating_sub(104) > 260 { width.saturating_sub(104) } else { 260 };
    let board_h = if height.saturating_sub(72) > 180 { height.saturating_sub(72) } else { 180 };
    proof {
        assert(board_w == board_width(wi));
        assert(board_h == board_height(hi));
        lemma_next_layer(base, wi, hi, scene, 1);
    }
    fill_rect(fb, width, height, board_x, board_y, board_w, 5, wall());
    proof {
        lemma_next_layer(base, wi, hi, scene, 2);
    }
    fill_rect(fb, width, height, board_x, board_y, 5, board_h, wall());
    proof {
        lemma_next_layer(base, wi, hi, scene, 3);
    }
    fill_rect(fb, width, height, board_x + board_w - 5, board_y, 5, board_h, wall());
    proof {
        lemma_next_layer(base, wi, hi, scene, 4);
    }
    draw_number(fb, width, height, frame.score as usize, 72, 14, 5, text());
    proof {
        lemma_next_layer(base, wi, hi, scene, 5);
    }
    draw_number(fb, width, height, frame.lives as usize, width.saturating_sub(126), 14, 5, text());
    proof {
        lemma_next_layer(base, wi, hi, scene, 6);
    }
    draw_digit(fb, width, height, frame.level as usize, width / 2 - 8, 16, 4, text());

    let brick_cols: usize = 10;
    let brick_rows: usize = 6;
    let brick_gap: usize = 5;
    let brick_w = (board_w - 40 - (brick_cols - 1) * brick_gap) / brick_cols;
    let brick_h: usize = 18;
    let brick_x0 = board_x + 20;
    let brick_y0 = board_y + 24;
    let mut row: usize = 0;
    while row < brick_rows
        invariant
            screen_ok(wi, hi),
            wi == width,
            hi == height,
            frame.bricks@.len() == BRICK_COUNT,
            scene == breakout_scene(wi, hi, *frame),
            board_w == board_width(wi),
            board_h == board_height(hi),
            board_x == 52,
            board_y == 46,
            brick_cols == 10,
            brick_rows == 6,
            brick_gap == 5,
            brick_h == 18,
            brick_w == (board_w - 40 - 9 * 5) / 10,
            brick_x0 == 72,
            brick_y0 == 70,
            row <= 6,
            fb@ == paint_layers(base, wi, hi, scene.subrange(0, 7 + (row * 10) as int)),
        decreases 6 - row,
    {
        let mut col: usize = 0;
        while col < brick_cols
            invariant
                screen_ok(wi, hi),
                wi == width,
                hi == height,
                frame.bricks@.len() == BRICK_COUNT,
                scene == breakout_scene(wi, hi, *frame),
                board_w == board_width(wi),
                board_h == board_height(hi),
                brick_cols == 10,
                brick_gap == 5,
                brick_h == 18,
                brick_w == (board_w - 40 - 9 * 5) / 10,
                brick_x0 == 72,
                brick_y0 == 70,
                row < 6,
                col <= 10,
                fb@ == paint_layers(base, wi, hi, scene.subrange(0, 7 + (row * 10 + col) as int)),
            decreases 10 - col,
        {
            let index = row * brick_cols + col;
            proof {
                vstd::arithmetic::div_mod::lemma_fundamental_div_mod_converse(index as int, 10, row as int, col as int);
                assert(brick_w <= board_w);
                assert(col * (brick_w + brick_gap) <= 10 * (brick_w + 5)) by (nonlinear_arith)
                    requires col <= 10, brick_gap == 5;
                assert(row * (brick_h + brick_gap) == 23 * row) by (nonlinear_arith)
                    requires brick_h == 18, brick_gap == 5;
                lemma_next_layer(base, wi, hi, scene, 7 + index);
            }
            if frame.bricks[index] != 0 {
                fill_rect(
                    fb,
                    width,
                    height,
                    brick_x0 + col * (brick_w + brick_gap),
                    brick_y0 + row * (brick_h + brick_gap),
                    brick_w,
                    brick_h,
                    brick_color(row),
                );
            } else {
                proof {
                    lemma_paint_nothing(fb@, wi, hi, nothing(), brick_color(row));
                }
            }
            col += 1;
        }
        row += 1;
    }
    let ghost k = 67int;
    let paddle_w: usize = 86;
    let paddle_h: usize = 12;
    let px = if frame.paddle_x > 0 { frame.paddle_x as usize } else { 0 };
    let paddle_x = board_x + if px < board_w.saturating_sub(paddle_w) { px } else { board_w.saturating_sub(paddle_w) };
    let paddle_y = board_y + board_h - 30;
    proof {
        lemma_next_layer(base, wi, hi, scene, k);
    }
    fill_rect(fb, width, height, paddle_x, paddle_y, paddle_w, paddle_h, paddle());
    let bxv = if frame.ball_x > 0 { frame.ball_x as usize } else { 0 };
    let byv = if frame.ball_y > 0 { frame.ball_y as usize } else { 0 };
    let ball_x = board_x + if bxv < board_w.saturating_sub(12) { bxv } else { board_w.saturating_sub(12) };
    let ball_y = board_y + if byv < board_h.saturating_sub(12) { byv } else { board_h.saturating_sub(12) };
    proof {
        lemma_next_layer(base, wi, hi, scene, k + 1);
    }
    fill_rect(fb, width, height, ball_x, ball_y, 12, 12, ball());
    let ghost mut n = k + 2;
    if frame.saved != 0 {
        proof {
            lemma_next_layer(base, wi, hi, scene, n);
        }
        fill_rect(fb, width, height, width / 2 - 70, height - 30, 140, 12, save());
        proof {
            n = n + 1;
        }
    }
    if frame.game_over != 0 {
        proof {
            lemma_next_layer(base, wi, hi, scene, n);
        }
        fill_rect(fb, width, height, width / 2 - 120, height / 2 - 24, 240, 48, over());
        proof {
            n = n + 1;
        }
    }
    proof {
        assert(n == scene.len());
        assert(scene.subrange(0, n) =~= scene);
    }
}

/// Number of frames that the scripted demo plays.
pub const DEMO_TICKS: usize = 72;

/// The first frame of the scripted demo: a full wall, the paddle near the
/// middle and the ball above it.
pub fn scripted_demo_frame() -> (frame: BreakoutFrame)
    ensures
        frame.magic == BREAKOUT_FRAME_MAGIC,
        frame.width == 536,
        frame.height == 288,
        frame.paddle_x == 220,
        frame.ball_x == 260,
        frame.ball_y == 220,
        frame.bricks@ == Seq::new(BRICK_COUNT as nat, |k: int| 1u8),
        frame.score == 0,
        frame.lives == 3,
        frame.level == 1,
        frame.saved == 0,
        frame.game_over == 0,
{
    let bricks = vec![1u8; BRICK_COUNT];
    proof {
        assert(bricks@ =~= Seq::new(BRICK_COUNT as nat, |k: int| 1u8));
    }
    BreakoutFrame {
        magic: BREAKOUT_FRAME_MAGIC,
        width: 536,
        height: 288,
        paddle_x: 220,
        ball_x: 260,
        ball_y: 220,
        bricks,
        score: 0,
        lives: 3,
        level: 1,
        saved: 0,
        game_over: 0,
    }
}

/// The scripted demo's values stay small: the ball near the field, steps of
/// five, the paddle inside the field, and room in the score.
pub open spec fn demo_ok(frame: BreakoutFrame, vx: i32, vy: i32) -> bool {
    &&& frame.bricks@.len() == BRICK_COUNT
    &&& -100_000 <= frame.ball_x <= 100_000
    &&& -100_000 <= frame.ball_y <= 100_000
    &&& (vx == 5 || vx == -5)
    &&& (vy == 5 || vy == -5)
    &&& 0 <= frame.paddle_x <= 450
    &&& frame.score + 10 <= u32::MAX
}

/// Whether the scripted demo may take another step.
pub fn demo_values_ok(frame: &BreakoutFrame, vx: i32, vy: i32) -> (ok: bool)
    ensures
        ok == demo_ok(*frame, vx, vy),
{
    frame.bricks.len() == BRICK_COUNT && -100_000 <= frame.ball_x && frame.ball_x <= 100_000
        && -100_000 <= frame.ball_y && frame.ball_y <= 100_000 && (vx == 5 || vx == -5) && (vy == 5 || vy == -5)
        && 0 <= frame.paddle_x && frame.paddle_x <= 450 && frame.score <= u32::MAX - 10
}

/// The paddle of the scripted demo after it follows the ball: it moves 14
/// pixels toward the ball's center when that is more than 8 pixels off its
/// own, and stays inside the field.
pub open spec fn demo_paddle(paddle_x: int, ball_x: int) -> int {
    let pc = paddle_x + 43;
    let bc = ball_x + 6;
    let moved = if bc + 8 < pc { paddle_x - 14 } else if bc > pc + 8 { paddle_x + 14 } else { paddle_x };
    if moved < 0 { 0 } else if moved > 536 - 86 { 536 - 86 } else { moved }
}

/// One frame of the scripted demo at `tick`: the paddle follows the ball,
/// the ball moves and bounces off the sides, the top and the paddle, every
/// eighteenth tick one brick falls and scores 10, and the "saved" mark
/// shows from tick 51 on.
pub fn scripted_demo_step(frame: &mut BreakoutFrame, vx: &mut i32, vy: &mut i32, tick: usize)
    requires
        demo_ok(*old(frame), *old(vx), *old(vy)),
    ensures
        ({
            let f0 = *old(frame);
            let paddle = demo_paddle(f0.paddle_x as int, f0.ball_x as int);
            let bx = f0.ball_x + *old(vx);
            let by = f0.ball_y + *old(vy);
            let vx1 = if bx <= 0 || bx >= 536 - 12 { -*old(vx) } else { *old(vx) as int };
            let vy1 = if by <= 0 { 5 } else { *old(vy) as int };
            let vy2 = if by >= 250 && bx + 12 >= paddle && bx <= paddle + 86 { -5 } else { vy1 };
            let drop = tick % 18 == 0;
            let k = ((tick / 18) % 60) as int;
            &&& final(frame).paddle_x == paddle
            &&& final(frame).ball_x == bx
            &&& final(frame).ball_y == by
            &&& *final(vx) == vx1
            &&& *final(vy) == vy2
            &&& final(frame).bricks@ == if drop { f0.bricks@.update(k, 0) } else { f0.bricks@ }
            &&& final(frame).score == if drop { f0.score + 10 } else { f0.score as int }
            &&& final(frame).saved == if tick > 50 && tick < 85 { 1u32 } else { 0u32 }
            &&& final(frame).lives == f0.lives
            &&& final(frame).level == f0.level
            &&& final(frame).game_over == f0.game_over
            &&& final(frame).magic == f0.magic
            &&& final(frame).width == f0.width
            &&& final(frame).height == f0.height
        }),
        (*final(vx) == 5 || *final(vx) == -5),
        (*final(vy) == 5 || *final(vy) == -5),
        final(frame).bricks@.len() == BRICK_COUNT,
{
    let paddle_center = frame.paddle_x + 43;
    let ball_center = frame.ball_x + 6;
    if ball_center + 8 < paddle_center {
        frame.paddle_x -= 14;
    } else if ball_center > paddle_center + 8 {
        frame.paddle_x += 14;
    }
    frame.paddle_x = if frame.paddle_x < 0 { 0 } else if frame.paddle_x > 536 - 86 { 536 - 86 } else { frame.paddle_x };

    frame.ball_x += *vx;
    frame.ball_y += *vy;
    if frame.ball_x <= 0 || frame.ball_x >= 536 - 12 {
        *vx = -*vx;
    }
    if frame.ball_y <= 0 {
        *vy = if *vy < 0 { -*vy } else { *vy };
    }
    if frame.ball_y >= 250 && frame.ball_x + 12 >= frame.paddle_x && frame.ball_x <= frame.paddle_x + 86 {
        *vy = if *vy < 0 { *vy } else { -*vy };
    }
    if tick % 18 == 0 {
        let index = (tick / 18) % frame.bricks.len();
        frame.bricks.set(index, 0);
        frame.score += 10;
    }
    frame.saved = if tick > 50 && tick < 85 { 1 } else { 0 };
}

/// `v` clamped below at zero.
pub open spec fn non_negative(v: i32) -> int {
    if v > 0 { v as int } else { 0 }
}

/// Column of the ball in the text picture.
pub open spec fn text_ball_col(f: BreakoutFrame) -> int {
    let c = non_negative(f.ball_x) * 30 / 536;
    if c < 29 { c } else { 29 }
}

/// Row of the ball in the text picture.
pub open spec fn text_ball_row(f: BreakoutFrame) -> int {
    let r = non_negative(f.ball_y) * 16 / 288;
    if r < 15 { r } else { 15 }
}

/// First column of the paddle in the text picture.
pub open spec fn text_paddle_col(f: BreakoutFrame) -> int {
    let c = non_negative(f.paddle_x) * 26 / 536;
    if c < 26 { c } else { 26 }
}

/// The character of the text picture at `(row, col)`: `O` for the ball,
/// `=` for the paddle on row 14, `#` for a standing brick of the top three
/// brick rows (two text rows and three columns per brick), a space
/// otherwise.
pub open spec fn text_cell(f: BreakoutFrame, row: int, col: int) -> u8 {
    if row == text_ball_row(f) && col == text_ball_col(f) {
        79
    } else if row == 14 && text_paddle_col(f) <= col < text_paddle_col(f) + 4 {
        61
    } else if row < 6 && f.bricks@[(row / 2) * 10 + col / 3] != 0 {
        35
    } else {
        32
    }
}

/// The first `n` rows of the text picture, each between bars.
pub open spec fn text_rows(f: BreakoutFrame, n: int) -> Seq<u8>
    decreases n,
{
    if n <= 0 {
        Seq::empty()
    } else {
        text_rows(f, n - 1) + seq![124u8] + Seq::new(30, |c: int| text_cell(f, n - 1, c)) + "|\r\n".spec_bytes()
    }
}

/// The console picture of a frame, for when there is no display: the
/// title and keys, score, lives, level and the saved mark, the field of
/// 16 rows by 30 columns in a frame, and the game-over line.
pub open spec fn terminal_text(f: BreakoutFrame) -> Seq<u8> {
    "\x1b[2J\x1b[H".spec_bytes()
        + "ch6 breakout demo | A/D move | S save | R restore | Space restart | Q quit\r\n".spec_bytes()
        + "score: ".spec_bytes() + decimal(f.score as nat)
        + "  lives: ".spec_bytes() + decimal(f.lives as nat)
        + "  level: ".spec_bytes() + decimal(f.level as nat)
        + (if f.saved != 0 { "  saved".spec_bytes() } else { Seq::empty() })
        + "\r\n+------------------------------+\r\n".spec_bytes()
        + text_rows(f, 16)
        + "+------------------------------+\r\n".spec_bytes()
        + (if f.game_over != 0 { "GAME OVER - press Space to restart\r\n".spec_bytes() } else { Seq::empty() })
}

/// The console picture of a breakout frame.
pub fn terminal_frame(frame: &BreakoutFrame) -> (text: Vec<u8>)
    requires
        frame.bricks@.len() == BRICK_COUNT,
    ensures
        text@ == terminal_text(*frame),
{
    let mut out: Vec<u8> = Vec::new();
    push_str(&mut out, "\x1b[2J\x1b[H");
    push_str(&mut out, "ch6 breakout demo | A/D move | S save | R restore | Space restart | Q quit\r\n");
    push_str(&mut out, "score: ");
    let score = decimal_text(frame.score as usize);
    push_bytes(&mut out, &score);
    push_str(&mut out, "  lives: ");
    let lives = decimal_text(frame.lives as usize);
    push_bytes(&mut out, &lives);
    push_str(&mut out, "  level: ");
    let level = decimal_text(frame.level as usize);
    push_bytes(&mut out, &level);
    let ghost after_level = out@;
    if frame.saved != 0 {
        push_str(&mut out, "  saved");
    }
    push_str(&mut out, "\r\n+------------------------------+\r\n");
    let ghost head = out@;
    let bx: u64 = if frame.ball_x > 0 { frame.ball_x as u64 } else { 0 };
    let by: u64 = if frame.ball_y > 0 { frame.ball_y as u64 } else { 0 };
    let px: u64 = if frame.paddle_x > 0 { frame.paddle_x as u64 } else { 0 };
    let ball_col = if bx * 30 / 536 < 29 { (bx * 30 / 536) as usize } else { 29 };
    let ball_row = if by * 16 / 288 < 15 { (by * 16 / 288) as usize } else { 15 };
    let paddle_col = if px * 26 / 536 < 26 { (px * 26 / 536) as usize } else { 26 };
    proof {
        assert(text_rows(*frame, 0) =~= Seq::<u8>::empty());
    }
    let mut row: usize = 0;
    while row < 16
        invariant
            frame.bricks@.len() == BRICK_COUNT,
            ball_col == text_ball_col(*frame),
            ball_row == text_ball_row(*frame),
            paddle_col == text_paddle_col(*frame),
            row <= 16,
            out@ == head + text_rows(*frame, row as int),
        decreases 16 - row,
    {
        let ghost before = out@;
        push_str(&mut out, "|");
        let ghost line_start = out@;
        let mut col: usize = 0;
        while col < 30
            invariant
                frame.bricks@.len() == BRICK_COUNT,
                ball_col == text_ball_col(*frame),
                ball_row == text_ball_row(*frame),
                paddle_col == text_paddle_col(*frame),
                row < 16,
                col <= 30,
                out@ == line_start + Seq::new(col as nat, |c: int| text_cell(*frame, row as int, c)),
            decreases 30 - col,
        {
            let brick_row = row / 2;
            let brick_col = col / 3;
            let brick = row < 6 && brick_row < 6 && brick_col < 10 && frame.bricks[brick_row * 10 + brick_col] != 0;
            let ch = if row == ball_row && col == ball_col {
                79
            } else if row == 14 && col >= paddle_col && col < paddle_col + 4 {
                61
            } else if brick {
                35
            } else {
                32
            };
            out.push(ch);
            proof {
                assert(ch == text_cell(*frame, row as int, col as int));
                assert(out@ =~= line_start + Seq::new((col + 1) as nat, |c: int| text_cell(*frame, row as int, c)));
            }
            col += 1;
        }
        push_str(&mut out, "|\r\n");
        proof {
            reveal_strlit("|");
            assert("|".spec_bytes() =~= seq![124u8]) by {
                assert(is_ascii("|"));
            }
            assert(out@ =~= head + text_rows(*frame, row + 1));
        }
        row += 1;
    }
    push_str(&mut out, "+------------------------------+\r\n");
    if frame.game_over != 0 {
        push_str(&mut out, "GAME OVER - press Space to restart\r\n");
    }
    proof {
        assert(out@ =~= terminal_text(*frame));
    }
    out
}

/// Whether a breakout frame can be drawn on a `width` by `height` screen.
pub fn view_fits(width: usize, height: usize, frame: &BreakoutFrame) -> (ok: bool)
    ensures
        ok == (screen_ok(width as int, height as int) && breakout_view_fits(width as int, height as int, *frame)),
{
    crate::raster::screen_ok_check(width, height) && width >= 16
        && (frame.saved == 0 || (width >= 140 && height >= 30))
        && (frame.game_over == 0 || (width >= 240 && height >= 48))
}

} // verus!
