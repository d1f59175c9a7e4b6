//! The kernel side of the pingpong game: reading a frame record that the
//! user program submits, and drawing it.
use vstd::prelude::*;

use crate::color::Color;
use crate::raster::{Region, paint, paint_layers, rect, union, screen_ok, fill_rect, draw_digit, digit_region,
    digits_region, lemma_paint_union, lemma_paint_ext, lemma_paint_layers_push};
use crate::pingpong::{PingpongFrame, PINGPONG_FRAME_MAGIC, PINGPONG_FRAME_SIZE, pingpong_frame_wire};
use crate::wire::{le_bytes, le_value, read_u32, read_i32, lemma_le_roundtrip, lemma_i32_u32_roundtrip};

verus! {

/// Background.
#[verifier::allow_in_spec]
pub fn black() -> Color
    returns (Color { r: 4, g: 7, b: 12 }),
{
    Color { r: 4, g: 7, b: 12 }
}

/// Court.
#[verifier::allow_in_spec]
pub fn court() -> Color
    returns (Color { r: 10, g: 18, b: 32 }),
{
    Color { r: 10, g: 18, b: 32 }
}

/// Court lines.
#[verifier::allow_in_spec]
pub fn line() -> Color
    returns (Color { r: 90, g: 105, b: 130 }),
{
    Color { r: 90, g: 105, b: 130 }
}

/// Left player.
#[verifier::allow_in_spec]
pub fn left() -> Color
    returns (Color { r: 34, g: 211, b: 238 }),
{
    Color { r: 34, g: 211, b: 238 }
}

/// Right player.
#[verifier::allow_in_spec]
pub fn right() -> Color
    returns (Color { r: 248, g: 113, b: 113 }),
{
    Color { r: 248, g: 113, b: 113 }
}

/// Ball.
#[verifier::allow_in_spec]
pub fn ball() -> Color
    returns (Color { r: 250, g: 204, b: 21 }),
{
    Color { r: 250, g: 204, b: 21 }
}

/// Speed digits.
#[verifier::allow_in_spec]
pub fn text() -> Color
    returns (Color { r: 226, g: 232, b: 240 }),
{
    Color { r: 226, g: 232, b: 240 }
}

/// Game-over bar.
#[verifier::allow_in_spec]
pub fn warn() -> Color
    returns (Color { r: 249, g: 115, b: 22 }),
{
    Color { r: 249, g: 115, b: 22 }
}

/// `bytes` holds the record `f`.
pub open spec fn pingpong_frame_decodes(bytes: Seq<u8>, f: PingpongFrame) -> bool {
    &&& f.magic == le_value(bytes, 0)
    &&& f.width == le_value(bytes, 4)
    &&& f.height == le_value(bytes, 8)
    &&& f.left_y == le_value(bytes, 12) as i32
    &&& f.right_y == le_value(bytes, 16) as i32
    &&& f.ball_x == le_value(bytes, 20) as i32
    &&& f.ball_y == le_value(bytes, 24) as i32
    &&& f.left_score == le_value(bytes, 28)
    &&& f.right_score == le_value(bytes, 32)
    &&& f.speed == le_value(bytes, 36)
    &&& f.game_over == le_value(bytes, 40)
}

/// Reads a pingpong frame record. Fails when fewer bytes than a record are
/// given or the record does not start with [`PINGPONG_FRAME_MAGIC`].
pub fn parse_pingpong_frame(bytes: &[u8]) -> (r: Option<PingpongFrame>)
    ensures
        r is Some <==> (bytes@.len() >= PINGPONG_FRAME_SIZE && le_value(bytes@, 0) == PINGPONG_FRAME_MAGIC),
        r matches Some(f) ==> pingpong_frame_decodes(bytes@, f),
{
    if bytes.len() < PINGPONG_FRAME_SIZE {
        return None;
    }
    let magic = read_u32(bytes, 0);
    if magic != PINGPONG_FRAME_MAGIC {
        return None;
    }
    Some(PingpongFrame {
        magic,
        width: read_u32(bytes, 4),
        height: read_u32(bytes, 8),
        left_y: read_i32(bytes, 12),
        right_y: read_i32(bytes, 16),
        ball_x: read_i32(bytes, 20),
        ball_y: read_i32(bytes, 24),
        left_score: read_u32(bytes, 28),
        right_score: read_u32(bytes, 32),
        speed: read_u32(bytes, 36),
        game_over: read_u32(bytes, 40),
    })
}

/// A record encoded by the user program decodes to the same record.
pub proof fn lemma_pingpong_frame_roundtrip(frame: PingpongFrame, f: PingpongFrame)
    ensures
        frame.wire().len() == PINGPONG_FRAME_SIZE,
        le_value(frame.wire(), 0) == frame.magic,
        pingpong_frame_decodes(frame.wire(), f) <==> f == frame,
{
    let w = frame.wire();
    assert(w.subrange(0, 4) =~= le_bytes(frame.magic));
    assert(w.subrange(4, 8) =~= le_bytes(frame.width));
    assert(w.subrange(8, 12) =~= le_bytes(frame.height));
    assert(w.subrange(12, 16) =~= le_bytes(frame.left_y as u32));
    assert(w.subrange(16, 20) =~= le_bytes(frame.right_y as u32));
    assert(w.subrange(20, 24) =~= le_bytes(frame.ball_x as u32));
    assert(w.subrange(24, 28) =~= le_bytes(frame.ball_y as u32));
    assert(w.subrange(28, 32) =~= le_bytes(frame.left_score));
    assert(w.subrange(32, 36) =~= le_bytes(frame.right_score));
    assert(w.subrange(36, 40) =~= le_bytes(frame.speed));
    assert(w.subrange(40, 44) =~= le_bytes(frame.game_over));
    lemma_le_roundtrip(frame.magic, w, 0);
    lemma_le_roundtrip(frame.width, w, 4);
    lemma_le_roundtrip(frame.height, w, 8);
    lemma_le_roundtrip(frame.left_y as u32, w, 12);
    lemma_le_roundtrip(frame.right_y as u32, w, 16);
    lemma_le_roundtrip(frame.ball_x as u32, w, 20);
    lemma_le_roundtrip(frame.ball_y as u32, w, 24);
    lemma_le_roundtrip(frame.left_score, w, 28);
    lemma_le_roundtrip(frame.right_score, w, 32);
    lemma_le_roundtrip(frame.speed, w, 36);
    lemma_le_roundtrip(frame.game_over, w, 40);
    lemma_i32_u32_roundtrip(frame.left_y);
    lemma_i32_u32_roundtrip(frame.right_y);
    lemma_i32_u32_roundtrip(frame.ball_x);
    lemma_i32_u32_roundtrip(frame.ball_y);
}

/// `value` limited to `[0, max]`.
pub open spec fn spec_clamp_to_screen(value: i32, max: usize) -> int {
    if value < 0 { 0 } else if (value as int) < max { value as int } else { max as int }
}

/// Limits a coordinate to `[0, max]`.
pub fn clamp_to_screen(value: i32, max: usize) -> (c: usize)
    ensures
        c == spec_clamp_to_screen(value, max),
{
    if value < 0 {
        0
    } else {
        let v = value as usize;
        if v < max { v } else { max }
    }
}

/// Draws `value` as two digits: the tens (modulo ten) and the ones.
pub fn draw_number(
    fb: &mut Vec<u8>,
    width: usize,
    height: usize,
    value: usize,
    x: usize,
    y: usize,
    scale: usize,
    color: Color,
)
    requires
        screen_ok(width as int, height as int),
        x + 7 * scale <= usize::MAX,
        y + 5 * scale <= usize::MAX,
    ensures
        final(fb)@ == paint(old(fb)@, width as int, height as int,
            digits_region(value as int, 2, x as int, y as int, scale as int), color),
{
    let ghost f0 = fb@;
    let ghost v = value as int;
    draw_digit(fb, width, height, value / 10 % 10, x, y, scale, color);
    draw_digit(fb, width, height, value % 10, x + 4 * scale, y, scale, color);
    proof {
        let (w, h) = (width as int, height as int);
        let r1 = digit_region(v / 10 % 10, x as int, y as int, scale as int);
        let r2 = digit_region(v % 10, x + 4 * scale, y as int, scale as int);
        lemma_paint_union(f0, w, h, r1, r2, color);
        assert((v / 10 % 10) % 10 == (v / 10) % 10 && (v % 10) % 10 == v % 10) by {
            vstd::arithmetic::div_mod::lemma_mod_mod(v / 10, 10, 1);
            vstd::arithmetic::div_mod::lemma_mod_mod(v, 10, 1);
        }
        assert(r1 == digit_region(v / 10, x + 4 * scale * (2 - 2), y as int, scale as int));
        assert(r2 == digit_region(v, x + 4 * scale * (2 - 1), y as int, scale as int));
        reveal_with_fuel(digits_region, 3);
        lemma_paint_ext(f0, w, h, union(r1, r2), digits_region(v, 2, x as int, y as int, scale as int), color);
    }
}

/// Width of the court on a `width`-pixel screen: a margin of 60 on each
/// side, and at least 200.
pub open spec fn court_width(width: int) -> int {
    if width - 120 > 200 { width - 120 } else { 200 }
}

/// Height of the court on a `height`-pixel screen: a top margin of 42 and a
/// bottom one of 44, and at least 160.
pub open spec fn court_height(height: int) -> int {
    if height - 86 > 160 { height - 86 } else { 160 }
}

/// Number of dashes of the center line.
pub open spec fn dash_count(ch: int) -> int {
    if ch <= 20 { 0 } else { (ch - 21) / 28 + 1 }
}

/// The layers of a pingpong frame: background, court, top and bottom
/// lines, the dashes of the center line, the two scores and the speed, the
/// two paddles, the ball, and the game-over bar.
pub open spec fn pingpong_scene(width: int, height: int, f: PingpongFrame) -> Seq<(Region, Color)> {
    let cx: int = 60;
    let cy: int = 42;
    let cw = court_width(width);
    let ch = court_height(height);
    let ph = ch / 5;
    let ly = cy + spec_clamp_to_screen(f.left_y, (if ch > ph { ch - ph } else { 0 }) as usize);
    let ry = cy + spec_clamp_to_screen(f.right_y, (if ch > ph { ch - ph } else { 0 }) as usize);
    let bx = cx + spec_clamp_to_screen(f.ball_x, (if cw > 14 { cw - 14 } else { 0 }) as usize);
    let by = cy + spec_clamp_to_screen(f.ball_y, (if ch > 14 { ch - 14 } else { 0 }) as usize);
    seq![
        (rect(0, 0, width, height), black()),
        (rect(cx, cy, cw, ch), court()),
        (rect(cx, cy, cw, 4), line()),
        (rect(cx, cy + ch - 4, cw, 4), line()),
    ] + Seq::new(dash_count(ch) as nat, |i: int| (rect(cx + cw / 2 - 2, cy + 10 + 28 * i, 4, 14), line()))
    + seq![
        (digits_region(f.left_score as int, 2, cx + cw / 2 - 92, 12, 7), left()),
        (digits_region(f.right_score as int, 2, cx + cw / 2 + 34, 12, 7), right()),
        (digits_region(f.speed as int, 2, cx + cw - 70, 18, 3), text()),
        (rect(cx + 18, ly, 12, ph), left()),
        (rect(cx + cw - 30, ry, 12, ph), right()),
        (rect(bx, by, 14, 14), ball()),
    ] + if f.game_over != 0 {
        seq![(rect(cx + cw / 2 - 120, cy + ch / 2 - 24, 240, 48), warn())]
    } else {
        Seq::empty()
    }
}

/// Draws a pingpong frame on a `width` by `height` screen.
#[verifier::rlimit(40)]
pub fn draw_frame(fb: &mut Vec<u8>, width: usize, height: usize, frame: &PingpongFrame)
    requires
        screen_ok(width as int, height as int),
    ensures
        final(fb)@ == paint_layers(old(fb)@, width as int, height as int,
            pingpong_scene(width as int, height as int, *frame)),
{
    let ghost base = fb@;
    let ghost (wi, hi) = (width as int, height as int);
    let ghost scene = pingpong_scene(wi, hi, *frame);
    let court_x: usize = 60;
    let court_y: usize = 42;
    let court_w = if width.saturating_sub(120) > 200 { width.saturating_sub(120) } else { 200 };
    let court_h = if height.saturating_sub(86) > 160 { height.saturating_sub(86) } else { 160 };
    proof {
        assert(court_w == court_width(wi));
        assert(court_h == court_height(hi));
    }
    fill_rect(fb, width, height, 0, 0, width, height, black());
    proof {
        lemma_paint_layers_push(base, wi, hi, Seq::empty(), scene[0]);
        assert(Seq::<(Region, Color)>::empty().push(scene[0]) =~= scene.subrange(0, 1));
    }
    fill_rect(fb, width, height, court_x, court_y, court_w, court_h, court());
    proof {
        lemma_paint_layers_push(base, wi, hi, scene.subrange(0, 1), scene[1]);
        assert(scene.subrange(0, 1).push(scene[1]) =~= scene.subrange(0, 2));
    }
    fill_rect(fb, width, height, court_x, court_y, court_w, 4, line());
    proof {
        lemma_paint_layers_push(base, wi, hi, scene.subrange(0, 2), scene[2]);
        assert(scene.subrange(0, 2).push(scene[2]) =~= scene.subrange(0, 3));
    }
    fill_rect(fb, width, height, court_x, court_y + court_h - 4, court_w, 4, line());
    proof {
        lemma_paint_layers_push(base, wi, hi, scene.subrange(0, 3), scene[3]);
        assert(scene.subrange(0, 3).push(scene[3]) =~= scene.subrange(0, 4));
    }
    let ghost dashes = dash_count(court_h as int);
    let mut y = court_y + 10;
    let ghost mut i: int = 0;
    while y + 10 < court_y + court_h
        invariant
            screen_ok(wi, hi),
            wi == width,
            hi == height,
            court_w == court_width(wi),
            court_h == court_height(hi),
            court_x == 60,
            court_y == 42,
            dashes == dash_count(court_h as int),
            scene == pingpong_scene(wi, hi, *frame),
            0 <= i <= dashes,
            y == court_y + 10 + 28 * i,
            fb@ == paint_layers(base, wi, hi, scene.subrange(0, 4 + i)),
        decreases dashes - i,
    {
        proof {
            assert(court_h - 10 - 28 * i > 0);
        }
        fill_rect(fb, width, height, court_x + court_w / 2 - 2, y, 4, 14, line());
        proof {
            assert(i < dashes);
            assert(scene[4 + i] == (rect(court_x + court_w / 2 - 2, y as int, 4, 14), line()));
            lemma_paint_layers_push(base, wi, hi, scene.subrange(0, 4 + i), scene[4 + i]);
            assert(scene.subrange(0, 4 + i).push(scene[4 + i]) =~= scene.subrange(0, 4 + i + 1));
            i = i + 1;
        }
        y += 28;
    }
    proof {
        assert(i == dashes);
    }
    let ghost k = 4 + dashes;
    draw_number(fb, width, height, frame.left_score as usize, court_x + court_w / 2 - 92, 12, 7, left());
    proof {
        lemma_paint_layers_push(base, wi, hi, scene.subrange(0, k), scene[k]);
        assert(scene.subrange(0, k).push(scene[k]) =~= scene.subrange(0, k + 1));
    }
    draw_number(fb, width, height, frame.right_score as usize, court_x + court_w / 2 + 34, 12, 7, right());
    proof {
        lemma_paint_layers_push(base, wi, hi, scene.subrange(0, k + 1), scene[k + 1]);
        assert(scene.subrange(0, k + 1).push(scene[k + 1]) =~= scene.subrange(0, k + 2));
    }
    draw_number(fb, width, height, frame.speed as usize, court_x + court_w - 70, 18, 3, text());
    proof {
        lemma_paint_layers_push(base, wi, hi, scene.subrange(0, k + 2), scene[k + 2]);
        assert(scene.subrange(0, k + 2).push(scene[k + 2]) =~= scene.subrange(0, k + 3));
    }
    let paddle_h = court_h / 5;
    let paddle_w: usize = 12;
    let left_y = court_y + clamp_to_screen(frame.left_y, court_h.saturating_sub(paddle_h));
    let right_y = court_y + clamp_to_screen(frame.right_y, court_h.saturating_sub(paddle_h));
    fill_rect(fb, width, height, court_x + 18, left_y, paddle_w, paddle_h, left());
    proof {
        lemma_paint_layers_push(base, wi, hi, scene.subrange(0, k + 3), scene[k + 3]);
        assert(scene.subrange(0, k + 3).push(scene[k + 3]) =~= scene.subrange(0, k + 4));
    }
    fill_rect(fb, width, height, court_x + court_w - 30, right_y, paddle_w, paddle_h, right());
    proof {
        lemma_paint_layers_push(base, wi, hi, scene.subrange(0, k + 4), scene[k + 4]);
        assert(scene.subrange(0, k + 4).push(scene[k + 4]) =~= scene.subrange(0, k + 5));
    }
    let ball_x = court_x + clamp_to_screen(frame.ball_x, court_w.saturating_sub(14));
    let ball_y = court_y + clamp_to_screen(frame.ball_y, court_h.saturating_sub(14));
    fill_rect(fb, width, height, ball_x, ball_y, 14, 14, ball());
    proof {
        lemma_paint_layers_push(base, wi, hi, scene.subrange(0, k + 5), scene[k + 5]);
        assert(scene.subrange(0, k + 5).push(scene[k + 5]) =~= scene.subrange(0, k + 6));
    }
    if frame.game_over != 0 {
        fill_rect(fb, width, height, court_x + court_w / 2 - 120, court_y + court_h / 2 - 24, 240, 48, warn());
        proof {
            lemma_paint_layers_push(base, wi, hi, scene.subrange(0, k + 6), scene[k + 6]);
            assert(scene.subrange(0, k + 6).push(scene[k + 6]) =~= scene);
        }
    } else {
        proof {
            assert(scene.subrange(0, k + 6) =~= scene);
        }
    }
}

} // verus!
