//! The kernel side of the pacman game: reading a frame record that the user
//! program submits, and drawing it.
use vstd::prelude::*;

use crate::color::Color;
use crate::raster::{Region, paint, paint_layers, rect, union, disk, screen_ok, fill_rect, draw_digit, draw_circle,
    digit_region, digits_region, lemma_paint_union, lemma_paint_ext, lemma_paint_nothing, lemma_next_layer};
use crate::pacman::{PacmanFrame, PACMAN_FRAME_MAGIC, PACMAN_FRAME_SIZE, MAP_SIZE, MAP_W, MAP_H, pacman_frame_wire};
use crate::wire::{copy_bytes, le_bytes, le_value, read_u32, lemma_le_roundtrip};

verus! {

/// Background.
#[verifier::allow_in_spec]
pub fn bg() -> Color
    returns (Color { r: 3, g: 5, b: 20 }),
{
    Color { r: 3, g: 5, b: 20 }
}

/// Maze walls.
#[verifier::allow_in_spec]
pub fn wall() -> Color
    returns (Color { r: 37, g: 99, b: 235 }),
{
    Color { r: 37, g: 99, b: 235 }
}

/// Dots.
#[verifier::allow_in_spec]
pub fn dot() -> Color
    returns (Color { r: 252, g: 231, b: 180 }),
{
    Color { r: 252, g: 231, b: 180 }
}

/// Pacman.
#[verifier::allow_in_spec]
pub fn pac() -> Color
    returns (Color { r: 250, g: 204, b: 21 }),
{
    Color { r: 250, g: 204, b: 21 }
}

/// The ghost.
#[verifier::allow_in_spec]
pub fn ghost_color() -> Color
    returns (Color { r: 244, g: 63, b: 94 }),
{
    Color { r: 244, g: 63, b: 94 }
}

/// Digits.
#[verifier::allow_in_spec]
pub fn text() -> Color
    returns (Color { r: 226, g: 232, b: 240 }),
{
    Color { r: 226, g: 232, b: 240 }
}

/// The winning bar.
#[verifier::allow_in_spec]
pub fn win() -> Color
    returns (Color { r: 34, g: 197, b: 94 }),
{
    Color { r: 34, g: 197, b: 94 }
}

/// The game-over bar.
#[verifier::allow_in_spec]
pub fn over() -> Color
    returns (Color { r: 239, g: 68, b: 68 }),
{
    Color { r: 239, g: 68, b: 68 }
}

/// `bytes` holds the record `f`.
pub open spec fn pacman_frame_decodes(bytes: Seq<u8>, f: PacmanFrame) -> bool {
    &&& f.magic == le_value(bytes, 0)
    &&& f.tick == le_value(bytes, 4)
    &&& f.pac_x == le_value(bytes, 8)
    &&& f.pac_y == le_value(bytes, 12)
    &&& f.ghost_x == le_value(bytes, 16)
    &&& f.ghost_y == le_value(bytes, 20)
    &&& f.score == le_value(bytes, 24)
    &&& f.lives == le_value(bytes, 28)
    &&& f.dots_left == le_value(bytes, 32)
    &&& f.game_over == le_value(bytes, 36)
    &&& f.win == le_value(bytes, 40)
    &&& f.map@ == bytes.subrange(44, 44 + MAP_SIZE)
}

/// Reads a pacman frame record. Fails when fewer bytes than a record are
/// given or the record does not start with [`PACMAN_FRAME_MAGIC`].
pub fn parse_pacman_frame(bytes: &[u8]) -> (r: Option<PacmanFrame>)
    ensures
        r is Some <==> (bytes@.len() >= PACMAN_FRAME_SIZE && le_value(bytes@, 0) == PACMAN_FRAME_MAGIC),
        r matches Some(f) ==> pacman_frame_decodes(bytes@, f),
{
    if bytes.len() < PACMAN_FRAME_SIZE {
        return None;
    }
    let magic = read_u32(bytes, 0);
    if magic != PACMAN_FRAME_MAGIC {
        return None;
    }
    Some(PacmanFrame {
        magic,
        tick: read_u32(bytes, 4),
        pac_x: read_u32(bytes, 8),
        pac_y: read_u32(bytes, 12),
        ghost_x: read_u32(bytes, 16),
        ghost_y: read_u32(bytes, 20),
        score: read_u32(bytes, 24),
        lives: read_u32(bytes, 28),
        dots_left: read_u32(bytes, 32),
        game_over: read_u32(bytes, 36),
        win: read_u32(bytes, 40),
        map: copy_bytes(bytes, 44, MAP_SIZE),
    })
}

/// A record encoded by the user program decodes to the same fields.
pub proof fn lemma_pacman_frame_roundtrip(frame: PacmanFrame, f: PacmanFrame)
    requires
        frame.map@.len() == MAP_SIZE,
    ensures
        frame.wire().len() == PACMAN_FRAME_SIZE,
        le_value(frame.wire(), 0) == frame.magic,
        pacman_frame_decodes(frame.wire(), f) <==> (
            f.magic == frame.magic && f.tick == frame.tick && f.pac_x == frame.pac_x && f.pac_y == frame.pac_y
                && f.ghost_x == frame.ghost_x && f.ghost_y == frame.ghost_y && f.score == frame.score
                && f.lives == frame.lives && f.dots_left == frame.dots_left && f.game_over == frame.game_over
                && f.win == frame.win && f.map@ == frame.map@),
{
    let w = frame.wire();
    assert(w.subrange(0, 4) =~= le_bytes(frame.magic));
    assert(w.subrange(4, 8) =~= le_bytes(frame.tick));
    assert(w.subrange(8, 12) =~= le_bytes(frame.pac_x));
    assert(w.subrange(12, 16) =~= le_bytes(frame.pac_y));
    assert(w.subrange(16, 20) =~= le_bytes(frame.ghost_x));
    assert(w.subrange(20, 24) =~= le_bytes(frame.ghost_y));
    assert(w.subrange(24, 28) =~= le_bytes(frame.score));
    assert(w.subrange(28, 32) =~= le_bytes(frame.lives));
    assert(w.subrange(32, 36) =~= le_bytes(frame.dots_left));
    assert(w.subrange(36, 40) =~= le_bytes(frame.game_over));
    assert(w.subrange(40, 44) =~= le_bytes(frame.win));
    assert(w.subrange(44, 329) =~= frame.map@);
    lemma_le_roundtrip(frame.magic, w, 0);
    lemma_le_roundtrip(frame.tick, w, 4);
    lemma_le_roundtrip(frame.pac_x, w, 8);
    lemma_le_roundtrip(frame.pac_y, w, 12);
    lemma_le_roundtrip(frame.ghost_x, w, 16);
    lemma_le_roundtrip(frame.ghost_y, w, 20);
    lemma_le_roundtrip(frame.score, w, 24);
    lemma_le_roundtrip(frame.lives, w, 28);
    lemma_le_roundtrip(frame.dots_left, w, 32);
    lemma_le_roundtrip(frame.game_over, w, 36);
    lemma_le_roundtrip(frame.win, w, 40);
}

/// Draws `value` as three digits: hundreds, tens and ones, each modulo ten.
pub fn draw_number(
    fb: &mut Vec<u8>,
    width: usize,
    height: usize,
    value: usize,
    x: usize,
    y: usize,
    scale: usize,
    color: Color,
)
    requires
        screen_ok(width as int, height as int),
        x + 11 * scale <= usize::MAX,
        y + 5 * scale <= usize::MAX,
    ensures
        final(fb)@ == paint(old(fb)@, width as int, height as int,
            digits_region(value as int, 3, x as int, y as int, scale as int), color),
{
    let ghost f0 = fb@;
    let ghost v = value as int;
    draw_digit(fb, width, height, value / 100 % 10, x, y, scale, color);
    draw_digit(fb, width, height, value / 10 % 10, x + 4 * scale, y, scale, color);
    draw_digit(fb, width, height, value % 10, x + 8 * scale, y, scale, color);
    proof {
        let (w, h) = (width as int, height as int);
        let r1 = digit_region(v / 100 % 10, x as int, y as int, scale as int);
        let r2 = digit_region(v / 10 % 10, x + 4 * scale, y as int, scale as int);
        let r3 = digit_region(v % 10, x + 8 * scale, y as int, scale as int);
        lemma_paint_union(f0, w, h, r1, r2, color);
        lemma_paint_union(f0, w, h, union(r1, r2), r3, color);
        assert(v / 10 / 10 == v / 100) by {
            vstd::arithmetic::div_mod::lemma_div_denominator(v, 10, 10);
        }
        assert((v / 100 % 10) % 10 == (v / 100) % 10 && (v / 10 % 10) % 10 == (v / 10) % 10 && (v % 10) % 10 == v % 10) by {
            vstd::arithmetic::div_mod::lemma_mod_mod(v / 100, 10, 1);
            vstd::arithmetic::div_mod::lemma_mod_mod(v / 10, 10, 1);
            vstd::arithmetic::div_mod::lemma_mod_mod(v, 10, 1);
        }
        assert(r1 == digit_region(v / 10 / 10, x + 4 * scale * (3 - 3), y as int, scale as int));
        assert(r2 == digit_region(v / 10, x + 4 * scale * (3 - 2), y as int, scale as int));
        assert(r3 == digit_region(v, x + 4 * scale * (3 - 1), y as int, scale as int));
        reveal_with_fuel(digits_region, 4);
        lemma_paint_ext(f0, w, h, union(union(r1, r2), r3), digits_region(v, 3, x as int, y as int, scale as int), color);
    }
}

/// No pixels.
pub open spec fn nothing() -> Region {
    |px: int, py: int| false
}

/// Side of a maze tile in pixels: as large as fits a screen margin of 96 by
/// 72 pixels, and at least 12.
pub open spec fn tile_size(width: int, height: int) -> int {
    let fit_w = (width - 96) / (MAP_W as int);
    let fit_h = (height - 72) / (MAP_H as int);
    let t = if fit_w < fit_h { fit_w } else { fit_h };
    if t > 12 { t } else { 12 }
}

/// The maze fits the screen, pacman's and the ghost's cells lie where their
/// pixel coordinates fit an `isize`, and the screen is large enough for the
/// end-of-game bar when it shows.
pub open spec fn pacman_view_fits(width: int, height: int, f: PacmanFrame) -> bool {
    let t = tile_size(width, height);
    &&& width >= 96
    &&& height >= 72
    &&& MAP_W * t <= width
    &&& 2 * t * t <= isize::MAX
    &&& (f.pac_x + 1) * t + width <= isize::MAX
    &&& (f.pac_y + 1) * t + 54 <= isize::MAX
    &&& (f.ghost_x + 1) * t + width <= isize::MAX
    &&& (f.ghost_y + 1) * t + 54 <= isize::MAX
    &&& (f.win != 0 || f.game_over != 0) ==> width >= 260 && height >= 48
}

/// Whether the mouth is drawn at `tick`: on two ticks out of four.
pub open spec fn mouth_open(tick: u32) -> bool {
    (tick / 2) % 2 == 0
}

/// The layers of a pacman frame: background, score and lives, the maze
/// cell by cell (a wall block, a dot, or nothing), pacman with its mouth
/// open on two ticks out of four, the ghost's body and head, and the
/// winning or game-over bar.
pub open spec fn pacman_scene(width: int, height: int, f: PacmanFrame) -> Seq<(Region, Color)> {
    let t = tile_size(width, height);
    let bx = (width - t * 19) / 2;
    let by = 54int;
    let pcx = bx + f.pac_x * t + t / 2;
    let pcy = by + f.pac_y * t + t / 2;
    let gx = bx + f.ghost_x * t + 3;
    let gy = by + f.ghost_y * t + 3;
    seq![
        (rect(0, 0, width, height), bg()),
        (digits_region(f.score as int, 3, 36, 18, 5), text()),
        (digits_region(f.lives as int, 3, if width > 126 { width - 126 } else { 0 }, 18, 5), text()),
    ] + Seq::new(MAP_SIZE as nat, |k: int| {
        let px = bx + (k % 19) * t;
        let py = by + (k / 19) * t;
        if f.map@[k] == 1 {
            (rect(px + 2, py + 2, t - 4, t - 4), wall())
        } else if f.map@[k] == 2 {
            (disk(px + t / 2, py + t / 2, 3), dot())
        } else {
            (nothing(), bg())
        }
    }) + seq![(disk(pcx, pcy, t / 2 - 2), pac())]
    + (if mouth_open(f.tick) { seq![(rect(pcx, if pcy > 3 { pcy - 3 } else { 0 }, t / 2, 6), bg())] } else { Seq::empty() })
    + seq![
        (rect(gx, gy + t / 4, t - 6, t / 2), ghost_color()),
        (disk(gx + t / 2, gy + t / 3, t / 2 - 3), ghost_color()),
    ] + (if f.win != 0 { seq![(rect(width / 2 - 130, height / 2 - 24, 260, 48), win())] }
        else if f.game_over != 0 { seq![(rect(width / 2 - 130, height / 2 - 24, 260, 48), over())] }
        else { Seq::empty() })
}

/// Draws a pacman frame on a `width` by `height` screen.
#[verifier::rlimit(40)]
pub fn draw_frame(fb: &mut Vec<u8>, width: usize, height: usize, frame: &PacmanFrame)
    requires
        screen_ok(width as int, height as int),
        frame.map@.len() == MAP_SIZE,
        pacman_view_fits(width as int, height as int, *frame),
    ensures
        final(fb)@ == paint_layers(old(fb)@, width as int, height as int, pacman_scene(width as int, height as int, *frame)),
{
    let ghost base = fb@;
    let ghost (wi, hi) = (width as int, height as int);
    let ghost scene = pacman_scene(wi, hi, *frame);
    proof {
        assert(scene.subrange(0, 0) =~= Seq::<(Region, Color)>::empty());
        lemma_next_layer(base, wi, hi, scene, 0);
    }
    fill_rect(fb, width, height, 0, 0, width, height, bg());
    proof {
        lemma_next_layer(base, wi, hi, scene, 1);
    }
    draw_number(fb, width, height, frame.score as usize, 36, 18, 5, text());
    proof {
        lemma_next_layer(base, wi, hi, scene, 2);
    }
    draw_number(fb, width, height, frame.lives as usize, width.saturating_sub(126), 18, 5, text());

    let fit_w = (width - 96) / MAP_W;
    let fit_h = (height - 72) / MAP_H;
    let t0 = if fit_w < fit_h { fit_w } else { fit_h };
    let tile = if t0 > 12 { t0 } else { 12 };
    let board_w = tile * MAP_W;
    let board_x = (width - board_w) / 2;
    let board_y: usize = 54;
    proof {
        assert(tile == tile_size(wi, hi));
        assert(width * 72 <= width * height) by (nonlinear_arith)
            requires height >= 72;
        assert(height * 96 <= width * height) by (nonlinear_arith)
            requires width >= 96;
    }
    let mut y: usize = 0;
    while y < MAP_H
        invariant
            screen_ok(wi, hi),
            wi == width,
            hi == height,
            pacman_view_fits(wi, hi, *frame),
            frame.map@.len() == MAP_SIZE,
            scene == pacman_scene(wi, hi, *frame),
            tile == tile_size(wi, hi),
            board_w == tile * 19,
            board_x == (wi - board_w) / 2,
            board_y == 54,
            width * 72 <= usize::MAX,
            height * 96 <= usize::MAX,
            y <= MAP_H,
            fb@ == paint_layers(base, wi, hi, scene.subrange(0, 3 + (y * MAP_W) as int)),
        decreases MAP_H - y,
    {
        let mut x: usize = 0;
        while x < MAP_W
            invariant
                screen_ok(wi, hi),
                wi == width,
                hi == height,
                pacman_view_fits(wi, hi, *frame),
                frame.map@.len() == MAP_SIZE,
                scene == pacman_scene(wi, hi, *frame),
                tile == tile_size(wi, hi),
                board_w == tile * 19,
                board_x == (wi - board_w) / 2,
                board_y == 54,
                width * 72 <= usize::MAX,
                height * 96 <= usize::MAX,
                y < MAP_H,
                x <= MAP_W,
                fb@ == paint_layers(base, wi, hi, scene.subrange(0, 3 + (y * MAP_W + x) as int)),
            decreases MAP_W - x,
        {
            let k = y * MAP_W + x;
            proof {
                vstd::arithmetic::div_mod::lemma_fundamental_div_mod_converse(k as int, 19, y as int, x as int);
                assert(x * tile <= 19 * tile) by (nonlinear_arith)
                    requires x <= 19, tile >= 0;
                assert(y * tile <= 15 * tile) by (nonlinear_arith)
                    requires y <= 15, tile >= 0;
                assert(15 * tile <= width);
                lemma_next_layer(base, wi, hi, scene, 3 + k);
            }
            let px = board_x + x * tile;
            let py = board_y + y * tile;
            let cell = frame.map[k];
            if cell == 1 {
                fill_rect(fb, width, height, px + 2, py + 2, tile - 4, tile - 4, wall());
            } else if cell == 2 {
                draw_circle(fb, width, height, px + tile / 2, py + tile / 2, 3, dot());
            } else {
                proof {
                    lemma_paint_nothing(fb@, wi, hi, nothing(), bg());
                }
            }
            x += 1;
        }
        y += 1;
    }

    let ghost mut n = 3 + MAP_SIZE as int;
    proof {
        assert(frame.pac_x * tile + tile == (frame.pac_x + 1) * tile) by (nonlinear_arith);
        assert(frame.pac_y * tile + tile == (frame.pac_y + 1) * tile) by (nonlinear_arith);
        assert(frame.ghost_x * tile + tile == (frame.ghost_x + 1) * tile) by (nonlinear_arith);
        assert(frame.ghost_y * tile + tile == (frame.ghost_y + 1) * tile) by (nonlinear_arith);
        assert(0 <= frame.pac_x * tile && 0 <= frame.pac_y * tile && 0 <= frame.ghost_x * tile
            && 0 <= frame.ghost_y * tile) by (nonlinear_arith)
            requires tile >= 0;
        assert(2 * (tile / 2 - 2) * (tile / 2 - 2) <= 2 * tile * tile) by (nonlinear_arith)
            requires tile >= 12;
        assert(2 * (tile / 2 - 3) * (tile / 2 - 3) <= 2 * tile * tile) by (nonlinear_arith)
            requires tile >= 12;
        lemma_next_layer(base, wi, hi, scene, n);
    }
    let pac_cx = board_x + frame.pac_x as usize * tile + tile / 2;
    let pac_cy = board_y + frame.pac_y as usize * tile + tile / 2;
    draw_circle(fb, width, height, pac_cx, pac_cy, tile / 2 - 2, pac());
    proof {
        n = n + 1;
        let tk = frame.tick;
        assert(tk & 2 == 0 <==> (tk / 2) % 2 == 0) by (bit_vector);
    }
    if frame.tick & 2 == 0 {
        proof {
            lemma_next_layer(base, wi, hi, scene, n);
        }
        fill_rect(fb, width, height, pac_cx, pac_cy.saturating_sub(3), tile / 2, 6, bg());
        proof {
            n = n + 1;
        }
    }
    let ghost_x = board_x + frame.ghost_x as usize * tile + 3;
    let ghost_y = board_y + frame.ghost_y as usize * tile + 3;
    proof {
        lemma_next_layer(base, wi, hi, scene, n);
    }
    fill_rect(fb, width, height, ghost_x, ghost_y + tile / 4, tile - 6, tile / 2, ghost_color());
    proof {
        n = n + 1;
        lemma_next_layer(base, wi, hi, scene, n);
    }
    draw_circle(fb, width, height, ghost_x + tile / 2, ghost_y + tile / 3, tile / 2 - 3, ghost_color());
    proof {
        n = n + 1;
    }
    if frame.win != 0 {
        proof {
            lemma_next_layer(base, wi, hi, scene, n);
        }
        fill_rect(fb, width, height, width / 2 - 130, height / 2 - 24, 260, 48, win());
        proof {
            n = n + 1;
        }
    } else if frame.game_over != 0 {
        proof {
            lemma_next_layer(base, wi, hi, scene, n);
        }
        fill_rect(fb, width, height, width / 2 - 130, height / 2 - 24, 260, 48, over());
        proof {
            n = n + 1;
        }
    }
    proof {
        assert(n == scene.len());
        assert(scene.subrange(0, n) =~= scene);
    }
}

/// Whether a pacman frame can be drawn on a `width` by `height` screen.
pub fn view_fits(width: usize, height: usize, frame: &PacmanFrame) -> (ok: bool)
    ensures
        ok == (screen_ok(width as int, height as int) && pacman_view_fits(width as int, height as int, *frame)),
{
    if !crate::raster::screen_ok_check(width, height) || width < 96 || height < 72 {
        return false;
    }
    let fit_w = (width - 96) / MAP_W;
    let fit_h = (height - 72) / MAP_H;
    let t0 = if fit_w < fit_h { fit_w } else { fit_h };
    let tile = if t0 > 12 { t0 } else { 12 };
    proof {
        assert(tile == tile_size(width as int, height as int));
    }
    if tile > width / MAP_W {
        return false;
    }
    let t = tile as u128;
    let w = width as u128;
    let limit = isize::MAX as u128;
    proof {
        assert(w <= 0x4000_0000_0000_0000);
        assert(2 * t * t <= 2 * 0x4000_0000_0000_0000 * 0x4000_0000_0000_0000) by (nonlinear_arith)
            requires t <= w, w <= 0x4000_0000_0000_0000;
        assert((frame.pac_x + 1) * t <= 0x1_0000_0000 * 0x1_0000_0000_0000_0000) by (nonlinear_arith)
            requires frame.pac_x + 1 <= 0x1_0000_0000, t <= 0x1_0000_0000_0000_0000;
        assert((frame.pac_y + 1) * t <= 0x1_0000_0000 * 0x1_0000_0000_0000_0000) by (nonlinear_arith)
            requires frame.pac_y + 1 <= 0x1_0000_0000, t <= 0x1_0000_0000_0000_0000;
        assert((frame.ghost_x + 1) * t <= 0x1_0000_0000 * 0x1_0000_0000_0000_0000) by (nonlinear_arith)
            requires frame.ghost_x + 1 <= 0x1_0000_0000, t <= 0x1_0000_0000_0000_0000;
        assert((frame.ghost_y + 1) * t <= 0x1_0000_0000 * 0x1_0000_0000_0000_0000) by (nonlinear_arith)
            requires frame.ghost_y + 1 <= 0x1_0000_0000, t <= 0x1_0000_0000_0000_0000;
    }
    2 * t * t <= limit
        && (frame.pac_x as u128 + 1) * t + w <= limit
        && (frame.pac_y as u128 + 1) * t + 54 <= limit
        && (frame.ghost_x as u128 + 1) * t + w <= limit
        && (frame.ghost_y as u128 + 1) * t + 54 <= limit
        && ((frame.win == 0 && frame.game_over == 0) || (width >= 260 && height >= 48))
}

} // verus!
