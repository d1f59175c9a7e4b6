use tg_rcore_graphics::color::Color;
use tg_rcore_graphics::raster::{clear, draw_circle, draw_digit, fill_rect, put_pixel, screen_fits_check, screen_ok_check};
use tg_rcore_graphics::tangram::{
    contains, draw_piece, draw_polygon, edge, piece, quad, triangle, Canvas, FramebufferCanvas, PolyPoint, Polygon, PIECE_COUNT,
};

fn pixel(fb: &[u8], width: usize, x: usize, y: usize) -> [u8; 4] {
    let i = (y * width + x) * 4;
    [fb[i], fb[i + 1], fb[i + 2], fb[i + 3]]
}

#[test]
fn put_pixel_writes_bgra() {
    let mut fb = vec![0u8; 4 * 4 * 3];
    put_pixel(&mut fb, 4, 3, 2, 1, Color { r: 10, g: 20, b: 30 });
    assert_eq!(pixel(&fb, 4, 2, 1), [30, 20, 10, 255]);
    assert_eq!(fb.iter().filter(|b| **b != 0).count(), 4);
}

#[test]
fn put_pixel_clips_off_screen_and_past_buffer() {
    let mut fb = vec![0u8; 4 * 4 * 3];
    put_pixel(&mut fb, 4, 3, 4, 0, Color { r: 1, g: 1, b: 1 });
    put_pixel(&mut fb, 4, 3, 0, 3, Color { r: 1, g: 1, b: 1 });
    assert!(fb.iter().all(|b| *b == 0));
    let mut short = vec![0u8; 10];
    put_pixel(&mut short, 4, 3, 3, 0, Color { r: 1, g: 1, b: 1 });
    assert!(short.iter().all(|b| *b == 0));
}

#[test]
fn fill_rect_is_clipped_to_screen() {
    let mut fb = vec![0u8; 5 * 5 * 4];
    fill_rect(&mut fb, 5, 5, 3, 3, 10, 10, Color { r: 9, g: 8, b: 7 });
    let painted = (0..25).filter(|p| fb[p * 4 + 3] == 255).count();
    assert_eq!(painted, 4);
    assert_eq!(pixel(&fb, 5, 4, 4), [7, 8, 9, 255]);
    assert_eq!(pixel(&fb, 5, 2, 4), [0, 0, 0, 0]);
}

#[test]
fn draw_digit_one_lights_its_glyph() {
    let mut fb = vec![0u8; 3 * 5 * 4];
    draw_digit(&mut fb, 3, 5, 11, 0, 0, 1, Color { r: 255, g: 255, b: 255 });
    let lit: Vec<u8> = (0..15).map(|p| if fb[p * 4] == 255 { 1 } else { 0 }).collect();
    assert_eq!(lit, vec![0, 1, 0, 1, 1, 0, 0, 1, 0, 0, 1, 0, 1, 1, 1]);
}

#[test]
fn draw_circle_paints_a_disk() {
    let mut fb = vec![0u8; 7 * 7 * 4];
    draw_circle(&mut fb, 7, 7, 3, 3, 2, Color { r: 1, g: 2, b: 3 });
    let painted = (0..49).filter(|p| fb[p * 4 + 3] == 255).count();
    assert_eq!(painted, 13);
    assert_eq!(pixel(&fb, 7, 1, 1), [0, 0, 0, 0]);
    assert_eq!(pixel(&fb, 7, 3, 1), [3, 2, 1, 255]);
}

#[test]
fn clear_zeroes_everything() {
    let mut fb = vec![7u8; 12];
    clear(&mut fb);
    assert!(fb.iter().all(|b| *b == 0));
}

#[test]
fn bgra_packs_little_endian_bytes_of_a_pixel() {
    let c = Color { r: 0x12, g: 0x34, b: 0x56 };
    assert_eq!(c.bgra(), 0xff12_3456);
    assert_eq!(c.bgra().to_le_bytes(), [0x56, 0x34, 0x12, 0xff]);
}

#[test]
fn screen_checks() {
    assert!(screen_fits_check(640, 480));
    assert!(!screen_fits_check(usize::MAX, 2));
    assert!(screen_ok_check(640, 480));
    assert!(!screen_ok_check(usize::MAX / 2, 0));
}

#[test]
fn edge_and_contains() {
    let a = PolyPoint { x: 0, y: 0 };
    let b = PolyPoint { x: 10, y: 0 };
    assert_eq!(edge(a, b, PolyPoint { x: 3, y: 5 }), -50);
    let tri = triangle((0, 0), (10, 0), (0, 10), Color { r: 1, g: 1, b: 1 });
    assert!(contains(&tri, PolyPoint { x: 2, y: 2 }));
    assert!(contains(&tri, PolyPoint { x: 0, y: 0 }));
    assert!(!contains(&tri, PolyPoint { x: 9, y: 9 }));
    let q = quad((0, 0), (4, 0), (4, 4), (0, 4), Color { r: 1, g: 1, b: 1 });
    assert_eq!(q.len, 4);
    assert!(contains(&q, PolyPoint { x: 4, y: 4 }));
}

#[test]
fn tangram_pieces() {
    let p = piece(0);
    assert_eq!(p.len, 3);
    assert_eq!((p.points[1].x, p.points[1].y), (150, 60));
    assert_eq!((p.color.r, p.color.g, p.color.b), (220, 15, 10));
    let last = piece(99);
    assert_eq!((last.points[0].x, last.points[0].y), (545, 350));
    assert_eq!(PIECE_COUNT, 15);
}

#[test]
fn tangram_piece_fills_inside_only() {
    let (w, h) = (640usize, 480usize);
    let mut canvas = FramebufferCanvas::new(vec![0u8; w * h * 4], w, h);
    draw_piece(&mut canvas, 0);
    let inside = pixel(&canvas.framebuffer, w, 60, 70);
    assert_eq!(inside, [10, 15, 220, 255]);
    let outside = pixel(&canvas.framebuffer, w, 140, 150);
    assert_eq!(outside, [0, 0, 0, 0]);
    canvas.put_pixel(0, 0, Color { r: 1, g: 2, b: 3 });
    assert_eq!(pixel(&canvas.framebuffer, w, 0, 0), [3, 2, 1, 255]);
}

#[test]
fn painting_twice_is_painting_once() {
    let c = Color { r: 4, g: 5, b: 6 };
    let mut once = vec![9u8; 6 * 4 * 4];
    fill_rect(&mut once, 6, 4, 1, 1, 3, 2, c);
    let mut twice = once.clone();
    fill_rect(&mut twice, 6, 4, 1, 1, 3, 2, c);
    assert_eq!(once, twice);
}

#[test]
fn later_layer_wins_where_layers_overlap() {
    let a = Color { r: 10, g: 0, b: 0 };
    let b = Color { r: 0, g: 0, b: 20 };
    let mut fb = vec![0u8; 6 * 6 * 4];
    fill_rect(&mut fb, 6, 6, 0, 0, 4, 4, a);
    fill_rect(&mut fb, 6, 6, 2, 2, 4, 4, b);
    assert_eq!(pixel(&fb, 6, 3, 3), [20, 0, 0, 255]);
    assert_eq!(pixel(&fb, 6, 1, 1), [0, 0, 10, 255]);
    assert_eq!(pixel(&fb, 6, 5, 0), [0, 0, 0, 0]);
}

#[test]
fn polygon_without_vertices_paints_its_first_slot() {
    let c = Color { r: 1, g: 2, b: 3 };
    let zero = PolyPoint { x: 0, y: 0 };
    let poly = Polygon { points: [PolyPoint { x: 2, y: 1 }, zero, zero, zero], len: 0, color: c };
    let mut canvas = FramebufferCanvas::new(vec![0u8; 4 * 3 * 4], 4, 3);
    draw_polygon(&mut canvas, poly);
    let fb = &canvas.framebuffer;
    assert_eq!(pixel(fb, 4, 2, 1), [3, 2, 1, 255]);
    assert_eq!((0..12).filter(|p| fb[p * 4 + 3] == 255).count(), 1);
}

#[test]
fn digit_is_drawn_as_its_last_decimal_digit() {
    let c = Color { r: 9, g: 9, b: 9 };
    let mut a = vec![0u8; 8 * 8 * 4];
    let mut b = a.clone();
    draw_digit(&mut a, 8, 8, 47, 1, 1, 1, c);
    draw_digit(&mut b, 8, 8, 7, 1, 1, 1, c);
    assert_eq!(a, b);
}

#[test]
fn packed_word_write_equals_a_pixel_write() {
    let c = Color { r: 0x10, g: 0x20, b: 0x30 };
    let mut a = vec![5u8; 3 * 2 * 4];
    let mut b = a.clone();
    put_pixel(&mut a, 3, 2, 1, 1, c);
    let k = (1 * 3 + 1) * 4;
    b[k..k + 4].copy_from_slice(&c.bgra().to_le_bytes());
    assert_eq!(a, b);
}

#[test]
fn containment_ignores_vertex_order_and_start() {
    let c = Color { r: 1, g: 1, b: 1 };
    let forward = quad((0, 0), (10, 0), (10, 6), (0, 6), c);
    let backward = quad((0, 6), (10, 6), (10, 0), (0, 0), c);
    let rotated = quad((10, 6), (0, 6), (0, 0), (10, 0), c);
    for (x, y) in [(5, 3), (0, 0), (10, 6), (11, 3), (-1, 2), (4, 7)] {
        let p = PolyPoint { x, y };
        let inside = contains(&forward, p);
        assert_eq!(contains(&backward, p), inside);
        assert_eq!(contains(&rotated, p), inside);
        assert_eq!(inside, (0..=10).contains(&x) && (0..=6).contains(&y));
    }
}
