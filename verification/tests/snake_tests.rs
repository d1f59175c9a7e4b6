use tg_rcore_graphics::snake::{next_food, Point, Snake, MAX_SNAKE, SNAKE_FRAME_SIZE};
use tg_rcore_graphics::snake_screen::{draw_frame, food_color, head_color, parse_snake_frame, view_fits, wall};

fn pixel(fb: &[u8], width: usize, x: usize, y: usize) -> [u8; 4] {
    let i = (y * width + x) * 4;
    [fb[i], fb[i + 1], fb[i + 2], fb[i + 3]]
}

#[test]
fn new_snake_heads_right_with_four_cells() {
    let s = Snake::new();
    assert_eq!(s.len, 4);
    assert_eq!(&s.body[..4], &[Point::new(6, 4), Point::new(5, 4), Point::new(4, 4), Point::new(3, 4)]);
    assert_eq!((s.dx, s.dy), (1, 0));
    assert_eq!(s.food, Point::new(14, 6));
    assert_eq!(s.score, 0);
    assert_eq!(s.body.len(), MAX_SNAKE);
}

#[test]
fn steer_turns_only_across_the_current_direction() {
    let mut s = Snake::new();
    s.steer(b'a');
    assert_eq!((s.dx, s.dy), (1, 0));
    s.steer(b'W');
    assert_eq!((s.dx, s.dy), (0, -1));
    s.steer(b's');
    assert_eq!((s.dx, s.dy), (0, -1));
    s.steer(b'a');
    assert_eq!((s.dx, s.dy), (-1, 0));
    s.steer(b'x');
    assert_eq!((s.dx, s.dy), (-1, 0));
}

#[test]
fn scripted_steer_turns_at_fixed_frames() {
    let mut s = Snake::new();
    s.scripted_steer(19);
    assert_eq!((s.dx, s.dy), (1, 0));
    s.scripted_steer(20);
    assert_eq!((s.dx, s.dy), (0, 1));
    s.scripted_steer(45);
    assert_eq!((s.dx, s.dy), (1, 0));
    s.scripted_steer(70);
    assert_eq!((s.dx, s.dy), (0, -1));
}

#[test]
fn advance_moves_the_body_one_cell() {
    let mut s = Snake::new();
    s.advance();
    assert_eq!(s.len, 4);
    assert_eq!(&s.body[..4], &[Point::new(7, 4), Point::new(6, 4), Point::new(5, 4), Point::new(4, 4)]);
    assert_eq!(s.score, 0);
}

#[test]
fn advance_wraps_around_the_board() {
    let mut s = Snake::new();
    s.body[0] = Point::new(23, 4);
    s.advance();
    assert_eq!(s.body[0], Point::new(0, 4));
    let mut up = Snake::new();
    up.steer(b'w');
    up.body[0] = Point::new(6, 0);
    up.advance();
    assert_eq!(up.body[0], Point::new(6, 11));
}

#[test]
fn eating_food_grows_scores_and_moves_food() {
    let mut s = Snake::new();
    s.food = Point::new(7, 4);
    s.advance();
    assert_eq!(s.len, 5);
    assert_eq!(s.score, 1);
    assert_eq!(&s.body[..5], &[Point::new(7, 4), Point::new(6, 4), Point::new(5, 4), Point::new(4, 4), Point::new(3, 4)]);
    assert_eq!(s.food, Point::new(6, 11));
}

#[test]
fn next_food_scrambles_and_wraps() {
    assert_eq!(next_food(Point::new(14, 6)), Point::new(7, 9));
    assert_eq!(next_food(Point::new(0, 0)), Point::new(5, 3));
    assert_eq!(next_food(Point::new(23, 11)), Point::new(22, 10));
}

#[test]
fn check_bite_resets_length() {
    let mut s = Snake::new();
    assert!(!s.check_bite());
    assert_eq!(s.len, 4);
    s.len = 6;
    s.body[4] = Point::new(3, 5);
    s.body[5] = Point::new(6, 4);
    assert!(s.check_bite());
    assert_eq!(s.len, 4);
}

#[test]
fn cell_char_marks_food_head_and_body() {
    let s = Snake::new();
    assert_eq!(s.cell_char(14, 6), b'*');
    assert_eq!(s.cell_char(6, 4), b'@');
    assert_eq!(s.cell_char(4, 4), b'o');
    assert_eq!(s.cell_char(0, 0), b' ');
}

#[test]
fn screen_text_has_header_and_board() {
    let s = Snake::new();
    let text = s.screen_text(3);
    let expected_head = b"\x1b[2J\x1b[Hch3 snake demo | wasd control | score 0 | frame 3/90\n";
    assert_eq!(&text[..expected_head.len()], &expected_head[..]);
    let rest = &text[expected_head.len()..];
    let border = format!("+{}+\n", "-".repeat(24));
    assert!(rest.starts_with(border.as_bytes()));
    assert!(rest.ends_with(border.as_bytes()));
    assert_eq!(rest.len(), 14 * 27);
    let row4 = &rest[27 * 5..27 * 6];
    let expected_row = format!("|   ooo@{}|\n", " ".repeat(17));
    assert_eq!(row4, expected_row.as_bytes());
}

#[test]
fn frame_bytes_round_trip_through_the_parser() {
    let mut s = Snake::new();
    s.score = 7;
    let bytes = s.frame_bytes();
    assert_eq!(bytes.len(), SNAKE_FRAME_SIZE);
    assert_eq!(&bytes[0..4], &[0x33, 0x4B, 0x4E, 0x53]);
    let f = parse_snake_frame(&bytes).unwrap();
    assert_eq!((f.width, f.height, f.len, f.score), (24, 12, 4, 7));
    assert_eq!((f.food.x, f.food.y), (14, 6));
    assert_eq!((f.snake[0].x, f.snake[0].y), (6, 4));
    assert_eq!((f.snake[3].x, f.snake[3].y), (3, 4));
    assert_eq!((f.snake[4].x, f.snake[4].y), (0, 0));
}

#[test]
fn parse_rejects_short_or_untagged_records() {
    let s = Snake::new();
    let bytes = s.frame_bytes();
    assert!(parse_snake_frame(&bytes[..SNAKE_FRAME_SIZE - 1]).is_none());
    let mut bad = bytes.clone();
    bad[0] ^= 1;
    assert!(parse_snake_frame(&bad).is_none());
}

#[test]
fn draw_frame_places_head_food_and_wall() {
    let s = Snake::new();
    let f = parse_snake_frame(&s.frame_bytes()).unwrap();
    let (w, h) = (640usize, 480usize);
    assert!(view_fits(w, h, &f));
    let mut fb = vec![0u8; w * h * 4];
    draw_frame(&mut fb, w, h, &f);
    let c = head_color();
    assert_eq!(pixel(&fb, w, 190, 170), [c.b, c.g, c.r, 255]);
    let c = food_color();
    assert_eq!(pixel(&fb, w, 375, 215), [c.b, c.g, c.r, 255]);
    let c = wall();
    assert_eq!(pixel(&fb, w, 40, 66), [c.b, c.g, c.r, 255]);
}
