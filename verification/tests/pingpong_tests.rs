use tg_rcore_graphics::color::Color;
use tg_rcore_graphics::pingpong::{clamp_paddle, reset_ball, Pingpong, PINGPONG_FRAME_SIZE};
use tg_rcore_graphics::pingpong_screen::{ball, clamp_to_screen, draw_frame, left, parse_pingpong_frame, warn};

fn pixel(fb: &[u8], width: usize, x: usize, y: usize) -> [u8; 4] {
    let i = (y * width + x) * 4;
    [fb[i], fb[i + 1], fb[i + 2], fb[i + 3]]
}

fn bgra(c: Color) -> [u8; 4] {
    [c.b, c.g, c.r, 255]
}

#[test]
fn new_game_centers_paddles_and_serves_right() {
    let g = Pingpong::new();
    assert_eq!((g.left_y, g.right_y), (156, 156));
    assert_eq!((g.ball_x, g.ball_y, g.vx, g.vy), (340, 195, 7, 5));
    assert_eq!((g.left_score, g.right_score, g.speed), (0, 0, 1));
}

#[test]
fn serve_direction_follows_score_parity() {
    assert_eq!(reset_ball(0, 0), (340, 195, 7, 5));
    assert_eq!(reset_ball(1, 0), (340, 195, -7, 5));
    assert_eq!(reset_ball(2, 3), (340, 195, -7, 5));
    assert_eq!(reset_ball(2, 2), (340, 195, 7, 5));
}

#[test]
fn paddles_stay_in_the_court() {
    assert_eq!(clamp_paddle(-5), 0);
    assert_eq!(clamp_paddle(100), 100);
    assert_eq!(clamp_paddle(400), 312);
    let mut g = Pingpong::new();
    assert!(!g.key(b'w'));
    assert_eq!(g.left_y, 138);
    assert!(!g.key(b'k'));
    assert_eq!(g.right_y, 174);
    g.left_y = 10;
    g.key(b'W');
    assert_eq!(g.left_y, 0);
    g.right_y = 300;
    g.key(b'K');
    assert_eq!(g.right_y, 312);
    assert!(g.key(b'q'));
    assert!(g.key(b'Q'));
}

#[test]
fn pingpong_tick_moves_the_ball() {
    let mut g = Pingpong::new();
    g.tick();
    assert_eq!((g.ball_x, g.ball_y, g.vx, g.vy), (347, 200, 7, 5));
    assert_eq!(g.speed, 1);
}

#[test]
fn tick_bounces_off_the_top() {
    let mut g = Pingpong::new();
    g.ball_y = 2;
    g.vy = -5;
    g.tick();
    assert_eq!((g.ball_y, g.vy), (0, 5));
}

#[test]
fn left_paddle_returns_the_ball_faster() {
    let mut g = Pingpong::new();
    g.ball_x = 30;
    g.ball_y = 160;
    g.vx = -7;
    g.tick();
    assert_eq!((g.ball_x, g.vx, g.speed), (23, 8, 2));
}

#[test]
fn ball_past_the_left_edge_scores_for_the_right() {
    let mut g = Pingpong::new();
    g.ball_x = -10;
    g.vx = -7;
    g.speed = 5;
    g.tick();
    assert_eq!((g.left_score, g.right_score, g.speed), (0, 1, 1));
    assert_eq!((g.ball_x, g.ball_y, g.vx, g.vy), (340, 195, -7, 5));
}

#[test]
fn pingpong_frame_record_round_trips() {
    let mut g = Pingpong::new();
    g.left_score = 3;
    g.ball_x = -4;
    let bytes = g.frame_bytes(true);
    assert_eq!(bytes.len(), PINGPONG_FRAME_SIZE);
    let f = parse_pingpong_frame(&bytes).unwrap();
    assert_eq!((f.width, f.height), (680, 390));
    assert_eq!((f.left_y, f.right_y, f.ball_x, f.ball_y), (156, 156, -4, 195));
    assert_eq!((f.left_score, f.right_score, f.speed, f.game_over), (3, 0, 1, 1));
    assert!(parse_pingpong_frame(&bytes[..PINGPONG_FRAME_SIZE - 1]).is_none());
    let mut bad = bytes.clone();
    bad[3] = 0;
    assert!(parse_pingpong_frame(&bad).is_none());
}

#[test]
fn clamp_to_screen_limits_coordinates() {
    assert_eq!(clamp_to_screen(-3, 10), 0);
    assert_eq!(clamp_to_screen(4, 10), 4);
    assert_eq!(clamp_to_screen(40, 10), 10);
}

#[test]
fn draw_frame_places_paddle_ball_and_banner() {
    let g = Pingpong::new();
    let f = parse_pingpong_frame(&g.frame_bytes(true)).unwrap();
    let (w, h) = (800usize, 600usize);
    let mut fb = vec![0u8; w * h * 4];
    draw_frame(&mut fb, w, h, &f);
    assert_eq!(pixel(&fb, w, 80, 200), bgra(left()));
    assert_eq!(pixel(&fb, w, 405, 240), bgra(ball()));
    assert_eq!(pixel(&fb, w, 290, 280), bgra(warn()));
}
