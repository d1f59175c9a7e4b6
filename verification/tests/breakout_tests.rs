use tg_rcore_graphics::breakout::{
    bricks_clear, clamp_i32, Command, Game, BREAKOUT_FRAME_SIZE, BRICK_COUNT, SAVED_TICKS, SAVE_DATA_SIZE,
};
use tg_rcore_graphics::breakout_screen::{
    ball, brick_color, demo_values_ok, draw_frame, looks_like_breakout_frame, paddle, parse_breakout_frame,
    scripted_demo_frame, scripted_demo_step, terminal_frame, view_fits,
};
use tg_rcore_graphics::color::Color;

fn pixel(fb: &[u8], width: usize, x: usize, y: usize) -> [u8; 4] {
    let i = (y * width + x) * 4;
    [fb[i], fb[i + 1], fb[i + 2], fb[i + 3]]
}

fn bgra(c: Color) -> [u8; 4] {
    [c.b, c.g, c.r, 255]
}

#[test]
fn new_game_has_a_full_wall_and_three_lives() {
    let g = Game::new();
    assert_eq!((g.paddle_x, g.ball_x, g.ball_y, g.vx, g.vy), (225, 268, 224, 5, -5));
    assert_eq!(g.bricks, vec![1u8; BRICK_COUNT]);
    assert_eq!((g.score, g.lives, g.level, g.saved_ticks, g.game_over), (0, 3, 1, 0, false));
}

#[test]
fn keys_move_the_paddle_within_the_field_and_give_commands() {
    let mut g = Game::new();
    assert_eq!(g.handle_key(b'a'), Command::Continue);
    assert_eq!(g.paddle_x, 203);
    assert_eq!(g.handle_key(b'D'), Command::Continue);
    assert_eq!(g.paddle_x, 225);
    g.paddle_x = 5;
    g.handle_key(b'a');
    assert_eq!(g.paddle_x, 0);
    g.paddle_x = 440;
    g.handle_key(b'd');
    assert_eq!(g.paddle_x, 450);
    assert_eq!(g.handle_key(b's'), Command::Save);
    assert_eq!(g.handle_key(b'R'), Command::Load);
    assert_eq!(g.handle_key(b'q'), Command::Quit);
    assert_eq!(g.handle_key(b'x'), Command::Continue);
}

#[test]
fn space_restarts_only_a_finished_game() {
    let mut g = Game::new();
    g.score = 50;
    g.handle_key(b' ');
    assert_eq!(g.score, 50);
    g.game_over = true;
    g.lives = 0;
    g.handle_key(b' ');
    assert_eq!((g.score, g.lives, g.level, g.game_over), (0, 3, 1, false));
}

#[test]
fn breakout_tick_moves_the_ball() {
    let mut g = Game::new();
    g.saved_ticks = 2;
    g.tick();
    assert_eq!((g.ball_x, g.ball_y, g.vx, g.vy), (273, 219, 5, -5));
    assert_eq!((g.score, g.saved_ticks), (0, 1));
}

#[test]
fn tick_breaks_the_first_brick_touched() {
    let mut g = Game::new();
    g.ball_x = 30;
    g.ball_y = 45;
    g.vx = 0;
    g.vy = -5;
    g.tick();
    assert_eq!(g.bricks[0], 0);
    assert_eq!(g.bricks.iter().filter(|b| **b == 0).count(), 1);
    assert_eq!(g.score, 10);
    assert_eq!((g.ball_x, g.ball_y, g.vx, g.vy), (30, 40, 0, 5));
}

#[test]
fn last_brick_brings_a_new_level() {
    let mut g = Game::new();
    g.bricks = vec![0u8; BRICK_COUNT];
    g.bricks[0] = 1;
    g.ball_x = 30;
    g.ball_y = 45;
    g.vx = 0;
    g.vy = -5;
    g.tick();
    assert_eq!(g.bricks, vec![1u8; BRICK_COUNT]);
    assert_eq!((g.level, g.score), (2, 10));
    assert_eq!((g.paddle_x, g.ball_x, g.ball_y, g.vx, g.vy), (225, 268, 224, 6, -6));
}

#[test]
fn paddle_sends_the_ball_back_up() {
    let mut g = Game::new();
    g.ball_x = 260;
    g.ball_y = 236;
    g.vx = 0;
    g.vy = 5;
    g.tick();
    assert_eq!((g.ball_x, g.ball_y, g.vx, g.vy), (260, 241, 3, -5));
}

#[test]
fn falling_ball_costs_a_life_and_the_last_one_ends_the_game() {
    let mut g = Game::new();
    g.ball_x = 100;
    g.ball_y = 290;
    g.vx = 0;
    g.vy = 5;
    g.tick();
    assert_eq!(g.lives, 2);
    assert!(!g.game_over);
    assert_eq!((g.paddle_x, g.ball_x, g.ball_y, g.vx, g.vy), (225, 268, 224, 5, -5));
    g.lives = 1;
    g.ball_y = 290;
    g.vy = 5;
    g.tick();
    assert_eq!(g.lives, 0);
    assert!(g.game_over);
    let frozen = (g.ball_x, g.ball_y);
    g.tick();
    assert_eq!((g.ball_x, g.ball_y), frozen);
}

#[test]
fn can_tick_checks_for_overflow_on_the_path_taken() {
    let mut g = Game::new();
    assert!(g.can_tick());
    g.score = u32::MAX - 5;
    assert!(g.can_tick());
    g.ball_x = 30;
    g.ball_y = 45;
    g.vx = 0;
    g.vy = -5;
    assert!(!g.can_tick());
    let mut far = Game::new();
    far.ball_x = i32::MAX;
    far.vx = 1;
    assert!(!far.can_tick());
    far.vx = -1;
    assert!(!far.can_tick());
    far.ball_x = i32::MAX - 20;
    assert!(far.can_tick());
    let mut high = Game::new();
    high.level = i32::MAX as u32;
    high.ball_y = 290;
    high.vy = 5;
    high.vx = 0;
    assert!(!high.can_tick());
    high.lives = 1;
    assert!(high.can_tick());
    let mut short = Game::new();
    short.bricks.pop();
    assert!(!short.can_tick());
    short.game_over = true;
    assert!(!short.can_tick());
    let mut over = Game::new();
    over.game_over = true;
    over.ball_x = i32::MAX;
    assert!(over.can_tick());
}

#[test]
fn far_ball_is_brought_back_to_the_wall() {
    let mut g = Game::new();
    g.ball_x = 100_000_000;
    g.vx = 7;
    assert!(g.can_tick());
    g.tick();
    assert_eq!((g.ball_x, g.vx), (524, -7));
}

#[test]
fn save_then_restore_brings_the_game_back() {
    let mut g = Game::new();
    g.paddle_x = 100;
    g.ball_x = -3;
    g.ball_y = 77;
    g.vx = -6;
    g.vy = 4;
    g.bricks[7] = 0;
    g.score = 120;
    g.lives = 2;
    g.level = 3;
    let data = g.save_data();
    assert_eq!(data.len(), SAVE_DATA_SIZE);
    let mut h = Game::new();
    h.game_over = true;
    assert!(h.restore(&data));
    assert_eq!((h.paddle_x, h.ball_x, h.ball_y, h.vx, h.vy), (100, -3, 77, -6, 4));
    assert_eq!(h.bricks, g.bricks);
    assert_eq!((h.score, h.lives, h.level), (120, 2, 3));
    assert!(!h.game_over);
    assert_eq!(h.saved_ticks, SAVED_TICKS);
}

#[test]
fn restore_refuses_other_data() {
    let mut g = Game::new();
    let data = g.save_data();
    assert!(!g.restore(&data[..SAVE_DATA_SIZE - 1]));
    let mut bad = data.clone();
    bad[0] = 0;
    assert!(!g.restore(&bad));
    assert_eq!(g.score, 0);
    assert_eq!(g.saved_ticks, 0);
}

#[test]
fn restore_raises_level_zero_to_one_and_keeps_the_saved_paddle() {
    let mut g = Game::new();
    g.level = 0;
    g.paddle_x = 500;
    let data = g.save_data();
    let mut h = Game::new();
    assert!(h.restore(&data));
    assert_eq!(h.level, 1);
    assert_eq!(h.paddle_x, 500);
    h.clamp_paddle();
    assert_eq!(h.paddle_x, 450);
}

#[test]
fn failed_restore_changes_nothing() {
    let mut g = Game::new();
    g.paddle_x = 500;
    g.score = 30;
    assert!(!g.restore(&[0u8; 10]));
    assert_eq!((g.paddle_x, g.score, g.level, g.lives), (500, 30, 1, 3));
}

#[test]
fn save_and_load_keys_change_nothing_themselves() {
    let mut g = Game::new();
    g.paddle_x = 500;
    assert_eq!(g.handle_key(b's'), Command::Save);
    assert_eq!(g.paddle_x, 500);
    assert_eq!(g.handle_key(b'r'), Command::Load);
    assert_eq!(g.paddle_x, 500);
    assert_eq!(g.handle_key(b'q'), Command::Quit);
    assert_eq!(g.paddle_x, 500);
    assert_eq!(g.handle_key(b'x'), Command::Continue);
    assert_eq!(g.paddle_x, 450);
}

#[test]
fn helpers_clamp_and_detect_a_clear_wall() {
    assert_eq!(clamp_i32(-4, 0, 10), 0);
    assert_eq!(clamp_i32(14, 0, 10), 10);
    assert_eq!(clamp_i32(4, 0, 10), 4);
    assert!(bricks_clear(&vec![0u8; BRICK_COUNT]));
    let mut one = vec![0u8; BRICK_COUNT];
    one[59] = 2;
    assert!(!bricks_clear(&one));
}

#[test]
fn breakout_frame_record_round_trips() {
    let mut g = Game::new();
    g.saved_ticks = 3;
    g.bricks[12] = 0;
    let bytes = g.frame_bytes();
    assert_eq!(bytes.len(), BREAKOUT_FRAME_SIZE);
    assert!(looks_like_breakout_frame(&bytes));
    let f = parse_breakout_frame(&bytes).unwrap();
    assert_eq!((f.width, f.height, f.paddle_x, f.ball_x, f.ball_y), (536, 288, 225, 268, 224));
    assert_eq!(f.bricks, g.bricks);
    assert_eq!((f.score, f.lives, f.level, f.saved, f.game_over), (0, 3, 1, 1, 0));
    assert!(!looks_like_breakout_frame(&bytes[..BREAKOUT_FRAME_SIZE - 1]));
    assert!(parse_breakout_frame(&bytes[..BREAKOUT_FRAME_SIZE - 1]).is_none());
}

#[test]
fn draw_frame_places_bricks_paddle_and_ball() {
    let g = Game::new();
    let f = parse_breakout_frame(&g.frame_bytes()).unwrap();
    let (w, h) = (800usize, 600usize);
    assert!(view_fits(w, h, &f));
    let mut fb = vec![0u8; w * h * 4];
    draw_frame(&mut fb, w, h, &f);
    assert_eq!(pixel(&fb, w, 80, 75), bgra(brick_color(0)));
    assert_eq!(pixel(&fb, w, 280, 548), bgra(paddle()));
    assert_eq!(pixel(&fb, w, 325, 275), bgra(ball()));
    assert!(!view_fits(10, 600, &f));
}

#[test]
fn scripted_demo_first_step() {
    let mut f = scripted_demo_frame();
    let (mut vx, mut vy) = (5, -5);
    assert!(demo_values_ok(&f, vx, vy));
    scripted_demo_step(&mut f, &mut vx, &mut vy, 0);
    assert_eq!((f.paddle_x, f.ball_x, f.ball_y, vx, vy), (220, 265, 215, 5, -5));
    assert_eq!((f.bricks[0], f.score, f.saved), (0, 10, 0));
    scripted_demo_step(&mut f, &mut vx, &mut vy, 51);
    assert_eq!(f.saved, 1);
    assert_eq!(f.score, 10);
    assert!(!demo_values_ok(&f, 4, vy));
}

#[test]
fn terminal_frame_draws_the_field_in_text() {
    let f = scripted_demo_frame();
    let text = String::from_utf8(terminal_frame(&f)).unwrap();
    let head = "\x1b[2J\x1b[Hch6 breakout demo | A/D move | S save | R restore | Space restart | Q quit\r\nscore: 0  lives: 3  level: 1\r\n+------------------------------+\r\n";
    assert!(text.starts_with(head));
    let rows: Vec<&str> = text[head.len()..].split("\r\n").collect();
    assert_eq!(rows[0], format!("|{}|", "#".repeat(30)));
    assert_eq!(rows[6], format!("|{}|", " ".repeat(30)));
    assert_eq!(rows[12], format!("|{}O{}|", " ".repeat(14), " ".repeat(15)));
    assert_eq!(rows[14], format!("|{}===={}|", " ".repeat(10), " ".repeat(16)));
    assert_eq!(rows[16], "+------------------------------+");
    assert!(!text.contains("GAME OVER"));
}
