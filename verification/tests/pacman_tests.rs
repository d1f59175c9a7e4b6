use tg_rcore_graphics::color::Color;
use tg_rcore_graphics::pacman::{signum_isize, Game, Pos, DOT, MAP_SIZE, PACMAN_FRAME_SIZE, WALL};
use tg_rcore_graphics::pacman_screen::{bg, dot, draw_frame, ghost_color, over, pac, parse_pacman_frame, view_fits, wall};

fn pixel(fb: &[u8], width: usize, x: usize, y: usize) -> [u8; 4] {
    let i = (y * width + x) * 4;
    [fb[i], fb[i + 1], fb[i + 2], fb[i + 3]]
}

fn bgra(c: Color) -> [u8; 4] {
    [c.b, c.g, c.r, 255]
}

#[test]
fn new_game_loads_the_maze() {
    let g = Game::new();
    assert_eq!(g.map.len(), MAP_SIZE);
    assert_eq!(g.map[0], WALL);
    assert_eq!(g.map[20], DOT);
    assert_eq!(g.map[Game::index(9, 11)], 0);
    assert_eq!(g.map[Game::index(9, 7)], 0);
    assert_eq!(g.map.iter().filter(|c| **c == DOT).count(), 122);
    assert_eq!(g.dots_left, 122);
    assert_eq!(g.pac, Pos { x: 9, y: 11 });
    assert_eq!(g.ghost_cell, Pos { x: 9, y: 7 });
    assert_eq!(g.dir, (1, 0));
    assert_eq!((g.score, g.lives, g.tick, g.game_over, g.win), (0, 3, 0, false, false));
}

#[test]
fn passable_and_index_follow_the_maze() {
    let g = Game::new();
    assert_eq!(Game::index(3, 2), 41);
    assert!(!g.passable(-1, 1));
    assert!(!g.passable(0, 0));
    assert!(g.passable(1, 1));
    assert!(!g.passable(19, 1));
    assert!(!g.passable(1, 15));
}

#[test]
fn keys_turn_pacman_and_q_quits() {
    let mut g = Game::new();
    assert!(!g.apply_key(b'w'));
    assert_eq!(g.dir, (0, -1));
    assert!(!g.apply_key(b'A'));
    assert_eq!(g.dir, (-1, 0));
    assert!(!g.apply_key(b'z'));
    assert_eq!(g.dir, (-1, 0));
    assert!(g.apply_key(b'q'));
}

#[test]
fn scripted_route_repeats() {
    assert_eq!(Game::scripted_key(0), b'd');
    assert_eq!(Game::scripted_key(8), b'w');
    assert_eq!(Game::scripted_key(12), b'a');
    assert_eq!(Game::scripted_key(16), b's');
    assert_eq!(Game::scripted_key(52), b'd');
    assert_eq!(Game::scripted_key(60), b'w');
}

#[test]
fn ticks_eat_dots_and_move_the_ghost_on_even_ticks() {
    let mut g = Game::new();
    g.tick();
    assert_eq!(g.pac, Pos { x: 10, y: 11 });
    assert_eq!((g.score, g.dots_left, g.tick), (10, 121, 1));
    assert_eq!(g.map[Game::index(10, 11)], 0);
    assert_eq!(g.ghost_cell, Pos { x: 9, y: 7 });
    g.tick();
    assert_eq!(g.pac, Pos { x: 11, y: 11 });
    assert_eq!((g.score, g.dots_left, g.tick), (20, 120, 2));
    assert_eq!(g.ghost_cell, Pos { x: 10, y: 7 });
}

#[test]
fn walls_stop_pacman() {
    let mut g = Game::new();
    g.apply_key(b's');
    g.tick();
    assert_eq!(g.pac, Pos { x: 9, y: 11 });
    assert_eq!(g.score, 0);
}

#[test]
fn ghost_catch_costs_a_life_then_ends_the_game() {
    let mut g = Game::new();
    g.ghost_cell = Pos { x: 10, y: 11 };
    g.tick();
    assert_eq!(g.lives, 2);
    assert_eq!(g.pac, Pos { x: 9, y: 11 });
    assert_eq!(g.ghost_cell, Pos { x: 9, y: 7 });
    assert_eq!(g.score, 10);
    g.lives = 1;
    g.ghost_cell = Pos { x: 11, y: 11 };
    g.pac = Pos { x: 10, y: 11 };
    g.tick();
    assert_eq!(g.lives, 0);
    assert!(g.game_over);
    let before = (g.pac, g.tick, g.score);
    g.tick();
    assert_eq!((g.pac, g.tick, g.score), before);
}

#[test]
fn last_dot_wins() {
    let mut g = Game::new();
    for k in 0..MAP_SIZE {
        if g.map[k] == DOT {
            g.map[k] = 0;
        }
    }
    g.map[Game::index(10, 11)] = DOT;
    g.dots_left = 1;
    g.ghost_cell = Pos { x: 1, y: 1 };
    g.tick();
    assert!(g.win);
    assert_eq!((g.dots_left, g.score), (0, 10));
    let t = g.tick;
    g.tick();
    assert_eq!(g.tick, t);
}

#[test]
fn signum_gives_the_sign() {
    assert_eq!(signum_isize(-7), -1);
    assert_eq!(signum_isize(0), 0);
    assert_eq!(signum_isize(3), 1);
}

#[test]
fn pacman_frame_record_round_trips() {
    let mut g = Game::new();
    g.tick();
    let bytes = g.frame_bytes();
    assert_eq!(bytes.len(), PACMAN_FRAME_SIZE);
    let f = parse_pacman_frame(&bytes).unwrap();
    assert_eq!((f.tick, f.pac_x, f.pac_y, f.ghost_x, f.ghost_y), (1, 10, 11, 9, 7));
    assert_eq!((f.score, f.lives, f.dots_left, f.game_over, f.win), (10, 3, 121, 0, 0));
    assert_eq!(f.map, g.map);
    assert!(parse_pacman_frame(&bytes[..PACMAN_FRAME_SIZE - 1]).is_none());
    let mut bad = bytes.clone();
    bad[1] = 0;
    assert!(parse_pacman_frame(&bad).is_none());
}

#[test]
fn draw_frame_places_maze_pacman_and_ghost() {
    let g = Game::new();
    let f = parse_pacman_frame(&g.frame_bytes()).unwrap();
    let (w, h) = (800usize, 600usize);
    assert!(view_fits(w, h, &f));
    let mut fb = vec![0u8; w * h * 4];
    draw_frame(&mut fb, w, h, &f);
    assert_eq!(pixel(&fb, w, 70, 60), bgra(wall()));
    assert_eq!(pixel(&fb, w, 119, 106), bgra(dot()));
    assert_eq!(pixel(&fb, w, 390, 456), bgra(pac()));
    assert_eq!(pixel(&fb, w, 405, 456), bgra(bg()));
    assert_eq!(pixel(&fb, w, 390, 315), bgra(ghost_color()));
}

#[test]
fn game_over_bar_shows() {
    let mut g = Game::new();
    g.game_over = true;
    g.lives = 0;
    let f = parse_pacman_frame(&g.frame_bytes()).unwrap();
    let (w, h) = (800usize, 600usize);
    let mut fb = vec![0u8; w * h * 4];
    draw_frame(&mut fb, w, h, &f);
    assert_eq!(pixel(&fb, w, 400, 300), bgra(over()));
    assert!(!view_fits(200, 600, &f));
}

#[test]
fn score_plus_ten_per_dot_left_is_kept() {
    let mut g = Game::new();
    let total = g.score + 10 * g.dots_left;
    for step in 0..40 {
        g.apply_key(Game::scripted_key(step));
        g.tick();
        assert_eq!(g.score + 10 * g.dots_left, total);
        assert_eq!(g.win, g.dots_left == 0);
        assert_ne!(g.map[Game::index(g.pac.x, g.pac.y)], WALL);
        assert_ne!(g.map[Game::index(g.ghost_cell.x, g.ghost_cell.y)], WALL);
    }
}
