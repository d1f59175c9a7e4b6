use tg_rcore_graphics::tetris::{
    cell_at, clear_lines, collides, drop_interval, handle_key, new_piece, occupied, place, Board, Piece, Tetris,
    TETRIS_FRAME_MAGIC, TETRIS_FRAME_SIZE,
};
use tg_rcore_graphics::tetris_screen::{color_for, draw_frame, draw_number, parse_tetris_frame, view_fits};
use tg_rcore_graphics::color::Color;

fn empty() -> Board {
    [[0u8; 10]; 20]
}

#[test]
fn new_piece_cycles_kinds() {
    let kinds: Vec<usize> = (0..7).map(|i| new_piece(i).kind).collect();
    assert_eq!(kinds, vec![3, 1, 6, 4, 2, 0, 5]);
    let p = new_piece(0);
    assert_eq!((p.rot, p.x, p.y), (0, 3, 0));
}

#[test]
fn occupied_offsets_the_shape() {
    let p = Piece { kind: 0, rot: 1, x: 4, y: 5 };
    let cells: Vec<(i32, i32)> = (0..4).map(|i| occupied(p, i)).collect();
    assert_eq!(cells, vec![(6, 5), (6, 6), (6, 7), (6, 8)]);
}

#[test]
fn collides_with_walls_floor_and_cells() {
    let mut board = empty();
    let p = Piece { kind: 1, rot: 0, x: 3, y: 0 };
    assert!(!collides(&board, p));
    assert!(collides(&board, Piece { x: -2, ..p }));
    assert!(collides(&board, Piece { x: 8, ..p }));
    assert!(collides(&board, Piece { y: 19, ..p }));
    assert!(!collides(&board, Piece { y: -1, ..p }));
    board[1][4] = b'Z';
    assert!(collides(&board, p));
}

#[test]
fn place_writes_glyphs() {
    let mut board = empty();
    place(&mut board, Piece { kind: 1, rot: 0, x: 0, y: 18 });
    assert_eq!(board[18][1], b'O');
    assert_eq!(board[19][2], b'O');
    assert_eq!(board[18][0], 0);
    place(&mut board, Piece { kind: 0, rot: 0, x: 0, y: -1 });
    assert_eq!(board[0][0], b'I');
}

#[test]
fn clear_lines_removes_full_rows_and_drops_the_rest() {
    let mut board = empty();
    board[19] = [1; 10];
    board[17] = [2; 10];
    board[18][0] = 5;
    board[16][3] = 7;
    let n = clear_lines(&mut board);
    assert_eq!(n, 2);
    assert_eq!(board[19][0], 5);
    assert_eq!(board[18][3], 7);
    assert!(board[..18].iter().all(|r| r.iter().all(|c| *c == 0)));
}

#[test]
fn clear_lines_without_full_rows() {
    let mut board = empty();
    board[19][0] = 1;
    let before = board;
    assert_eq!(clear_lines(&mut board), 0);
    assert_eq!(board, before);
}

#[test]
fn cell_at_shows_piece_over_board() {
    let mut board = empty();
    board[5][5] = b'L';
    let p = Piece { kind: 1, rot: 0, x: 0, y: 0 };
    assert_eq!(cell_at(&board, p, 1, 0), b'O');
    assert_eq!(cell_at(&board, p, 5, 5), b'L');
    assert_eq!(cell_at(&board, p, 6, 5), 0);
}

#[test]
fn keys_move_turn_and_quit() {
    let board = empty();
    let mut p = Piece { kind: 2, rot: 0, x: 3, y: 0 };
    assert!(handle_key(&board, &mut p, b'a'));
    assert_eq!(p.x, 2);
    assert!(handle_key(&board, &mut p, b'D'));
    assert_eq!(p.x, 3);
    assert!(handle_key(&board, &mut p, b's'));
    assert_eq!(p.y, 1);
    assert!(handle_key(&board, &mut p, b'w'));
    assert_eq!(p.rot, 1);
    assert!(handle_key(&board, &mut p, b'x'));
    assert_eq!(p, Piece { kind: 2, rot: 1, x: 3, y: 1 });
    assert!(!handle_key(&board, &mut p, b'q'));
}

#[test]
fn blocked_move_is_ignored() {
    let board = empty();
    let mut p = Piece { kind: 1, rot: 0, x: -1, y: 0 };
    assert!(handle_key(&board, &mut p, b'a'));
    assert_eq!(p.x, -1);
}

#[test]
fn hard_drop_lands_on_the_floor() {
    let board = empty();
    let mut p = Piece { kind: 1, rot: 0, x: 3, y: 0 };
    assert!(handle_key(&board, &mut p, b' '));
    assert_eq!(p.y, 18);
}

#[test]
fn gravity_locks_scores_and_spawns() {
    let mut game = Tetris::new();
    assert_eq!(game.piece, new_piece(0));
    game.piece.y = 18;
    game.piece.kind = 1;
    let over = game.gravity();
    assert!(!over);
    assert_eq!(game.board[19][4], b'O');
    assert_eq!(game.board[18][5], b'O');
    assert_eq!(game.board[19][3], 0);
    assert_eq!(game.score, 5);
    assert_eq!(game.piece, new_piece(1));
    assert_eq!(game.next_index, 2);
}

#[test]
fn gravity_clears_a_line_with_level_factor() {
    let mut game = Tetris::new();
    game.board[19] = [1, 1, 1, 0, 0, 0, 0, 1, 1, 1];
    game.piece = Piece { kind: 0, rot: 0, x: 3, y: 18 };
    game.level = 2;
    let over = game.gravity();
    assert!(!over);
    assert_eq!(game.lines, 1);
    assert_eq!(game.score, 200);
    assert_eq!(game.level, 1);
    assert!(game.board[19].iter().all(|c| *c == 0));
}

#[test]
fn gravity_falls_when_free() {
    let mut game = Tetris::new();
    let y = game.piece.y;
    assert!(!game.gravity());
    assert_eq!(game.piece.y, y + 1);
}

#[test]
fn drop_interval_speeds_up() {
    assert_eq!(drop_interval(1), 520);
    assert_eq!(drop_interval(3), 430);
    assert_eq!(drop_interval(20), 90);
}

#[test]
fn frame_record_roundtrip() {
    let game = Tetris::new();
    let bytes = game.frame_bytes(true);
    assert_eq!(bytes.len(), TETRIS_FRAME_SIZE);
    let f = parse_tetris_frame(&bytes).unwrap();
    assert_eq!(f.magic, TETRIS_FRAME_MAGIC);
    assert_eq!((f.width, f.height, f.score, f.lines, f.level, f.game_over), (10, 20, 0, 0, 1, 1));
    let p = new_piece(0);
    let (x, y) = occupied(p, 0);
    assert_eq!(f.cells[(y as usize) * 10 + x as usize], b'S');
    assert!(parse_tetris_frame(&bytes[..100]).is_none());
    let mut bad = bytes.clone();
    bad[0] ^= 1;
    assert!(parse_tetris_frame(&bad).is_none());
}

#[test]
fn colors_by_glyph() {
    let c = color_for(b'I');
    assert_eq!((c.r, c.g, c.b), (34, 211, 238));
    let g = color_for(0);
    assert_eq!((g.r, g.g, g.b), (19, 24, 34));
}

#[test]
fn number_without_leading_zeros() {
    let (w, h) = (40usize, 5usize);
    let mut fb = vec![0u8; w * h * 4];
    draw_number(&mut fb, w, h, 7, 0, 0, 1, Color { r: 255, g: 255, b: 255 });
    let lit = |x: usize, y: usize| fb[(y * w + x) * 4 + 3] == 255;
    assert!(lit(0, 0) && lit(2, 4));
    assert!(!lit(4, 0) && !lit(6, 4));
    let mut fb2 = vec![0u8; w * h * 4];
    draw_number(&mut fb2, w, h, 12, 0, 0, 1, Color { r: 255, g: 255, b: 255 });
    assert_eq!(fb2[(0 * w + 5) * 4 + 3], 255);
}

#[test]
fn frame_draws_board_on_screen() {
    let (w, h) = (640usize, 480usize);
    assert!(view_fits(w, h));
    assert!(!view_fits(200, 480));
    let game = Tetris::new();
    let f = parse_tetris_frame(&game.frame_bytes(false)).unwrap();
    let mut fb = vec![0u8; w * h * 4];
    draw_frame(&mut fb, w, h, &f);
    assert_eq!(&fb[0..4], &[14, 9, 7, 255]);
}

#[test]
fn cleared_board_keeps_no_full_row() {
    let mut board = empty();
    board[19] = [1; 10];
    board[18] = [1, 1, 1, 1, 1, 0, 1, 1, 1, 1];
    board[17] = [3; 10];
    board[15] = [4; 10];
    board[14][9] = 6;
    assert_eq!(clear_lines(&mut board), 3);
    assert!(board.iter().all(|row| row.iter().any(|c| *c == 0)));
    assert_eq!(board[19], [1, 1, 1, 1, 1, 0, 1, 1, 1, 1]);
    assert_eq!(board[17][9], 6);
    assert!(board[18].iter().all(|c| *c == 0));
}

#[test]
fn can_fall_checks_counters_and_level() {
    let mut game = Tetris::new();
    assert!(game.can_fall());
    game.level = 0;
    assert!(!game.can_fall());
    game.level = 1;
    game.score = usize::MAX - 100;
    assert!(!game.can_fall());
}
