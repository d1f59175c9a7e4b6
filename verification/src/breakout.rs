//! The rules of the breakout game: the paddle, the ball's flight and
//! bounces, bricks, lives and levels, saving and restoring a game, and the
//! frame record that the user program sends to the kernel.
use vstd::prelude::*;

use crate::wire::{le_bytes, le_bytes_i32, le_value, push_u32, push_i32, push_bytes, copy_bytes, read_u32, read_i32,
    lemma_le_roundtrip, lemma_i32_u32_roundtrip};

verus! {

/// Field width.
pub const WIDTH: i32 = 536;
/// Field height.
pub const HEIGHT: i32 = 288;
/// Bricks per row.
pub const BRICK_COLS: usize = 10;
/// Rows of bricks.
pub const BRICK_ROWS: usize = 6;
/// Number of bricks.
pub const BRICK_COUNT: usize = 60;
/// Paddle width.
pub const PADDLE_W: i32 = 86;
/// How far a key moves the paddle.
pub const PADDLE_SPEED: i32 = 22;
/// Side of the ball.
pub const BALL_SIZE: i32 = 12;
/// Tag of a breakout frame record and of a saved game.
pub const BREAKOUT_FRAME_MAGIC: u32 = 0x4252_4B54;
/// Size in bytes of a breakout frame record.
pub const BREAKOUT_FRAME_SIZE: usize = 104;
/// Size in bytes of a saved game.
pub const SAVE_DATA_SIZE: usize = 96;
/// Ticks that the "saved" mark stays on screen.
pub const SAVED_TICKS: u32 = 40;
/// The state of a breakout game.
pub struct Game {
    /// Left edge of the paddle.
    pub paddle_x: i32,
    /// Ball column.
    pub ball_x: i32,
    /// Ball row.
    pub ball_y: i32,
    /// Ball column step per tick.
    pub vx: i32,
    /// Ball row step per tick.
    pub vy: i32,
    /// Bricks, row by row; non-zero for a brick still standing.
    pub bricks: Vec<u8>,
    /// Score.
    pub score: u32,
    /// Lives left.
    pub lives: u32,
    /// Level.
    pub level: u32,
    /// Ticks left to show the "saved" mark.
    pub saved_ticks: u32,
    /// Whether the game is over.
    pub game_over: bool,
}

/// What the key asked the caller to do besides updating the game.
#[derive(Clone, Copy, Debug, PartialEq, Eq, Structural)]
pub enum Command {
    /// Nothing more.
    Continue,
    /// Write the saved game (`s`).
    Save,
    /// Read back the saved game (`r`).
    Load,
    /// End the program (`q`).
    Quit,
}

/// Paddle position, ball position and ball steps of a served ball at
/// `level`; the steps read the level as an `i32`, as the serve does.
pub open spec fn served(level: u32) -> (int, int, int, int, int) {
    (WIDTH / 2 - PADDLE_W / 2, WIDTH / 2, HEIGHT - 64, 4 + (level as i32), -5 - trunc_div((level as i32) as int, 2))
}

/// Serving at `level` computes its column step without overflow.
pub open spec fn serve_fits(level: u32) -> bool {
    4 + (level as i32) <= i32::MAX
}

/// `v` limited to `[lo, hi]`.
pub open spec fn clamp(v: int, lo: int, hi: int) -> int {
    if v < lo { lo } else if v > hi { hi } else { v }
}

/// Magnitude of `v`.
pub open spec fn abs(v: int) -> int {
    if v < 0 { -v } else { v }
}

/// Integer division rounding toward zero, as Rust's `/` does.
pub open spec fn trunc_div(a: int, d: int) -> int {
    if a >= 0 { a / d } else { -((-a) / d) }
}

/// The ball's position and steps after it moves and bounces off the side
/// walls and the ceiling.
pub open spec fn wall_step(bx: int, by: int, vx: int, vy: int) -> (int, int, int, int) {
    let bx1 = bx + vx;
    let by1 = by + vy;
    let side = bx1 <= 0 || bx1 + BALL_SIZE >= WIDTH;
    let top = by1 <= 0;
    (
        if side { clamp(bx1, 0, (WIDTH - BALL_SIZE) as int) } else { bx1 },
        if top { 0 } else { by1 },
        if side { -vx } else { vx },
        if top { abs(vy) } else { vy },
    )
}

/// Whether the ball at `(bx, by)` touches the paddle whose left edge is at
/// `paddle_x`.
pub open spec fn paddle_hit(paddle_x: int, bx: int, by: int) -> bool {
    let paddle_y = HEIGHT - 38;
    by + BALL_SIZE >= paddle_y && by <= paddle_y + 14 && bx + BALL_SIZE >= paddle_x && bx <= paddle_x + PADDLE_W
}

/// The ball's steps after the paddle: a falling ball that touches it goes
/// up again, turned by where it touched, never straight up and at most 10
/// columns per tick sideways.
pub open spec fn paddle_step(paddle_x: int, bx: int, by: int, vx: int, vy: int) -> (int, int) {
    if paddle_hit(paddle_x, bx, by) && vy > 0 {
        let center = paddle_x + PADDLE_W / 2;
        let turned = clamp(vx + trunc_div(bx + BALL_SIZE / 2 - center, 18), -10, 10);
        (if turned == 0 { 3 } else { turned }, -abs(vy))
    } else {
        (vx, vy)
    }
}

/// The ball's flight between the walls: a ball that stays clear of the side
/// walls moves by its column step and keeps it, and one that reaches a side
/// wall is put back inside the field with its column step reversed; a ball
/// below the ceiling moves by its row step and keeps it, and one that
/// reaches the ceiling is put on it and heads down (or along it) at the same
/// speed.
pub proof fn lemma_wall_step_law(bx: int, by: int, vx: int, vy: int)
    ensures
        ({
            let (nbx, nby, nvx, nvy) = wall_step(bx, by, vx, vy);
            &&& 0 < bx + vx && bx + vx + BALL_SIZE < WIDTH ==> nbx == bx + vx && nvx == vx
            &&& !(0 < bx + vx && bx + vx + BALL_SIZE < WIDTH) ==> 0 <= nbx <= WIDTH - BALL_SIZE && nvx == -vx
            &&& by + vy > 0 ==> nby == by + vy && nvy == vy
            &&& by + vy <= 0 ==> nby == 0 && nvy >= 0 && (nvy == vy || nvy == -vy)
        }),
{
}

/// The paddle's bounce. A ball that is not falling onto the paddle keeps
/// its steps. A falling ball that touches the paddle goes back up at the
/// same speed and leaves with a column step between -10 and 10 that is
/// never 0. It is turned by where it hit, measured from the paddle's center
/// to the ball's center (`off`): a hit within 18 columns of the center
/// keeps a nonzero step; a hit 18 or more columns right of the center turns
/// a ball that was not moving left further right (or to the limit 10), and
/// one 18 or more columns left turns a ball that was not moving right
/// further left (or to -10). Whenever the new step is neither a limit nor
/// 3, the change `t` of the step has the sign of `off` and is `off / 18`
/// rounded toward zero: `18 * |t| <= |off| < 18 * (|t| + 1)`.
pub proof fn lemma_paddle_bounce_law(paddle_x: int, bx: int, by: int, vx: int, vy: int)
    requires
        -10 <= vx <= 10,
    ensures
        ({
            let (nvx, nvy) = paddle_step(paddle_x, bx, by, vx, vy);
            let off = (bx + BALL_SIZE / 2) - (paddle_x + PADDLE_W / 2);
            let t = nvx - vx;
            let bounce = paddle_hit(paddle_x, bx, by) && vy > 0;
            &&& !bounce ==> nvx == vx && nvy == vy
            &&& bounce ==> nvy == -vy && -10 <= nvx <= 10 && nvx != 0
            &&& bounce && -18 < off < 18 && vx != 0 ==> nvx == vx
            &&& bounce && off >= 18 && vx >= 0 ==> nvx > vx || nvx == 10
            &&& bounce && off <= -18 && vx <= 0 ==> nvx < vx || nvx == -10
            &&& bounce && -10 < nvx < 10 && nvx != 3 ==> {
                &&& t * off >= 0
                &&& (t >= 0 ==> 18 * t <= (if off >= 0 { off } else { -off }))
                &&& (t < 0 ==> 18 * (-t) <= (if off >= 0 { off } else { -off }))
                &&& (if off >= 0 { off } else { -off }) < 18 * ((if t >= 0 { t } else { -t }) + 1)
            }
        }),
{
    let off = (bx + BALL_SIZE / 2) - (paddle_x + PADDLE_W / 2);
    let q = trunc_div(off, 18);
    if off >= 0 {
        assert(18 * q <= off < 18 * (q + 1));
        assert(q * off >= 0) by (nonlinear_arith)
            requires off >= 0, q >= 0;
    } else {
        assert(18 * (-q) <= -off < 18 * (-q + 1));
        assert(q * off >= 0) by (nonlinear_arith)
            requires off < 0, q <= 0;
    }
    let (nvx, nvy) = paddle_step(paddle_x, bx, by, vx, vy);
    if paddle_hit(paddle_x, bx, by) && vy > 0 && -10 < nvx < 10 && nvx != 3 {
        assert(nvx == vx + q);
        assert((nvx - vx) * off >= 0);
    }
}

/// Whether the ball at `(bx, by)` touches brick `k`.
pub open spec fn brick_touch(k: int, bx: int, by: int) -> bool {
    let brick_w = (WIDTH - 40 - 9 * 5) / (BRICK_COLS as int);
    let x = 20 + (k % 10) * (brick_w + 5);
    let y = 24 + (k / 10) * (18 + 5);
    bx + BALL_SIZE >= x && bx <= x + brick_w && by + BALL_SIZE >= y && by <= y + 18
}

/// The first standing brick from `k` on that the ball at `(bx, by)`
/// touches, or [`BRICK_COUNT`] if none.
pub open spec fn first_brick_hit(bricks: Seq<u8>, bx: int, by: int, k: int) -> int
    decreases BRICK_COUNT - k,
{
    if k >= BRICK_COUNT || k < 0 {
        BRICK_COUNT as int
    } else if bricks[k] != 0 && brick_touch(k, bx, by) {
        k
    } else {
        first_brick_hit(bricks, bx, by, k + 1)
    }
}

/// No brick stands.
pub open spec fn all_clear(bricks: Seq<u8>) -> bool {
    forall|k: int| 0 <= k < bricks.len() ==> #[trigger] bricks[k] == 0
}

/// A full wall of bricks.
pub open spec fn full_wall() -> Seq<u8> {
    Seq::new(BRICK_COUNT as nat, |k: int| 1u8)
}

/// Whether a paddle key moves the paddle, and by how much.
pub open spec fn paddle_key_step(key: u8) -> int {
    if key == 97 || key == 65 { -PADDLE_SPEED } else if key == 100 || key == 68 { PADDLE_SPEED as int } else { 0 }
}

impl Game {
    /// The brick table is full size.
    pub open spec fn wf(&self) -> bool {
        self.bricks@.len() == BRICK_COUNT
    }

    /// A new game: three lives, level 1, a full wall, the ball above the
    /// paddle heading up and right.
    pub fn new() -> (g: Self)
        ensures
            g.wf(),
            g.paddle_x == WIDTH / 2 - PADDLE_W / 2,
            g.ball_x == WIDTH / 2,
            g.ball_y == HEIGHT - 64,
            g.vx == 5,
            g.vy == -5,
            g.bricks@ == full_wall(),
            g.score == 0,
            g.lives == 3,
            g.level == 1,
            g.saved_ticks == 0,
            !g.game_over,
    {
        let bricks = vec![1u8; BRICK_COUNT];
        proof {
            assert(bricks@ =~= full_wall());
        }
        Game {
            paddle_x: WIDTH / 2 - PADDLE_W / 2,
            ball_x: WIDTH / 2,
            ball_y: HEIGHT - 64,
            vx: 5,
            vy: -5,
            bricks,
            score: 0,
            lives: 3,
            level: 1,
            saved_ticks: 0,
            game_over: false,
        }
    }

    /// Serves the ball again: paddle centered, ball above it, faster at
    /// higher levels.
    pub fn reset_ball(&mut self)
        requires
            serve_fits(old(self).level),
        ensures
            (final(self).paddle_x as int, final(self).ball_x as int, final(self).ball_y as int,
                final(self).vx as int, final(self).vy as int) == served(old(self).level),
            final(self).bricks == old(self).bricks,
            final(self).score == old(self).score,
            final(self).lives == old(self).lives,
            final(self).level == old(self).level,
            final(self).saved_ticks == old(self).saved_ticks,
            final(self).game_over == old(self).game_over,
    {
        self.paddle_x = WIDTH / 2 - PADDLE_W / 2;
        self.ball_x = WIDTH / 2;
        self.ball_y = HEIGHT - 64;
        let level = self.level as i32;
        self.vx = 4 + level;
        self.vy = -5 - level / 2;
    }

    /// Puts up a full wall for the next level and serves the ball.
    pub fn reset_bricks(&mut self)
        requires
            old(self).level + 1 <= u32::MAX,
            serve_fits((old(self).level + 1) as u32),
        ensures
            final(self).bricks@ == full_wall(),
            final(self).level == old(self).level + 1,
            (final(self).paddle_x as int, final(self).ball_x as int, final(self).ball_y as int,
                final(self).vx as int, final(self).vy as int) == served((old(self).level + 1) as u32),
            final(self).score == old(self).score,
            final(self).lives == old(self).lives,
            final(self).saved_ticks == old(self).saved_ticks,
            final(self).game_over == old(self).game_over,
    {
        self.bricks = vec![1u8; BRICK_COUNT];
        proof {
            assert(self.bricks@ =~= full_wall());
        }
        self.level += 1;
        self.reset_ball();
    }

    /// Applies a key: `a`/`d` move the paddle; space starts a new game once
    /// the game is over; after these and any other key but `s`, `r` and
    /// `q` the paddle is kept inside the field. `s` and `r` change nothing
    /// here and ask the caller to save or restore the game, after which the
    /// caller keeps the paddle inside the field with [`Game::clamp_paddle`];
    /// `q` changes nothing and asks to quit.
    pub fn handle_key(&mut self, key: u8) -> (cmd: Command)
        requires
            (key == 97 || key == 65) ==> old(self).paddle_x - PADDLE_SPEED >= i32::MIN,
            (key == 100 || key == 68) ==> old(self).paddle_x + PADDLE_SPEED <= i32::MAX,
        ensures
            old(self).wf() ==> final(self).wf(),
            cmd == if key == 113 || key == 81 { Command::Quit } else if key == 115 || key == 83 { Command::Save }
                else if key == 114 || key == 82 { Command::Load } else { Command::Continue },
            cmd != Command::Continue ==> *final(self) == *old(self),
            cmd == Command::Continue && key == 32 && old(self).game_over ==> {
                &&& final(self).bricks@ == full_wall()
                &&& final(self).score == 0
                &&& final(self).lives == 3
                &&& final(self).level == 1
                &&& !final(self).game_over
                &&& final(self).saved_ticks == 0
                &&& final(self).paddle_x == WIDTH / 2 - PADDLE_W / 2
                &&& final(self).ball_x == WIDTH / 2
                &&& final(self).ball_y == HEIGHT - 64
                &&& final(self).vx == 5
                &&& final(self).vy == -5
            },
            cmd == Command::Continue && !(key == 32 && old(self).game_over) ==> {
                &&& final(self).paddle_x
                    == clamp(old(self).paddle_x + paddle_key_step(key), 0, (WIDTH - PADDLE_W) as int)
                &&& final(self).ball_x == old(self).ball_x
                &&& final(self).ball_y == old(self).ball_y
                &&& final(self).vx == old(self).vx
                &&& final(self).vy == old(self).vy
                &&& final(self).bricks == old(self).bricks
                &&& final(self).score == old(self).score
                &&& final(self).lives == old(self).lives
                &&& final(self).level == old(self).level
                &&& final(self).saved_ticks == old(self).saved_ticks
                &&& final(self).game_over == old(self).game_over
            },
            cmd == Command::Continue ==> 0 <= final(self).paddle_x <= WIDTH - PADDLE_W,
    {
        if key == 97 || key == 65 {
            self.paddle_x -= PADDLE_SPEED;
        } else if key == 100 || key == 68 {
            self.paddle_x += PADDLE_SPEED;
        } else if key == 115 || key == 83 {
            return Command::Save;
        } else if key == 114 || key == 82 {
            return Command::Load;
        } else if key == 32 && self.game_over {
            *self = Self::new();
        } else if key == 113 || key == 81 {
            return Command::Quit;
        }
        self.clamp_paddle();
        Command::Continue
    }

    /// Keeps the paddle inside the field.
    pub fn clamp_paddle(&mut self)
        ensures
            final(self).paddle_x == clamp(old(self).paddle_x as int, 0, (WIDTH - PADDLE_W) as int),
            final(self).ball_x == old(self).ball_x,
            final(self).ball_y == old(self).ball_y,
            final(self).vx == old(self).vx,
            final(self).vy == old(self).vy,
            final(self).bricks == old(self).bricks,
            final(self).score == old(self).score,
            final(self).lives == old(self).lives,
            final(self).level == old(self).level,
            final(self).saved_ticks == old(self).saved_ticks,
            final(self).game_over == old(self).game_over,
    {
        self.paddle_x = clamp_i32(self.paddle_x, 0, WIDTH - PADDLE_W);
    }

    /// Marks the game as just saved.
    pub fn mark_saved(&mut self)
        ensures
            final(self).saved_ticks == SAVED_TICKS,
            final(self).paddle_x == old(self).paddle_x,
            final(self).ball_x == old(self).ball_x,
            final(self).ball_y == old(self).ball_y,
            final(self).vx == old(self).vx,
            final(self).vy == old(self).vy,
            final(self).bricks == old(self).bricks,
            final(self).score == old(self).score,
            final(self).lives == old(self).lives,
            final(self).level == old(self).level,
            final(self).game_over == old(self).game_over,
    {
        self.saved_ticks = SAVED_TICKS;
    }

    /// The tick computes within `i32` and `u32`: the moved ball, the sums
    /// that the wall and paddle checks make, the negated and turned steps,
    /// and, on the path that the tick takes, the score, the next level and
    /// the steps of a new serve.
    pub open spec fn tick_fits(&self) -> bool {
        let x1 = self.ball_x + self.vx;
        let y1 = self.ball_y + self.vy;
        let (bx, by, vx1, vy1) = wall_step(self.ball_x as int, self.ball_y as int, self.vx as int, self.vy as int);
        let turn = trunc_div(bx + BALL_SIZE / 2 - (self.paddle_x + PADDLE_W / 2), 18);
        let (vx2, vy2) = paddle_step(self.paddle_x as int, bx, by, vx1, vy1);
        let k = first_brick_hit(self.bricks@, bx, by, 0);
        self.game_over || {
            &&& i32::MIN <= x1 <= i32::MAX
            &&& i32::MIN <= y1 <= i32::MAX
            &&& (x1 <= 0 || x1 + BALL_SIZE <= i32::MAX)
            &&& (x1 <= 0 || x1 + BALL_SIZE >= WIDTH) ==> self.vx != i32::MIN
            &&& y1 <= 0 ==> self.vy != i32::MIN
            &&& by + BALL_SIZE <= i32::MAX
            &&& paddle_hit(self.paddle_x as int, bx, by) && vy1 > 0 ==> i32::MIN <= vx1 + turn <= i32::MAX
            &&& k < BRICK_COUNT ==> {
                &&& self.score + 10 <= u32::MAX
                &&& vy2 != i32::MIN
                &&& all_clear(self.bricks@.update(k, 0u8)) ==> self.level + 1 <= u32::MAX
                    && serve_fits((self.level + 1) as u32)
            }
            &&& k >= BRICK_COUNT && by > HEIGHT && self.lives > 1 ==> serve_fits(self.level)
        }
    }

    /// Whether [`Game::tick`] may run on this state: the brick table is
    /// full size and the tick computes without overflow.
    pub fn can_tick(&self) -> (ok: bool)
        ensures
            ok == (self.wf() && self.tick_fits()),
    {
        if self.bricks.len() != BRICK_COUNT {
            return false;
        }
        if self.game_over {
            return true;
        }
        let x1: i64 = self.ball_x as i64 + self.vx as i64;
        let y1: i64 = self.ball_y as i64 + self.vy as i64;
        if x1 < i32::MIN as i64 || x1 > i32::MAX as i64 || y1 < i32::MIN as i64 || y1 > i32::MAX as i64 {
            return false;
        }
        if x1 > 0 && x1 + 12 > i32::MAX as i64 {
            return false;
        }
        let side = x1 <= 0 || x1 + 12 >= 536;
        if side && self.vx == i32::MIN {
            return false;
        }
        let top = y1 <= 0;
        if top && self.vy == i32::MIN {
            return false;
        }
        let bx: i64 = if side { if x1 < 0 { 0 } else if x1 > 524 { 524 } else { x1 } } else { x1 };
        let by: i64 = if top { 0 } else { y1 };
        let vx1: i64 = if side { -(self.vx as i64) } else { self.vx as i64 };
        let vy1: i64 = if top && self.vy < 0 { -(self.vy as i64) } else { self.vy as i64 };
        if by + 12 > i32::MAX as i64 {
            return false;
        }
        let p = self.paddle_x as i64;
        let hit = by + 12 >= 250 && by <= 264 && bx + 12 >= p && bx <= p + 86;
        let mut vy2 = vy1;
        if hit && vy1 > 0 {
            let turn = (bx + 6 - (p + 43)) / 18;
            if vx1 + turn < i32::MIN as i64 || vx1 + turn > i32::MAX as i64 {
                return false;
            }
            vy2 = -vy1;
        }
        let k = first_hit(&self.bricks, bx, by);
        if k < BRICK_COUNT {
            if self.score > u32::MAX - 10 || vy2 == i32::MIN as i64 {
                return false;
            }
            if clear_except(&self.bricks, k) {
                return self.level < u32::MAX && ((self.level + 1) as i32) <= i32::MAX - 4;
            }
            return true;
        }
        if by > 288 && self.lives > 1 {
            return (self.level as i32) <= i32::MAX - 4;
        }
        true
    }

    /// One tick: the "saved" mark fades; unless the game is over, the ball
    /// moves and bounces off the walls, the ceiling and the paddle; the
    /// first standing brick it touches falls, scores 10 and sends it back,
    /// and the last brick brings a new wall and level; a ball that falls
    /// below the field costs a life, and the last life ends the game.
    pub fn tick(&mut self)
        requires
            old(self).wf(),
            old(self).tick_fits(),
        ensures
            final(self).wf(),
            final(self).saved_ticks == if old(self).saved_ticks > 0 { old(self).saved_ticks - 1 } else { 0 },
            old(self).game_over ==> {
                &&& final(self).paddle_x == old(self).paddle_x
                &&& final(self).ball_x == old(self).ball_x
                &&& final(self).ball_y == old(self).ball_y
                &&& final(self).vx == old(self).vx
                &&& final(self).vy == old(self).vy
                &&& final(self).bricks == old(self).bricks
                &&& final(self).score == old(self).score
                &&& final(self).lives == old(self).lives
                &&& final(self).level == old(self).level
                &&& final(self).game_over
            },
            !old(self).game_over ==> ({
                let pre = *old(self);
                let (bx, by, vx1, vy1) = wall_step(pre.ball_x as int, pre.ball_y as int, pre.vx as int, pre.vy as int);
                let (vx, vy) = paddle_step(pre.paddle_x as int, bx, by, vx1, vy1);
                let k = first_brick_hit(pre.bricks@, bx, by, 0);
                let left = pre.bricks@.update(k, 0u8);
                let post = *final(self);
                let lives = if pre.lives > 0 { pre.lives - 1 } else { 0 };
                if k < BRICK_COUNT {
                    &&& post.score == pre.score + 10
                    &&& post.lives == pre.lives
                    &&& !post.game_over
                    &&& if all_clear(left) {
                        &&& post.bricks@ == full_wall()
                        &&& post.level == pre.level + 1
                        &&& (post.paddle_x as int, post.ball_x as int, post.ball_y as int, post.vx as int, post.vy as int)
                            == served((pre.level + 1) as u32)
                    } else {
                        &&& post.bricks@ == left
                        &&& post.level == pre.level
                        &&& post.paddle_x == pre.paddle_x
                        &&& (post.ball_x as int, post.ball_y as int, post.vx as int, post.vy as int) == (bx, by, vx, -vy)
                    }
                } else {
                    &&& post.score == pre.score
                    &&& post.bricks == pre.bricks
                    &&& post.level == pre.level
                    &&& if by > HEIGHT {
                        &&& post.lives == lives
                        &&& post.game_over == (lives == 0)
                        &&& if lives == 0 {
                            &&& post.paddle_x == pre.paddle_x
                            &&& (post.ball_x as int, post.ball_y as int, post.vx as int, post.vy as int) == (bx, by, vx, vy)
                        } else {
                            (post.paddle_x as int, post.ball_x as int, post.ball_y as int, post.vx as int, post.vy as int)
                                == served(pre.level)
                        }
                    } else {
                        &&& post.lives == pre.lives
                        &&& !post.game_over
                        &&& post.paddle_x == pre.paddle_x
                        &&& (post.ball_x as int, post.ball_y as int, post.vx as int, post.vy as int) == (bx, by, vx, vy)
                    }
                }
            }),
    {
        let ghost pre = *self;
        if self.saved_ticks > 0 {
            self.saved_ticks -= 1;
        }
        if self.game_over {
            return;
        }

        self.ball_x += self.vx;
        self.ball_y += self.vy;

        if self.ball_x <= 0 || self.ball_x + BALL_SIZE >= WIDTH {
            self.vx = -self.vx;
            self.ball_x = clamp_i32(self.ball_x, 0, WIDTH - BALL_SIZE);
        }
        if self.ball_y <= 0 {
            self.vy = if self.vy < 0 { -self.vy } else { self.vy };
            self.ball_y = 0;
        }

        let paddle_y = HEIGHT - 38;
        let hit_paddle = self.ball_y + BALL_SIZE >= paddle_y && self.ball_y <= paddle_y + 14
            && self.ball_x + BALL_SIZE >= self.paddle_x && self.ball_x <= self.paddle_x + PADDLE_W;
        if hit_paddle && self.vy > 0 {
            self.vy = -self.vy;
            let center = self.paddle_x + PADDLE_W / 2;
            self.vx += (self.ball_x + BALL_SIZE / 2 - center) / 18;
            self.vx = clamp_i32(self.vx, -10, 10);
            if self.vx == 0 {
                self.vx = 3;
            }
        }

        let brick_w = (WIDTH - 40 - 9 * 5) / BRICK_COLS as i32;
        let brick_h: i32 = 18;
        let brick_x0: i32 = 20;
        let brick_y0: i32 = 24;
        let ghost (bx, by) = (self.ball_x as int, self.ball_y as int);
        proof {
            let (sbx, sby, svx1, svy1) = wall_step(pre.ball_x as int, pre.ball_y as int, pre.vx as int, pre.vy as int);
            let (svx, svy) = paddle_step(pre.paddle_x as int, sbx, sby, svx1, svy1);
            assert(self.ball_x == sbx && self.ball_y == sby && self.vx == svx && self.vy == svy);
        }
        let ghost mid = *self;
        let mut row: usize = 0;
        while row < BRICK_ROWS
            invariant
                *self == mid,
                mid.bricks == pre.bricks,
                pre.wf(),
                pre.tick_fits(),
                !pre.game_over,
                mid.score == pre.score,
                mid.lives == pre.lives,
                mid.level == pre.level,
                mid.paddle_x == pre.paddle_x,
                mid.saved_ticks == (if pre.saved_ticks > 0 { pre.saved_ticks - 1 } else { 0 }),
                pre == *old(self),
                ({
                    let (sbx, sby, svx1, svy1) = wall_step(pre.ball_x as int, pre.ball_y as int, pre.vx as int, pre.vy as int);
                    let (svx, svy) = paddle_step(pre.paddle_x as int, sbx, sby, svx1, svy1);
                    mid.ball_x == sbx && mid.ball_y == sby && mid.vx == svx && mid.vy == svy
                }),
                !mid.game_over,
                self.bricks@ == pre.bricks@,
                self.bricks@.len() == BRICK_COUNT,
                bx == self.ball_x,
                by == self.ball_y,
                0 <= self.ball_x <= WIDTH - BALL_SIZE,
                self.ball_y + BALL_SIZE <= i32::MAX,
                brick_w == 45,
                brick_h == 18,
                brick_x0 == 20,
                brick_y0 == 24,
                row <= BRICK_ROWS,
                first_brick_hit(pre.bricks@, bx, by, 0) == first_brick_hit(pre.bricks@, bx, by, (row * BRICK_COLS) as int),
            decreases BRICK_ROWS - row,
        {
            let mut col: usize = 0;
            while col < BRICK_COLS
                invariant
                    *self == mid,
                    mid.bricks == pre.bricks,
                    pre.wf(),
                    pre.tick_fits(),
                    !pre.game_over,
                    mid.score == pre.score,
                    mid.lives == pre.lives,
                    mid.level == pre.level,
                    mid.paddle_x == pre.paddle_x,
                    mid.saved_ticks == (if pre.saved_ticks > 0 { pre.saved_ticks - 1 } else { 0 }),
                    pre == *old(self),
                    ({
                        let (sbx, sby, svx1, svy1) = wall_step(pre.ball_x as int, pre.ball_y as int, pre.vx as int, pre.vy as int);
                        let (svx, svy) = paddle_step(pre.paddle_x as int, sbx, sby, svx1, svy1);
                        mid.ball_x == sbx && mid.ball_y == sby && mid.vx == svx && mid.vy == svy
                    }),
                    !mid.game_over,
                    self.bricks@ == pre.bricks@,
                    self.bricks@.len() == BRICK_COUNT,
                    bx == self.ball_x,
                    by == self.ball_y,
                    0 <= self.ball_x <= WIDTH - BALL_SIZE,
                    self.ball_y + BALL_SIZE <= i32::MAX,
                    brick_w == 45,
                    brick_h == 18,
                    brick_x0 == 20,
                    brick_y0 == 24,
                    row < BRICK_ROWS,
                    col <= BRICK_COLS,
                    first_brick_hit(pre.bricks@, bx, by, 0)
                        == first_brick_hit(pre.bricks@, bx, by, (row * BRICK_COLS + col) as int),
                decreases BRICK_COLS - col,
            {
                let index = row * BRICK_COLS + col;
                proof {
                    vstd::arithmetic::div_mod::lemma_fundamental_div_mod_converse(index as int, 10, row as int, col as int);
                }
                if self.bricks[index] != 0 {
                    proof {
                        assert(col as i32 * (brick_w + 5) == 50 * col) by (nonlinear_arith)
                            requires brick_w == 45, col < 10;
                        assert(row as i32 * (brick_h + 5) == 23 * row) by (nonlinear_arith)
                            requires brick_h == 18, row < 6;
                    }
                    let x = brick_x0 + col as i32 * (brick_w + 5);
                    let y = brick_y0 + row as i32 * (brick_h + 5);
                    let hit = self.ball_x + BALL_SIZE >= x && self.ball_x <= x + brick_w
                        && self.ball_y + BALL_SIZE >= y && self.ball_y <= y + brick_h;
                    if hit {
                        proof {
                            assert(brick_touch(index as int, bx, by));
                            assert(first_brick_hit(pre.bricks@, bx, by, index as int) == index);
                        }
                        self.bricks.set(index, 0);
                        self.score += 10;
                        self.vy = -self.vy;
                        if bricks_clear(&self.bricks) {
                            self.reset_bricks();
                        }
                        return;
                    }
                    proof {
                        assert(!brick_touch(index as int, bx, by));
                    }
                }
                col += 1;
            }
            row += 1;
        }
        proof {
            assert(first_brick_hit(pre.bricks@, bx, by, 60) == 60);
        }

        if self.ball_y > HEIGHT {
            if self.lives > 0 {
                self.lives -= 1;
            }
            if self.lives == 0 {
                self.game_over = true;
            } else {
                self.reset_ball();
            }
        }
    }
}

/// `v` limited to `[lo, hi]`.
pub fn clamp_i32(v: i32, lo: i32, hi: i32) -> (c: i32)
    requires
        lo <= hi,
    ensures
        c == clamp(v as int, lo as int, hi as int),
{
    if v < lo { lo } else if v > hi { hi } else { v }
}

/// Index of the first standing brick that the ball at `(bx, by)` touches,
/// or [`BRICK_COUNT`] if none.
fn first_hit(bricks: &Vec<u8>, bx: i64, by: i64) -> (k: usize)
    requires
        bricks@.len() == BRICK_COUNT,
        i32::MIN <= bx <= i32::MAX,
        i32::MIN <= by <= i32::MAX,
    ensures
        k == first_brick_hit(bricks@, bx as int, by as int, 0),
{
    let mut k: usize = 0;
    while k < BRICK_COUNT
        invariant
            bricks@.len() == BRICK_COUNT,
            i32::MIN <= bx <= i32::MAX,
            i32::MIN <= by <= i32::MAX,
            k <= BRICK_COUNT,
            first_brick_hit(bricks@, bx as int, by as int, 0) == first_brick_hit(bricks@, bx as int, by as int, k as int),
        decreases BRICK_COUNT - k,
    {
        let x: i64 = 20 + (k % 10) as i64 * 50;
        let y: i64 = 24 + (k / 10) as i64 * 23;
        if bricks[k] != 0 && bx + 12 >= x && bx <= x + 45 && by + 12 >= y && by <= y + 18 {
            return k;
        }
        k += 1;
    }
    k
}

/// Whether no brick stands besides brick `k`.
fn clear_except(bricks: &Vec<u8>, k: usize) -> (clear: bool)
    requires
        k < bricks@.len(),
    ensures
        clear == all_clear(bricks@.update(k as int, 0u8)),
{
    let ghost left = bricks@.update(k as int, 0u8);
    let mut i: usize = 0;
    while i < bricks.len()
        invariant
            k < bricks@.len(),
            left == bricks@.update(k as int, 0u8),
            i <= bricks@.len(),
            forall|j: int| 0 <= j < i ==> #[trigger] left[j] == 0,
        decreases bricks@.len() - i,
    {
        if i != k && bricks[i] != 0 {
            proof {
                assert(left[i as int] != 0);
            }
            return false;
        }
        i += 1;
    }
    true
}

/// Whether no brick stands.
pub fn bricks_clear(bricks: &Vec<u8>) -> (clear: bool)
    ensures
        clear == all_clear(bricks@),
{
    let mut i: usize = 0;
    while i < bricks.len()
        invariant
            i <= bricks@.len(),
            forall|k: int| 0 <= k < i ==> #[trigger] bricks@[k] == 0,
        decreases bricks@.len() - i,
    {
        if bricks[i] != 0 {
            return false;
        }
        i += 1;
    }
    true
}

/// The bytes of a saved game: the tag, paddle, ball and steps, the bricks,
/// then score, lives and level.
pub open spec fn save_wire(g: Game) -> Seq<u8> {
    le_bytes(BREAKOUT_FRAME_MAGIC) + le_bytes_i32(g.paddle_x) + le_bytes_i32(g.ball_x) + le_bytes_i32(g.ball_y)
        + le_bytes_i32(g.vx) + le_bytes_i32(g.vy) + g.bricks@ + le_bytes(g.score) + le_bytes(g.lives)
        + le_bytes(g.level)
}

/// The bytes of a breakout frame record: three words, paddle and ball,
/// the bricks, then score, lives, level, the saved mark and game over.
pub open spec fn breakout_frame_wire(
    magic: u32,
    width: u32,
    height: u32,
    paddle_x: i32,
    ball_x: i32,
    ball_y: i32,
    bricks: Seq<u8>,
    score: u32,
    lives: u32,
    level: u32,
    saved: u32,
    game_over: u32,
) -> Seq<u8> {
    le_bytes(magic) + le_bytes(width) + le_bytes(height) + le_bytes_i32(paddle_x) + le_bytes_i32(ball_x)
        + le_bytes_i32(ball_y) + bricks + le_bytes(score) + le_bytes(lives) + le_bytes(level) + le_bytes(saved)
        + le_bytes(game_over)
}

/// The content of a breakout frame record.
pub struct BreakoutFrame {
    /// [`BREAKOUT_FRAME_MAGIC`].
    pub magic: u32,
    /// Field width.
    pub width: u32,
    /// Field height.
    pub height: u32,
    /// Left edge of the paddle.
    pub paddle_x: i32,
    /// Ball column.
    pub ball_x: i32,
    /// Ball row.
    pub ball_y: i32,
    /// Bricks, row by row; [`BRICK_COUNT`] of them.
    pub bricks: Vec<u8>,
    /// Score.
    pub score: u32,
    /// Lives left.
    pub lives: u32,
    /// Level.
    pub level: u32,
    /// Non-zero while the "saved" mark shows.
    pub saved: u32,
    /// Non-zero once the game is over.
    pub game_over: u32,
}

impl BreakoutFrame {
    /// The record's bytes.
    pub open spec fn wire(&self) -> Seq<u8> {
        breakout_frame_wire(self.magic, self.width, self.height, self.paddle_x, self.ball_x, self.ball_y,
            self.bricks@, self.score, self.lives, self.level, self.saved, self.game_over)
    }
}

/// Encodes a breakout frame record.
pub fn encode_breakout_frame(frame: &BreakoutFrame) -> (bytes: Vec<u8>)
    ensures
        bytes@ == frame.wire(),
{
    let mut out: Vec<u8> = Vec::new();
    push_u32(&mut out, frame.magic);
    push_u32(&mut out, frame.width);
    push_u32(&mut out, frame.height);
    push_i32(&mut out, frame.paddle_x);
    push_i32(&mut out, frame.ball_x);
    push_i32(&mut out, frame.ball_y);
    push_bytes(&mut out, &frame.bricks);
    push_u32(&mut out, frame.score);
    push_u32(&mut out, frame.lives);
    push_u32(&mut out, frame.level);
    push_u32(&mut out, frame.saved);
    push_u32(&mut out, frame.game_over);
    out
}

impl Game {
    /// The bytes of the frame record for this state.
    pub open spec fn frame_wire(&self) -> Seq<u8> {
        breakout_frame_wire(BREAKOUT_FRAME_MAGIC, WIDTH as u32, HEIGHT as u32, self.paddle_x, self.ball_x,
            self.ball_y, self.bricks@, self.score, self.lives, self.level, if self.saved_ticks > 0 { 1 } else { 0 },
            if self.game_over { 1 } else { 0 })
    }

    /// The frame record of this state, as sent to the kernel.
    pub fn frame_bytes(&self) -> (bytes: Vec<u8>)
        ensures
            bytes@ == self.frame_wire(),
    {
        let mut bricks: Vec<u8> = Vec::new();
        push_bytes(&mut bricks, &self.bricks);
        encode_breakout_frame(&BreakoutFrame {
            magic: BREAKOUT_FRAME_MAGIC,
            width: WIDTH as u32,
            height: HEIGHT as u32,
            paddle_x: self.paddle_x,
            ball_x: self.ball_x,
            ball_y: self.ball_y,
            bricks,
            score: self.score,
            lives: self.lives,
            level: self.level,
            saved: if self.saved_ticks > 0 { 1 } else { 0 },
            game_over: if self.game_over { 1 } else { 0 },
        })
    }

    /// The bytes of the saved game for this state.
    pub fn save_data(&self) -> (bytes: Vec<u8>)
        ensures
            bytes@ == save_wire(*self),
    {
        let mut out: Vec<u8> = Vec::new();
        push_u32(&mut out, BREAKOUT_FRAME_MAGIC);
        push_i32(&mut out, self.paddle_x);
        push_i32(&mut out, self.ball_x);
        push_i32(&mut out, self.ball_y);
        push_i32(&mut out, self.vx);
        push_i32(&mut out, self.vy);
        push_bytes(&mut out, &self.bricks);
        push_u32(&mut out, self.score);
        push_u32(&mut out, self.lives);
        push_u32(&mut out, self.level);
        out
    }

    /// Restores a saved game from the bytes read back, if they are a whole
    /// saved game with the right tag: position, steps, bricks, score, lives
    /// and level (at least 1) come back, the game runs again and shows the
    /// "saved" mark. Anything else leaves the game as it is. Returns whether
    /// it restored.
    pub fn restore(&mut self, data: &[u8]) -> (restored: bool)
        ensures
            restored == (data@.len() == SAVE_DATA_SIZE && le_value(data@, 0) == BREAKOUT_FRAME_MAGIC),
            restored ==> {
                let d = data@;
                &&& final(self).paddle_x == le_value(d, 4) as i32
                &&& final(self).ball_x == le_value(d, 8) as i32
                &&& final(self).ball_y == le_value(d, 12) as i32
                &&& final(self).vx == le_value(d, 16) as i32
                &&& final(self).vy == le_value(d, 20) as i32
                &&& final(self).bricks@ == d.subrange(24, 84)
                &&& final(self).score == le_value(d, 84)
                &&& final(self).lives == le_value(d, 88)
                &&& final(self).level == if le_value(d, 92) > 1 { le_value(d, 92) } else { 1 }
                &&& !final(self).game_over
                &&& final(self).saved_ticks == SAVED_TICKS
            },
            !restored ==> *final(self) == *old(self),
    {
        let mut restored = false;
        if data.len() == SAVE_DATA_SIZE && read_u32(data, 0) == BREAKOUT_FRAME_MAGIC {
            self.paddle_x = read_i32(data, 4);
            self.ball_x = read_i32(data, 8);
            self.ball_y = read_i32(data, 12);
            self.vx = read_i32(data, 16);
            self.vy = read_i32(data, 20);
            self.bricks = copy_bytes(data, 24, BRICK_COUNT);
            self.score = read_u32(data, 84);
            self.lives = read_u32(data, 88);
            let level = read_u32(data, 92);
            self.level = if level > 1 { level } else { 1 };
            self.game_over = false;
            self.saved_ticks = SAVED_TICKS;
            restored = true;
        }
        restored
    }
}

/// Restoring what was saved brings the game back: the bytes of a saved game
/// hold its paddle, ball, steps, bricks, score, lives and level at the
/// places that [`Game::restore`] reads them from.
pub proof fn lemma_save_restore(g: Game)
    requires
        g.bricks@.len() == BRICK_COUNT,
    ensures
        save_wire(g).len() == SAVE_DATA_SIZE,
        le_value(save_wire(g), 0) == BREAKOUT_FRAME_MAGIC,
        le_value(save_wire(g), 4) as i32 == g.paddle_x,
        le_value(save_wire(g), 8) as i32 == g.ball_x,
        le_value(save_wire(g), 12) as i32 == g.ball_y,
        le_value(save_wire(g), 16) as i32 == g.vx,
        le_value(save_wire(g), 20) as i32 == g.vy,
        save_wire(g).subrange(24, 84) == g.bricks@,
        le_value(save_wire(g), 84) == g.score,
        le_value(save_wire(g), 88) == g.lives,
        le_value(save_wire(g), 92) == g.level,
{
    let w = save_wire(g);
    assert(w.subrange(0, 4) =~= le_bytes(BREAKOUT_FRAME_MAGIC));
    assert(w.subrange(4, 8) =~= le_bytes(g.paddle_x as u32));
    assert(w.subrange(8, 12) =~= le_bytes(g.ball_x as u32));
    assert(w.subrange(12, 16) =~= le_bytes(g.ball_y as u32));
    assert(w.subrange(16, 20) =~= le_bytes(g.vx as u32));
    assert(w.subrange(20, 24) =~= le_bytes(g.vy as u32));
    assert(w.subrange(24, 84) =~= g.bricks@);
    assert(w.subrange(84, 88) =~= le_bytes(g.score));
    assert(w.subrange(88, 92) =~= le_bytes(g.lives));
    assert(w.subrange(92, 96) =~= le_bytes(g.level));
    lemma_le_roundtrip(BREAKOUT_FRAME_MAGIC, w, 0);
    lemma_le_roundtrip(g.paddle_x as u32, w, 4);
    lemma_le_roundtrip(g.ball_x as u32, w, 8);
    lemma_le_roundtrip(g.ball_y as u32, w, 12);
    lemma_le_roundtrip(g.vx as u32, w, 16);
    lemma_le_roundtrip(g.vy as u32, w, 20);
    lemma_le_roundtrip(g.score, w, 84);
    lemma_le_roundtrip(g.lives, w, 88);
    lemma_le_roundtrip(g.level, w, 92);
    lemma_i32_u32_roundtrip(g.paddle_x);
    lemma_i32_u32_roundtrip(g.ball_x);
    lemma_i32_u32_roundtrip(g.ball_y);
    lemma_i32_u32_roundtrip(g.vx);
    lemma_i32_u32_roundtrip(g.vy);
}

} // verus!
