//! The rules of the two-player pingpong game: paddles, the ball's flight,
//! bounces, hits that speed the ball up, points, and the frame record that
//! the user program sends to the kernel.
use vstd::prelude::*;

use crate::wire::{le_bytes, le_bytes_i32, push_u32, push_i32};

verus! {

/// Court width.
pub const WIDTH: i32 = 680;
/// Court height.
pub const HEIGHT: i32 = 390;
/// Paddle height.
pub const PADDLE_H: i32 = 78;
/// How far a key moves a paddle.
pub const PADDLE_SPEED: i32 = 18;
/// Side of the ball.
pub const BALL_SIZE: i32 = 14;
/// Tag of a pingpong frame record.
pub const PINGPONG_FRAME_MAGIC: u32 = 0x504F_4E47;
/// Size in bytes of a pingpong frame record.
pub const PINGPONG_FRAME_SIZE: usize = 44;

/// `y` limited to the paddle positions inside the court.
pub open spec fn spec_clamp_paddle(y: int) -> int {
    let a = if y > 0 { y } else { 0 };
    if a < HEIGHT - PADDLE_H { a } else { (HEIGHT - PADDLE_H) as int }
}

/// Limits a paddle position to the court.
pub fn clamp_paddle(y: i32) -> (c: i32)
    ensures
        c == spec_clamp_paddle(y as int),
        0 <= c <= HEIGHT - PADDLE_H,
{
    let a = if y > 0 { y } else { 0 };
    if a < HEIGHT - PADDLE_H { a } else { HEIGHT - PADDLE_H }
}

/// The ball after a point: in the middle, serving right when the total
/// score is even and left when it is odd.
pub open spec fn spec_reset_ball(left_score: int, right_score: int) -> (i32, i32, i32, i32) {
    let vx: i32 = if (left_score + right_score) % 2 == 0 { 7 } else { -7i32 };
    (340i32, 195i32, vx, 5i32)
}

/// Position `(x, y)` and velocity `(vx, vy)` of a served ball.
pub fn reset_ball(left_score: usize, right_score: usize) -> (ball: (i32, i32, i32, i32))
    requires
        left_score + right_score <= usize::MAX,
    ensures
        ball == spec_reset_ball(left_score as int, right_score as int),
{
    let sum = left_score + right_score;
    let parity = sum & 1;
    proof {
        assert(sum & 1 == sum % 2) by (bit_vector);
    }
    let dir: i32 = if parity == 0 { 1 } else { -1 };
    (WIDTH / 2, HEIGHT / 2, 7 * dir, 5)
}

/// The state of a pingpong game.
pub struct Pingpong {
    /// Top of the left paddle.
    pub left_y: i32,
    /// Top of the right paddle.
    pub right_y: i32,
    /// Points of the left player.
    pub left_score: usize,
    /// Points of the right player.
    pub right_score: usize,
    /// Rally speed, shown on screen.
    pub speed: usize,
    /// Ball column.
    pub ball_x: i32,
    /// Ball row.
    pub ball_y: i32,
    /// Ball column step per tick.
    pub vx: i32,
    /// Ball row step per tick.
    pub vy: i32,
}

/// The left paddle's key: up `w`, down `s`.
pub open spec fn spec_key_move(left_y: i32, right_y: i32, key: u8) -> (i32, i32) {
    if key == 119 || key == 87 {
        (spec_clamp_paddle(left_y - PADDLE_SPEED) as i32, right_y)
    } else if key == 115 || key == 83 {
        (spec_clamp_paddle(left_y + PADDLE_SPEED) as i32, right_y)
    } else if key == 105 || key == 73 {
        (left_y, spec_clamp_paddle(right_y - PADDLE_SPEED) as i32)
    } else if key == 107 || key == 75 {
        (left_y, spec_clamp_paddle(right_y + PADDLE_SPEED) as i32)
    } else {
        (left_y, right_y)
    }
}

/// Moving the paddles by key: `w` (either case) never moves the left
/// paddle down and `s` never moves it up, each moving it by
/// [`PADDLE_SPEED`] rows unless the court's edge stops it, so away from the
/// edges the two moves mirror each other; `i` and `k` do the same for the
/// right paddle; each key moves only its own paddle, and paddles stay in
/// the court.
pub proof fn lemma_key_move_law(left_y: i32, right_y: i32, key: u8)
    requires
        0 <= left_y <= HEIGHT - PADDLE_H,
        0 <= right_y <= HEIGHT - PADDLE_H,
    ensures
        spec_key_move(left_y, right_y, 119u8).0 <= left_y,
        spec_key_move(left_y, right_y, 115u8).0 >= left_y,
        spec_key_move(left_y, right_y, 105u8).1 <= right_y,
        spec_key_move(left_y, right_y, 107u8).1 >= right_y,
        left_y >= PADDLE_SPEED ==> spec_key_move(left_y, right_y, 119u8).0 == left_y - PADDLE_SPEED,
        left_y + PADDLE_SPEED <= HEIGHT - PADDLE_H ==> spec_key_move(left_y, right_y, 115u8).0 == left_y + PADDLE_SPEED,
        right_y >= PADDLE_SPEED ==> spec_key_move(left_y, right_y, 105u8).1 == right_y - PADDLE_SPEED,
        right_y + PADDLE_SPEED <= HEIGHT - PADDLE_H ==> spec_key_move(left_y, right_y, 107u8).1 == right_y + PADDLE_SPEED,
        left_y == 0 ==> spec_key_move(left_y, right_y, 119u8).0 == 0,
        left_y == HEIGHT - PADDLE_H ==> spec_key_move(left_y, right_y, 115u8).0 == HEIGHT - PADDLE_H,
        spec_key_move(left_y, right_y, 87u8) == spec_key_move(left_y, right_y, 119u8),
        spec_key_move(left_y, right_y, 83u8) == spec_key_move(left_y, right_y, 115u8),
        spec_key_move(left_y, right_y, 73u8) == spec_key_move(left_y, right_y, 105u8),
        spec_key_move(left_y, right_y, 75u8) == spec_key_move(left_y, right_y, 107u8),
        (key == 119 || key == 87 || key == 115 || key == 83) ==> spec_key_move(left_y, right_y, key).1 == right_y,
        (key == 105 || key == 73 || key == 107 || key == 75) ==> spec_key_move(left_y, right_y, key).0 == left_y,
        !(key == 119 || key == 87 || key == 115 || key == 83 || key == 105 || key == 73 || key == 107 || key == 75)
            ==> spec_key_move(left_y, right_y, key) == (left_y, right_y),
        0 <= spec_key_move(left_y, right_y, key).0 <= HEIGHT - PADDLE_H,
        0 <= spec_key_move(left_y, right_y, key).1 <= HEIGHT - PADDLE_H,
{
}

/// The state after one tick of the ball; see [`Pingpong::tick`].
pub open spec fn ticked(pre: Pingpong) -> Pingpong {
    let x1 = pre.ball_x + pre.vx;
    let y1 = pre.ball_y + pre.vy;
    let bounce = y1 <= 0 || y1 + BALL_SIZE >= HEIGHT;
    let vy = if bounce { -pre.vy } else { pre.vy as int };
    let y2 = if bounce { if y1 < 0 { 0 } else if y1 > HEIGHT - BALL_SIZE { (HEIGHT - BALL_SIZE) as int } else { y1 } } else { y1 };
    let left_hit = x1 <= 34 && x1 >= 20 && y2 + BALL_SIZE >= pre.left_y && y2 <= pre.left_y + PADDLE_H;
    let right_hit = x1 + BALL_SIZE >= WIDTH - 34 && x1 + BALL_SIZE <= WIDTH - 20
        && y2 + BALL_SIZE >= pre.right_y && y2 <= pre.right_y + PADDLE_H;
    let boost = if pre.speed < 10 { 1int } else { 0int };
    let abs_vx = if pre.vx < 0 { -pre.vx } else { pre.vx as int };
    let vx = if left_hit { abs_vx + boost } else if right_hit { -abs_vx - boost } else { pre.vx as int };
    let speed = if left_hit || right_hit { if pre.speed + 1 < 99 { pre.speed + 1 } else { 99 } } else { pre.speed as int };
    if x1 < -BALL_SIZE {
        let b = spec_reset_ball(pre.left_score as int, pre.right_score + 1);
        Pingpong { right_score: (pre.right_score + 1) as usize, speed: 1, ball_x: b.0, ball_y: b.1, vx: b.2, vy: b.3, ..pre }
    } else if x1 > WIDTH {
        let b = spec_reset_ball(pre.left_score + 1, pre.right_score as int);
        Pingpong { left_score: (pre.left_score + 1) as usize, speed: 1, ball_x: b.0, ball_y: b.1, vx: b.2, vy: b.3, ..pre }
    } else {
        Pingpong { speed: speed as usize, ball_x: x1 as i32, ball_y: y2 as i32, vx: vx as i32, vy: vy as i32, ..pre }
    }
}

/// One tick of pingpong: the paddles stay where they are; the ball stays
/// between the top and the bottom of the court; a ball that moves clear of
/// the top and bottom keeps its row step, and one that reaches either
/// reverses it; a ball that the left paddle meets heads right (or stands)
/// and one that the right paddle meets heads left (or stands), either way
/// a little faster while the rally speed is under 10 and with the rally
/// speed one higher up to 99; a ball past the left edge gives the right
/// player a point and one past the right edge the left player, after which
/// the ball is served again from the middle at rally speed 1; no other
/// point is scored.
pub proof fn lemma_tick_law(g: Pingpong)
    requires
        g.wf(),
        g.left_score + g.right_score + 1 < usize::MAX,
    ensures
        ({
            let t = ticked(g);
            let x1 = g.ball_x + g.vx;
            let y1 = g.ball_y + g.vy;
            let scored = x1 < -BALL_SIZE || x1 > WIDTH;
            &&& t.left_y == g.left_y && t.right_y == g.right_y
            &&& 0 <= t.ball_y <= HEIGHT - BALL_SIZE
            &&& x1 < -BALL_SIZE ==> t.right_score == g.right_score + 1 && t.left_score == g.left_score
            &&& x1 > WIDTH ==> t.left_score == g.left_score + 1 && t.right_score == g.right_score
            &&& !scored ==> t.left_score == g.left_score && t.right_score == g.right_score
            &&& scored ==> t.speed == 1 && t.ball_x == WIDTH / 2 && t.ball_y == HEIGHT / 2
            &&& !scored && 0 < y1 && y1 + BALL_SIZE < HEIGHT ==> t.ball_y == y1 && t.vy == g.vy
            &&& !scored && !(0 < y1 && y1 + BALL_SIZE < HEIGHT) ==> t.vy == -g.vy
            &&& !scored ==> t.ball_x == x1
            &&& !scored && 20 <= x1 <= 34 && t.ball_y + BALL_SIZE >= g.left_y && t.ball_y <= g.left_y + PADDLE_H ==> {
                &&& t.vx >= 0
                &&& t.vx >= (if g.vx < 0 { -g.vx } else { g.vx as int })
                &&& g.speed < 10 ==> t.vx == (if g.vx < 0 { -g.vx } else { g.vx as int }) + 1
                &&& t.speed == (if g.speed < 99 { g.speed + 1 } else { 99 })
            }
            &&& !scored && !(20 <= x1 <= 34) && WIDTH - 34 <= x1 + BALL_SIZE <= WIDTH - 20
                && t.ball_y + BALL_SIZE >= g.right_y && t.ball_y <= g.right_y + PADDLE_H ==> {
                &&& t.vx <= 0
                &&& -t.vx >= (if g.vx < 0 { -g.vx } else { g.vx as int })
                &&& g.speed < 10 ==> t.vx == -(if g.vx < 0 { -g.vx } else { g.vx as int }) - 1
                &&& t.speed == (if g.speed < 99 { g.speed + 1 } else { 99 })
            }
        }),
{
}

impl Pingpong {
    /// Paddles in the court, the ball on or near it, the speed between 1
    /// and 99, and the ball's steps bounded by the speed.
    pub open spec fn wf(&self) -> bool {
        &&& 0 <= self.left_y <= HEIGHT - PADDLE_H
        &&& 0 <= self.right_y <= HEIGHT - PADDLE_H
        &&& 1 <= self.speed <= 99
        &&& -BALL_SIZE <= self.ball_x <= WIDTH
        &&& 0 <= self.ball_y <= HEIGHT
        &&& -(6 + self.boost_room()) <= self.vx <= 6 + self.boost_room()
        &&& -5 <= self.vy <= 5
        &&& self.left_score + self.right_score < usize::MAX
    }

    /// How much hits have sped the ball up at most: the speed, up to 10.
    pub open spec fn boost_room(&self) -> int {
        if self.speed < 10 { self.speed as int } else { 10 }
    }

    /// A new game: paddles centered, no points, the ball served right.
    pub fn new() -> (game: Self)
        ensures
            game.wf(),
            game.left_y == HEIGHT / 2 - PADDLE_H / 2,
            game.right_y == HEIGHT / 2 - PADDLE_H / 2,
            game.left_score == 0,
            game.right_score == 0,
            game.speed == 1,
            (game.ball_x, game.ball_y, game.vx, game.vy) == spec_reset_ball(0, 0),
    {
        let (ball_x, ball_y, vx, vy) = reset_ball(0, 0);
        Pingpong {
            left_y: HEIGHT / 2 - PADDLE_H / 2,
            right_y: HEIGHT / 2 - PADDLE_H / 2,
            left_score: 0,
            right_score: 0,
            speed: 1,
            ball_x,
            ball_y,
            vx,
            vy,
        }
    }

    /// Applies a key: `w`/`s` move the left paddle, `i`/`k` the right one,
    /// within the court. Returns `true` for `q`, which ends the game.
    pub fn key(&mut self, key: u8) -> (quit: bool)
        requires
            old(self).wf(),
        ensures
            final(self).wf(),
            quit == (key == 113 || key == 81),
            (final(self).left_y, final(self).right_y) == spec_key_move(old(self).left_y, old(self).right_y, key),
            final(self).left_score == old(self).left_score,
            final(self).right_score == old(self).right_score,
            final(self).speed == old(self).speed,
            final(self).ball_x == old(self).ball_x,
            final(self).ball_y == old(self).ball_y,
            final(self).vx == old(self).vx,
            final(self).vy == old(self).vy,
    {
        if key == 119 || key == 87 {
            self.left_y = clamp_paddle(self.left_y - PADDLE_SPEED);
        } else if key == 115 || key == 83 {
            self.left_y = clamp_paddle(self.left_y + PADDLE_SPEED);
        } else if key == 105 || key == 73 {
            self.right_y = clamp_paddle(self.right_y - PADDLE_SPEED);
        } else if key == 107 || key == 75 {
            self.right_y = clamp_paddle(self.right_y + PADDLE_SPEED);
        } else if key == 113 || key == 81 {
            return true;
        }
        false
    }

    /// One tick of the ball: it moves by its steps and bounces off the top
    /// and bottom; a paddle that meets it sends it back, a little faster
    /// while the speed is under 10; when it leaves the court on one side,
    /// the other player scores and the ball is served again.
    pub fn tick(&mut self)
        requires
            old(self).wf(),
            old(self).left_score + old(self).right_score + 1 < usize::MAX,
        ensures
            final(self).wf(),
            ({
                let pre = *old(self);
                let x1 = pre.ball_x + pre.vx;
                let y1 = pre.ball_y + pre.vy;
                let bounce = y1 <= 0 || y1 + BALL_SIZE >= HEIGHT;
                let vy = if bounce { -pre.vy } else { pre.vy as int };
                let y2 = if bounce { if y1 < 0 { 0 } else if y1 > HEIGHT - BALL_SIZE { (HEIGHT - BALL_SIZE) as int } else { y1 } } else { y1 };
                let left_hit = x1 <= 34 && x1 >= 20 && y2 + BALL_SIZE >= pre.left_y && y2 <= pre.left_y + PADDLE_H;
                let right_hit = x1 + BALL_SIZE >= WIDTH - 34 && x1 + BALL_SIZE <= WIDTH - 20
                    && y2 + BALL_SIZE >= pre.right_y && y2 <= pre.right_y + PADDLE_H;
                let boost = if pre.speed < 10 { 1int } else { 0int };
                let abs_vx = if pre.vx < 0 { -pre.vx } else { pre.vx as int };
                let vx = if left_hit { abs_vx + boost } else if right_hit { -abs_vx - boost } else { pre.vx as int };
                let speed = if left_hit || right_hit { if pre.speed + 1 < 99 { pre.speed + 1 } else { 99 } } else { pre.speed as int };
                &&& final(self).left_y == pre.left_y
                &&& final(self).right_y == pre.right_y
                &&& if x1 < -BALL_SIZE {
                    &&& final(self).right_score == pre.right_score + 1
                    &&& final(self).left_score == pre.left_score
                    &&& final(self).speed == 1
                    &&& (final(self).ball_x, final(self).ball_y, final(self).vx, final(self).vy)
                        == spec_reset_ball(pre.left_score as int, pre.right_score + 1)
                } else if x1 > WIDTH {
                    &&& final(self).left_score == pre.left_score + 1
                    &&& final(self).right_score == pre.right_score
                    &&& final(self).speed == 1
                    &&& (final(self).ball_x, final(self).ball_y, final(self).vx, final(self).vy)
                        == spec_reset_ball(pre.left_score + 1, pre.right_score as int)
                } else {
                    &&& final(self).left_score == pre.left_score
                    &&& final(self).right_score == pre.right_score
                    &&& final(self).speed == speed
                    &&& final(self).ball_x == x1
                    &&& final(self).ball_y == y2
                    &&& final(self).vx == vx
                    &&& final(self).vy == vy
                }
            }),
            *final(self) == ticked(*old(self)),
    {
        self.ball_x += self.vx;
        self.ball_y += self.vy;
        if self.ball_y <= 0 || self.ball_y + BALL_SIZE >= HEIGHT {
            self.vy = -self.vy;
            let lo = if self.ball_y > 0 { self.ball_y } else { 0 };
            self.ball_y = if lo < HEIGHT - BALL_SIZE { lo } else { HEIGHT - BALL_SIZE };
        }
        let left_hit = self.ball_x <= 34 && self.ball_x >= 20 && self.ball_y + BALL_SIZE >= self.left_y
            && self.ball_y <= self.left_y + PADDLE_H;
        let right_hit = self.ball_x + BALL_SIZE >= WIDTH - 34 && self.ball_x + BALL_SIZE <= WIDTH - 20
            && self.ball_y + BALL_SIZE >= self.right_y && self.ball_y <= self.right_y + PADDLE_H;
        let boost = if self.speed < 10 { 1 } else { 0 };
        let abs_vx = if self.vx < 0 { -self.vx } else { self.vx };
        if left_hit {
            self.vx = abs_vx + boost;
            self.speed = if self.speed + 1 < 99 { self.speed + 1 } else { 99 };
        } else if right_hit {
            self.vx = -abs_vx - boost;
            self.speed = if self.speed + 1 < 99 { self.speed + 1 } else { 99 };
        }
        if self.ball_x < -BALL_SIZE {
            self.right_score += 1;
            self.speed = 1;
            let (bx, by, vx, vy) = reset_ball(self.left_score, self.right_score);
            self.ball_x = bx;
            self.ball_y = by;
            self.vx = vx;
            self.vy = vy;
        } else if self.ball_x > WIDTH {
            self.left_score += 1;
            self.speed = 1;
            let (bx, by, vx, vy) = reset_ball(self.left_score, self.right_score);
            self.ball_x = bx;
            self.ball_y = by;
            self.vx = vx;
            self.vy = vy;
        }
    }

    /// The bytes of the frame record for this state.
    pub open spec fn frame_wire(&self, game_over: bool) -> Seq<u8> {
        pingpong_frame_wire(PINGPONG_FRAME_MAGIC, WIDTH as u32, HEIGHT as u32, self.left_y, self.right_y,
            self.ball_x, self.ball_y, self.left_score as u32, self.right_score as u32, self.speed as u32,
            if game_over { 1 } else { 0 })
    }

    /// The frame record of this state, as sent to the kernel.
    pub fn frame_bytes(&self, game_over: bool) -> (bytes: Vec<u8>)
        ensures
            bytes@ == self.frame_wire(game_over),
    {
        encode_pingpong_frame(&PingpongFrame {
            magic: PINGPONG_FRAME_MAGIC,
            width: WIDTH as u32,
            height: HEIGHT as u32,
            left_y: self.left_y,
            right_y: self.right_y,
            ball_x: self.ball_x,
            ball_y: self.ball_y,
            left_score: self.left_score as u32,
            right_score: self.right_score as u32,
            speed: self.speed as u32,
            game_over: if game_over { 1 } else { 0 },
        })
    }
}

/// The content of a pingpong frame record.
#[derive(Clone, Copy, Debug, PartialEq, Eq, Structural)]
pub struct PingpongFrame {
    /// [`PINGPONG_FRAME_MAGIC`].
    pub magic: u32,
    /// Court width.
    pub width: u32,
    /// Court height.
    pub height: u32,
    /// Top of the left paddle.
    pub left_y: i32,
    /// Top of the right paddle.
    pub right_y: i32,
    /// Ball column.
    pub ball_x: i32,
    /// Ball row.
    pub ball_y: i32,
    /// Points of the left player.
    pub left_score: u32,
    /// Points of the right player.
    pub right_score: u32,
    /// Rally speed.
    pub speed: u32,
    /// Non-zero once the game is over.
    pub game_over: u32,
}

/// The bytes of a pingpong frame record: eleven little-endian words.
pub open spec fn pingpong_frame_wire(
    magic: u32,
    width: u32,
    height: u32,
    left_y: i32,
    right_y: i32,
    ball_x: i32,
    ball_y: i32,
    left_score: u32,
    right_score: u32,
    speed: u32,
    game_over: u32,
) -> Seq<u8> {
    le_bytes(magic) + le_bytes(width) + le_bytes(height) + le_bytes_i32(left_y) + le_bytes_i32(right_y)
        + le_bytes_i32(ball_x) + le_bytes_i32(ball_y) + le_bytes(left_score) + le_bytes(right_score)
        + le_bytes(speed) + le_bytes(game_over)
}

impl PingpongFrame {
    /// The record's bytes.
    pub open spec fn wire(&self) -> Seq<u8> {
        pingpong_frame_wire(self.magic, self.width, self.height, self.left_y, self.right_y, self.ball_x,
            self.ball_y, self.left_score, self.right_score, self.speed, self.game_over)
    }
}

/// Encodes a pingpong frame record.
pub fn encode_pingpong_frame(frame: &PingpongFrame) -> (bytes: Vec<u8>)
    ensures
        bytes@ == frame.wire(),
{
    let mut out: Vec<u8> = Vec::new();
    push_u32(&mut out, frame.magic);
    push_u32(&mut out, frame.width);
    push_u32(&mut out, frame.height);
    push_i32(&mut out, frame.left_y);
    push_i32(&mut out, frame.right_y);
    push_i32(&mut out, frame.ball_x);
    push_i32(&mut out, frame.ball_y);
    push_u32(&mut out, frame.left_score);
    push_u32(&mut out, frame.right_score);
    push_u32(&mut out, frame.speed);
    push_u32(&mut out, frame.game_over);
    out
}

} // verus!
