//! The rules of the snake game: steering, moving with wrap-around, eating
//! and growing, biting itself, the text picture and the frame record that
//! the user program sends to the kernel.
use vstd::prelude::*;
use vstd::string::*;

use crate::text::{decimal, decimal_text, push_str};
use crate::wire::{le_bytes, push_u32, push_bytes};

verus! {

/// Board width in cells.
pub const WIDTH: i32 = 24;
/// Board height in cells.
pub const HEIGHT: i32 = 12;
/// Longest snake.
pub const MAX_SNAKE: usize = 64;
/// Frames that a game lasts.
pub const MAX_FRAMES: usize = 90;
/// Tag of a snake frame record.
pub const SNAKE_FRAME_MAGIC: u32 = 0x534E_4B33;
/// Size in bytes of a snake frame record.
pub const SNAKE_FRAME_SIZE: usize = 152;

/// A board cell.
#[derive(Clone, Copy, Debug, PartialEq, Eq, Structural)]
pub struct Point {
    /// Column.
    pub x: i32,
    /// Row.
    pub y: i32,
}

impl Point {
    /// The cell `(x, y)`.
    pub fn new(x: i32, y: i32) -> (p: Self)
        ensures
            p == (Point { x, y }),
    {
        Self { x, y }
    }
}

/// `p` lies on the board.
pub open spec fn on_board(p: Point) -> bool {
    0 <= p.x < WIDTH && 0 <= p.y < HEIGHT
}

/// Where the next food appears after `food` is eaten.
pub open spec fn spec_next_food(food: Point) -> Point {
    Point { x: ((food.x * 7 + 5) % (WIDTH as int)) as i32, y: ((food.y * 5 + 3) % (HEIGHT as int)) as i32 }
}

/// Where the next food appears after `food` is eaten: a fixed scramble of
/// its coordinates, wrapped onto the board.
pub fn next_food(food: Point) -> (next: Point)
    requires
        i32::MIN <= food.x * 7,
        food.x * 7 + 5 <= i32::MAX,
        i32::MIN <= food.y * 5,
        food.y * 5 + 3 <= i32::MAX,
    ensures
        next == spec_next_food(food),
        on_board(next),
{
    let x = match (food.x * 7 + 5).checked_rem_euclid(WIDTH) {
        Some(r) => r,
        None => 0,
    };
    let y = match (food.y * 5 + 3).checked_rem_euclid(HEIGHT) {
        Some(r) => r,
        None => 0,
    };
    Point::new(x, y)
}

/// The state of a snake game.
pub struct Snake {
    /// Body cells, head first; only the first `len` are part of the snake.
    pub body: Vec<Point>,
    /// Length of the snake.
    pub len: usize,
    /// Column step per frame.
    pub dx: i32,
    /// Row step per frame.
    pub dy: i32,
    /// The food cell.
    pub food: Point,
    /// Food eaten.
    pub score: usize,
}

/// The direction a key turns to, given the current one: `w`/`s` turn up or
/// down only while moving sideways, `a`/`d` turn left or right only while
/// moving up or down; other keys keep the direction.
pub open spec fn steered(dx: i32, dy: i32, key: u8) -> (i32, i32) {
    if (key == 119 || key == 87) && dy == 0 {
        (0, -1i32)
    } else if (key == 115 || key == 83) && dy == 0 {
        (0, 1)
    } else if (key == 97 || key == 65) && dx == 0 {
        (-1i32, 0)
    } else if (key == 100 || key == 68) && dx == 0 {
        (1, 0)
    } else {
        (dx, dy)
    }
}

/// Steering the snake: while it moves sideways, `s` (either case) turns it
/// to the next row (down) and `w` the opposite way, while `a` and `d` keep
/// its course; while it moves up or down, `d` turns it to the next column
/// (right) and `a` the opposite way, while `w` and `s` keep its course;
/// other keys keep its course; and a moving snake never turns back onto
/// itself.
pub proof fn lemma_steered_law(dx: i32, dy: i32, key: u8)
    requires
        (dx == 0) != (dy == 0),
        -1 <= dx <= 1,
        -1 <= dy <= 1,
    ensures
        dy == 0 ==> steered(dx, dy, 115u8) == (0i32, 1i32) && steered(dx, dy, 83u8) == (0i32, 1i32),
        dy == 0 ==> steered(dx, dy, 119u8).0 == -steered(dx, dy, 115u8).0
            && steered(dx, dy, 119u8).1 == -steered(dx, dy, 115u8).1 && steered(dx, dy, 87u8) == steered(dx, dy, 119u8),
        dy == 0 ==> steered(dx, dy, 97u8) == (dx, dy) && steered(dx, dy, 100u8) == (dx, dy),
        dx == 0 ==> steered(dx, dy, 100u8) == (1i32, 0i32) && steered(dx, dy, 68u8) == (1i32, 0i32),
        dx == 0 ==> steered(dx, dy, 97u8).0 == -steered(dx, dy, 100u8).0
            && steered(dx, dy, 97u8).1 == -steered(dx, dy, 100u8).1 && steered(dx, dy, 65u8) == steered(dx, dy, 97u8),
        dx == 0 ==> steered(dx, dy, 119u8) == (dx, dy) && steered(dx, dy, 115u8) == (dx, dy),
        !(key == 119 || key == 87 || key == 97 || key == 65 || key == 115 || key == 83 || key == 100 || key == 68)
            ==> steered(dx, dy, key) == (dx, dy),
        steered(dx, dy, key).0 != -dx || steered(dx, dy, key).1 != -dy,
        (steered(dx, dy, key).0 == 0) != (steered(dx, dy, key).1 == 0),
{
}

/// The direction that the scripted run turns to at `frame`.
pub open spec fn scripted_direction(dx: i32, dy: i32, frame: int) -> (i32, i32) {
    if frame == 20 {
        (0, 1)
    } else if frame == 45 {
        (1, 0)
    } else if frame == 70 {
        (0, -1i32)
    } else {
        (dx, dy)
    }
}

impl Snake {
    /// The body table is full size, every cell of it and the food lie on the
    /// board, and the direction is a unit step or standing still.
    pub open spec fn wf(&self) -> bool {
        &&& self.body@.len() == MAX_SNAKE
        &&& 1 <= self.len <= MAX_SNAKE
        &&& forall|i: int| 0 <= i < MAX_SNAKE ==> on_board(#[trigger] self.body@[i])
        &&& on_board(self.food)
        &&& -1 <= self.dx <= 1
        &&& -1 <= self.dy <= 1
    }

    /// The head after one more step, wrapping around the board edges.
    pub open spec fn next_head(&self) -> Point {
        Point {
            x: ((self.body@[0].x + self.dx) % (WIDTH as int)) as i32,
            y: ((self.body@[0].y + self.dy) % (HEIGHT as int)) as i32,
        }
    }

    /// One step of the head: it moves one cell along `(dx, dy)` and wraps
    /// around the board, so it stays on the board, lands where the step
    /// takes it when that is on the board, and otherwise on the opposite
    /// edge.
    pub proof fn lemma_next_head_law(&self)
        requires
            self.wf(),
        ensures
            on_board(self.next_head()),
            on_board(Point { x: (self.body@[0].x + self.dx) as i32, y: (self.body@[0].y + self.dy) as i32 })
                ==> self.next_head().x == self.body@[0].x + self.dx && self.next_head().y == self.body@[0].y + self.dy,
            self.body@[0].x + self.dx == WIDTH ==> self.next_head().x == 0,
            self.body@[0].x + self.dx == -1 ==> self.next_head().x == WIDTH - 1,
            self.body@[0].y + self.dy == HEIGHT ==> self.next_head().y == 0,
            self.body@[0].y + self.dy == -1 ==> self.next_head().y == HEIGHT - 1,
    {
        assert(on_board(self.body@[0]));
    }

    /// A new game: a snake of four cells heading right, food at `(14, 6)`.
    pub fn new() -> (s: Self)
        ensures
            s.wf(),
            s.len == 4,
            s.body@ == seq![Point { x: 6, y: 4 }, Point { x: 5, y: 4 }, Point { x: 4, y: 4 }, Point { x: 3, y: 4 }]
                + Seq::new((MAX_SNAKE - 4) as nat, |i: int| Point { x: 0, y: 0 }),
            s.dx == 1,
            s.dy == 0,
            s.food == (Point { x: 14, y: 6 }),
            s.score == 0,
    {
        let mut body = vec![Point::new(0, 0); MAX_SNAKE];
        body.set(0, Point::new(6, 4));
        body.set(1, Point::new(5, 4));
        body.set(2, Point::new(4, 4));
        body.set(3, Point::new(3, 4));
        let s = Snake { body, len: 4, dx: 1, dy: 0, food: Point::new(14, 6), score: 0 };
        proof {
            assert(s.body@ =~= seq![Point { x: 6, y: 4 }, Point { x: 5, y: 4 }, Point { x: 4, y: 4 }, Point { x: 3, y: 4 }]
                + Seq::new((MAX_SNAKE - 4) as nat, |i: int| Point { x: 0, y: 0 }));
        }
        s
    }

    /// Turns the snake by a key; see [`steered`].
    pub fn steer(&mut self, key: u8)
        requires
            old(self).wf(),
        ensures
            final(self).wf(),
            (final(self).dx, final(self).dy) == steered(old(self).dx, old(self).dy, key),
            final(self).body == old(self).body,
            final(self).len == old(self).len,
            final(self).food == old(self).food,
            final(self).score == old(self).score,
    {
        if (key == 119 || key == 87) && self.dy == 0 {
            self.dx = 0;
            self.dy = -1;
        } else if (key == 115 || key == 83) && self.dy == 0 {
            self.dx = 0;
            self.dy = 1;
        } else if (key == 97 || key == 65) && self.dx == 0 {
            self.dx = -1;
            self.dy = 0;
        } else if (key == 100 || key == 68) && self.dx == 0 {
            self.dx = 1;
            self.dy = 0;
        }
    }

    /// Turns the snake as the scripted run does at `frame`: down at frame
    /// 20, right at 45, up at 70.
    pub fn scripted_steer(&mut self, frame: usize)
        requires
            old(self).wf(),
        ensures
            final(self).wf(),
            (final(self).dx, final(self).dy) == scripted_direction(old(self).dx, old(self).dy, frame as int),
            final(self).body == old(self).body,
            final(self).len == old(self).len,
            final(self).food == old(self).food,
            final(self).score == old(self).score,
    {
        if frame == 20 {
            self.dx = 0;
            self.dy = 1;
        } else if frame == 45 {
            self.dx = 1;
            self.dy = 0;
        } else if frame == 70 {
            self.dx = 0;
            self.dy = -1;
        }
    }

    /// One step: the head moves one cell, wrapping around the board; if it
    /// reaches the food and the snake is shorter than [`MAX_SNAKE`], the
    /// snake grows by one, scores, and new food appears.
    pub fn advance(&mut self)
        requires
            old(self).wf(),
            old(self).score < usize::MAX,
        ensures
            final(self).wf(),
            ({
                let pre = *old(self);
                let head = pre.next_head();
                let grow = head == pre.food && pre.len < MAX_SNAKE;
                let len = if grow { pre.len + 1 } else { pre.len as int };
                &&& final(self).len == len
                &&& final(self).score == if grow { pre.score + 1 } else { pre.score as int }
                &&& final(self).food == if grow { spec_next_food(pre.food) } else { pre.food }
                &&& final(self).body@ == seq![head] + pre.body@.subrange(0, len - 1) + pre.body@.subrange(len, MAX_SNAKE as int)
                &&& final(self).dx == pre.dx
                &&& final(self).dy == pre.dy
            }),
    {
        let ghost pre = *self;
        let old_head = self.body[0];
        proof {
            assert(on_board(self.body@[0]));
        }
        let hx = match (old_head.x + self.dx).checked_rem_euclid(WIDTH) {
            Some(r) => r,
            None => 0,
        };
        let hy = match (old_head.y + self.dy).checked_rem_euclid(HEIGHT) {
            Some(r) => r,
            None => 0,
        };
        let head = Point::new(hx, hy);
        let ate = head.x == self.food.x && head.y == self.food.y;
        if ate && self.len < MAX_SNAKE {
            self.len += 1;
            self.score += 1;
            self.food = next_food(self.food);
        }
        let len = self.len;
        let ghost mid = *self;
        let mut i = len;
        while i > 1
            invariant
                self.len == mid.len,
                self.food == mid.food,
                self.score == mid.score,
                self.dx == mid.dx,
                self.dy == mid.dy,
                len == mid.len,
                pre.wf(),
                1 <= i <= len <= MAX_SNAKE,
                self.body@.len() == MAX_SNAKE,
                forall|j: int| 0 <= j < i ==> #[trigger] self.body@[j] == pre.body@[j],
                forall|j: int| i <= j < len ==> #[trigger] self.body@[j] == pre.body@[j - 1],
                forall|j: int| len <= j < MAX_SNAKE ==> #[trigger] self.body@[j] == pre.body@[j],
            decreases i,
        {
            i -= 1;
            let prev = self.body[i - 1];
            self.body.set(i, prev);
        }
        self.body.set(0, head);
        proof {
            assert(self.body@ =~= seq![head] + pre.body@.subrange(0, len - 1) + pre.body@.subrange(len as int, MAX_SNAKE as int));
            assert forall|j: int| 0 <= j < MAX_SNAKE implies on_board(#[trigger] self.body@[j]) by {
                if j > 0 && j < len {
                    assert(on_board(pre.body@[j - 1]));
                }
            }
        }
    }

    /// Whether the head lies on another cell of the snake.
    pub open spec fn spec_bites_itself(&self) -> bool {
        exists|i: int| 1 <= i < self.len && #[trigger] self.body@[i] == self.body@[0]
    }

    /// If the head lies on another cell of the snake, the snake shrinks back
    /// to four cells. Returns whether it did.
    pub fn check_bite(&mut self) -> (bitten: bool)
        requires
            old(self).wf(),
        ensures
            bitten == old(self).spec_bites_itself(),
            final(self).len == if bitten { 4 } else { old(self).len },
            final(self).body == old(self).body,
            final(self).dx == old(self).dx,
            final(self).dy == old(self).dy,
            final(self).food == old(self).food,
            final(self).score == old(self).score,
            final(self).wf(),
    {
        let ghost pre = *self;
        let head = self.body[0];
        let mut i: usize = 1;
        while i < self.len
            invariant
                *self == pre,
                pre == *old(self),
                self.wf(),
                1 <= i <= self.len,
                head == self.body@[0],
                forall|j: int| 1 <= j < i ==> #[trigger] self.body@[j] != head,
            decreases self.len - i,
        {
            let p = self.body[i];
            if p.x == head.x && p.y == head.y {
                proof {
                    assert(p == head);
                    assert(pre.body@[i as int] == pre.body@[0]);
                    assert(pre == *old(self));
                }
                self.len = 4;
                return true;
            }
            i += 1;
        }
        false
    }

    /// The character shown for cell `(x, y)`: `*` for food, `@` for the
    /// head, `o` for the rest of the snake, a space otherwise.
    pub open spec fn spec_cell_char(&self, x: int, y: int) -> u8 {
        if self.food.x == x && self.food.y == y {
            42
        } else if self.body@[0].x == x && self.body@[0].y == y {
            64
        } else if exists|i: int| 1 <= i < self.len && (#[trigger] self.body@[i]).x == x && self.body@[i].y == y {
            111
        } else {
            32
        }
    }

    /// The character shown for cell `(x, y)`.
    pub fn cell_char(&self, x: i32, y: i32) -> (c: u8)
        requires
            self.wf(),
        ensures
            c == self.spec_cell_char(x as int, y as int),
    {
        if self.food.x == x && self.food.y == y {
            return 42;
        }
        let mut idx: usize = 0;
        while idx < self.len
            invariant
                self.wf(),
                idx <= self.len,
                !(self.food.x == x && self.food.y == y),
                idx > 0 ==> !(self.body@[0].x == x && self.body@[0].y == y),
                forall|j: int| 1 <= j < idx ==> !((#[trigger] self.body@[j]).x == x && self.body@[j].y == y),
            decreases self.len - idx,
        {
            let point = self.body[idx];
            if point.x == x && point.y == y {
                if idx == 0 {
                    return 64;
                } else {
                    return 111;
                }
            }
            idx += 1;
        }
        32
    }

    /// The snake cells as a frame record holds them: the first `len` body
    /// cells, then `(0, 0)`.
    pub open spec fn frame_points(&self) -> Seq<FramePoint> {
        Seq::new(MAX_SNAKE as nat, |i: int|
            if i < self.len { FramePoint { x: self.body@[i].x as u8, y: self.body@[i].y as u8 } } else { FramePoint { x: 0, y: 0 } })
    }

    /// The bytes of the frame record that the kernel draws for this state.
    pub open spec fn frame_wire(&self) -> Seq<u8> {
        snake_frame_wire(SNAKE_FRAME_MAGIC, WIDTH as u32, HEIGHT as u32, self.len as u32, self.score as u32,
            FramePoint { x: self.food.x as u8, y: self.food.y as u8 }, self.frame_points())
    }

    /// The frame record of this state, as sent to the kernel.
    pub fn frame_bytes(&self) -> (bytes: Vec<u8>)
        requires
            self.wf(),
        ensures
            bytes@ == self.frame_wire(),
    {
        let mut points: Vec<FramePoint> = Vec::new();
        let mut i: usize = 0;
        while i < MAX_SNAKE
            invariant
                self.wf(),
                i <= MAX_SNAKE,
                points@ == self.frame_points().subrange(0, i as int),
            decreases MAX_SNAKE - i,
        {
            let p = if i < self.len {
                let b = self.body[i];
                FramePoint { x: b.x as u8, y: b.y as u8 }
            } else {
                FramePoint::zero()
            };
            points.push(p);
            i += 1;
            proof {
                assert(points@ =~= self.frame_points().subrange(0, i as int));
            }
        }
        proof {
            assert(points@ =~= self.frame_points());
        }
        encode_snake_frame(
            SNAKE_FRAME_MAGIC,
            WIDTH as u32,
            HEIGHT as u32,
            self.len as u32,
            self.score as u32,
            FramePoint { x: self.food.x as u8, y: self.food.y as u8 },
            &points,
        )
    }
}

/// A cell as stored in a frame record.
#[derive(Clone, Copy, Debug, PartialEq, Eq, Structural)]
pub struct FramePoint {
    /// Column.
    pub x: u8,
    /// Row.
    pub y: u8,
}

impl FramePoint {
    /// The cell `(0, 0)`.
    pub fn zero() -> (p: Self)
        ensures
            p == (FramePoint { x: 0, y: 0 }),
    {
        Self { x: 0, y: 0 }
    }
}

/// The content of a snake frame record.
pub struct SnakeFrame {
    /// [`SNAKE_FRAME_MAGIC`].
    pub magic: u32,
    /// Board width in cells.
    pub width: u32,
    /// Board height in cells.
    pub height: u32,
    /// Length of the snake.
    pub len: u32,
    /// Score.
    pub score: u32,
    /// Food cell.
    pub food: FramePoint,
    /// Snake cells, head first; [`MAX_SNAKE`] of them.
    pub snake: Vec<FramePoint>,
}

/// The bytes of a sequence of frame cells, two per cell.
pub open spec fn points_wire(points: Seq<FramePoint>) -> Seq<u8>
    decreases points.len(),
{
    if points.len() == 0 {
        Seq::empty()
    } else {
        points_wire(points.drop_last()) + seq![points.last().x, points.last().y]
    }
}

/// The bytes of a snake frame record: five little-endian words, the food
/// cell, two bytes of padding, then the snake cells.
pub open spec fn snake_frame_wire(
    magic: u32,
    width: u32,
    height: u32,
    len: u32,
    score: u32,
    food: FramePoint,
    snake: Seq<FramePoint>,
) -> Seq<u8> {
    le_bytes(magic) + le_bytes(width) + le_bytes(height) + le_bytes(len) + le_bytes(score)
        + seq![food.x, food.y, 0u8, 0u8] + points_wire(snake)
}

impl SnakeFrame {
    /// The record's bytes.
    pub open spec fn wire(&self) -> Seq<u8> {
        snake_frame_wire(self.magic, self.width, self.height, self.len, self.score, self.food, self.snake@)
    }
}

/// The bytes of a sequence of frame cells have two per cell.
pub proof fn lemma_points_wire_len(points: Seq<FramePoint>)
    ensures
        points_wire(points).len() == 2 * points.len(),
    decreases points.len(),
{
    if points.len() > 0 {
        lemma_points_wire_len(points.drop_last());
    }
}

/// The bytes of cell `i` sit at `2 * i`.
pub proof fn lemma_points_wire_index(points: Seq<FramePoint>, i: int)
    requires
        0 <= i < points.len(),
    ensures
        points_wire(points)[2 * i] == points[i].x,
        points_wire(points)[2 * i + 1] == points[i].y,
    decreases points.len(),
{
    lemma_points_wire_len(points.drop_last());
    if i < points.len() - 1 {
        lemma_points_wire_index(points.drop_last(), i);
    }
}

/// Encodes a snake frame record.
pub fn encode_snake_frame(
    magic: u32,
    width: u32,
    height: u32,
    len: u32,
    score: u32,
    food: FramePoint,
    snake: &Vec<FramePoint>,
) -> (bytes: Vec<u8>)
    ensures
        bytes@ == snake_frame_wire(magic, width, height, len, score, food, snake@),
{
    let mut out: Vec<u8> = Vec::new();
    push_u32(&mut out, magic);
    push_u32(&mut out, width);
    push_u32(&mut out, height);
    push_u32(&mut out, len);
    push_u32(&mut out, score);
    out.push(food.x);
    out.push(food.y);
    out.push(0);
    out.push(0);
    let ghost head = out@;
    let mut i: usize = 0;
    while i < snake.len()
        invariant
            i <= snake.len(),
            out@ == head + points_wire(snake@.subrange(0, i as int)),
        decreases snake.len() - i,
    {
        out.push(snake[i].x);
        out.push(snake[i].y);
        proof {
            assert(snake@.subrange(0, i + 1).drop_last() =~= snake@.subrange(0, i as int));
        }
        i += 1;
    }
    proof {
        assert(snake@.subrange(0, snake@.len() as int) =~= snake@);
        assert(head =~= le_bytes(magic) + le_bytes(width) + le_bytes(height) + le_bytes(len) + le_bytes(score)
            + seq![food.x, food.y, 0u8, 0u8]);
    }
    out
}

/// The top and bottom border of the text picture.
pub open spec fn border_text() -> Seq<u8> {
    seq![43u8] + Seq::new(24, |i: int| 45u8) + seq![43u8, 10u8]
}

/// The first `n` rows of the text picture, each between bars.
pub open spec fn board_rows_text(s: Snake, n: int) -> Seq<u8>
    decreases n,
{
    if n <= 0 {
        Seq::empty()
    } else {
        board_rows_text(s, n - 1) + seq![124u8] + Seq::new(24, |x: int| s.spec_cell_char(x, n - 1)) + seq![124u8, 10u8]
    }
}

/// The console picture of the game at `frame`: a cleared screen, a title
/// line with the score and the frame count, and the board in a border.
pub open spec fn screen_text(s: Snake, frame: nat) -> Seq<u8> {
    "\x1b[2J\x1b[H".spec_bytes() + "ch3 snake demo | wasd control | score ".spec_bytes() + decimal(s.score as nat)
        + " | frame ".spec_bytes() + decimal(frame) + "/90\n".spec_bytes() + border_text()
        + board_rows_text(s, HEIGHT as int) + border_text()
}

/// Appends the top or bottom border of the text picture.
fn push_border(out: &mut Vec<u8>)
    ensures
        final(out)@ == old(out)@ + border_text(),
{
    out.push(43);
    let mut i: i32 = 0;
    while i < WIDTH
        invariant
            0 <= i <= WIDTH,
            out@ == old(out)@ + seq![43u8] + Seq::new(i as nat, |j: int| 45u8),
        decreases WIDTH - i,
    {
        out.push(45);
        i += 1;
        proof {
            assert(out@ =~= old(out)@ + seq![43u8] + Seq::new(i as nat, |j: int| 45u8));
        }
    }
    out.push(43);
    out.push(10);
    proof {
        assert(out@ =~= old(out)@ + border_text());
    }
}

impl Snake {
    /// The console picture of the game at `frame`.
    pub fn screen_text(&self, frame: usize) -> (text: Vec<u8>)
        requires
            self.wf(),
        ensures
            text@ == screen_text(*self, frame as nat),
    {
        let mut out: Vec<u8> = Vec::new();
        push_str(&mut out, "\x1b[2J\x1b[H");
        push_str(&mut out, "ch3 snake demo | wasd control | score ");
        let score = decimal_text(self.score);
        push_bytes(&mut out, &score);
        push_str(&mut out, " | frame ");
        let count = decimal_text(frame);
        push_bytes(&mut out, &count);
        push_str(&mut out, "/90\n");
        push_border(&mut out);
        let ghost head = out@;
        proof {
            assert(board_rows_text(*self, 0) =~= Seq::<u8>::empty());
        }
        let mut y: i32 = 0;
        while y < HEIGHT
            invariant
                self.wf(),
                0 <= y <= HEIGHT,
                out@ == head + board_rows_text(*self, y as int),
            decreases HEIGHT - y,
        {
            out.push(124);
            let ghost line_start = out@;
            let mut x: i32 = 0;
            while x < WIDTH
                invariant
                    self.wf(),
                    0 <= y < HEIGHT,
                    0 <= x <= WIDTH,
                    out@ == line_start + Seq::new(x as nat, |c: int| self.spec_cell_char(c, y as int)),
                decreases WIDTH - x,
            {
                let c = self.cell_char(x, y);
                out.push(c);
                x += 1;
                proof {
                    assert(out@ =~= line_start + Seq::new(x as nat, |c: int| self.spec_cell_char(c, y as int)));
                }
            }
            out.push(124);
            out.push(10);
            proof {
                assert(out@ =~= head + board_rows_text(*self, y + 1));
            }
            y += 1;
        }
        push_border(&mut out);
        out
    }
}

} // verus!
