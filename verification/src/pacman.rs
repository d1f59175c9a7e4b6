//! The rules of the pacman game: the maze, moving pacman and eating dots,
//! the ghost's chase, catching, winning, the scripted route, and the frame
//! record that the user program sends to the kernel.
use vstd::prelude::*;
use vstd::string::*;

use crate::wire::{le_bytes, push_u32, push_bytes};

verus! {

/// Maze width in cells.
pub const MAP_W: usize = 19;
/// Maze height in cells.
pub const MAP_H: usize = 15;
/// Number of maze cells.
pub const MAP_SIZE: usize = 285;
/// Tag of a pacman frame record.
pub const PACMAN_FRAME_MAGIC: u32 = 0x5041_434D;
/// Size in bytes of a pacman frame record, padding included.
pub const PACMAN_FRAME_SIZE: usize = 332;
/// Maze cell holding a wall.
pub const WALL: u8 = 1;
/// Maze cell holding a dot.
pub const DOT: u8 = 2;

/// Row `y` of the maze as drawn: `#` wall, `.` dot, `P` pacman's start.
pub open spec fn maze_row(y: int) -> Seq<char> {
    if y == 0 { "###################"@ }
    else if y == 1 { "#........#........#"@ }
    else if y == 2 { "#.###.##.#.##.###.#"@ }
    else if y == 3 { "#.................#"@ }
    else if y == 4 { "#.##.#.#####.#.##.#"@ }
    else if y == 5 { "#....#...#...#....#"@ }
    else if y == 6 { "####.### # ###.####"@ }
    else if y == 7 { "   #.#       #.#   "@ }
    else if y == 8 { "####.# ## ## #.####"@ }
    else if y == 9 { "#........#........#"@ }
    else if y == 10 { "#.##.###.#.###.##.#"@ }
    else if y == 11 { "#..#.....P.....#..#"@ }
    else if y == 12 { "##.#.#.#####.#.#.##"@ }
    else if y == 13 { "#....#.......#....#"@ }
    else { "###################"@ }
}

/// Row `y` of the maze as drawn.
fn maze_row_text(y: usize) -> (row: &'static str)
    requires
        y < MAP_H,
    ensures
        row@ == maze_row(y as int),
        is_ascii(row),
        row@.len() == MAP_W,
{
    let row = match y {
        0 => "###################",
        1 => "#........#........#",
        2 => "#.###.##.#.##.###.#",
        3 => "#.................#",
        4 => "#.##.#.#####.#.##.#",
        5 => "#....#...#...#....#",
        6 => "####.### # ###.####",
        7 => "   #.#       #.#   ",
        8 => "####.# ## ## #.####",
        9 => "#........#........#",
        10 => "#.##.###.#.###.##.#",
        11 => "#..#.....P.....#..#",
        12 => "##.#.#.#####.#.#.##",
        13 => "#....#.......#....#",
        _ => "###################",
    };
    proof {
        reveal_strlit("###################");
        reveal_strlit("#........#........#");
        reveal_strlit("#.###.##.#.##.###.#");
        reveal_strlit("#.................#");
        reveal_strlit("#.##.#.#####.#.##.#");
        reveal_strlit("#....#...#...#....#");
        reveal_strlit("####.### # ###.####");
        reveal_strlit("   #.#       #.#   ");
        reveal_strlit("####.# ## ## #.####");
        reveal_strlit("#........#........#");
        reveal_strlit("#.##.###.#.###.##.#");
        reveal_strlit("#..#.....P.....#..#");
        reveal_strlit("##.#.#.#####.#.#.##");
        reveal_strlit("#....#.......#....#");
    }
    row
}

/// The maze cell for a drawn character.
pub open spec fn cell_code(c: char) -> u8 {
    if c == '#' { WALL } else if c == '.' { DOT } else { 0 }
}

/// The maze at the start of a game, row by row.
pub open spec fn initial_map() -> Seq<u8> {
    Seq::new(MAP_SIZE as nat, |k: int| cell_code(maze_row(k / 19)[k % 19]))
}

/// Number of dots among the first `n` cells of `map`.
pub open spec fn count_dots(map: Seq<u8>, n: int) -> int
    decreases n,
{
    if n <= 0 { 0 } else { count_dots(map, n - 1) + if map[n - 1] == DOT { 1int } else { 0int } }
}

/// The walls of `map` are those of the maze as drawn.
pub open spec fn walls_fixed(map: Seq<u8>) -> bool {
    forall|k: int| 0 <= k < MAP_SIZE ==> (#[trigger] map[k] == WALL) == (initial_map()[k] == WALL)
}

/// The start cells of pacman and the ghost hold no wall, and the maze has
/// a dot.
pub proof fn lemma_start_cells_open()
    ensures
        initial_map()[218] == 0,
        initial_map()[142] == 0,
        initial_map()[20] == DOT,
{
    reveal_strlit("   #.#       #.#   ");
    reveal_strlit("#..#.....P.....#..#");
    reveal_strlit("#........#........#");
}

/// A maze cell.
#[derive(Clone, Copy, Debug, PartialEq, Eq, Structural)]
pub struct Pos {
    /// Column.
    pub x: usize,
    /// Row.
    pub y: usize,
}

/// Pacman's start.
pub open spec fn pac_start() -> Pos {
    Pos { x: 9, y: 11 }
}

/// The ghost's start.
pub open spec fn ghost_start() -> Pos {
    Pos { x: 9, y: 7 }
}

/// Whether `(x, y)` is a maze cell without a wall.
pub open spec fn open_cell(map: Seq<u8>, x: int, y: int) -> bool {
    0 <= x < MAP_W && 0 <= y < MAP_H && map[y * 19 + x] != WALL
}

/// The state of a pacman game.
pub struct Game {
    /// The maze: 0 empty, [`WALL`], [`DOT`].
    pub map: Vec<u8>,
    /// Pacman's cell.
    pub pac: Pos,
    /// The ghost's cell.
    pub ghost_cell: Pos,
    /// Pacman's heading.
    pub dir: (isize, isize),
    /// Score.
    pub score: u32,
    /// Lives left.
    pub lives: u32,
    /// Dots left.
    pub dots_left: u32,
    /// Ticks played.
    pub tick: u32,
    /// Whether the ghost caught the last life.
    pub game_over: bool,
    /// Whether every dot is eaten.
    pub win: bool,
}

/// The heading a key asks for.
pub open spec fn key_dir(dir: (isize, isize), key: u8) -> (isize, isize) {
    if key == 119 || key == 87 {
        (0, -1isize)
    } else if key == 97 || key == 65 {
        (-1isize, 0)
    } else if key == 115 || key == 83 {
        (0, 1)
    } else if key == 100 || key == 68 {
        (1, 0)
    } else {
        dir
    }
}

/// Steering pacman: each of `w`, `a`, `s`, `d` (in either case) sets a
/// heading of one cell, `d` toward the next column (right) and `s` toward
/// the next row (down); `a` heads opposite to `d` and `w` opposite to `s`;
/// so the four keys give four different headings. Any other key keeps the
/// heading.
pub proof fn lemma_key_dir_law(dir: (isize, isize), key: u8)
    ensures
        ({
            let is_wasd = key == 119 || key == 87 || key == 97 || key == 65 || key == 115 || key == 83
                || key == 100 || key == 68;
            let h = key_dir(dir, key);
            &&& is_wasd ==> (h.0 == 0 || h.1 == 0) && (h.0 * h.0 + h.1 * h.1 == 1)
            &&& !is_wasd ==> h == dir
        }),
        key_dir(dir, 100u8).0 == 1,
        key_dir(dir, 115u8).1 == 1,
        key_dir(dir, 97u8).0 == -key_dir(dir, 100u8).0 && key_dir(dir, 97u8).1 == -key_dir(dir, 100u8).1,
        key_dir(dir, 119u8).0 == -key_dir(dir, 115u8).0 && key_dir(dir, 119u8).1 == -key_dir(dir, 115u8).1,
        key_dir(dir, 68u8) == key_dir(dir, 100u8),
        key_dir(dir, 65u8) == key_dir(dir, 97u8),
        key_dir(dir, 83u8) == key_dir(dir, 115u8),
        key_dir(dir, 87u8) == key_dir(dir, 119u8),
        key_dir(dir, 119u8) != key_dir(dir, 97u8),
        key_dir(dir, 119u8) != key_dir(dir, 100u8),
        key_dir(dir, 115u8) != key_dir(dir, 97u8),
        key_dir(dir, 115u8) != key_dir(dir, 100u8),
{
}

/// The sign of `v`.
pub open spec fn signum(v: int) -> int {
    if v > 0 { 1 } else if v < 0 { -1 } else { 0 }
}

/// Where the ghost goes: it tries to close the column gap, then the row
/// gap, then to step away along the column, then along the row, taking the
/// first of these that is a move into an open cell; it stays if none is.
pub open spec fn ghost_step(map: Seq<u8>, pac: Pos, ghost: Pos) -> Pos {
    let c0 = signum(pac.x - ghost.x);
    let c1 = signum(pac.y - ghost.y);
    let gx = ghost.x as int;
    let gy = ghost.y as int;
    if c0 != 0 && open_cell(map, gx + c0, gy) {
        Pos { x: (gx + c0) as usize, y: ghost.y }
    } else if c1 != 0 && open_cell(map, gx, gy + c1) {
        Pos { x: ghost.x, y: (gy + c1) as usize }
    } else if c0 != 0 && open_cell(map, gx - c0, gy) {
        Pos { x: (gx - c0) as usize, y: ghost.y }
    } else if c1 != 0 && open_cell(map, gx, gy - c1) {
        Pos { x: ghost.x, y: (gy - c1) as usize }
    } else {
        ghost
    }
}

impl Game {
    /// The maze is full size, pacman and the ghost stand on open cells,
    /// the heading is a unit step, the dot count matches the maze, and the
    /// score has room for every dot left.
    pub open spec fn wf(&self) -> bool {
        &&& self.map@.len() == MAP_SIZE
        &&& open_cell(self.map@, self.pac.x as int, self.pac.y as int)
        &&& open_cell(self.map@, self.ghost_cell.x as int, self.ghost_cell.y as int)
        &&& -1 <= self.dir.0 <= 1
        &&& -1 <= self.dir.1 <= 1
        &&& self.dots_left == count_dots(self.map@, MAP_SIZE as int)
        &&& self.score + 10 * self.dots_left <= u32::MAX
        &&& self.win == (self.dots_left == 0)
        &&& walls_fixed(self.map@)
    }

    /// A new game: the maze as drawn, pacman at its start heading right, the
    /// ghost in the middle, three lives.
    pub fn new() -> (g: Self)
        ensures
            g.wf(),
            g.map@ == initial_map(),
            g.pac == pac_start(),
            g.ghost_cell == ghost_start(),
            g.dir == (1isize, 0isize),
            g.score == 0,
            g.lives == 3,
            g.tick == 0,
            !g.game_over,
            !g.win,
    {
        let mut map: Vec<u8> = Vec::new();
        let mut pac = Pos { x: 9, y: 11 };
        let mut dots_left: u32 = 0;
        let mut y: usize = 0;
        while y < MAP_H
            invariant
                y <= MAP_H,
                map@ == initial_map().subrange(0, (y * MAP_W) as int),
                dots_left == count_dots(map@, (y * MAP_W) as int),
                dots_left <= y * MAP_W,
                pac == pac_start(),
            decreases MAP_H - y,
        {
            let row = maze_row_text(y);
            let mut x: usize = 0;
            while x < MAP_W
                invariant
                    y < MAP_H,
                    x <= MAP_W,
                    row@ == maze_row(y as int),
                    is_ascii(row),
                    row@.len() == MAP_W,
                    map@ == initial_map().subrange(0, (y * MAP_W + x) as int),
                    dots_left == count_dots(map@, (y * MAP_W + x) as int),
                    dots_left <= y * MAP_W + x,
                    pac == pac_start(),
                decreases MAP_W - x,
            {
                let cell = row.get_ascii(x);
                let k = y * MAP_W + x;
                proof {
                    vstd::arithmetic::div_mod::lemma_fundamental_div_mod_converse(k as int, 19, y as int, x as int);
                    assert(initial_map()[k as int] == cell_code(maze_row(y as int)[x as int]));
                    assert(maze_row(y as int)[x as int] == 'P' ==> x == 9 && y == 11) by {
                        reveal_strlit("###################");
                        reveal_strlit("#........#........#");
                        reveal_strlit("#.###.##.#.##.###.#");
                        reveal_strlit("#.................#");
                        reveal_strlit("#.##.#.#####.#.##.#");
                        reveal_strlit("#....#...#...#....#");
                        reveal_strlit("####.### # ###.####");
                        reveal_strlit("   #.#       #.#   ");
                        reveal_strlit("####.# ## ## #.####");
                        reveal_strlit("#........#........#");
                        reveal_strlit("#.##.###.#.###.##.#");
                        reveal_strlit("#..#.....P.....#..#");
                        reveal_strlit("##.#.#.#####.#.#.##");
                        reveal_strlit("#....#.......#....#");
                    }
                }
                let ghost before = map@;
                let code = if cell == 35 {
                    1
                } else if cell == 46 {
                    dots_left += 1;
                    2
                } else if cell == 80 {
                    pac = Pos { x, y };
                    0
                } else {
                    0
                };
                map.push(code);
                proof {
                    assert(map@ =~= initial_map().subrange(0, k + 1));
                    assert(map@.subrange(0, k as int) =~= before.subrange(0, k as int));
                    lemma_count_dots_prefix(map@, before, k as int);
                }
                x += 1;
            }
            y += 1;
        }
        let g = Game {
            map,
            pac,
            ghost_cell: Pos { x: 9, y: 7 },
            dir: (1, 0),
            score: 0,
            lives: 3,
            dots_left,
            tick: 0,
            game_over: false,
            win: false,
        };
        proof {
            assert(g.map@ =~= initial_map());
            lemma_start_cells_open();
            lemma_count_dots_positive(g.map@, MAP_SIZE as int, 20);
        }
        g
    }

    /// Index of maze cell `(x, y)`.
    pub fn index(x: usize, y: usize) -> (i: usize)
        requires
            y * 19 + x <= usize::MAX,
        ensures
            i == y * 19 + x,
    {
        y * MAP_W + x
    }

    /// Whether `(x, y)` is a maze cell without a wall.
    pub fn passable(&self, x: isize, y: isize) -> (open: bool)
        requires
            self.map@.len() == MAP_SIZE,
        ensures
            open == open_cell(self.map@, x as int, y as int),
    {
        if x < 0 || y < 0 || x >= MAP_W as isize || y >= MAP_H as isize {
            return false;
        }
        self.map[Self::index(x as usize, y as usize)] != WALL
    }

    /// Turns pacman by a key: `w`, `a`, `s`, `d`. Returns `true` for `q`,
    /// which ends the game.
    pub fn apply_key(&mut self, key: u8) -> (quit: bool)
        requires
            old(self).wf(),
        ensures
            final(self).wf(),
            quit == (key == 113 || key == 81),
            final(self).dir == key_dir(old(self).dir, key),
            final(self).map == old(self).map,
            final(self).pac == old(self).pac,
            final(self).ghost_cell == old(self).ghost_cell,
            final(self).score == old(self).score,
            final(self).lives == old(self).lives,
            final(self).dots_left == old(self).dots_left,
            final(self).tick == old(self).tick,
            final(self).game_over == old(self).game_over,
            final(self).win == old(self).win,
    {
        if key == 119 || key == 87 {
            self.dir = (0, -1);
        } else if key == 97 || key == 65 {
            self.dir = (-1, 0);
        } else if key == 115 || key == 83 {
            self.dir = (0, 1);
        } else if key == 100 || key == 68 {
            self.dir = (1, 0);
        } else if key == 113 || key == 81 {
            return true;
        }
        false
    }
}

/// The count of dots of a prefix depends only on that prefix.
pub proof fn lemma_count_dots_prefix(map: Seq<u8>, prefix: Seq<u8>, n: int)
    requires
        0 <= n <= prefix.len(),
        n <= map.len(),
        map.subrange(0, n) == prefix.subrange(0, n),
    ensures
        count_dots(map, n) == count_dots(prefix, n),
    decreases n,
{
    if n > 0 {
        assert(map[n - 1] == map.subrange(0, n)[n - 1]);
        assert(prefix[n - 1] == prefix.subrange(0, n)[n - 1]);
        assert(map.subrange(0, n - 1) =~= map.subrange(0, n).subrange(0, n - 1));
        assert(prefix.subrange(0, n - 1) =~= prefix.subrange(0, n).subrange(0, n - 1));
        lemma_count_dots_prefix(map, prefix, n - 1);
    }
}

/// A maze with a dot among its first `n` cells counts at least one dot.
pub proof fn lemma_count_dots_positive(map: Seq<u8>, n: int, k: int)
    requires
        0 <= k < n <= map.len(),
        map[k] == DOT,
    ensures
        count_dots(map, n) >= 1,
    decreases n,
{
    lemma_count_dots_nonneg(map, n - 1);
    if k < n - 1 {
        lemma_count_dots_positive(map, n - 1, k);
    }
}

/// Dot counts are never negative.
pub proof fn lemma_count_dots_nonneg(map: Seq<u8>, n: int)
    ensures
        count_dots(map, n) >= 0,
    decreases n,
{
    if n > 0 {
        lemma_count_dots_nonneg(map, n - 1);
    }
}

/// Eating the dot at `i` leaves one dot less.
pub proof fn lemma_count_dots_eat(map: Seq<u8>, i: int, n: int)
    requires
        0 <= i < map.len(),
        map[i] == DOT,
        n <= map.len(),
    ensures
        count_dots(map.update(i, 0), n) == count_dots(map, n) - if i < n { 1int } else { 0int },
    decreases n,
{
    if n > 0 {
        lemma_count_dots_eat(map, i, n - 1);
    }
}

/// The route that the scripted demo follows, one key per step.
pub open spec fn script() -> Seq<char> {
    "ddddddddwwwwaaaassssddddwwwwaaaassssddddwwwwaaaassss"@
}

impl Game {
    /// The key that the scripted demo presses at `step`: the route, repeated.
    pub fn scripted_key(step: u32) -> (key: u8)
        ensures
            key == script()[(step % 52) as int] as u8,
    {
        let route = "ddddddddwwwwaaaassssddddwwwwaaaassssddddwwwwaaaassss";
        proof {
            reveal_strlit("ddddddddwwwwaaaassssddddwwwwaaaassssddddwwwwaaaassss");
        }
        route.get_ascii((step % 52) as usize)
    }

    /// Pacman steps one cell in its heading unless a wall is there, and
    /// eats a dot where it stands: 10 points, one dot less, and the game is
    /// won with the last dot.
    pub fn move_pacman(&mut self)
        requires
            old(self).wf(),
        ensures
            final(self).wf(),
            ({
                let pre = *old(self);
                let nx = pre.pac.x + pre.dir.0;
                let ny = pre.pac.y + pre.dir.1;
                let pac = if open_cell(pre.map@, nx, ny) { Pos { x: nx as usize, y: ny as usize } } else { pre.pac };
                let i = pac.y * 19 + pac.x;
                let eats = pre.map@[i] == DOT;
                &&& final(self).pac == pac
                &&& final(self).map@ == if eats { pre.map@.update(i, 0) } else { pre.map@ }
                &&& final(self).score == if eats { pre.score + 10 } else { pre.score as int }
                &&& final(self).dots_left == if eats { pre.dots_left - 1 } else { pre.dots_left as int }
                &&& final(self).win == if eats { pre.dots_left - 1 == 0 } else { pre.win }
            }),
            final(self).score + 10 * final(self).dots_left == old(self).score + 10 * old(self).dots_left,
            final(self).ghost_cell == old(self).ghost_cell,
            final(self).dir == old(self).dir,
            final(self).lives == old(self).lives,
            final(self).tick == old(self).tick,
            final(self).game_over == old(self).game_over,
    {
        let ghost pre = *self;
        let nx = self.pac.x as isize + self.dir.0;
        let ny = self.pac.y as isize + self.dir.1;
        if self.passable(nx, ny) {
            self.pac = Pos { x: nx as usize, y: ny as usize };
        }
        let idx = Self::index(self.pac.x, self.pac.y);
        if self.map[idx] == DOT {
            proof {
                lemma_count_dots_eat(pre.map@, idx as int, MAP_SIZE as int);
                lemma_count_dots_nonneg(pre.map@.update(idx as int, 0), MAP_SIZE as int);
            }
            self.map.set(idx, 0);
            self.score += 10;
            self.dots_left -= 1;
            self.win = self.dots_left == 0;
        }
    }

    /// On even ticks the ghost takes a step; see [`ghost_step`].
    pub fn move_ghost(&mut self)
        requires
            old(self).wf(),
        ensures
            final(self).wf(),
            final(self).ghost_cell == if old(self).tick % 2 != 0 { old(self).ghost_cell }
                else { ghost_step(old(self).map@, old(self).pac, old(self).ghost_cell) },
            final(self).map == old(self).map,
            final(self).pac == old(self).pac,
            final(self).dir == old(self).dir,
            final(self).score == old(self).score,
            final(self).lives == old(self).lives,
            final(self).dots_left == old(self).dots_left,
            final(self).tick == old(self).tick,
            final(self).game_over == old(self).game_over,
            final(self).win == old(self).win,
    {
        if self.tick % 2 != 0 {
            return;
        }
        let ghost pre = *self;
        let c0 = signum_isize(self.pac.x as isize - self.ghost_cell.x as isize);
        let c1 = signum_isize(self.pac.y as isize - self.ghost_cell.y as isize);
        let candidates: [(isize, isize); 4] = [(c0, 0), (0, c1), (-c0, 0), (0, -c1)];
        let mut i: usize = 0;
        while i < 4
            invariant
                *self == pre,
                pre == *old(self),
                pre.wf(),
                pre.tick % 2 == 0,
                i <= 4,
                candidates@ == seq![(c0, 0isize), (0isize, c1), ((-c0) as isize, 0isize), (0isize, (-c1) as isize)],
                c0 == signum(pre.pac.x - pre.ghost_cell.x),
                c1 == signum(pre.pac.y - pre.ghost_cell.y),
                forall|j: int| 0 <= j < i ==> !((candidates@[j].0 != 0 || candidates@[j].1 != 0)
                    && open_cell(pre.map@, pre.ghost_cell.x + candidates@[j].0, pre.ghost_cell.y + candidates@[j].1)),
            decreases 4 - i,
        {
            let (dx, dy) = candidates[i];
            let nx = self.ghost_cell.x as isize + dx;
            let ny = self.ghost_cell.y as isize + dy;
            if (dx != 0 || dy != 0) && self.passable(nx, ny) {
                self.ghost_cell = Pos { x: nx as usize, y: ny as usize };
                return;
            }
            i += 1;
        }
    }

    /// When the ghost catches pacman, a life is lost and both go back to
    /// their starts, or, with the last life, the game is over.
    pub fn collide(&mut self)
        requires
            old(self).wf(),
        ensures
            final(self).wf(),
            ({
                let pre = *old(self);
                if pre.pac == pre.ghost_cell {
                    if pre.lives > 1 {
                        &&& final(self).lives == pre.lives - 1
                        &&& final(self).pac == pac_start()
                        &&& final(self).ghost_cell == ghost_start()
                        &&& final(self).dir == (1isize, 0isize)
                        &&& final(self).game_over == pre.game_over
                    } else {
                        &&& final(self).lives == 0
                        &&& final(self).game_over
                        &&& final(self).pac == pre.pac
                        &&& final(self).ghost_cell == pre.ghost_cell
                        &&& final(self).dir == pre.dir
                    }
                } else {
                    &&& final(self).lives == pre.lives
                    &&& final(self).game_over == pre.game_over
                    &&& final(self).pac == pre.pac
                    &&& final(self).ghost_cell == pre.ghost_cell
                    &&& final(self).dir == pre.dir
                }
            }),
            final(self).map == old(self).map,
            final(self).score == old(self).score,
            final(self).dots_left == old(self).dots_left,
            final(self).tick == old(self).tick,
            final(self).win == old(self).win,
    {
        if self.pac.x == self.ghost_cell.x && self.pac.y == self.ghost_cell.y {
            if self.lives > 1 {
                self.lives -= 1;
                proof {
                    lemma_start_cells_open();
                    assert(self.map@[218] != WALL);
                    assert(self.map@[142] != WALL);
                }
                self.pac = Pos { x: 9, y: 11 };
                self.ghost_cell = Pos { x: 9, y: 7 };
                self.dir = (1, 0);
            } else {
                self.lives = 0;
                self.game_over = true;
            }
        }
    }
}

/// The sign of `v`.
pub fn signum_isize(v: isize) -> (s: isize)
    ensures
        s == signum(v as int),
{
    if v > 0 { 1 } else if v < 0 { -1 } else { 0 }
}

/// The state of a pacman game as values.
pub struct PacModel {
    /// The maze.
    pub map: Seq<u8>,
    /// Pacman's cell.
    pub pac: Pos,
    /// The ghost's cell.
    pub ghost_cell: Pos,
    /// Pacman's heading.
    pub dir: (isize, isize),
    /// Score.
    pub score: u32,
    /// Lives left.
    pub lives: u32,
    /// Dots left.
    pub dots_left: u32,
    /// Ticks played.
    pub tick: u32,
    /// Whether the game is lost.
    pub game_over: bool,
    /// Whether the game is won.
    pub win: bool,
}

/// The state after pacman's step; see [`Game::move_pacman`].
pub open spec fn pacman_moved(m: PacModel) -> PacModel {
    let nx = m.pac.x + m.dir.0;
    let ny = m.pac.y + m.dir.1;
    let pac = if open_cell(m.map, nx, ny) { Pos { x: nx as usize, y: ny as usize } } else { m.pac };
    let i = pac.y * 19 + pac.x;
    if m.map[i] == DOT {
        PacModel { map: m.map.update(i, 0), pac, score: (m.score + 10) as u32, dots_left: (m.dots_left - 1) as u32,
            win: m.dots_left - 1 == 0, ..m }
    } else {
        PacModel { pac, ..m }
    }
}

/// The state after the ghost's step; see [`Game::move_ghost`].
pub open spec fn ghost_moved(m: PacModel) -> PacModel {
    if m.tick % 2 != 0 { m } else { PacModel { ghost_cell: ghost_step(m.map, m.pac, m.ghost_cell), ..m } }
}

/// The state after a possible catch; see [`Game::collide`].
pub open spec fn collided(m: PacModel) -> PacModel {
    if m.pac == m.ghost_cell {
        if m.lives > 1 {
            PacModel { lives: (m.lives - 1) as u32, pac: pac_start(), ghost_cell: ghost_start(), dir: (1isize, 0isize), ..m }
        } else {
            PacModel { lives: 0, game_over: true, ..m }
        }
    } else {
        m
    }
}

/// The state after a tick; see [`Game::tick`].
pub open spec fn ticked(m: PacModel) -> PacModel {
    if m.game_over || m.win {
        m
    } else {
        collided(ghost_moved(pacman_moved(PacModel { tick: (m.tick + 1) as u32, ..m })))
    }
}

impl Game {
    /// The state as values.
    pub open spec fn model(&self) -> PacModel {
        PacModel {
            map: self.map@,
            pac: self.pac,
            ghost_cell: self.ghost_cell,
            dir: self.dir,
            score: self.score,
            lives: self.lives,
            dots_left: self.dots_left,
            tick: self.tick,
            game_over: self.game_over,
            win: self.win,
        }
    }

    /// One tick of a running game: pacman steps and eats, the ghost steps
    /// on even ticks, then a catch is checked.
    pub fn tick(&mut self)
        requires
            old(self).wf(),
            old(self).tick < u32::MAX,
        ensures
            final(self).wf(),
            final(self).model() == ticked(old(self).model()),
            final(self).score + 10 * final(self).dots_left == old(self).score + 10 * old(self).dots_left,
    {
        if self.game_over || self.win {
            return;
        }
        self.tick += 1;
        let ghost m1 = self.model();
        self.move_pacman();
        proof {
            assert(self.model() == pacman_moved(m1));
        }
        let ghost m2 = self.model();
        self.move_ghost();
        proof {
            assert(self.model() == ghost_moved(m2));
        }
        let ghost m3 = self.model();
        self.collide();
        proof {
            assert(self.model() == collided(m3));
        }
    }

    /// The bytes of the frame record for this state.
    pub open spec fn frame_wire(&self) -> Seq<u8> {
        pacman_frame_wire(PACMAN_FRAME_MAGIC, self.tick, self.pac.x as u32, self.pac.y as u32,
            self.ghost_cell.x as u32, self.ghost_cell.y as u32, self.score, self.lives, self.dots_left,
            if self.game_over { 1 } else { 0 }, if self.win { 1 } else { 0 }, self.map@)
    }

    /// The frame record of this state, as sent to the kernel.
    pub fn frame_bytes(&self) -> (bytes: Vec<u8>)
        requires
            self.wf(),
        ensures
            bytes@ == self.frame_wire(),
    {
        let mut out: Vec<u8> = Vec::new();
        push_u32(&mut out, PACMAN_FRAME_MAGIC);
        push_u32(&mut out, self.tick);
        push_u32(&mut out, self.pac.x as u32);
        push_u32(&mut out, self.pac.y as u32);
        push_u32(&mut out, self.ghost_cell.x as u32);
        push_u32(&mut out, self.ghost_cell.y as u32);
        push_u32(&mut out, self.score);
        push_u32(&mut out, self.lives);
        push_u32(&mut out, self.dots_left);
        push_u32(&mut out, if self.game_over { 1 } else { 0 });
        push_u32(&mut out, if self.win { 1 } else { 0 });
        push_bytes(&mut out, &self.map);
        out.push(0);
        out.push(0);
        out.push(0);
        proof {
            let head = le_bytes(PACMAN_FRAME_MAGIC) + le_bytes(self.tick) + le_bytes(self.pac.x as u32)
                + le_bytes(self.pac.y as u32) + le_bytes(self.ghost_cell.x as u32) + le_bytes(self.ghost_cell.y as u32)
                + le_bytes(self.score) + le_bytes(self.lives) + le_bytes(self.dots_left)
                + le_bytes(if self.game_over { 1u32 } else { 0u32 }) + le_bytes(if self.win { 1u32 } else { 0u32 });
            assert(out@ =~= head + self.map@ + seq![0u8, 0u8, 0u8]);
        }
        out
    }
}

/// What a tick does to a running or finished game: cells only change by a
/// dot being eaten, the score plus ten per dot left is kept, the dot count
/// stays the count of dots in the maze, eating the last dot wins, and a
/// game that is won or lost stays as it is.
pub proof fn lemma_tick_law(g: Game)
    requires
        g.wf(),
    ensures
        ({
            let m = g.model();
            let t = ticked(m);
            &&& t.map.len() == MAP_SIZE
            &&& forall|i: int| 0 <= i < MAP_SIZE ==> #[trigger] t.map[i] == m.map[i] || (m.map[i] == DOT && t.map[i] == 0)
            &&& t.score + 10 * t.dots_left == m.score + 10 * m.dots_left
            &&& t.dots_left == count_dots(t.map, MAP_SIZE as int)
            &&& m.dots_left > 0 && t.dots_left == 0 ==> t.win
            &&& (m.game_over || m.win) ==> t == m
        }),
{
    let m = g.model();
    if !(m.game_over || m.win) {
        let m0 = PacModel { tick: (m.tick + 1) as u32, ..m };
        let nx = m0.pac.x + m0.dir.0;
        let ny = m0.pac.y + m0.dir.1;
        let pac = if open_cell(m0.map, nx, ny) { Pos { x: nx as usize, y: ny as usize } } else { m0.pac };
        let i = pac.y * 19 + pac.x;
        assert(0 <= i < MAP_SIZE) by (nonlinear_arith)
            requires 0 <= pac.x < 19, 0 <= pac.y < 15, i == pac.y * 19 + pac.x;
        if m0.map[i] == DOT {
            lemma_count_dots_positive(m0.map, MAP_SIZE as int, i);
            lemma_count_dots_eat(m0.map, i, MAP_SIZE as int);
        }
    }
}

/// The bytes of a pacman frame record: eleven little-endian words, the
/// maze, and three bytes of padding.
pub open spec fn pacman_frame_wire(
    magic: u32,
    tick: u32,
    pac_x: u32,
    pac_y: u32,
    ghost_x: u32,
    ghost_y: u32,
    score: u32,
    lives: u32,
    dots_left: u32,
    game_over: u32,
    win: u32,
    map: Seq<u8>,
) -> Seq<u8> {
    le_bytes(magic) + le_bytes(tick) + le_bytes(pac_x) + le_bytes(pac_y) + le_bytes(ghost_x) + le_bytes(ghost_y)
        + le_bytes(score) + le_bytes(lives) + le_bytes(dots_left) + le_bytes(game_over) + le_bytes(win) + map
        + seq![0u8, 0u8, 0u8]
}

/// The content of a pacman frame record.
pub struct PacmanFrame {
    /// [`PACMAN_FRAME_MAGIC`].
    pub magic: u32,
    /// Ticks played.
    pub tick: u32,
    /// Pacman's column.
    pub pac_x: u32,
    /// Pacman's row.
    pub pac_y: u32,
    /// The ghost's column.
    pub ghost_x: u32,
    /// The ghost's row.
    pub ghost_y: u32,
    /// Score.
    pub score: u32,
    /// Lives left.
    pub lives: u32,
    /// Dots left.
    pub dots_left: u32,
    /// Non-zero once the game is lost.
    pub game_over: u32,
    /// Non-zero once the game is won.
    pub win: u32,
    /// The maze; [`MAP_SIZE`] cells.
    pub map: Vec<u8>,
}

impl PacmanFrame {
    /// The record's bytes.
    pub open spec fn wire(&self) -> Seq<u8> {
        pacman_frame_wire(self.magic, self.tick, self.pac_x, self.pac_y, self.ghost_x, self.ghost_y, self.score,
            self.lives, self.dots_left, self.game_over, self.win, self.map@)
    }
}

} // verus!
