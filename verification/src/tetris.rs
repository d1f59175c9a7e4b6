//! The rules of the Tetris game: tetromino shapes, collisions, locking
//! pieces into the board, clearing full lines, keys and gravity.
use vstd::prelude::*;

use crate::wire::{le_bytes, push_u32};

verus! {

/// Tag of a Tetris frame record.
pub const TETRIS_FRAME_MAGIC: u32 = 0x5454_5234;
/// Size in bytes of a Tetris frame record.
pub const TETRIS_FRAME_SIZE: usize = 228;

/// Board width in cells.
pub const WIDTH: usize = 10;
/// Board height in cells.
pub const HEIGHT: usize = 20;
/// Shortest gravity interval in milliseconds.
pub const TICK_MIN_MS: isize = 90;
/// Gravity interval at level 1 in milliseconds.
pub const TICK_START_MS: isize = 520;

/// A row of the board; 0 is an empty cell, otherwise the glyph of the piece
/// that locked there.
pub type Row = [u8; 10];
/// The board, top row first.
pub type Board = [[u8; 10]; 20];

/// A falling tetromino.
#[derive(Clone, Copy, Debug, PartialEq, Eq, Structural)]
pub struct Piece {
    /// Which of the seven tetrominoes.
    pub kind: usize,
    /// Rotation, a quarter turn per step.
    pub rot: usize,
    /// Column of the shape's origin.
    pub x: i32,
    /// Row of the shape's origin.
    pub y: i32,
}

impl Piece {
    /// Kind and rotation name a shape.
    pub open spec fn wf(&self) -> bool {
        self.kind < 7 && self.rot < 4
    }
}

/// The four cells of tetromino `kind` in rotation `rot`, relative to the
/// shape's origin.
pub open spec fn shape(kind: int, rot: int) -> Seq<(int, int)> {
    if kind == 0 {
        if rot == 0 { seq![(0, 1), (1, 1), (2, 1), (3, 1)] }
        else if rot == 1 { seq![(2, 0), (2, 1), (2, 2), (2, 3)] }
        else if rot == 2 { seq![(0, 2), (1, 2), (2, 2), (3, 2)] }
        else { seq![(1, 0), (1, 1), (1, 2), (1, 3)] }
    } else if kind == 1 {
        seq![(1, 0), (2, 0), (1, 1), (2, 1)]
    } else if kind == 2 {
        if rot == 0 { seq![(1, 0), (0, 1), (1, 1), (2, 1)] }
        else if rot == 1 { seq![(1, 0), (1, 1), (2, 1), (1, 2)] }
        else if rot == 2 { seq![(0, 1), (1, 1), (2, 1), (1, 2)] }
        else { seq![(1, 0), (0, 1), (1, 1), (1, 2)] }
    } else if kind == 3 {
        if rot == 0 { seq![(1, 0), (2, 0), (0, 1), (1, 1)] }
        else if rot == 1 { seq![(1, 0), (1, 1), (2, 1), (2, 2)] }
        else if rot == 2 { seq![(1, 1), (2, 1), (0, 2), (1, 2)] }
        else { seq![(0, 0), (0, 1), (1, 1), (1, 2)] }
    } else if kind == 4 {
        if rot == 0 { seq![(0, 0), (1, 0), (1, 1), (2, 1)] }
        else if rot == 1 { seq![(2, 0), (1, 1), (2, 1), (1, 2)] }
        else if rot == 2 { seq![(0, 1), (1, 1), (1, 2), (2, 2)] }
        else { seq![(1, 0), (0, 1), (1, 1), (0, 2)] }
    } else if kind == 5 {
        if rot == 0 { seq![(0, 0), (0, 1), (1, 1), (2, 1)] }
        else if rot == 1 { seq![(1, 0), (2, 0), (1, 1), (1, 2)] }
        else if rot == 2 { seq![(0, 1), (1, 1), (2, 1), (2, 2)] }
        else { seq![(1, 0), (1, 1), (0, 2), (1, 2)] }
    } else {
        if rot == 0 { seq![(2, 0), (0, 1), (1, 1), (2, 1)] }
        else if rot == 1 { seq![(1, 0), (1, 1), (1, 2), (2, 2)] }
        else if rot == 2 { seq![(0, 1), (1, 1), (2, 1), (0, 2)] }
        else { seq![(0, 0), (1, 0), (1, 1), (1, 2)] }
    }
}

/// Cell `c` turned a quarter turn clockwise on the screen, whose rows grow
/// downward, about the origin, then shifted by `shift`.
pub open spec fn turned(c: (int, int), shift: (int, int)) -> (int, int) {
    (shift.0 - c.1, shift.1 + c.0)
}

/// Rotating a tetromino turns it a quarter turn clockwise: each shape has
/// four distinct cells, and the cells of the next rotation (wrapping from
/// the fourth to the first) are those of this rotation, each turned a
/// quarter turn clockwise and shifted by the same returned amount.
pub proof fn lemma_rotation_is_quarter_turn(kind: int, rot: int) -> (shift: (int, int))
    requires
        0 <= kind < 7,
        0 <= rot < 4,
    ensures
        shape(kind, rot).len() == 4,
        forall|i: int, j: int| 0 <= i < j < 4 ==> shape(kind, rot)[i] != shape(kind, rot)[j],
        forall|i: int| 0 <= i < 4 ==> #[trigger] shape(kind, (rot + 1) % 4).contains(turned(shape(kind, rot)[i], shift)),
{
    if kind == 0 && rot == 0 {
        let s = shape(0, 0);
        let t = shape(0, 1);
        assert forall|i: int| 0 <= i < 4 implies #[trigger] t.contains(turned(s[i], (3, 0))) by {
            if i == 0 {
                assert(t[0] == turned(s[0], (3, 0)));
            } else if i == 1 {
                assert(t[1] == turned(s[1], (3, 0)));
            } else if i == 2 {
                assert(t[2] == turned(s[2], (3, 0)));
            } else if i == 3 {
                assert(t[3] == turned(s[3], (3, 0)));
            }
        }
    }
    if kind == 0 && rot == 1 {
        let s = shape(0, 1);
        let t = shape(0, 2);
        assert forall|i: int| 0 <= i < 4 implies #[trigger] t.contains(turned(s[i], (3, 0))) by {
            if i == 0 {
                assert(t[3] == turned(s[0], (3, 0)));
            } else if i == 1 {
                assert(t[2] == turned(s[1], (3, 0)));
            } else if i == 2 {
                assert(t[1] == turned(s[2], (3, 0)));
            } else if i == 3 {
                assert(t[0] == turned(s[3], (3, 0)));
            }
        }
    }
    if kind == 0 && rot == 2 {
        let s = shape(0, 2);
        let t = shape(0, 3);
        assert forall|i: int| 0 <= i < 4 implies #[trigger] t.contains(turned(s[i], (3, 0))) by {
            if i == 0 {
                assert(t[0] == turned(s[0], (3, 0)));
            } else if i == 1 {
                assert(t[1] == turned(s[1], (3, 0)));
            } else if i == 2 {
                assert(t[2] == turned(s[2], (3, 0)));
            } else if i == 3 {
                assert(t[3] == turned(s[3], (3, 0)));
            }
        }
    }
    if kind == 0 && rot == 3 {
        let s = shape(0, 3);
        let t = shape(0, 0);
        assert forall|i: int| 0 <= i < 4 implies #[trigger] t.contains(turned(s[i], (3, 0))) by {
            if i == 0 {
                assert(t[3] == turned(s[0], (3, 0)));
            } else if i == 1 {
                assert(t[2] == turned(s[1], (3, 0)));
            } else if i == 2 {
                assert(t[1] == turned(s[2], (3, 0)));
            } else if i == 3 {
                assert(t[0] == turned(s[3], (3, 0)));
            }
        }
    }
    if kind == 1 && rot == 0 {
        let s = shape(1, 0);
        let t = shape(1, 1);
        assert forall|i: int| 0 <= i < 4 implies #[trigger] t.contains(turned(s[i], (2, -1))) by {
            if i == 0 {
                assert(t[1] == turned(s[0], (2, -1)));
            } else if i == 1 {
                assert(t[3] == turned(s[1], (2, -1)));
            } else if i == 2 {
                assert(t[0] == turned(s[2], (2, -1)));
            } else if i == 3 {
                assert(t[2] == turned(s[3], (2, -1)));
            }
        }
    }
    if kind == 1 && rot == 1 {
        let s = shape(1, 1);
        let t = shape(1, 2);
        assert forall|i: int| 0 <= i < 4 implies #[trigger] t.contains(turned(s[i], (2, -1))) by {
            if i == 0 {
                assert(t[1] == turned(s[0], (2, -1)));
            } else if i == 1 {
                assert(t[3] == turned(s[1], (2, -1)));
            } else if i == 2 {
                assert(t[0] == turned(s[2], (2, -1)));
            } else if i == 3 {
                assert(t[2] == turned(s[3], (2, -1)));
            }
        }
    }
    if kind == 1 && rot == 2 {
        let s = shape(1, 2);
        let t = shape(1, 3);
        assert forall|i: int| 0 <= i < 4 implies #[trigger] t.contains(turned(s[i], (2, -1))) by {
            if i == 0 {
                assert(t[1] == turned(s[0], (2, -1)));
            } else if i == 1 {
                assert(t[3] == turned(s[1], (2, -1)));
            } else if i == 2 {
                assert(t[0] == turned(s[2], (2, -1)));
            } else if i == 3 {
                assert(t[2] == turned(s[3], (2, -1)));
            }
        }
    }
    if kind == 1 && rot == 3 {
        let s = shape(1, 3);
        let t = shape(1, 0);
        assert forall|i: int| 0 <= i < 4 implies #[trigger] t.contains(turned(s[i], (2, -1))) by {
            if i == 0 {
                assert(t[1] == turned(s[0], (2, -1)));
            } else if i == 1 {
                assert(t[3] == turned(s[1], (2, -1)));
            } else if i == 2 {
                assert(t[0] == turned(s[2], (2, -1)));
            } else if i == 3 {
                assert(t[2] == turned(s[3], (2, -1)));
            }
        }
    }
    if kind == 2 && rot == 0 {
        let s = shape(2, 0);
        let t = shape(2, 1);
        assert forall|i: int| 0 <= i < 4 implies #[trigger] t.contains(turned(s[i], (2, 0))) by {
            if i == 0 {
                assert(t[2] == turned(s[0], (2, 0)));
            } else if i == 1 {
                assert(t[0] == turned(s[1], (2, 0)));
            } else if i == 2 {
                assert(t[1] == turned(s[2], (2, 0)));
            } else if i == 3 {
                assert(t[3] == turned(s[3], (2, 0)));
            }
        }
    }
    if kind == 2 && rot == 1 {
        let s = shape(2, 1);
        let t = shape(2, 2);
        assert forall|i: int| 0 <= i < 4 implies #[trigger] t.contains(turned(s[i], (2, 0))) by {
            if i == 0 {
                assert(t[2] == turned(s[0], (2, 0)));
            } else if i == 1 {
                assert(t[1] == turned(s[1], (2, 0)));
            } else if i == 2 {
                assert(t[3] == turned(s[2], (2, 0)));
            } else if i == 3 {
                assert(t[0] == turned(s[3], (2, 0)));
            }
        }
    }
    if kind == 2 && rot == 2 {
        let s = shape(2, 2);
        let t = shape(2, 3);
        assert forall|i: int| 0 <= i < 4 implies #[trigger] t.contains(turned(s[i], (2, 0))) by {
            if i == 0 {
                assert(t[0] == turned(s[0], (2, 0)));
            } else if i == 1 {
                assert(t[2] == turned(s[1], (2, 0)));
            } else if i == 2 {
                assert(t[3] == turned(s[2], (2, 0)));
            } else if i == 3 {
                assert(t[1] == turned(s[3], (2, 0)));
            }
        }
    }
    if kind == 2 && rot == 3 {
        let s = shape(2, 3);
        let t = shape(2, 0);
        assert forall|i: int| 0 <= i < 4 implies #[trigger] t.contains(turned(s[i], (2, 0))) by {
            if i == 0 {
                assert(t[3] == turned(s[0], (2, 0)));
            } else if i == 1 {
                assert(t[0] == turned(s[1], (2, 0)));
            } else if i == 2 {
                assert(t[2] == turned(s[2], (2, 0)));
            } else if i == 3 {
                assert(t[1] == turned(s[3], (2, 0)));
            }
        }
    }
    if kind == 3 && rot == 0 {
        let s = shape(3, 0);
        let t = shape(3, 1);
        assert forall|i: int| 0 <= i < 4 implies #[trigger] t.contains(turned(s[i], (2, 0))) by {
            if i == 0 {
                assert(t[2] == turned(s[0], (2, 0)));
            } else if i == 1 {
                assert(t[3] == turned(s[1], (2, 0)));
            } else if i == 2 {
                assert(t[0] == turned(s[2], (2, 0)));
            } else if i == 3 {
                assert(t[1] == turned(s[3], (2, 0)));
            }
        }
    }
    if kind == 3 && rot == 1 {
        let s = shape(3, 1);
        let t = shape(3, 2);
        assert forall|i: int| 0 <= i < 4 implies #[trigger] t.contains(turned(s[i], (2, 0))) by {
            if i == 0 {
                assert(t[1] == turned(s[0], (2, 0)));
            } else if i == 1 {
                assert(t[0] == turned(s[1], (2, 0)));
            } else if i == 2 {
                assert(t[3] == turned(s[2], (2, 0)));
            } else if i == 3 {
                assert(t[2] == turned(s[3], (2, 0)));
            }
        }
    }
    if kind == 3 && rot == 2 {
        let s = shape(3, 2);
        let t = shape(3, 3);
        assert forall|i: int| 0 <= i < 4 implies #[trigger] t.contains(turned(s[i], (2, 0))) by {
            if i == 0 {
                assert(t[2] == turned(s[0], (2, 0)));
            } else if i == 1 {
                assert(t[3] == turned(s[1], (2, 0)));
            } else if i == 2 {
                assert(t[0] == turned(s[2], (2, 0)));
            } else if i == 3 {
                assert(t[1] == turned(s[3], (2, 0)));
            }
        }
    }
    if kind == 3 && rot == 3 {
        let s = shape(3, 3);
        let t = shape(3, 0);
        assert forall|i: int| 0 <= i < 4 implies #[trigger] t.contains(turned(s[i], (2, 0))) by {
            if i == 0 {
                assert(t[1] == turned(s[0], (2, 0)));
            } else if i == 1 {
                assert(t[0] == turned(s[1], (2, 0)));
            } else if i == 2 {
                assert(t[3] == turned(s[2], (2, 0)));
            } else if i == 3 {
                assert(t[2] == turned(s[3], (2, 0)));
            }
        }
    }
    if kind == 4 && rot == 0 {
        let s = shape(4, 0);
        let t = shape(4, 1);
        assert forall|i: int| 0 <= i < 4 implies #[trigger] t.contains(turned(s[i], (2, 0))) by {
            if i == 0 {
                assert(t[0] == turned(s[0], (2, 0)));
            } else if i == 1 {
                assert(t[2] == turned(s[1], (2, 0)));
            } else if i == 2 {
                assert(t[1] == turned(s[2], (2, 0)));
            } else if i == 3 {
                assert(t[3] == turned(s[3], (2, 0)));
            }
        }
    }
    if kind == 4 && rot == 1 {
        let s = shape(4, 1);
        let t = shape(4, 2);
        assert forall|i: int| 0 <= i < 4 implies #[trigger] t.contains(turned(s[i], (2, 0))) by {
            if i == 0 {
                assert(t[3] == turned(s[0], (2, 0)));
            } else if i == 1 {
                assert(t[1] == turned(s[1], (2, 0)));
            } else if i == 2 {
                assert(t[2] == turned(s[2], (2, 0)));
            } else if i == 3 {
                assert(t[0] == turned(s[3], (2, 0)));
            }
        }
    }
    if kind == 4 && rot == 2 {
        let s = shape(4, 2);
        let t = shape(4, 3);
        assert forall|i: int| 0 <= i < 4 implies #[trigger] t.contains(turned(s[i], (2, 0))) by {
            if i == 0 {
                assert(t[0] == turned(s[0], (2, 0)));
            } else if i == 1 {
                assert(t[2] == turned(s[1], (2, 0)));
            } else if i == 2 {
                assert(t[1] == turned(s[2], (2, 0)));
            } else if i == 3 {
                assert(t[3] == turned(s[3], (2, 0)));
            }
        }
    }
    if kind == 4 && rot == 3 {
        let s = shape(4, 3);
        let t = shape(4, 0);
        assert forall|i: int| 0 <= i < 4 implies #[trigger] t.contains(turned(s[i], (2, 0))) by {
            if i == 0 {
                assert(t[3] == turned(s[0], (2, 0)));
            } else if i == 1 {
                assert(t[1] == turned(s[1], (2, 0)));
            } else if i == 2 {
                assert(t[2] == turned(s[2], (2, 0)));
            } else if i == 3 {
                assert(t[0] == turned(s[3], (2, 0)));
            }
        }
    }
    if kind == 5 && rot == 0 {
        let s = shape(5, 0);
        let t = shape(5, 1);
        assert forall|i: int| 0 <= i < 4 implies #[trigger] t.contains(turned(s[i], (2, 0))) by {
            if i == 0 {
                assert(t[1] == turned(s[0], (2, 0)));
            } else if i == 1 {
                assert(t[0] == turned(s[1], (2, 0)));
            } else if i == 2 {
                assert(t[2] == turned(s[2], (2, 0)));
            } else if i == 3 {
                assert(t[3] == turned(s[3], (2, 0)));
            }
        }
    }
    if kind == 5 && rot == 1 {
        let s = shape(5, 1);
        let t = shape(5, 2);
        assert forall|i: int| 0 <= i < 4 implies #[trigger] t.contains(turned(s[i], (2, 0))) by {
            if i == 0 {
                assert(t[2] == turned(s[0], (2, 0)));
            } else if i == 1 {
                assert(t[3] == turned(s[1], (2, 0)));
            } else if i == 2 {
                assert(t[1] == turned(s[2], (2, 0)));
            } else if i == 3 {
                assert(t[0] == turned(s[3], (2, 0)));
            }
        }
    }
    if kind == 5 && rot == 2 {
        let s = shape(5, 2);
        let t = shape(5, 3);
        assert forall|i: int| 0 <= i < 4 implies #[trigger] t.contains(turned(s[i], (2, 0))) by {
            if i == 0 {
                assert(t[0] == turned(s[0], (2, 0)));
            } else if i == 1 {
                assert(t[1] == turned(s[1], (2, 0)));
            } else if i == 2 {
                assert(t[3] == turned(s[2], (2, 0)));
            } else if i == 3 {
                assert(t[2] == turned(s[3], (2, 0)));
            }
        }
    }
    if kind == 5 && rot == 3 {
        let s = shape(5, 3);
        let t = shape(5, 0);
        assert forall|i: int| 0 <= i < 4 implies #[trigger] t.contains(turned(s[i], (2, 0))) by {
            if i == 0 {
                assert(t[3] == turned(s[0], (2, 0)));
            } else if i == 1 {
                assert(t[2] == turned(s[1], (2, 0)));
            } else if i == 2 {
                assert(t[0] == turned(s[2], (2, 0)));
            } else if i == 3 {
                assert(t[1] == turned(s[3], (2, 0)));
            }
        }
    }
    if kind == 6 && rot == 0 {
        let s = shape(6, 0);
        let t = shape(6, 1);
        assert forall|i: int| 0 <= i < 4 implies #[trigger] t.contains(turned(s[i], (2, 0))) by {
            if i == 0 {
                assert(t[3] == turned(s[0], (2, 0)));
            } else if i == 1 {
                assert(t[0] == turned(s[1], (2, 0)));
            } else if i == 2 {
                assert(t[1] == turned(s[2], (2, 0)));
            } else if i == 3 {
                assert(t[2] == turned(s[3], (2, 0)));
            }
        }
    }
    if kind == 6 && rot == 1 {
        let s = shape(6, 1);
        let t = shape(6, 2);
        assert forall|i: int| 0 <= i < 4 implies #[trigger] t.contains(turned(s[i], (2, 0))) by {
            if i == 0 {
                assert(t[2] == turned(s[0], (2, 0)));
            } else if i == 1 {
                assert(t[1] == turned(s[1], (2, 0)));
            } else if i == 2 {
                assert(t[0] == turned(s[2], (2, 0)));
            } else if i == 3 {
                assert(t[3] == turned(s[3], (2, 0)));
            }
        }
    }
    if kind == 6 && rot == 2 {
        let s = shape(6, 2);
        let t = shape(6, 3);
        assert forall|i: int| 0 <= i < 4 implies #[trigger] t.contains(turned(s[i], (2, 0))) by {
            if i == 0 {
                assert(t[1] == turned(s[0], (2, 0)));
            } else if i == 1 {
                assert(t[2] == turned(s[1], (2, 0)));
            } else if i == 2 {
                assert(t[3] == turned(s[2], (2, 0)));
            } else if i == 3 {
                assert(t[0] == turned(s[3], (2, 0)));
            }
        }
    }
    if kind == 6 && rot == 3 {
        let s = shape(6, 3);
        let t = shape(6, 0);
        assert forall|i: int| 0 <= i < 4 implies #[trigger] t.contains(turned(s[i], (2, 0))) by {
            if i == 0 {
                assert(t[0] == turned(s[0], (2, 0)));
            } else if i == 1 {
                assert(t[3] == turned(s[1], (2, 0)));
            } else if i == 2 {
                assert(t[2] == turned(s[2], (2, 0)));
            } else if i == 3 {
                assert(t[1] == turned(s[3], (2, 0)));
            }
        }
    }
    if kind == 0 { (3, 0) } else if kind == 1 { (2, -1) } else { (2, 0) }
}

/// The glyph that marks the cells of tetromino `kind`.
pub open spec fn glyph_of(kind: int) -> u8 {
    if kind == 0 { 73u8 }        // 'I'
    else if kind == 1 { 79u8 }   // 'O'
    else if kind == 2 { 84u8 }   // 'T'
    else if kind == 3 { 83u8 }   // 'S'
    else if kind == 4 { 90u8 }   // 'Z'
    else if kind == 5 { 74u8 }   // 'J'
    else { 76u8 }                // 'L'
}

/// The four cells of tetromino `kind` in rotation `rot`.
fn shape_cells(kind: usize, rot: usize) -> (cells: [(i32, i32); 4])
    requires
        kind < 7,
        rot < 4,
    ensures
        forall|i: int| 0 <= i < 4 ==> (#[trigger] cells@[i]).0 as int == shape(kind as int, rot as int)[i].0
            && cells@[i].1 as int == shape(kind as int, rot as int)[i].1,
{
    let cells = match kind {
        0 => match rot {
            0 => [(0, 1), (1, 1), (2, 1), (3, 1)],
            1 => [(2, 0), (2, 1), (2, 2), (2, 3)],
            2 => [(0, 2), (1, 2), (2, 2), (3, 2)],
            _ => [(1, 0), (1, 1), (1, 2), (1, 3)],
        },
        1 => [(1, 0), (2, 0), (1, 1), (2, 1)],
        2 => match rot {
            0 => [(1, 0), (0, 1), (1, 1), (2, 1)],
            1 => [(1, 0), (1, 1), (2, 1), (1, 2)],
            2 => [(0, 1), (1, 1), (2, 1), (1, 2)],
            _ => [(1, 0), (0, 1), (1, 1), (1, 2)],
        },
        3 => match rot {
            0 => [(1, 0), (2, 0), (0, 1), (1, 1)],
            1 => [(1, 0), (1, 1), (2, 1), (2, 2)],
            2 => [(1, 1), (2, 1), (0, 2), (1, 2)],
            _ => [(0, 0), (0, 1), (1, 1), (1, 2)],
        },
        4 => match rot {
            0 => [(0, 0), (1, 0), (1, 1), (2, 1)],
            1 => [(2, 0), (1, 1), (2, 1), (1, 2)],
            2 => [(0, 1), (1, 1), (1, 2), (2, 2)],
            _ => [(1, 0), (0, 1), (1, 1), (0, 2)],
        },
        5 => match rot {
            0 => [(0, 0), (0, 1), (1, 1), (2, 1)],
            1 => [(1, 0), (2, 0), (1, 1), (1, 2)],
            2 => [(0, 1), (1, 1), (2, 1), (2, 2)],
            _ => [(1, 0), (1, 1), (0, 2), (1, 2)],
        },
        _ => match rot {
            0 => [(2, 0), (0, 1), (1, 1), (2, 1)],
            1 => [(1, 0), (1, 1), (1, 2), (2, 2)],
            2 => [(0, 1), (1, 1), (2, 1), (0, 2)],
            _ => [(0, 0), (1, 0), (1, 1), (1, 2)],
        },
    };
    proof {
        assert(cells@ == seq![cells[0], cells[1], cells[2], cells[3]]);
    }
    cells
}

/// The glyph of tetromino `kind`.
fn glyph(kind: usize) -> (g: u8)
    requires
        kind < 7,
    ensures
        g == glyph_of(kind as int),
{
    match kind {
        0 => 73,
        1 => 79,
        2 => 84,
        3 => 83,
        4 => 90,
        5 => 74,
        _ => 76,
    }
}

/// Shape offsets lie in `[0, 3]` on both axes.
pub proof fn lemma_shape_bounds(kind: int, rot: int, i: int)
    requires
        0 <= i < 4,
    ensures
        shape(kind, rot).len() == 4,
        0 <= shape(kind, rot)[i].0 <= 3,
        0 <= shape(kind, rot)[i].1 <= 3,
{
}

/// Board cell `(x, y)` of the `i`-th cell of `piece`.
pub open spec fn piece_cell(piece: Piece, i: int) -> (int, int) {
    (piece.x + shape(piece.kind as int, piece.rot as int)[i].0, piece.y + shape(piece.kind as int, piece.rot as int)[i].1)
}

/// The coordinates of every cell of `piece` fit an `i32`.
pub open spec fn piece_fits(piece: Piece) -> bool {
    piece.x + 3 <= i32::MAX && piece.y + 3 <= i32::MAX
}

/// The `i`-th of the four cells that `piece` covers.
pub fn occupied(piece: Piece, i: usize) -> (cell: (i32, i32))
    requires
        piece.wf(),
        piece_fits(piece),
        i < 4,
    ensures
        cell.0 as int == piece_cell(piece, i as int).0,
        cell.1 as int == piece_cell(piece, i as int).1,
{
    let cells = shape_cells(piece.kind, piece.rot);
    let (x, y) = cells[i];
    proof {
        lemma_shape_bounds(piece.kind as int, piece.rot as int, i as int);
        assert(cells@[i as int] == cells[i as int]);
    }
    (piece.x + x, piece.y + y)
}

/// Whether board cell `(x, y)` blocks a piece: off the sides or the floor,
/// or filled. Cells above the top are free.
pub open spec fn blocked(board: Board, x: int, y: int) -> bool {
    x < 0 || x >= WIDTH || y >= HEIGHT || (y >= 0 && board@[y]@[x] != 0)
}

/// Whether `piece` overlaps a blocked cell.
pub open spec fn piece_collides(board: Board, piece: Piece) -> bool {
    exists|i: int| 0 <= i < 4 && #[trigger] blocked(board, piece_cell(piece, i).0, piece_cell(piece, i).1)
}

/// Whether `piece` leaves the board at the sides or the floor, or overlaps a
/// filled cell.
pub fn collides(board: &Board, piece: Piece) -> (hit: bool)
    requires
        piece.wf(),
        piece_fits(piece),
    ensures
        hit == piece_collides(*board, piece),
{
    let mut i: usize = 0;
    while i < 4
        invariant
            piece.wf(),
            piece_fits(piece),
            i <= 4,
            forall|j: int| 0 <= j < i ==> !#[trigger] blocked(*board, piece_cell(piece, j).0, piece_cell(piece, j).1),
        decreases 4 - i,
    {
        let (x, y) = occupied(piece, i);
        if x < 0 || x >= WIDTH as i32 || y >= HEIGHT as i32 {
            proof {
                assert(blocked(*board, piece_cell(piece, i as int).0, piece_cell(piece, i as int).1));
            }
            return true;
        }
        if y >= 0 && board[y as usize][x as usize] != 0 {
            proof {
                assert(blocked(*board, piece_cell(piece, i as int).0, piece_cell(piece, i as int).1));
            }
            return true;
        }
        i += 1;
    }
    false
}

/// Whether one of the first `n` cells of `piece` is board cell `(x, y)`.
pub open spec fn covers_first(piece: Piece, n: int, x: int, y: int) -> bool {
    exists|i: int| 0 <= i < n && #[trigger] piece_cell(piece, i) == (x, y)
}

/// Whether `piece` covers board cell `(x, y)`.
pub open spec fn covers(piece: Piece, x: int, y: int) -> bool {
    covers_first(piece, 4, x, y)
}

/// Locks `piece` into the board: each of its cells that lies on the board
/// takes the piece's glyph.
pub fn place(board: &mut Board, piece: Piece)
    requires
        piece.wf(),
        piece_fits(piece),
    ensures
        forall|y: int, x: int| 0 <= y < HEIGHT && 0 <= x < WIDTH ==>
            #[trigger] final(board)@[y]@[x] == if covers(piece, x, y) { glyph_of(piece.kind as int) } else { old(board)@[y]@[x] },
{
    let ghost old_board = *board;
    let g = glyph(piece.kind);
    let mut i: usize = 0;
    while i < 4
        invariant
            piece.wf(),
            piece_fits(piece),
            g == glyph_of(piece.kind as int),
            i <= 4,
            forall|y: int, x: int| 0 <= y < HEIGHT && 0 <= x < WIDTH ==>
                #[trigger] board@[y]@[x] == if covers_first(piece, i as int, x, y) { g } else { old_board@[y]@[x] },
        decreases 4 - i,
    {
        let (x, y) = occupied(piece, i);
        let ghost before = *board;
        if y >= 0 && y < HEIGHT as i32 && x >= 0 && x < WIDTH as i32 {
            let mut row = board[y as usize];
            row[x as usize] = g;
            board[y as usize] = row;
        }
        proof {
            assert forall|yy: int, xx: int| 0 <= yy < HEIGHT && 0 <= xx < WIDTH implies
                #[trigger] board@[yy]@[xx] == if covers_first(piece, i + 1, xx, yy) { g } else { old_board@[yy]@[xx] } by {
                if piece_cell(piece, i as int) == (xx, yy) {
                    assert(covers_first(piece, i + 1, xx, yy));
                } else {
                    if covers_first(piece, i + 1, xx, yy) {
                        let j = choose|j: int| 0 <= j < i + 1 && #[trigger] piece_cell(piece, j) == (xx, yy);
                        assert(covers_first(piece, i as int, xx, yy));
                    }
                    if covers_first(piece, i as int, xx, yy) {
                        let j = choose|j: int| 0 <= j < i && #[trigger] piece_cell(piece, j) == (xx, yy);
                        assert(covers_first(piece, i + 1, xx, yy));
                    }
                }
            }
        }
        i += 1;
    }
}

/// The board cell shown at `(x, y)`: the falling piece's glyph where it
/// covers the cell, the locked cell otherwise.
pub fn cell_at(board: &Board, piece: Piece, x: usize, y: usize) -> (cell: u8)
    requires
        piece.wf(),
        piece_fits(piece),
        x < WIDTH,
        y < HEIGHT,
    ensures
        cell == if covers(piece, x as int, y as int) { glyph_of(piece.kind as int) } else { board@[y as int]@[x as int] },
{
    let mut i: usize = 0;
    while i < 4
        invariant
            piece.wf(),
            piece_fits(piece),
            x < WIDTH,
            y < HEIGHT,
            i <= 4,
            !covers_first(piece, i as int, x as int, y as int),
        decreases 4 - i,
    {
        let (px, py) = occupied(piece, i);
        if px == x as i32 && py == y as i32 {
            proof {
                assert(piece_cell(piece, i as int) == (x as int, y as int));
            }
            return glyph(piece.kind);
        }
        proof {
            if covers_first(piece, i + 1, x as int, y as int) {
                let j = choose|j: int| 0 <= j < i + 1 && #[trigger] piece_cell(piece, j) == (x as int, y as int);
                assert(covers_first(piece, i as int, x as int, y as int));
            }
        }
        i += 1;
    }
    board[y][x]
}

/// The piece that spawns as the `index`-th piece of a game.
pub open spec fn spawn(index: int) -> Piece {
    Piece { kind: ((index * 5 + 3) % 7) as usize, rot: 0, x: 3, y: 0 }
}

/// The `index`-th piece of a game, at the top of the board.
pub fn new_piece(index: usize) -> (piece: Piece)
    requires
        index * 5 + 3 <= usize::MAX,
    ensures
        piece == spawn(index as int),
        piece.wf(),
        piece_fits(piece),
{
    Piece { kind: (index * 5 + 3) % 7, rot: 0, x: 3, y: 0 }
}

/// Every cell of `row` is filled.
pub open spec fn row_full(row: Row) -> bool {
    forall|x: int| 0 <= x < WIDTH ==> #[trigger] row@[x] != 0
}

/// An empty row.
pub open spec fn empty_row() -> Row {
    [0u8, 0u8, 0u8, 0u8, 0u8, 0u8, 0u8, 0u8, 0u8, 0u8]
}

/// The rows of `rows` that are not full, in their order.
pub open spec fn kept_rows(rows: Seq<Row>) -> Seq<Row>
    decreases rows.len(),
{
    if rows.len() == 0 {
        Seq::empty()
    } else if row_full(rows[0]) {
        kept_rows(rows.drop_first())
    } else {
        seq![rows[0]] + kept_rows(rows.drop_first())
    }
}

/// `n` empty rows.
pub open spec fn blank_rows(n: int) -> Seq<Row> {
    Seq::new(n as nat, |i: int| empty_row())
}

/// The board after its full rows are removed: the other rows keep their
/// order and sink to the floor, and empty rows fill the top.
pub open spec fn cleared_board(rows: Seq<Row>) -> Seq<Row> {
    blank_rows(rows.len() - kept_rows(rows).len()) + kept_rows(rows)
}

/// Removing full rows never adds rows.
pub proof fn lemma_kept_rows_len(rows: Seq<Row>)
    ensures
        kept_rows(rows).len() <= rows.len(),
    decreases rows.len(),
{
    if rows.len() > 0 {
        lemma_kept_rows_len(rows.drop_first());
    }
}

/// Whether every cell of `row` is filled.
fn is_full(row: &Row) -> (full: bool)
    ensures
        full == row_full(*row),
{
    let mut full = true;
    let mut x: usize = 0;
    while x < WIDTH
        invariant
            x <= WIDTH,
            full == (forall|xx: int| 0 <= xx < x ==> #[trigger] row@[xx] != 0),
        decreases WIDTH - x,
    {
        if row[x] == 0 {
            full = false;
        }
        x += 1;
    }
    full
}

/// Moves rows `0..y` down by one over row `y` and empties the top row.
fn drop_rows_above(board: &mut Board, y: usize)
    requires
        y < HEIGHT,
    ensures
        final(board)@ == blank_rows(1) + old(board)@.subrange(0, y as int) + old(board)@.subrange(y + 1, HEIGHT as int),
{
    let ghost old_board = board@;
    let mut row = y;
    while row > 0
        invariant
            row <= y < HEIGHT,
            board@.len() == HEIGHT,
            forall|r: int| 0 <= r <= row ==> #[trigger] board@[r] == old_board[r],
            forall|r: int| row < r <= y ==> #[trigger] board@[r] == old_board[r - 1],
            forall|r: int| y < r < HEIGHT ==> #[trigger] board@[r] == old_board[r],
        decreases row,
    {
        board[row] = board[row - 1];
        row -= 1;
    }
    board[0] = [0, 0, 0, 0, 0, 0, 0, 0, 0, 0];
    proof {
        assert(board@ =~= blank_rows(1) + old_board.subrange(0, y as int) + old_board.subrange(y + 1, HEIGHT as int));
    }
}

/// Removes every full row, letting the rows above fall, and returns how many
/// rows were removed.
pub fn clear_lines(board: &mut Board) -> (cleared: usize)
    ensures
        final(board)@ == cleared_board(old(board)@),
        cleared == HEIGHT - kept_rows(old(board)@).len(),
{
    let ghost b0 = board@;
    let ghost mut c: int = 0;
    let ghost mut k: int = HEIGHT as int;
    let mut cleared: usize = 0;
    let mut y: usize = HEIGHT;
    proof {
        assert(b0.subrange(0, HEIGHT as int) =~= b0);
        assert(b0.subrange(HEIGHT as int, HEIGHT as int) =~= Seq::<Row>::empty());
        assert(board@ =~= blank_rows(0) + b0.subrange(0, HEIGHT as int) + kept_rows(b0.subrange(HEIGHT as int, HEIGHT as int)));
    }
    while y > 0
        invariant
            b0.len() == HEIGHT,
            0 <= k <= HEIGHT,
            0 <= c,
            cleared == c,
            y == c + k || (k == 0 && y <= c),
            c + k + kept_rows(b0.subrange(k, HEIGHT as int)).len() == HEIGHT,
            board@ == blank_rows(c) + b0.subrange(0, k) + kept_rows(b0.subrange(k, HEIGHT as int)),
        decreases y + k,
    {
        y -= 1;
        let ghost rest = kept_rows(b0.subrange(k, HEIGHT as int));
        let full = is_full(&board[y]);
        proof {
            if k > 0 && y == c + k - 1 {
                assert(board@[y as int] == b0[k - 1]);
                assert(b0.subrange(k - 1, HEIGHT as int).drop_first() =~= b0.subrange(k, HEIGHT as int));
                assert(b0.subrange(k - 1, HEIGHT as int)[0] == b0[k - 1]);
            } else {
                assert(board@[y as int] == empty_row());
                assert(!row_full(empty_row())) by {
                    assert(empty_row()@[0] == 0);
                }
            }
        }
        if full {
            drop_rows_above(board, y);
            cleared += 1;
            y += 1;
            proof {
                let old_board = blank_rows(c) + b0.subrange(0, k) + rest;
                assert(board@ =~= blank_rows(c + 1) + b0.subrange(0, k - 1) + rest);
                c = c + 1;
                k = k - 1;
            }
        } else {
            proof {
                if k > 0 && y == c + k - 1 {
                    assert(b0.subrange(0, k) =~= b0.subrange(0, k - 1) + seq![b0[k - 1]]);
                    assert(board@ =~= blank_rows(c) + b0.subrange(0, k - 1) + kept_rows(b0.subrange(k - 1, HEIGHT as int)));
                    k = k - 1;
                }
            }
        }
    }
    proof {
        assert(b0.subrange(0, 0) =~= Seq::<Row>::empty());
        assert(b0.subrange(0, HEIGHT as int) =~= b0);
        assert(board@ =~= cleared_board(b0));
    }
    cleared
}

/// `piece` moved `d` rows down.
pub open spec fn shifted(piece: Piece, d: int) -> Piece {
    Piece { y: (piece.y + d) as i32, ..piece }
}

/// `to` is where a hard drop of `from` ends: the lowest position that
/// `from` reaches falling row by row without colliding, or `from` itself if
/// it collides already.
pub open spec fn hard_drop(board: Board, from: Piece, to: Piece) -> bool {
    if piece_collides(board, from) {
        to == from
    } else {
        exists|d: int|
            #![trigger shifted(from, d)]
            0 <= d && to == shifted(from, d) && piece_collides(board, shifted(from, d + 1))
                && forall|e: int| 0 <= e <= d ==> !piece_collides(board, #[trigger] shifted(from, e))
    }
}

/// The piece that a moving key asks for: left, right, down or a quarter
/// turn; `None` for other keys.
pub open spec fn key_move(piece: Piece, key: u8) -> Option<Piece> {
    if key == 97 || key == 65 {
        Some(Piece { x: (piece.x - 1) as i32, ..piece })
    } else if key == 100 || key == 68 {
        Some(Piece { x: (piece.x + 1) as i32, ..piece })
    } else if key == 115 || key == 83 {
        Some(Piece { y: (piece.y + 1) as i32, ..piece })
    } else if key == 119 || key == 87 {
        Some(Piece { rot: ((piece.rot + 1) % 4) as usize, ..piece })
    } else {
        None
    }
}

/// The four cells that `piece` covers.
pub open spec fn piece_cells(piece: Piece) -> Seq<(int, int)> {
    Seq::new(4, |i: int| piece_cell(piece, i))
}

/// What the moving keys do to the cells of the falling piece: `a` (either
/// case) moves each of its cells one column left, `d` one column right and
/// `s` one row down, and `w` turns the piece a quarter turn clockwise (its
/// new cells are its old cells turned and shifted by one returned amount);
/// all keep the kind of the piece.
pub proof fn lemma_key_move_cells(piece: Piece) -> (shift: (int, int))
    requires
        piece.wf(),
        piece_in_range(piece),
    ensures
        key_move(piece, 65u8) == key_move(piece, 97u8),
        key_move(piece, 68u8) == key_move(piece, 100u8),
        key_move(piece, 83u8) == key_move(piece, 115u8),
        key_move(piece, 87u8) == key_move(piece, 119u8),
        forall|i: int| 0 <= i < 4 ==> {
            &&& #[trigger] piece_cell(key_move(piece, 97u8).unwrap(), i) == (piece_cell(piece, i).0 - 1, piece_cell(piece, i).1)
            &&& piece_cell(key_move(piece, 100u8).unwrap(), i) == (piece_cell(piece, i).0 + 1, piece_cell(piece, i).1)
            &&& piece_cell(key_move(piece, 115u8).unwrap(), i) == (piece_cell(piece, i).0, piece_cell(piece, i).1 + 1)
        },
        forall|i: int| 0 <= i < 4 ==> #[trigger] piece_cells(key_move(piece, 119u8).unwrap()).contains(
            turned((piece_cell(piece, i).0 - piece.x, piece_cell(piece, i).1 - piece.y), (piece.x + shift.0, piece.y + shift.1))),
        key_move(piece, 97u8).unwrap().kind == piece.kind,
        key_move(piece, 100u8).unwrap().kind == piece.kind,
        key_move(piece, 115u8).unwrap().kind == piece.kind,
        key_move(piece, 119u8).unwrap().kind == piece.kind,
{
    let shift = lemma_rotation_is_quarter_turn(piece.kind as int, piece.rot as int);
    let tp = key_move(piece, 119u8).unwrap();
    assert(tp.rot as int == (piece.rot + 1) % 4);
    let next = shape(piece.kind as int, (piece.rot + 1) % 4);
    lemma_shape_bounds(piece.kind as int, (piece.rot + 1) % 4, 0);
    assert forall|i: int| 0 <= i < 4 implies #[trigger] piece_cells(tp).contains(
        turned((piece_cell(piece, i).0 - piece.x, piece_cell(piece, i).1 - piece.y), (piece.x + shift.0, piece.y + shift.1))) by {
        let c = shape(piece.kind as int, piece.rot as int)[i];
        assert(next.contains(turned(c, shift)));
        let j = choose|j: int| 0 <= j < next.len() && next[j] == turned(c, shift);
        assert(piece_cells(tp)[j] == piece_cell(tp, j));
        assert(piece_cells(tp)[j]
            == turned((piece_cell(piece, i).0 - piece.x, piece_cell(piece, i).1 - piece.y), (piece.x + shift.0, piece.y + shift.1)));
    }
    shift
}

/// Keys `q`/`Q` end the game.
pub open spec fn is_quit_key(key: u8) -> bool {
    key == 113 || key == 81
}

/// The key that drops the piece at once.
pub open spec fn is_drop_key(key: u8) -> bool {
    key == 32
}

/// Moving the piece by a key keeps its coordinates in `i32`.
pub open spec fn piece_in_range(piece: Piece) -> bool {
    i32::MIN < piece.x && piece.x + 4 <= i32::MAX && piece.y + 4 <= i32::MAX
}

/// Applies a key to the falling piece: `a`/`d` move it, `s` moves it down,
/// `w` turns it, space drops it; a move that would collide is ignored.
/// Returns `false` for `q`, which ends the game, and `true` otherwise.
pub fn handle_key(board: &Board, piece: &mut Piece, key: u8) -> (go_on: bool)
    requires
        old(piece).wf(),
        piece_in_range(*old(piece)),
    ensures
        final(piece).wf(),
        go_on == !is_quit_key(key),
        is_drop_key(key) ==> hard_drop(*board, *old(piece), *final(piece)),
        key_move(*old(piece), key) matches Some(next) ==> *final(piece) == if piece_collides(*board, next) { *old(piece) } else { next },
        !is_drop_key(key) && key_move(*old(piece), key) is None ==> *final(piece) == *old(piece),
        !piece_collides(*board, *old(piece)) ==> !piece_collides(*board, *final(piece)),
{
    let ghost p0 = *piece;
    let mut next = *piece;
    if key == 97 || key == 65 /* a, A */ {
        next.x -= 1;
    } else if key == 100 || key == 68 /* d, D */ {
        next.x += 1;
    } else if key == 115 || key == 83 /* s, S */ {
        next.y += 1;
    } else if key == 119 || key == 87 /* w, W */ {
        next.rot = (next.rot + 1) % 4;
    } else if key == 32 /* space */ {
        let ghost mut n: int = 0;
        while !collides(board, next)
            invariant
                p0.wf(),
                piece_in_range(p0),
                0 <= n,
                next == shifted(p0, n),
                n > 0 ==> p0.y + n <= 20,
                forall|e: int| 0 <= e < n ==> !piece_collides(*board, #[trigger] shifted(p0, e)),
                n == 0 ==> *piece == p0,
                n > 0 ==> *piece == shifted(p0, n - 1),
            decreases 21 - p0.y - n,
        {
            proof {
                lemma_shape_bounds(next.kind as int, next.rot as int, 0);
                assert(!blocked(*board, piece_cell(next, 0).0, piece_cell(next, 0).1));
            }
            *piece = next;
            next.y += 1;
            proof {
                n = n + 1;
                assert(next == shifted(p0, n));
            }
        }
        proof {
            if n > 0 {
                let d = n - 1;
                assert(shifted(p0, d + 1) == shifted(p0, n));
                assert(piece_collides(*board, shifted(p0, d + 1)));
                assert(forall|e: int| 0 <= e <= d ==> !piece_collides(*board, #[trigger] shifted(p0, e)));
                assert(!piece_collides(*board, shifted(p0, 0)));
                assert(shifted(p0, 0) == p0);
                assert(hard_drop(*board, p0, *piece));
            } else {
                assert(shifted(p0, 0) == p0);
            }
        }
        return true;
    } else if key == 113 || key == 81 /* q, Q */ {
        return false;
    } else {
        return true;
    }
    if !collides(board, next) {
        *piece = next;
    }
    true
}

/// Points for clearing `n` lines at once, before the level factor.
pub open spec fn line_points(n: int) -> int {
    if n == 1 { 100 } else if n == 2 { 300 } else if n == 3 { 500 } else { 800 }
}

/// The gravity interval at `level`, in milliseconds.
pub open spec fn spec_drop_interval(level: int) -> int {
    let d = TICK_START_MS - (level - 1) * 45;
    if d > TICK_MIN_MS { d } else { TICK_MIN_MS as int }
}

/// The gravity interval at `level`: 520 ms at level 1, 45 ms less per
/// level, and never under 90 ms.
pub fn drop_interval(level: usize) -> (ms: isize)
    requires
        level * 45 <= isize::MAX,
    ensures
        ms == spec_drop_interval(level as int),
{
    let d = TICK_START_MS - (level as isize - 1) * 45;
    if d > TICK_MIN_MS { d } else { TICK_MIN_MS }
}

/// The state of a Tetris game.
pub struct Tetris {
    /// Locked cells.
    pub board: Board,
    /// The falling piece.
    pub piece: Piece,
    /// Index of the next piece to spawn.
    pub next_index: usize,
    /// Score.
    pub score: usize,
    /// Lines cleared so far.
    pub lines: usize,
    /// Level, which speeds up gravity.
    pub level: usize,
}

/// An empty board.
pub open spec fn empty_board() -> Seq<Row> {
    blank_rows(HEIGHT as int)
}

impl Tetris {
    /// The falling piece names a shape, fits on the board and overlaps
    /// nothing.
    pub open spec fn wf(&self) -> bool {
        &&& self.piece.wf()
        &&& piece_fits(self.piece)
        &&& !piece_collides(self.board, self.piece)
    }

    /// The counters can take one more locked piece without overflow.
    pub open spec fn counters_fit(&self) -> bool {
        &&& self.score + 800 * self.level <= usize::MAX
        &&& self.lines + HEIGHT <= usize::MAX
        &&& (self.next_index + 1) * 5 + 3 <= usize::MAX
    }

    /// Whether [`Tetris::gravity`] may run: the counters have room and the
    /// level is at least 1.
    pub fn can_fall(&self) -> (ok: bool)
        ensures
            ok == (self.counters_fit() && self.level >= 1),
    {
        self.level >= 1 && self.level <= (usize::MAX - self.score) / 800 && self.lines <= usize::MAX - HEIGHT
            && self.next_index <= (usize::MAX - 8) / 5
    }

    /// A new game: an empty board, the first piece at the top, level 1.
    pub fn new() -> (game: Self)
        ensures
            game.wf(),
            game.board@ == empty_board(),
            game.piece == spawn(0),
            game.next_index == 1,
            game.score == 0,
            game.lines == 0,
            game.level == 1,
    {
        let board: Board = [
            [0, 0, 0, 0, 0, 0, 0, 0, 0, 0], [0, 0, 0, 0, 0, 0, 0, 0, 0, 0],
            [0, 0, 0, 0, 0, 0, 0, 0, 0, 0], [0, 0, 0, 0, 0, 0, 0, 0, 0, 0],
            [0, 0, 0, 0, 0, 0, 0, 0, 0, 0], [0, 0, 0, 0, 0, 0, 0, 0, 0, 0],
            [0, 0, 0, 0, 0, 0, 0, 0, 0, 0], [0, 0, 0, 0, 0, 0, 0, 0, 0, 0],
            [0, 0, 0, 0, 0, 0, 0, 0, 0, 0], [0, 0, 0, 0, 0, 0, 0, 0, 0, 0],
            [0, 0, 0, 0, 0, 0, 0, 0, 0, 0], [0, 0, 0, 0, 0, 0, 0, 0, 0, 0],
            [0, 0, 0, 0, 0, 0, 0, 0, 0, 0], [0, 0, 0, 0, 0, 0, 0, 0, 0, 0],
            [0, 0, 0, 0, 0, 0, 0, 0, 0, 0], [0, 0, 0, 0, 0, 0, 0, 0, 0, 0],
            [0, 0, 0, 0, 0, 0, 0, 0, 0, 0], [0, 0, 0, 0, 0, 0, 0, 0, 0, 0],
            [0, 0, 0, 0, 0, 0, 0, 0, 0, 0], [0, 0, 0, 0, 0, 0, 0, 0, 0, 0],
        ];
        let piece = new_piece(0);
        proof {
            assert(board@ =~= empty_board());
            assert forall|i: int| 0 <= i < 4 implies !#[trigger] blocked(board, piece_cell(piece, i).0, piece_cell(piece, i).1) by {
                lemma_shape_bounds(piece.kind as int, piece.rot as int, i);
                let (x, y) = piece_cell(piece, i);
                assert(board@[y][x] == 0);
            }
        }
        Tetris { board, piece, next_index: 1, score: 0, lines: 0, level: 1 }
    }

    /// Applies a key; see [`handle_key`]. Returns `false` for `q`.
    pub fn key(&mut self, key: u8) -> (go_on: bool)
        requires
            old(self).wf(),
        ensures
            final(self).wf(),
            go_on == !is_quit_key(key),
            final(self).board == old(self).board,
            final(self).next_index == old(self).next_index,
            final(self).score == old(self).score,
            final(self).lines == old(self).lines,
            final(self).level == old(self).level,
            is_drop_key(key) ==> hard_drop(old(self).board, old(self).piece, final(self).piece),
            key_move(old(self).piece, key) matches Some(next) ==>
                final(self).piece == if piece_collides(old(self).board, next) { old(self).piece } else { next },
            !is_drop_key(key) && key_move(old(self).piece, key) is None ==> final(self).piece == old(self).piece,
    {
        proof {
            lemma_shape_bounds(self.piece.kind as int, self.piece.rot as int, 0);
            assert(!blocked(self.board, piece_cell(self.piece, 0).0, piece_cell(self.piece, 0).1));
        }
        let mut piece = self.piece;
        let go_on = handle_key(&self.board, &mut piece, key);
        proof {
            lemma_shape_bounds(piece.kind as int, piece.rot as int, 0);
            assert(!blocked(self.board, piece_cell(piece, 0).0, piece_cell(piece, 0).1));
        }
        self.piece = piece;
        go_on
    }

    /// One gravity step. The piece falls a row; if it cannot, it locks into
    /// the board, full lines are cleared and scored, and the next piece
    /// spawns. Returns `true` when the new piece has no room: the game is
    /// over.
    pub fn gravity(&mut self) -> (over: bool)
        requires
            old(self).wf(),
            old(self).counters_fit(),
            old(self).level >= 1,
        ensures
            ({
                let pre = *old(self);
                let down = shifted(pre.piece, 1);
                if !piece_collides(pre.board, down) {
                    &&& !over
                    &&& *final(self) == Tetris { piece: down, ..pre }
                } else {
                    let n = HEIGHT - kept_rows(final_locked_rows(pre)).len();
                    &&& final(self).board@ == cleared_board(final_locked_rows(pre))
                    &&& final(self).piece == spawn(pre.next_index as int)
                    &&& final(self).next_index == pre.next_index + 1
                    &&& if n > 0 {
                        &&& final(self).lines == pre.lines + n
                        &&& final(self).score == pre.score + line_points(n) * pre.level
                        &&& final(self).level == 1 + (pre.lines + n) / 5
                    } else {
                        &&& final(self).lines == pre.lines
                        &&& final(self).score == pre.score + 5
                        &&& final(self).level == pre.level
                    }
                    &&& over == piece_collides(final(self).board, final(self).piece)
                }
            }),
            !over ==> final(self).wf(),
            final(self).level >= 1,
    {
        let ghost pre = *self;
        proof {
            lemma_shape_bounds(self.piece.kind as int, self.piece.rot as int, 0);
            assert(!blocked(self.board, piece_cell(self.piece, 0).0, piece_cell(self.piece, 0).1));
        }
        let mut dropped = self.piece;
        dropped.y += 1;
        proof {
            assert(dropped == shifted(pre.piece, 1));
        }
        if collides(&self.board, dropped) {
            place(&mut self.board, self.piece);
            proof {
                assert(self.board@ =~= final_locked_rows(pre)) by {
                    assert forall|y: int| 0 <= y < HEIGHT implies #[trigger] self.board@[y] == final_locked_rows(pre)[y] by {
                        let r = locked_row(pre, y);
                        assert(r@ == seq![r[0], r[1], r[2], r[3], r[4], r[5], r[6], r[7], r[8], r[9]]);
                        assert(self.board@[y]@ =~= r@);
                    }
                }
            }
            let just_cleared = clear_lines(&mut self.board);
            proof {
                lemma_kept_rows_len(final_locked_rows(pre));
            }
            if just_cleared > 0 {
                self.lines += just_cleared;
                let points: usize = if just_cleared == 1 {
                    100
                } else if just_cleared == 2 {
                    300
                } else if just_cleared == 3 {
                    500
                } else {
                    800
                };
                proof {
                    assert(points * self.level <= 800 * self.level) by (nonlinear_arith)
                        requires points <= 800;
                }
                self.score += points * self.level;
                self.level = 1 + self.lines / 5;
            } else {
                self.score += 5;
            }
            self.piece = new_piece(self.next_index);
            self.next_index += 1;
            if collides(&self.board, self.piece) {
                return true;
            }
        } else {
            self.piece = dropped;
        }
        false
    }
}

/// The board rows once the falling piece of `game` is locked into it.
pub open spec fn final_locked_rows(game: Tetris) -> Seq<Row> {
    Seq::new(HEIGHT as nat, |y: int| locked_row(game, y))
}

/// Cell `(x, y)` once the falling piece of `game` is locked into the board.
pub open spec fn locked_cell(game: Tetris, x: int, y: int) -> u8 {
    if covers(game.piece, x, y) { glyph_of(game.piece.kind as int) } else { game.board@[y]@[x] }
}

/// Row `y` once the falling piece of `game` is locked into the board.
pub open spec fn locked_row(game: Tetris, y: int) -> Row {
    let c = |x: int| locked_cell(game, x, y);
    [c(0), c(1), c(2), c(3), c(4), c(5), c(6), c(7), c(8), c(9)]
}

/// The content of a Tetris frame record.
pub struct TetrisFrame {
    /// [`TETRIS_FRAME_MAGIC`].
    pub magic: u32,
    /// Board width in cells.
    pub width: u32,
    /// Board height in cells.
    pub height: u32,
    /// Score.
    pub score: u32,
    /// Lines cleared.
    pub lines: u32,
    /// Level.
    pub level: u32,
    /// Non-zero once the game is over.
    pub game_over: u32,
    /// The cells shown, row by row: 0 or a piece glyph.
    pub cells: Vec<u8>,
}

/// The bytes of a Tetris frame record: seven little-endian words, then the
/// cells.
pub open spec fn tetris_frame_wire(
    magic: u32,
    width: u32,
    height: u32,
    score: u32,
    lines: u32,
    level: u32,
    game_over: u32,
    cells: Seq<u8>,
) -> Seq<u8> {
    le_bytes(magic) + le_bytes(width) + le_bytes(height) + le_bytes(score) + le_bytes(lines) + le_bytes(level)
        + le_bytes(game_over) + cells
}

impl TetrisFrame {
    /// The record's bytes.
    pub open spec fn wire(&self) -> Seq<u8> {
        tetris_frame_wire(self.magic, self.width, self.height, self.score, self.lines, self.level, self.game_over,
            self.cells@)
    }
}

impl Tetris {
    /// The cells a frame shows: the falling piece over the locked cells.
    pub open spec fn shown_cells(&self) -> Seq<u8> {
        Seq::new((WIDTH * HEIGHT) as nat, |k: int|
            if covers(self.piece, k % 10, k / 10) { glyph_of(self.piece.kind as int) } else { self.board@[k / 10]@[k % 10] })
    }

    /// The bytes of the frame record for this state.
    pub open spec fn frame_wire(&self, game_over: bool) -> Seq<u8> {
        tetris_frame_wire(TETRIS_FRAME_MAGIC, WIDTH as u32, HEIGHT as u32, self.score as u32, self.lines as u32,
            self.level as u32, if game_over { 1 } else { 0 }, self.shown_cells())
    }

    /// The frame record of this state, as sent to the kernel.
    pub fn frame_bytes(&self, game_over: bool) -> (bytes: Vec<u8>)
        requires
            self.piece.wf(),
            piece_fits(self.piece),
        ensures
            bytes@ == self.frame_wire(game_over),
    {
        let mut out: Vec<u8> = Vec::new();
        push_u32(&mut out, TETRIS_FRAME_MAGIC);
        push_u32(&mut out, WIDTH as u32);
        push_u32(&mut out, HEIGHT as u32);
        push_u32(&mut out, self.score as u32);
        push_u32(&mut out, self.lines as u32);
        push_u32(&mut out, self.level as u32);
        push_u32(&mut out, if game_over { 1 } else { 0 });
        let ghost head = out@;
        let mut y: usize = 0;
        while y < HEIGHT
            invariant
                self.piece.wf(),
                piece_fits(self.piece),
                y <= HEIGHT,
                out@ == head + self.shown_cells().subrange(0, (y * WIDTH) as int),
            decreases HEIGHT - y,
        {
            let mut x: usize = 0;
            while x < WIDTH
                invariant
                    self.piece.wf(),
                    piece_fits(self.piece),
                    y < HEIGHT,
                    x <= WIDTH,
                    out@ == head + self.shown_cells().subrange(0, (y * WIDTH + x) as int),
                decreases WIDTH - x,
            {
                let c = cell_at(&self.board, self.piece, x, y);
                out.push(c);
                proof {
                    let k = (y * WIDTH + x) as int;
                    vstd::arithmetic::div_mod::lemma_fundamental_div_mod_converse(k, 10, y as int, x as int);
                    assert(self.shown_cells()[k] == c);
                    assert(out@ =~= head + self.shown_cells().subrange(0, k + 1));
                }
                x += 1;
            }
            y += 1;
        }
        proof {
            assert(self.shown_cells().subrange(0, 200) =~= self.shown_cells());
            assert(head =~= le_bytes(TETRIS_FRAME_MAGIC) + le_bytes(WIDTH as u32) + le_bytes(HEIGHT as u32)
                + le_bytes(self.score as u32) + le_bytes(self.lines as u32) + le_bytes(self.level as u32)
                + le_bytes(if game_over { 1u32 } else { 0u32 }));
        }
        out
    }
}

/// After clearing, no full row is left and the board keeps its height;
/// the rows removed are exactly the full ones.
pub proof fn lemma_cleared_board_no_full_rows(rows: Seq<Row>)
    requires
        rows.len() == HEIGHT,
    ensures
        cleared_board(rows).len() == HEIGHT,
        forall|y: int| 0 <= y < HEIGHT ==> !row_full(#[trigger] cleared_board(rows)[y]),
{
    lemma_kept_rows_len(rows);
    lemma_kept_rows_not_full(rows);
    let n = rows.len() - kept_rows(rows).len();
    assert forall|y: int| 0 <= y < HEIGHT implies !row_full(#[trigger] cleared_board(rows)[y]) by {
        if y < n {
            assert(cleared_board(rows)[y] == empty_row());
            assert(empty_row()@[0] == 0);
        } else {
            assert(cleared_board(rows)[y] == kept_rows(rows)[y - n]);
        }
    }
}

/// The rows kept are not full.
pub proof fn lemma_kept_rows_not_full(rows: Seq<Row>)
    ensures
        forall|i: int| 0 <= i < kept_rows(rows).len() ==> !row_full(#[trigger] kept_rows(rows)[i]),
    decreases rows.len(),
{
    if rows.len() > 0 {
        lemma_kept_rows_not_full(rows.drop_first());
        if !row_full(rows[0]) {
            assert(kept_rows(rows) == seq![rows[0]] + kept_rows(rows.drop_first()));
            assert forall|i: int| 0 <= i < kept_rows(rows).len() implies !row_full(#[trigger] kept_rows(rows)[i]) by {
                if i > 0 {
                    assert(kept_rows(rows)[i] == kept_rows(rows.drop_first())[i - 1]);
                } else {
                    assert(kept_rows(rows)[0] == rows[0]);
                }
            }
        } else {
            assert(kept_rows(rows) == kept_rows(rows.drop_first()));
        }
    }
}

} // verus!
