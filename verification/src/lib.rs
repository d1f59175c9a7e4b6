//! Graphics and game logic of a teaching kernel's VirtIO demos: pixel
//! drawing on a BGRA framebuffer, the tangram picture, the snake, Tetris,
//! pingpong, breakout and pacman games, the frame records that their user
//! programs send to the kernel and the pictures the kernel draws from them,
//! the keyboard latch and the DMA page allocator.
use vstd::prelude::*;

pub mod color;
pub mod raster;
pub mod tangram;
pub mod tetris;
pub mod wire;
pub mod snake;
pub mod snake_screen;
pub mod keyboard;
pub mod tetris_screen;
pub mod pingpong;
pub mod pingpong_screen;
pub mod breakout;
pub mod breakout_screen;
pub mod pacman;
pub mod pacman_screen;
pub mod dma;
pub mod spin;
pub mod text;
