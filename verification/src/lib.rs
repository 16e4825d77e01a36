//! Terminal animation cores: a randomized perfect-maze generator with a
//! backtracking solver agent, a colored Game of Life board, a digital-rain
//! board, and a bar-sort animation, each reduced to verified logic over plain
//! values.  Terminal output, argument parsing and frame pacing live outside
//! the library and talk to it through plain data.

pub mod agent;
pub mod bits;
pub mod borders;
pub mod bubble;
pub mod conway;
pub mod digirain;
pub mod dir;
pub mod maze;
pub mod render;
pub mod rng;
pub mod term;
pub mod term_renderer;
