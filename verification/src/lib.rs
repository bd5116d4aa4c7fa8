//! Core of a grid raycaster: the grid world and its lookups, the decisions of
//! the motion resolver and of the ray traversal, and the painting of a frame.
//!
//! Everything here works on integers. Positions and directions are fractional
//! quantities that the caller owns; the library receives the grid cells they
//! fall into and answers with what the grid decides.
//!
//! - `map` and `text`: the grid world and the reading of a map text.
//! - `raycast`: the traversal of the grid by a ray, and the columns of a frame.
//! - `motion`: which parts of a displacement the grid lets happen.
//! - `ui` and `textures`: painting into a frame buffer.
//! - `levels`, `screens` and `input`: themes, screen flow and controller
//!   readings of the game around the core.

pub mod input;
pub mod levels;
pub mod map;
pub mod motion;
pub mod raycast;
pub mod screens;
pub mod text;
pub mod textures;
pub mod ui;

pub use map::Grid;
pub use map::GridMap;
pub use map::SENTINEL;
