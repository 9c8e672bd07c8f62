//! The rules of a one-screen side-scrolling bird game, kept apart from any engine.
//!
//! A [`game::Game`] holds the whole world: background tiles and pipes that
//! scroll to the left and come back at the right end, a bird that falls and
//! is sent upwards by a press, the state of the run, and the score. Four
//! routines change it once per frame: [`game::Game::sprite_movement`] scrolls
//! the world and counts the pipes that the bird has passed,
//! [`game::Game::mouse_click`] takes the input, [`game::Game::bird_movement`]
//! moves the bird, and [`game::Game::check_for_collisions`] checks it against
//! the pipes. An engine draws what the game holds and tells it how much time
//! has passed.
//!
//! All quantities are whole numbers ([`units`]), so every frame is computed
//! without rounding. Each routine is specified by a function over the
//! integers on the view of the game, and [`laws`] states what holds of every
//! run.

pub mod animation;
pub mod bird;
pub mod chance;
pub mod game;
pub mod geometry;
pub mod label;
pub mod laws;
pub mod pipes;
pub mod row;
pub mod state;
pub mod tiles;
pub mod units;
