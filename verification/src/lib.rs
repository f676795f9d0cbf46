//! A small arcade simulation in fixed-point arithmetic: a ship, enemy
//! units and bullets on a bounded field, advanced tick by tick.
//!
//! All quantities are integers. Lengths, speeds and health are counted in
//! millionths of a field unit, angles in whole degrees. `board::Board` holds
//! the state of a session and `game::Game` adds the held keys and the
//! decisions of the loop around it; `state::BoardState` is the mathematical
//! value that their contracts speak of, and `laws` states what holds of the
//! simulation as a whole.

pub mod units;
pub mod trig;
pub mod vector;
pub mod bullet;
pub mod ship;
pub mod mook;
pub mod collision;
pub mod events;
pub mod state;
mod passes;
pub mod board;
pub mod game;
pub mod laws;
