//! A verified engine for a terminal grid-reveal puzzle game.
//!
//! A rectangular board is seeded with hidden mines; the player reveals or
//! flags cells. Revealing a mine loses the game; revealing every safe cell
//! wins it. The engine owns the board model, mine placement, the flood-fill
//! auto-reveal, the win/loss state machine, and the cursor/selection logic.
//! Rendering and input devices are collaborators outside this crate.

pub mod board;
pub mod cell;
pub mod flood;
pub mod placement;
pub mod region;
pub mod screen;
pub mod selection;
pub mod session;
pub mod settings;

pub use board::Board;
pub use cell::{Cell, CellContent, GlyphKey};
pub use screen::{CellPos, MousePos};
pub use selection::{InputAction, LoopCommand};
pub use session::{Choice, Click, GameState, Session};
pub use settings::{InputType, Settings};
