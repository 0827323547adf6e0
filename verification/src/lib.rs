//! Verified core of a twin-stick arcade shooter.
//!
//! All simulation state is kept in fixed-point integers: one unit is a
//! thousandth of a pixel (for lengths), of a second (for times), or of a
//! full axis deflection (for joystick input). The per-frame simulation,
//! entity pools and collision resolution are verified; rendering and raw
//! input capture live outside the library.

pub mod fixed;
pub mod joystick;
pub mod player;
pub mod entities;
pub mod combat;
pub mod game;
