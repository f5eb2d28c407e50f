//! The decision logic of an auto-clicker: hotkeys, mouse clicks and screen geometry.
pub mod engine;
pub mod hotkeys;
pub mod text;
