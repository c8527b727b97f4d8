//! Deck of pinned screenshots: the state behind a set of floating image
//! windows, the plan that maps that state onto a fixed pool of windows, and
//! the encoding of clipboard pixels into a PNG data URL.

pub mod deck;
pub mod png;
pub mod geometry;
pub mod tray;
pub mod laws;
