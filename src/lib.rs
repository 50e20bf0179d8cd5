//! An analog clock face for a terminal: clock hands rasterized as lines on a 16 by 16
//! pixel canvas, together with a circular dial, composed into a grid of half-block
//! characters two pixels tall.

pub mod clock;
pub mod grid;
pub mod line;
