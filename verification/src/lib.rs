//! Driver core for a page-addressed monochrome OLED controller on a two-wire
//! serial bus: a byte-exact command codec, transaction framing, a dirty-region
//! tracker that coalesces changed bytes into minimal bus writes, a display
//! session running the power-on sequence, and the timer-wait bookkeeping used
//! by cooperative, interrupt-driven hosts.

use vstd::prelude::*;

pub mod alarm;
pub mod bus;
pub mod codec;
pub mod framing;
pub mod roundtrip;
pub mod runner;
pub mod session;
pub mod sim;
pub mod tracker;

pub use codec::AddressMode;
pub use codec::Command;
pub use codec::Direction;
pub use codec::DisplayMode;
pub use codec::DisplayState;

verus! {

/// Pixel columns in the panel; also the number of bytes in one page row.
pub const COLUMN: u8 = 64;

/// Pixel rows in the panel.
pub const ROW: u8 = 128;

/// Number of pages: each page is a band 8 pixel rows tall.
pub const PAGE: u8 = 16;

/// Bytes in the local framebuffer: one byte per (page, column) cell.
pub const FRAME_BYTES: usize = 1024;

} // verus!
