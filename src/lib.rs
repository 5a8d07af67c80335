//! Early-boot text output for a freestanding kernel: a text-mode character
//! grid with cursor, wrapping and scrolling, and the exit protocol of the
//! check harness.
pub mod harness;
pub mod vga_buffer;
