//! A verified interpreter for a small fixed-instruction-set byte-code machine:
//! 16-bit opcodes, 4KB of memory, 16 general registers, an index register, a
//! 16-slot call stack, a 64x32 monochrome frame buffer, a 16-key input matrix,
//! and two countdown timers.

pub mod display;
pub mod draw;
pub mod laws;
pub mod state;
pub mod step;

pub use display::get_display_translated;
pub use state::Emu;
pub use state::EmuState;
pub use state::SCREEN_HEIGHT;
pub use state::SCREEN_WIDTH;
