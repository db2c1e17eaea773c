//! Verified core of the MxRox kernel: the VGA text screen, the terminal
//! that lays text out on it, the free-list heap allocator, the PIT clock,
//! the interrupt descriptor table and the port-write plans of the
//! interrupt controllers and the PS/2 controller.
pub mod vga;
pub mod heap;
pub mod terminal;
pub mod time;
pub mod interrupt;
pub mod kernel;
pub mod ps2;
