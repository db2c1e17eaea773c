# mxrox

The core of MxRox, a small x86_64 kernel, with its behaviour stated in
contracts and proved with Verus.

- `src/vga.rs`: the 80x25 VGA text screen and its cells.
- `src/terminal.rs`: the printed text, its layout in rows, and its drawing.
- `src/heap.rs`: the first-fit free-list heap allocator, `memcpy`, `memset`.
- `src/time.rs`: the clock driven by the timer, sleeps, the timer's programming.
- `src/interrupt.rs`: the interrupt descriptor table and the steps for the
  interrupt controllers.
- `src/ps2.rs`: the PS/2 controller's decisions.
- `src/kernel.rs`: the kernel as a whole: boot, timer and keyboard interrupts.
- `app/`: the hardware layer (port I/O, memory-mapped writes, registers) and
  the global state behind locks.
