//! The kernel as a whole: its heap, interrupt table, clock, terminal and
//! screen, how it boots, and what its interrupts do.
use vstd::prelude::*;
use crate::heap::{FreeBlock, FreeListAllocator};
use crate::interrupt::{
    apic_init_plan, apic_supported, disable_pic, disable_pic_plan, empty_entry, eoi_plan, gate,
    init_apic, init_pic, load_idt, load_idt_plan, pic_init_plan, send_eoi, Idt, IoOp,
    APIC_ENABLED, IDT_SIZE, first_out_to, lemma_first_out_concat, lemma_pic_init_vector_offsets,
    entry_handler, ICW1_ICW4, ICW1_INIT, MASTER_VECTOR_OFFSET, PIC1_COMMAND, PIC1_DATA, PIC2_DATA,
    SLAVE_VECTOR_OFFSET,
};
use crate::ps2::{init_ps2_plan, is_ps2_2_device_enabled, send_command, DATA_PORT, DEVICE1_IRQ};
use crate::terminal::{
    decimal, hex, is_ascii_chars, lemma_ascii_rows_fit, lemma_concat_ascii,
    lemma_log_line_ascii, lemma_render_ascii, lemma_rows_bounded, log_line, render, rows_fit,
    shown_cell, visible_rows, Terminal,
};
use crate::time::{init_pit, pit_init_plan, ticked, Clock, TICKS_PER_SECOND};
use crate::vga::{Screen, TERMINAL_CELLS, TERMINAL_HEIGHT, TERMINAL_WIDTH};

verus! {

/// Where the kernel heap starts.
pub const HEAP_START: usize = 0x200000;

/// The size of the kernel heap: one mebibyte.
pub const HEAP_SIZE: usize = 1048576;

/// Whether `cells` are the drawing of the text `text` over some earlier
/// screen: the last rows of the text, each padded with blanks.
pub open spec fn screen_renders(cells: Seq<u16>, text: Seq<char>) -> bool {
    exists|before: Seq<u16>|
        before.len() == TERMINAL_CELLS && cells == render(
            before,
            visible_rows(text),
            TERMINAL_HEIGHT as int,
        )
}

/// Whether `cells` show the last rows of `text`: each row at the left of
/// its screen row, white on black, padded with blanks, and the screen rows
/// past the text blank.
pub open spec fn shows_text(cells: Seq<u16>, text: Seq<char>) -> bool {
    forall|y: int, x: int|
        0 <= y < TERMINAL_HEIGHT && 0 <= x < TERMINAL_WIDTH ==> #[trigger] cells[y * TERMINAL_WIDTH
            + x] == shown_cell(visible_rows(text), y, x)
}

/// Whether printing each of `lines` in turn after `text` keeps every
/// shown row within the screen's width.
pub open spec fn prints_fit(text: Seq<char>, lines: Seq<Seq<char>>) -> bool {
    forall|k: int| 1 <= k <= lines.len() ==> rows_fit(visible_rows(text + #[trigger] lines.take(k).flatten()))
}

/// An information line printed at boot, stamped with time zero.
pub open spec fn boot_line(text: Seq<char>) -> Seq<char> {
    log_line(0, "INFO"@, text)
}

/// The kernel's state.
pub struct Kernel {
    pub heap: FreeListAllocator,
    pub idt: Idt,
    pub clock: Clock,
    pub terminal: Terminal,
    pub screen: Screen,
    /// Whether the local APIC is in use.
    pub apic: bool,
}

/// A terminal that shows ASCII text shows each row as it is.
pub proof fn lemma_ascii_text_shown(cells: Seq<u16>, text: Seq<char>)
    requires
        screen_renders(cells, text),
        is_ascii_chars(text),
    ensures
        shows_text(cells, text),
{
    let before = choose|before: Seq<u16>|
        before.len() == TERMINAL_CELLS && cells == render(
            before,
            visible_rows(text),
            TERMINAL_HEIGHT as int,
        );
    lemma_rows_bounded(text);
    lemma_ascii_rows_fit(text);
    lemma_render_ascii(before, visible_rows(text));
}

/// A log line of ASCII words after ASCII text leaves the text ASCII, and
/// the text can be laid out.
proof fn lemma_ascii_log_fits(text: Seq<char>, millis: nat, level: Seq<char>, line: Seq<char>)
    requires
        is_ascii_chars(text),
        is_ascii_chars(level),
        is_ascii_chars(line),
    ensures
        is_ascii_chars(text + log_line(millis, level, line)),
        rows_fit(visible_rows(text + log_line(millis, level, line))),
{
    lemma_log_line_ascii(millis, level, line);
    lemma_concat_ascii(text, log_line(millis, level, line));
    lemma_ascii_rows_fit(text + log_line(millis, level, line));
}

impl Kernel {
    /// The invariants of the parts: the heap's, the clock's, a full table
    /// and a full screen.
    pub open spec fn parts_wf(&self) -> bool {
        &&& self.heap.wf()
        &&& self.idt@.len() == IDT_SIZE
        &&& self.clock.wf()
        &&& self.screen@.len() == TERMINAL_CELLS
    }

    /// The kernel's invariant: its parts are sound and the screen is the
    /// drawing of the terminal's text.
    pub open spec fn wf(&self) -> bool {
        &&& self.parts_wf()
        &&& screen_renders(self.screen@, self.terminal@)
    }

    /// Prints `text` as a log line of the given level stamped with the
    /// clock's time.
    fn log_chars(&mut self, level: &str, text: &[char])
        requires
            old(self).parts_wf(),
            old(self).clock.now() <= usize::MAX,
            rows_fit(
                visible_rows(
                    old(self).terminal@ + log_line(old(self).clock.now() as nat, level@, text@),
                ),
            ),
        ensures
            final(self).wf(),
            final(self).terminal@ == old(self).terminal@ + log_line(
                old(self).clock.now() as nat,
                level@,
                text@,
            ),
            final(self).screen@ == render(
                old(self).screen@,
                visible_rows(final(self).terminal@),
                TERMINAL_HEIGHT as int,
            ),
            final(self).heap == old(self).heap,
            final(self).idt@ == old(self).idt@,
            final(self).clock == old(self).clock,
            final(self).apic == old(self).apic,
    {
        let millis = self.clock.get_time_millis();
        self.terminal.log_chars(&mut self.screen, millis, level, text);
        assert(screen_renders(self.screen@, self.terminal@));
    }

    /// Prints `text` as an information line stamped with the clock's time.
    pub fn log_info(&mut self, text: &str)
        requires
            old(self).parts_wf(),
            old(self).clock.now() <= usize::MAX,
            rows_fit(
                visible_rows(
                    old(self).terminal@ + log_line(old(self).clock.now() as nat, "INFO"@, text@),
                ),
            ),
        ensures
            final(self).wf(),
            final(self).terminal@ == old(self).terminal@ + log_line(
                old(self).clock.now() as nat,
                "INFO"@,
                text@,
            ),
            final(self).screen@ == render(
                old(self).screen@,
                visible_rows(final(self).terminal@),
                TERMINAL_HEIGHT as int,
            ),
            final(self).heap == old(self).heap,
            final(self).idt@ == old(self).idt@,
            final(self).clock == old(self).clock,
            final(self).apic == old(self).apic,
    {
        let chars = crate::vga::str_chars(text);
        self.log_chars("INFO", chars.as_slice());
    }

    /// Prints `text` as a fatal error line stamped with the clock's time.
    pub fn log_error(&mut self, text: &str)
        requires
            old(self).parts_wf(),
            old(self).clock.now() <= usize::MAX,
            rows_fit(
                visible_rows(
                    old(self).terminal@ + log_line(old(self).clock.now() as nat, "FATAL"@, text@),
                ),
            ),
        ensures
            final(self).wf(),
            final(self).terminal@ == old(self).terminal@ + log_line(
                old(self).clock.now() as nat,
                "FATAL"@,
                text@,
            ),
            final(self).screen@ == render(
                old(self).screen@,
                visible_rows(final(self).terminal@),
                TERMINAL_HEIGHT as int,
            ),
            final(self).heap == old(self).heap,
            final(self).idt@ == old(self).idt@,
            final(self).clock == old(self).clock,
            final(self).apic == old(self).apic,
    {
        let chars = crate::vga::str_chars(text);
        self.log_chars("FATAL", chars.as_slice());
    }

    /// One timer interrupt: the clock ticks; when that completes a second,
    /// the kernel logs it; then the interrupt is ended. The result is the
    /// steps that end it.
    pub fn pit_handler(&mut self) -> (ops: Vec<IoOp>)
        requires
            old(self).wf(),
            old(self).clock.now() < usize::MAX,
            old(self).clock.millis() + 1 == TICKS_PER_SECOND ==> rows_fit(
                visible_rows(
                    old(self).terminal@ + log_line(
                        (old(self).clock.now() + 1) as nat,
                        "INFO"@,
                        "proshlo second"@,
                    ),
                ),
            ),
        ensures
            final(self).wf(),
            final(self).heap == old(self).heap,
            final(self).idt@ == old(self).idt@,
            final(self).apic == old(self).apic,
            final(self).clock.timers() == ticked(old(self).clock.timers()),
            final(self).clock.next_id() == old(self).clock.next_id(),
            final(self).clock.now() == old(self).clock.now() + 1,
            old(self).clock.millis() + 1 == TICKS_PER_SECOND ==> final(self).terminal@ == old(
                self,
            ).terminal@ + log_line(
                (old(self).clock.now() + 1) as nat,
                "INFO"@,
                "proshlo second"@,
            ),
            old(self).clock.millis() + 1 != TICKS_PER_SECOND ==> final(self).terminal@ == old(
                self,
            ).terminal@ && final(self).screen@ == old(self).screen@,
            old(self).clock.millis() + 1 == TICKS_PER_SECOND ==> final(self).screen@ == render(
                old(self).screen@,
                visible_rows(final(self).terminal@),
                TERMINAL_HEIGHT as int,
            ),
            ops@ == eoi_plan(0, old(self).apic),
    {
        let elapsed = self.clock.tick();
        if elapsed {
            self.log_info("proshlo second");
        }
        send_eoi(0, self.apic)
    }

    /// Brings up the PS/2 controller's first device, logging each stage,
    /// and installs `device1_handler` at vector 0x21 (attributes 0x09).
    /// The result is the controller steps.
    pub fn init_ps2(&mut self, device1_handler: u32) -> (ops: Vec<IoOp>)
        requires
            old(self).wf(),
            old(self).clock.now() <= usize::MAX,
            prints_fit(old(self).terminal@, ps2_lines(old(self).clock.now() as nat)),
        ensures
            final(self).wf(),
            final(self).heap == old(self).heap,
            final(self).clock == old(self).clock,
            final(self).apic == old(self).apic,
            final(self).idt@ == old(self).idt@.update(0x21, gate(device1_handler, 0x09, 0x09)),
            final(self).terminal@ == old(self).terminal@ + ps2_lines(
                old(self).clock.now() as nat,
            ).flatten(),
            ops@ == init_ps2_plan(),
    {
        let ghost t0 = self.terminal@;
        let ghost lines = ps2_lines(self.clock.now() as nat);
        proof {
            assert forall|k: int| 0 <= k < lines.len() implies lines.take(k + 1).flatten()
                == lines.take(k).flatten() + lines[k] by {
                assert(lines.take(k + 1) =~= lines.take(k).push(lines[k]));
                lines.take(k).lemma_flatten_push(lines[k]);
            }
            assert(lines.take(0) =~= Seq::<Seq<char>>::empty());
            assert(rows_fit(visible_rows(t0 + lines.take(1).flatten())));
            assert(rows_fit(visible_rows(t0 + lines.take(2).flatten())));
            assert(rows_fit(visible_rows(t0 + lines.take(3).flatten())));
            assert(rows_fit(visible_rows(t0 + lines.take(4).flatten())));
            assert(rows_fit(visible_rows(t0 + lines.take(5).flatten())));
            assert(t0 + lines.take(1).flatten() =~= t0 + lines[0]);
        }
        let mut ops: Vec<IoOp> = Vec::new();
        ops.push(send_command(0xAD));
        self.log_info("[PS/2] Disabled device 1");
        if is_ps2_2_device_enabled() {
            ops.push(send_command(0xA7));
        }
        ops.push(IoOp::In { port: DATA_PORT });
        ops.push(send_command(0x60));
        ops.push(send_command(0x00));
        assert(t0 + lines.take(2).flatten() =~= self.terminal@ + lines[1]);
        self.log_info("[PS/2] Flush device data and clear CCB");
        ops.push(send_command(0xAE));
        assert(t0 + lines.take(3).flatten() =~= self.terminal@ + lines[2]);
        self.log_info("[PS/2] Enable device 1");
        assert(t0 + lines.take(4).flatten() =~= self.terminal@ + lines[3]);
        self.log_info("[PS/2] Inspected device 1 identify");
        if is_ps2_2_device_enabled() {
            ops.push(send_command(0xA8));
        }
        self.idt.idt_set_descriptor(0x21, device1_handler, 0x09);
        assert(t0 + lines.take(5).flatten() =~= self.terminal@ + lines[4]);
        self.log_info("[PS/2] Bind handler for device 1");
        assert(ops@ =~= init_ps2_plan());
        assert(lines.take(5) =~= lines);
        assert(self.terminal@ =~= t0 + lines.flatten());
        ops
    }

    /// An interrupt of the first PS/2 device that delivered `data`: the
    /// byte is logged in hexadecimal, then the interrupt is ended. The
    /// result is the steps that end it.
    pub fn on_device_1_irq(&mut self, data: u8) -> (ops: Vec<IoOp>)
        requires
            old(self).wf(),
            old(self).clock.now() <= usize::MAX,
            rows_fit(
                visible_rows(
                    old(self).terminal@ + log_line(
                        old(self).clock.now() as nat,
                        "INFO"@,
                        "[PS/2] device 1 data: 0x"@ + hex(data as nat),
                    ),
                ),
            ),
        ensures
            final(self).wf(),
            final(self).heap == old(self).heap,
            final(self).clock == old(self).clock,
            final(self).idt@ == old(self).idt@,
            final(self).apic == old(self).apic,
            final(self).terminal@ == old(self).terminal@ + log_line(
                old(self).clock.now() as nat,
                "INFO"@,
                "[PS/2] device 1 data: 0x"@ + hex(data as nat),
            ),
            final(self).screen@ == render(
                old(self).screen@,
                visible_rows(final(self).terminal@),
                TERMINAL_HEIGHT as int,
            ),
            ops@ == eoi_plan(DEVICE1_IRQ, old(self).apic),
    {
        let mut text = crate::vga::str_chars("[PS/2] device 1 data: 0x");
        crate::terminal::push_hex(&mut text, data as usize);
        self.log_chars("INFO", text.as_slice());
        send_eoi(DEVICE1_IRQ, self.apic)
    }

    /// Prints an ASCII boot line at time zero.
    fn boot_log_line(&mut self, text: &[char])
        requires
            old(self).parts_wf(),
            old(self).clock.now() == 0,
            is_ascii_chars(old(self).terminal@),
            is_ascii_chars(text@),
        ensures
            final(self).wf(),
            is_ascii_chars(final(self).terminal@),
            final(self).terminal@ == old(self).terminal@ + boot_line(text@),
            final(self).heap == old(self).heap,
            final(self).idt@ == old(self).idt@,
            final(self).clock == old(self).clock,
            final(self).apic == old(self).apic,
    {
        proof {
            reveal_strlit("INFO");
            lemma_ascii_log_fits(self.terminal@, 0, "INFO"@, text@);
        }
        self.log_chars("INFO", text);
    }

    /// Boots the kernel on the screen `screen`: the heap from `HEAP_START`,
    /// `HEAP_SIZE` bytes; then the interrupts: the PICs initialized (their
    /// masks `mask1` and `mask2` restored), and, when the local APIC is
    /// enabled and the processor reports one in `cpuid_edx`, the PICs
    /// masked and the APIC enabled from its base register's value
    /// `apic_base_msr`, and the table loaded; then the timer: programmed,
    /// `pit_handler` installed at vector 0x20, the table loaded again. Each
    /// stage is logged. The result is the kernel and the steps for the
    /// hardware, in order.
    pub fn init_kernel(
        mask1: u8,
        mask2: u8,
        cpuid_edx: u32,
        apic_base_msr: u64,
        pit_handler: u32,
        screen: Screen,
    ) -> (r: (Kernel, Vec<IoOp>))
        requires
            screen@.len() == TERMINAL_CELLS,
        ensures
            r.0.wf(),
            shows_text(r.0.screen@, r.0.terminal@),
            r.0.apic == (APIC_ENABLED && (cpuid_edx & 0x200 != 0)),
            r.0.heap.free_blocks() == seq![FreeBlock { addr: HEAP_START, size: HEAP_SIZE }],
            r.0.heap.start() == HEAP_START,
            r.0.heap.end() == HEAP_START + HEAP_SIZE,
            r.0.idt@ == Seq::new(IDT_SIZE as nat, |i: int| empty_entry()).update(
                0x20,
                gate(pit_handler, 0x8E, 0x8E),
            ),
            r.0.clock.millis() == 0,
            r.0.clock.seconds() == 0,
            r.0.clock.timers().len() == 0,
            r.0.clock.next_id() == 0,
            r.0.terminal@ == boot_log(r.0.apic, pit_handler),
            r.1@ == boot_plan(mask1, mask2, r.0.apic, apic_base_msr),
            first_out_to(r.1@, PIC1_DATA) == Some(MASTER_VECTOR_OFFSET),
            first_out_to(r.1@, PIC2_DATA) == Some(SLAVE_VECTOR_OFFSET),
            first_out_to(r.1@, PIC1_DATA) matches Some(offset) && r.0.idt@[offset as int] == gate(
                pit_handler,
                0x8E,
                0x8E,
            ) && entry_handler(r.0.idt@[offset as int]) == pit_handler,
    {
        let mut heap = FreeListAllocator::new();
        heap.init(HEAP_START, HEAP_SIZE);
        let apic = APIC_ENABLED && apic_supported(cpuid_edx);
        let mut k = Kernel {
            heap,
            idt: Idt::new(),
            clock: Clock::new(),
            terminal: Terminal::new(),
            screen,
            apic,
        };
        proof {
            reveal_strlit("PIC initialized");
            reveal_strlit("Disable PIC");
            reveal_strlit("APIC initialized");
            reveal_strlit("PIT initialization");
            reveal_strlit("PIT initialized");
            reveal_strlit("PIT registered");
            reveal_strlit("PIT loaded idt");
        }
        let mut ops = init_pic(mask1, mask2);
        k.boot_log_line(crate::vga::str_chars("PIC initialized").as_slice());
        if apic {
            let mut d = disable_pic();
            ops.append(&mut d);
            k.boot_log_line(crate::vga::str_chars("Disable PIC").as_slice());
            let mut a = init_apic(apic_base_msr);
            ops.append(&mut a);
            k.boot_log_line(crate::vga::str_chars("APIC initialized").as_slice());
        }
        let mut l = load_idt();
        ops.append(&mut l);
        k.boot_log_line(crate::vga::str_chars("PIT initialization").as_slice());
        let mut p = init_pit();
        ops.append(&mut p);
        k.boot_log_line(crate::vga::str_chars("PIT initialized").as_slice());
        let mut digits: Vec<char> = Vec::new();
        crate::terminal::push_decimal(&mut digits, pit_handler as usize);
        proof {
            crate::terminal::lemma_decimal_ascii(pit_handler as nat);
        }
        k.boot_log_line(digits.as_slice());
        k.idt.idt_set_descriptor(0x20, pit_handler, 0x8E);
        k.boot_log_line(crate::vga::str_chars("PIT registered").as_slice());
        let mut l2 = load_idt();
        ops.append(&mut l2);
        k.boot_log_line(crate::vga::str_chars("PIT loaded idt").as_slice());
        assert(ops@ =~= boot_plan(mask1, mask2, apic, apic_base_msr));
        assert(k.terminal@ =~= boot_log(apic, pit_handler));
        proof {
            lemma_ascii_text_shown(k.screen@, k.terminal@);
            lemma_boot_maps_timer_to_handler(mask1, mask2, apic, apic_base_msr);
        }
        (k, ops)
    }
}

/// Booting programs the master PIC first, its lines mapped to the vectors
/// from 0x20 (so the timer, its line 0, raises vector 0x20, where the
/// timer handler is installed) and the slave's to those from 0x28.
pub proof fn lemma_boot_maps_timer_to_handler(mask1: u8, mask2: u8, apic: bool, apic_base_msr: u64)
    ensures
        first_out_to(boot_plan(mask1, mask2, apic, apic_base_msr), PIC1_COMMAND) == Some(
            ICW1_INIT | ICW1_ICW4,
        ),
        first_out_to(boot_plan(mask1, mask2, apic, apic_base_msr), PIC1_DATA) == Some(
            MASTER_VECTOR_OFFSET,
        ),
        first_out_to(boot_plan(mask1, mask2, apic, apic_base_msr), PIC2_DATA) == Some(
            SLAVE_VECTOR_OFFSET,
        ),
        MASTER_VECTOR_OFFSET + TIMER_IRQ == 0x20,
{
    let a = pic_init_plan(mask1, mask2);
    let b = (if apic {
        disable_pic_plan() + apic_init_plan(apic_base_msr)
    } else {
        Seq::empty()
    }) + load_idt_plan() + pit_init_plan() + load_idt_plan();
    assert(boot_plan(mask1, mask2, apic, apic_base_msr) =~= a + b);
    lemma_pic_init_vector_offsets(mask1, mask2);
    lemma_first_out_concat(a, b, PIC1_COMMAND);
    lemma_first_out_concat(a, b, PIC1_DATA);
    lemma_first_out_concat(a, b, PIC2_DATA);
}

/// The master PIC's line the timer is on.
pub const TIMER_IRQ: u8 = 0;

/// What the kernel logs while it boots, with the local APIC in use or not,
/// the timer handler at `pit_handler`.
pub open spec fn boot_log(apic: bool, pit_handler: u32) -> Seq<char> {
    boot_line("PIC initialized"@) + (if apic {
        boot_line("Disable PIC"@) + boot_line("APIC initialized"@)
    } else {
        Seq::empty()
    }) + boot_line("PIT initialization"@) + boot_line("PIT initialized"@) + boot_line(
        decimal(pit_handler as nat),
    ) + boot_line("PIT registered"@) + boot_line("PIT loaded idt"@)
}

/// The lines that bringing up the PS/2 controller logs, at time `millis`.
pub open spec fn ps2_lines(millis: nat) -> Seq<Seq<char>> {
    seq![
        log_line(millis, "INFO"@, "[PS/2] Disabled device 1"@),
        log_line(millis, "INFO"@, "[PS/2] Flush device data and clear CCB"@),
        log_line(millis, "INFO"@, "[PS/2] Enable device 1"@),
        log_line(millis, "INFO"@, "[PS/2] Inspected device 1 identify"@),
        log_line(millis, "INFO"@, "[PS/2] Bind handler for device 1"@),
    ]
}

/// The steps for the hardware while the kernel boots.
pub open spec fn boot_plan(mask1: u8, mask2: u8, apic: bool, apic_base_msr: u64) -> Seq<IoOp> {
    pic_init_plan(mask1, mask2) + (if apic {
        disable_pic_plan() + apic_init_plan(apic_base_msr)
    } else {
        Seq::empty()
    }) + load_idt_plan() + pit_init_plan() + load_idt_plan()
}

} // verus!
