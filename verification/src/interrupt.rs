//! Interrupts: the interrupt descriptor table, and what the kernel writes
//! to the interrupt controllers (the 8259 PICs and the local APIC) and the
//! timer, as plans of port and memory writes that the hardware layer runs.
use vstd::prelude::*;

verus! {

/// Number of entries of the interrupt descriptor table.
pub const IDT_SIZE: usize = 256;

/// Bytes of one packed descriptor: two 16-bit offsets, the selector and
/// two bytes of attributes.
pub const IDT_ENTRY_SIZE: usize = 8;

/// The kernel code segment selector.
pub const KERNEL_CODE_SELECTOR: u16 = 0x08;

pub const APIC_BASE: u32 = 0xFEE00000;
/// End Of Interrupt register of the local APIC.
pub const APIC_EOI: u32 = 0xFEE000B0;
/// Spurious Interrupt Vector Register of the local APIC.
pub const APIC_SVR: u32 = 0xFEE000F0;
pub const IA32_APIC_BASE_MSR: u32 = 0x1B;
pub const APIC_BASE_ENABLE: u64 = 0x800;

pub const PIC1_COMMAND: u16 = 0x0020;
pub const PIC1_DATA: u16 = 0x0021;
pub const PIC2_COMMAND: u16 = 0x00A0;
pub const PIC2_DATA: u16 = 0x00A1;

/// Indicates that ICW4 will be present.
pub const ICW1_ICW4: u8 = 0x01;
/// Initialization - required.
pub const ICW1_INIT: u8 = 0x10;
/// 8086/88 (MCS-80/85) mode.
pub const ICW4_8086: u8 = 0x01;
/// End-of-interrupt command code.
pub const PIC_EOI: u8 = 0x20;

/// Whether the kernel uses the local APIC when the processor has one.
pub const APIC_ENABLED: bool = false;

/// One step of talking to the hardware.
#[derive(Clone, Copy, Debug, PartialEq, Eq, Structural)]
pub enum IoOp {
    /// Write a byte to an I/O port.
    Out { port: u16, value: u8 },
    /// Write a byte to a physical address.
    Write8 { addr: u32, value: u8 },
    /// Write a 32-bit word to a physical address.
    Write32 { addr: u32, word: u32 },
    /// Write a model specific register, its low and high halves.
    WriteMsr { msr: u32, low: u32, high: u32 },
    /// Read a byte from an I/O port, and drop it.
    In { port: u16 },
    /// Load the interrupt descriptor table register, the table's limit
    /// given (its base is where the table lies).
    LoadIdt { limit: u16 },
    /// Disable interrupts.
    Cli,
    /// Enable interrupts.
    Sti,
}

/// The wait between two writes to a PIC: a write to the unused port 0x80.
pub open spec fn io_wait_op() -> IoOp {
    IoOp::Out { port: 0x80, value: 0 }
}

/// One entry of the interrupt descriptor table.
#[derive(Clone, Copy, Debug, PartialEq, Eq, Structural)]
pub struct IdtEntry {
    pub offset_low: u16,
    pub selector: u16,
    pub ist: u8,
    pub type_attr: u8,
    pub offset_middle: u16,
}

/// The handler address that an entry holds: its two offsets put together.
pub open spec fn entry_handler(e: IdtEntry) -> int {
    e.offset_low + e.offset_middle * 0x10000
}

/// The entry with every field zero.
pub open spec fn empty_entry() -> IdtEntry {
    IdtEntry { offset_low: 0, selector: 0, ist: 0, type_attr: 0, offset_middle: 0 }
}

/// The entry that sends an interrupt to `handler` in the kernel code
/// segment, with the given attributes and interrupt stack byte.
pub open spec fn gate(handler: u32, ist: u8, type_attr: u8) -> IdtEntry {
    IdtEntry {
        offset_low: (handler % 0x10000) as u16,
        selector: KERNEL_CODE_SELECTOR,
        ist,
        type_attr,
        offset_middle: (handler / 0x10000) as u16,
    }
}

/// The low and high 16 bits of `handler`.
fn handler_halves(handler: u32) -> (r: (u16, u16))
    ensures
        r.0 == handler % 0x10000,
        r.1 == handler / 0x10000,
{
    let low = handler as u16;
    let high = (handler >> 16u32) as u16;
    assert(low == handler % 0x10000) by (bit_vector)
        requires
            low == handler as u16,
    ;
    assert(high == handler / 0x10000) by (bit_vector)
        requires
            high == (handler >> 16u32) as u16,
    ;
    (low, high)
}

/// The interrupt descriptor table.
pub struct Idt {
    entries: Vec<IdtEntry>,
}

impl View for Idt {
    type V = Seq<IdtEntry>;

    closed spec fn view(&self) -> Seq<IdtEntry> {
        self.entries@
    }
}

impl Idt {
    /// A table of `IDT_SIZE` empty entries.
    pub fn new() -> (t: Idt)
        ensures
            t@ == Seq::new(IDT_SIZE as nat, |i: int| empty_entry()),
    {
        let mut entries: Vec<IdtEntry> = Vec::new();
        let mut i: usize = 0;
        while i < IDT_SIZE
            invariant
                i <= IDT_SIZE,
                entries@ == Seq::new(i as nat, |k: int| empty_entry()),
            decreases IDT_SIZE - i,
        {
            entries.push(IdtEntry { offset_low: 0, selector: 0, ist: 0, type_attr: 0, offset_middle: 0 });
            i = i + 1;
        }
        Idt { entries }
    }

    /// Entry `vector` of the table.
    pub fn entry(&self, vector: u8) -> (e: IdtEntry)
        requires
            self@.len() == IDT_SIZE,
        ensures
            e == self@[vector as int],
    {
        self.entries[vector as usize]
    }

    /// Points entry `vector` at `handler` in the kernel code segment, with
    /// `type_attr` as both its attributes and its interrupt stack byte.
    pub fn idt_set_descriptor(&mut self, vector: u8, handler: u32, type_attr: u8)
        requires
            old(self)@.len() == IDT_SIZE,
        ensures
            final(self)@ == old(self)@.update(vector as int, gate(handler, type_attr, type_attr)),
            entry_handler(final(self)@[vector as int]) == handler,
    {
        let (low, high) = handler_halves(handler);
        self.entries.set(
            vector as usize,
            IdtEntry {
                offset_low: low,
                selector: KERNEL_CODE_SELECTOR,
                ist: type_attr,
                type_attr,
                offset_middle: high,
            },
        );
    }

    /// Points entry `int_vec` at `handler` as a 32-bit interrupt gate
    /// (attributes 0x8E) in the kernel code segment, interrupt stack 0.
    pub fn register_idt(&mut self, handler: u32, int_vec: u8)
        requires
            old(self)@.len() == IDT_SIZE,
        ensures
            final(self)@ == old(self)@.update(int_vec as int, gate(handler, 0, 0x8E)),
            entry_handler(final(self)@[int_vec as int]) == handler,
    {
        let (low, high) = handler_halves(handler);
        self.entries.set(
            int_vec as usize,
            IdtEntry {
                offset_low: low,
                selector: KERNEL_CODE_SELECTOR,
                ist: 0,
                type_attr: 0x8E,
                offset_middle: high,
            },
        );
    }
}

/// The limit of the table's descriptor: its size in bytes less one.
pub fn idt_limit() -> (limit: u16)
    ensures
        limit == IDT_ENTRY_SIZE * IDT_SIZE - 1,
{
    (IDT_ENTRY_SIZE * IDT_SIZE - 1) as u16
}

/// Loading the table: its descriptor, then interrupts on.
pub open spec fn load_idt_plan() -> Seq<IoOp> {
    seq![IoOp::LoadIdt { limit: (IDT_ENTRY_SIZE * IDT_SIZE - 1) as u16 }, IoOp::Sti]
}

/// The steps that load the table and turn interrupts on.
pub fn load_idt() -> (ops: Vec<IoOp>)
    ensures
        ops@ == load_idt_plan(),
{
    let mut ops: Vec<IoOp> = Vec::new();
    ops.push(IoOp::LoadIdt { limit: idt_limit() });
    ops.push(IoOp::Sti);
    assert(ops@ =~= load_idt_plan());
    ops
}

/// Whether the `edx` that `cpuid` leaf 1 returns reports a local APIC
/// (bit 9).
pub fn apic_supported(edx: u32) -> (b: bool)
    ensures
        b == (edx & 0x200 != 0),
        b == ((edx / 512) % 2 == 1),
{
    assert((edx & 0x200 != 0) == ((edx / 512) % 2 == 1)) by (bit_vector);
    assert(1u32 << 9u32 == 0x200) by (bit_vector);
    (edx & (1u32 << 9u32)) != 0
}

/// The value of a model specific register read as its two halves.
pub fn join_msr(low: u32, high: u32) -> (v: u64)
    ensures
        v == high * 0x1_0000_0000 + low,
{
    let v = ((high as u64) << 32u64) | (low as u64);
    assert(v == high * 0x1_0000_0000 + low) by (bit_vector)
        requires
            v == ((high as u64) << 32u64) | (low as u64),
    ;
    v
}

/// The two halves in which a value is written to a model specific
/// register: the low 32 bits, then the high 32 bits.
pub fn split_msr(value: u64) -> (r: (u32, u32))
    ensures
        r.0 == value % 0x1_0000_0000,
        r.1 == value / 0x1_0000_0000,
{
    let low = value as u32;
    let high = (value >> 32u64) as u32;
    assert(low == value % 0x1_0000_0000) by (bit_vector)
        requires
            low == value as u32,
    ;
    assert(high == value / 0x1_0000_0000) by (bit_vector)
        requires
            high == (value >> 32u64) as u32,
    ;
    (low, high)
}

/// Writing a value to a model specific register and reading it back
/// gives the value: its halves put together are the value.
pub proof fn lemma_msr_round_trip(value: u64)
    ensures
        (value / 0x1_0000_0000) * 0x1_0000_0000 + value % 0x1_0000_0000 == value,
{
}

/// The initialization of the two PICs in cascade mode, the master's
/// vectors from 0x20, the slave's from 0x28, the slave on the master's
/// line 2, both in 8086 mode, each step followed by a wait; then the masks
/// `mask1` and `mask2` read before are written back.
pub open spec fn pic_init_plan(mask1: u8, mask2: u8) -> Seq<IoOp> {
    seq![
        IoOp::Out { port: PIC1_COMMAND, value: ICW1_INIT | ICW1_ICW4 },
        io_wait_op(),
        IoOp::Out { port: PIC2_COMMAND, value: ICW1_INIT | ICW1_ICW4 },
        io_wait_op(),
        IoOp::Out { port: PIC1_DATA, value: 0x20 },
        io_wait_op(),
        IoOp::Out { port: PIC2_DATA, value: 0x28 },
        io_wait_op(),
        IoOp::Out { port: PIC1_DATA, value: 4 },
        io_wait_op(),
        IoOp::Out { port: PIC2_DATA, value: 2 },
        io_wait_op(),
        IoOp::Out { port: PIC1_DATA, value: ICW4_8086 },
        io_wait_op(),
        IoOp::Out { port: PIC2_DATA, value: ICW4_8086 },
        io_wait_op(),
        IoOp::Out { port: PIC1_DATA, value: mask1 },
        IoOp::Out { port: PIC2_DATA, value: mask2 },
    ]
}

/// Appends the wait between two writes to a PIC.
fn push_io_wait(ops: &mut Vec<IoOp>)
    ensures
        final(ops)@ == old(ops)@.push(io_wait_op()),
{
    ops.push(IoOp::Out { port: 0x80, value: 0 });
}

/// The vector the master PIC's first line (the timer's) is mapped to.
pub const MASTER_VECTOR_OFFSET: u8 = 0x20;

/// The vector the slave PIC's first line is mapped to.
pub const SLAVE_VECTOR_OFFSET: u8 = 0x28;

/// The writes that initialize the PICs, given the interrupt masks read
/// from their data ports before.
pub fn init_pic(mask1: u8, mask2: u8) -> (ops: Vec<IoOp>)
    ensures
        ops@ == pic_init_plan(mask1, mask2),
        first_out_to(ops@, PIC1_COMMAND) == Some(ICW1_INIT | ICW1_ICW4),
        first_out_to(ops@, PIC2_COMMAND) == Some(ICW1_INIT | ICW1_ICW4),
        first_out_to(ops@, PIC1_DATA) == Some(MASTER_VECTOR_OFFSET),
        first_out_to(ops@, PIC2_DATA) == Some(SLAVE_VECTOR_OFFSET),
        last_out_to(ops@, PIC1_DATA) == Some(mask1),
        last_out_to(ops@, PIC2_DATA) == Some(mask2),
{
    proof {
        lemma_pic_init_vector_offsets(mask1, mask2);
    }
    let mut ops: Vec<IoOp> = Vec::new();
    ops.push(IoOp::Out { port: PIC1_COMMAND, value: ICW1_INIT | ICW1_ICW4 });
    push_io_wait(&mut ops);
    ops.push(IoOp::Out { port: PIC2_COMMAND, value: ICW1_INIT | ICW1_ICW4 });
    push_io_wait(&mut ops);
    ops.push(IoOp::Out { port: PIC1_DATA, value: 0x20 });
    push_io_wait(&mut ops);
    ops.push(IoOp::Out { port: PIC2_DATA, value: 0x28 });
    push_io_wait(&mut ops);
    ops.push(IoOp::Out { port: PIC1_DATA, value: 4 });
    push_io_wait(&mut ops);
    ops.push(IoOp::Out { port: PIC2_DATA, value: 2 });
    push_io_wait(&mut ops);
    ops.push(IoOp::Out { port: PIC1_DATA, value: ICW4_8086 });
    push_io_wait(&mut ops);
    ops.push(IoOp::Out { port: PIC2_DATA, value: ICW4_8086 });
    push_io_wait(&mut ops);
    ops.push(IoOp::Out { port: PIC1_DATA, value: mask1 });
    ops.push(IoOp::Out { port: PIC2_DATA, value: mask2 });
    assert(ops@ =~= pic_init_plan(mask1, mask2));
    ops
}

/// Every line of both PICs masked.
pub open spec fn disable_pic_plan() -> Seq<IoOp> {
    seq![IoOp::Out { port: PIC1_DATA, value: 0xff }, IoOp::Out { port: PIC2_DATA, value: 0xff }]
}

/// The writes that mask every line of both PICs.
pub fn disable_pic() -> (ops: Vec<IoOp>)
    ensures
        ops@ == disable_pic_plan(),
{
    let mut ops: Vec<IoOp> = Vec::new();
    ops.push(IoOp::Out { port: PIC1_DATA, value: 0xff });
    ops.push(IoOp::Out { port: PIC2_DATA, value: 0xff });
    assert(ops@ =~= disable_pic_plan());
    ops
}

/// The end of interrupt `irq`: with the local APIC, a zero written to its
/// EOI register; else the EOI command written to the slave PIC's command
/// address when the line is the slave's (8 or more), then to the master's.
pub open spec fn eoi_plan(irq: usize, apic: bool) -> Seq<IoOp> {
    if apic {
        seq![IoOp::Write32 { addr: APIC_EOI, word: 0 }]
    } else if irq >= 8 {
        seq![
            IoOp::Write8 { addr: PIC2_COMMAND as u32, value: PIC_EOI },
            IoOp::Write8 { addr: PIC1_COMMAND as u32, value: PIC_EOI },
        ]
    } else {
        seq![IoOp::Write8 { addr: PIC1_COMMAND as u32, value: PIC_EOI }]
    }
}

/// The writes that end interrupt `irq`, `apic` telling whether the local
/// APIC is in use.
pub fn send_eoi(irq: usize, apic: bool) -> (ops: Vec<IoOp>)
    ensures
        ops@ == eoi_plan(irq, apic),
{
    let mut ops: Vec<IoOp> = Vec::new();
    if apic {
        ops.push(IoOp::Write32 { addr: APIC_EOI, word: 0 });
    } else {
        if irq >= 8 {
            ops.push(IoOp::Write8 { addr: PIC2_COMMAND as u32, value: PIC_EOI });
        }
        ops.push(IoOp::Write8 { addr: PIC1_COMMAND as u32, value: PIC_EOI });
    }
    assert(ops@ =~= eoi_plan(irq, apic));
    ops
}

/// The writes that enable the local APIC: the base register's value with
/// the enable bit set written back in halves, the spurious vector register
/// set to 0x1FF, and a first end of interrupt.
pub open spec fn apic_init_plan(apic_base_msr: u64) -> Seq<IoOp> {
    seq![
        IoOp::WriteMsr {
            msr: IA32_APIC_BASE_MSR,
            low: ((apic_base_msr | APIC_BASE_ENABLE) % 0x1_0000_0000) as u32,
            high: ((apic_base_msr | APIC_BASE_ENABLE) / 0x1_0000_0000) as u32,
        },
        IoOp::Write32 { addr: APIC_SVR, word: 0x1FF },
        IoOp::Write32 { addr: APIC_EOI, word: 0 },
    ]
}

/// The writes that enable the local APIC, given the value read from its
/// base register: the value with the enable bit set written back, the
/// spurious vector register set to 0x1FF, and a first end of interrupt.
pub fn init_apic(apic_base_msr: u64) -> (ops: Vec<IoOp>)
    ensures
        ops@ == apic_init_plan(apic_base_msr),
        enables_apic_keeping_other_bits(ops@[0], apic_base_msr),
{
    proof {
        lemma_apic_enable_keeps_other_bits(apic_base_msr);
    }
    let value = apic_base_msr | APIC_BASE_ENABLE;
    let (low, high) = split_msr(value);
    let mut ops: Vec<IoOp> = Vec::new();
    ops.push(IoOp::WriteMsr { msr: IA32_APIC_BASE_MSR, low, high });
    ops.push(IoOp::Write32 { addr: APIC_SVR, word: 0x1FF });
    ops.push(IoOp::Write32 { addr: APIC_EOI, word: 0 });
    assert(ops@ =~= apic_init_plan(apic_base_msr));
    ops
}

/// The writes that the second interrupt controller driver makes to set up
/// the PICs: the same initialization words as `init_pic`, written to the
/// controllers' addresses with no waits, then the masks 0xFB (only the
/// cascade line open) and 0xFF.
pub fn irq_init_pic() -> (ops: Vec<IoOp>)
    ensures
        ops@ == seq![
            IoOp::Write8 { addr: 0x20, value: 0x11 },
            IoOp::Write8 { addr: 0xA0, value: 0x11 },
            IoOp::Write8 { addr: 0x21, value: 0x20 },
            IoOp::Write8 { addr: 0xA1, value: 0x28 },
            IoOp::Write8 { addr: 0x21, value: 4 },
            IoOp::Write8 { addr: 0xA1, value: 2 },
            IoOp::Write8 { addr: 0x21, value: 1 },
            IoOp::Write8 { addr: 0xA1, value: 1 },
            IoOp::Write8 { addr: 0x21, value: 0xFB },
            IoOp::Write8 { addr: 0xA1, value: 0xFF },
        ],
{
    assert(ICW1_INIT | ICW1_ICW4 == 0x11) by (bit_vector);
    let mut ops: Vec<IoOp> = Vec::new();
    ops.push(IoOp::Write8 { addr: PIC1_COMMAND as u32, value: ICW1_INIT | ICW1_ICW4 });
    ops.push(IoOp::Write8 { addr: PIC2_COMMAND as u32, value: ICW1_INIT | ICW1_ICW4 });
    ops.push(IoOp::Write8 { addr: PIC1_DATA as u32, value: 0x20 });
    ops.push(IoOp::Write8 { addr: PIC2_DATA as u32, value: 0x28 });
    ops.push(IoOp::Write8 { addr: PIC1_DATA as u32, value: 4 });
    ops.push(IoOp::Write8 { addr: PIC2_DATA as u32, value: 2 });
    ops.push(IoOp::Write8 { addr: PIC1_DATA as u32, value: ICW4_8086 });
    ops.push(IoOp::Write8 { addr: PIC2_DATA as u32, value: ICW4_8086 });
    ops.push(IoOp::Write8 { addr: PIC1_DATA as u32, value: 0xFB });
    ops.push(IoOp::Write8 { addr: PIC2_DATA as u32, value: 0xFF });
    assert(ops@ =~= seq![
        IoOp::Write8 { addr: 0x20, value: 0x11 },
        IoOp::Write8 { addr: 0xA0, value: 0x11 },
        IoOp::Write8 { addr: 0x21, value: 0x20 },
        IoOp::Write8 { addr: 0xA1, value: 0x28 },
        IoOp::Write8 { addr: 0x21, value: 4 },
        IoOp::Write8 { addr: 0xA1, value: 2 },
        IoOp::Write8 { addr: 0x21, value: 1 },
        IoOp::Write8 { addr: 0xA1, value: 1 },
        IoOp::Write8 { addr: 0x21, value: 0xFB },
        IoOp::Write8 { addr: 0xA1, value: 0xFF },
    ]);
    ops
}

/// The interrupt set-up of the second driver, after the table is loaded:
/// with the local APIC, its spurious vector register set to 0x101; else
/// the PICs initialized as `irq_init_pic` does.
pub fn init_interrupts(apic: bool) -> (ops: Vec<IoOp>)
    ensures
        apic ==> ops@ == seq![IoOp::Write32 { addr: APIC_SVR, word: 0x101 }],
        !apic ==> ops@ == irq_init_pic_plan(),
{
    if apic {
        assert(0x100u32 | 0x1u32 == 0x101) by (bit_vector);
        let mut ops: Vec<IoOp> = Vec::new();
        ops.push(IoOp::Write32 { addr: APIC_SVR, word: 0x100u32 | 0x1u32 });
        assert(ops@ =~= seq![IoOp::Write32 { addr: APIC_SVR, word: 0x101 }]);
        ops
    } else {
        irq_init_pic()
    }
}

/// What `irq_init_pic` writes.
pub open spec fn irq_init_pic_plan() -> Seq<IoOp> {
    seq![
        IoOp::Write8 { addr: 0x20, value: 0x11 },
        IoOp::Write8 { addr: 0xA0, value: 0x11 },
        IoOp::Write8 { addr: 0x21, value: 0x20 },
        IoOp::Write8 { addr: 0xA1, value: 0x28 },
        IoOp::Write8 { addr: 0x21, value: 4 },
        IoOp::Write8 { addr: 0xA1, value: 2 },
        IoOp::Write8 { addr: 0x21, value: 1 },
        IoOp::Write8 { addr: 0xA1, value: 1 },
        IoOp::Write8 { addr: 0x21, value: 0xFB },
        IoOp::Write8 { addr: 0xA1, value: 0xFF },
    ]
}

/// Whether `op` writes the APIC base register with the enable bit (bit
/// 11) set and every other bit as in `read`, the value read from it.
pub open spec fn enables_apic_keeping_other_bits(op: IoOp, read: u64) -> bool {
    match op {
        IoOp::WriteMsr { msr, low, high } => {
            let v = high * 0x1_0000_0000 + low;
            &&& msr == IA32_APIC_BASE_MSR
            &&& (v / 0x800) % 2 == 1
            &&& v % 0x800 == read % 0x800
            &&& v / 0x1000 == read / 0x1000
        },
        _ => false,
    }
}

/// Enabling the local APIC writes back the base register's value with the
/// enable bit set and every other bit unchanged: the base address and the
/// other flags stay as the firmware left them.
pub proof fn lemma_apic_enable_keeps_other_bits(apic_base_msr: u64)
    ensures
        enables_apic_keeping_other_bits(apic_init_plan(apic_base_msr)[0], apic_base_msr),
{
    let w = apic_base_msr | APIC_BASE_ENABLE;
    assert(w % 0x800 == apic_base_msr % 0x800 && (w / 0x800) % 2 == 1 && w / 0x1000
        == apic_base_msr / 0x1000) by (bit_vector)
        requires
            w == apic_base_msr | 0x800u64,
    ;
    let low = (w % 0x1_0000_0000) as u32;
    let high = (w / 0x1_0000_0000) as u32;
    assert(low == w % 0x1_0000_0000);
    assert(high == w / 0x1_0000_0000);
    assert(high * 0x1_0000_0000 + low == w) by (nonlinear_arith)
        requires
            low == w % 0x1_0000_0000,
            high == w / 0x1_0000_0000,
    ;
}

/// Whether `op` writes a byte to port `port`.
pub open spec fn writes_port(op: IoOp, port: u16) -> bool {
    match op {
        IoOp::Out { port: p, value: _ } => p == port,
        _ => false,
    }
}

/// The first byte that `ops` write to port `port`, none if they write none.
pub open spec fn first_out_to(ops: Seq<IoOp>, port: u16) -> Option<u8>
    decreases ops.len(),
{
    if ops.len() == 0 {
        None
    } else {
        match ops[0] {
            IoOp::Out { port: p, value } => if p == port {
                Some(value)
            } else {
                first_out_to(ops.drop_first(), port)
            },
            _ => first_out_to(ops.drop_first(), port),
        }
    }
}

/// The last byte that `ops` write to port `port`, none if they write none.
pub open spec fn last_out_to(ops: Seq<IoOp>, port: u16) -> Option<u8>
    decreases ops.len(),
{
    if ops.len() == 0 {
        None
    } else {
        match ops.last() {
            IoOp::Out { port: p, value } => if p == port {
                Some(value)
            } else {
                last_out_to(ops.drop_last(), port)
            },
            _ => last_out_to(ops.drop_last(), port),
        }
    }
}

/// The first write to a port is the one at the first index where a write
/// to it stands.
pub proof fn lemma_first_out_at(ops: Seq<IoOp>, port: u16, i: int, v: u8)
    requires
        0 <= i < ops.len(),
        ops[i] == (IoOp::Out { port, value: v }),
        forall|j: int| 0 <= j < i ==> !writes_port(#[trigger] ops[j], port),
    ensures
        first_out_to(ops, port) == Some(v),
    decreases i,
{
    if i > 0 {
        let rest = ops.drop_first();
        assert forall|j: int| 0 <= j < i - 1 implies !writes_port(#[trigger] rest[j], port) by {
            assert(rest[j] == ops[j + 1]);
        }
        lemma_first_out_at(rest, port, i - 1, v);
        assert(!writes_port(ops[0], port));
    }
}

/// The last write to a port is the one at the last index where a write to
/// it stands.
pub proof fn lemma_last_out_at(ops: Seq<IoOp>, port: u16, i: int, v: u8)
    requires
        0 <= i < ops.len(),
        ops[i] == (IoOp::Out { port, value: v }),
        forall|j: int| i < j < ops.len() ==> !writes_port(#[trigger] ops[j], port),
    ensures
        last_out_to(ops, port) == Some(v),
    decreases ops.len() - i,
{
    if i < ops.len() - 1 {
        let rest = ops.drop_last();
        assert forall|j: int| i < j < rest.len() implies !writes_port(#[trigger] rest[j], port) by {
            assert(rest[j] == ops[j]);
        }
        lemma_last_out_at(rest, port, i, v);
        assert(!writes_port(ops.last(), port));
    }
}

/// Writes placed in front do not change the first write to a port when
/// they write none to it.
pub proof fn lemma_first_out_concat(a: Seq<IoOp>, b: Seq<IoOp>, port: u16)
    ensures
        first_out_to(a + b, port) == (if first_out_to(a, port) is Some {
            first_out_to(a, port)
        } else {
            first_out_to(b, port)
        }),
    decreases a.len(),
{
    if a.len() == 0 {
        assert(a + b =~= b);
    } else {
        lemma_first_out_concat(a.drop_first(), b, port);
        assert((a + b).drop_first() =~= a.drop_first() + b);
        assert((a + b)[0] == a[0]);
    }
}

/// The PIC initialization sends each controller the initialization word
/// first, then maps the master's lines to the vectors from 0x20 and the
/// slave's to those from 0x28 (the first data bytes after it), and leaves
/// the masks read before as the last data bytes.
pub proof fn lemma_pic_init_vector_offsets(mask1: u8, mask2: u8)
    ensures
        first_out_to(pic_init_plan(mask1, mask2), PIC1_COMMAND) == Some(ICW1_INIT | ICW1_ICW4),
        first_out_to(pic_init_plan(mask1, mask2), PIC2_COMMAND) == Some(ICW1_INIT | ICW1_ICW4),
        first_out_to(pic_init_plan(mask1, mask2), PIC1_DATA) == Some(MASTER_VECTOR_OFFSET),
        first_out_to(pic_init_plan(mask1, mask2), PIC2_DATA) == Some(SLAVE_VECTOR_OFFSET),
        last_out_to(pic_init_plan(mask1, mask2), PIC1_DATA) == Some(mask1),
        last_out_to(pic_init_plan(mask1, mask2), PIC2_DATA) == Some(mask2),
{
    let s = pic_init_plan(mask1, mask2);
    assert(s.len() == 18);
    lemma_first_out_at(s, PIC1_COMMAND, 0, ICW1_INIT | ICW1_ICW4);
    lemma_first_out_at(s, PIC2_COMMAND, 2, ICW1_INIT | ICW1_ICW4);
    lemma_first_out_at(s, PIC1_DATA, 4, MASTER_VECTOR_OFFSET);
    lemma_first_out_at(s, PIC2_DATA, 6, SLAVE_VECTOR_OFFSET);
    lemma_last_out_at(s, PIC1_DATA, 16, mask1);
    lemma_last_out_at(s, PIC2_DATA, 17, mask2);
}

/// Ending an interrupt: with the local APIC, one write, to its EOI
/// register, and none to a PIC; without it, the master PIC always gets the
/// EOI command at its command address, last, and the slave gets it too,
/// before, exactly when the line is one of the slave's (8 and up).
pub proof fn lemma_eoi_reaches_the_right_controllers(irq: usize, apic: bool)
    ensures
        apic ==> eoi_plan(irq, apic) == seq![IoOp::Write32 { addr: APIC_EOI, word: 0 }],
        !apic ==> eoi_plan(irq, apic).last() == (IoOp::Write8 {
            addr: PIC1_COMMAND as u32,
            value: PIC_EOI,
        }),
        !apic ==> ((exists|i: int|
            0 <= i < eoi_plan(irq, apic).len() && #[trigger] eoi_plan(irq, apic)[i] == (IoOp::Write8 {
                addr: PIC2_COMMAND as u32,
                value: PIC_EOI,
            })) <==> irq >= 8),
        !apic ==> eoi_plan(irq, apic).len() == (if irq >= 8 { 2int } else { 1int }),
{
    let p = eoi_plan(irq, apic);
    if !apic {
        if irq >= 8 {
            assert(p[0] == (IoOp::Write8 { addr: PIC2_COMMAND as u32, value: PIC_EOI }));
        } else {
            assert forall|i: int| 0 <= i < p.len() implies #[trigger] p[i] != (IoOp::Write8 {
                addr: PIC2_COMMAND as u32,
                value: PIC_EOI,
            }) by {
                assert(p[i] == (IoOp::Write8 { addr: PIC1_COMMAND as u32, value: PIC_EOI }));
            }
        }
    }
}

} // verus!
