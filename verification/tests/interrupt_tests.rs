use mxrox::interrupt::{
    apic_supported, disable_pic, idt_limit, init_apic, init_interrupts, init_pic, irq_init_pic,
    join_msr, load_idt, send_eoi, split_msr, Idt, IdtEntry, IoOp,
};

fn empty() -> IdtEntry {
    IdtEntry { offset_low: 0, selector: 0, ist: 0, type_attr: 0, offset_middle: 0 }
}

#[test]
fn new_table_is_empty() {
    let t = Idt::new();
    assert_eq!(t.entry(0), empty());
    assert_eq!(t.entry(255), empty());
}

#[test]
fn set_descriptor_splits_handler() {
    let mut t = Idt::new();
    t.idt_set_descriptor(0x20, 0x12345678, 0x8E);
    assert_eq!(
        t.entry(0x20),
        IdtEntry { offset_low: 0x5678, selector: 0x08, ist: 0x8E, type_attr: 0x8E, offset_middle: 0x1234 }
    );
    assert_eq!(t.entry(0x21), empty());
    let e = t.entry(0x20);
    assert_eq!(e.offset_low as u32 + e.offset_middle as u32 * 0x10000, 0x12345678);
}

#[test]
fn register_idt_makes_interrupt_gate() {
    let mut t = Idt::new();
    t.register_idt(0xDEADBEEF, 3);
    assert_eq!(
        t.entry(3),
        IdtEntry { offset_low: 0xBEEF, selector: 0x08, ist: 0, type_attr: 0x8E, offset_middle: 0xDEAD }
    );
}

#[test]
fn table_limit() {
    assert_eq!(idt_limit(), 2047);
    assert_eq!(load_idt(), vec![IoOp::LoadIdt { limit: 2047 }, IoOp::Sti]);
}

#[test]
fn apic_bit() {
    assert!(apic_supported(0x200));
    assert!(apic_supported(0xFFFF_FFFF));
    assert!(!apic_supported(0x1FF));
}

#[test]
fn msr_halves() {
    assert_eq!(join_msr(0x1, 0x2), 0x2_0000_0001);
    assert_eq!(split_msr(0x1234_5678_9ABC_DEF0), (0x9ABC_DEF0, 0x1234_5678));
    let (l, h) = split_msr(0xFEDC_BA98_7654_3210);
    assert_eq!(join_msr(l, h), 0xFEDC_BA98_7654_3210);
}

#[test]
fn end_of_interrupt() {
    assert_eq!(send_eoi(3, false), vec![IoOp::Write8 { addr: 0x20, value: 0x20 }]);
    assert_eq!(
        send_eoi(12, false),
        vec![IoOp::Write8 { addr: 0xA0, value: 0x20 }, IoOp::Write8 { addr: 0x20, value: 0x20 }]
    );
    assert_eq!(send_eoi(8, false).len(), 2);
    assert_eq!(send_eoi(0, true), vec![IoOp::Write32 { addr: 0xFEE000B0, word: 0 }]);
}

#[test]
fn pic_initialization() {
    let w = IoOp::Out { port: 0x80, value: 0 };
    assert_eq!(
        init_pic(0xAB, 0xCD),
        vec![
            IoOp::Out { port: 0x20, value: 0x11 },
            w,
            IoOp::Out { port: 0xA0, value: 0x11 },
            w,
            IoOp::Out { port: 0x21, value: 0x20 },
            w,
            IoOp::Out { port: 0xA1, value: 0x28 },
            w,
            IoOp::Out { port: 0x21, value: 4 },
            w,
            IoOp::Out { port: 0xA1, value: 2 },
            w,
            IoOp::Out { port: 0x21, value: 1 },
            w,
            IoOp::Out { port: 0xA1, value: 1 },
            w,
            IoOp::Out { port: 0x21, value: 0xAB },
            IoOp::Out { port: 0xA1, value: 0xCD },
        ]
    );
    assert_eq!(
        disable_pic(),
        vec![IoOp::Out { port: 0x21, value: 0xFF }, IoOp::Out { port: 0xA1, value: 0xFF }]
    );
}

#[test]
fn apic_initialization() {
    assert_eq!(
        init_apic(0xFEE0_0000),
        vec![
            IoOp::WriteMsr { msr: 0x1B, low: 0xFEE0_0800, high: 0 },
            IoOp::Write32 { addr: 0xFEE000F0, word: 0x1FF },
            IoOp::Write32 { addr: 0xFEE000B0, word: 0 },
        ]
    );
    assert_eq!(
        init_apic(0x1_0000_0000),
        vec![
            IoOp::WriteMsr { msr: 0x1B, low: 0x800, high: 1 },
            IoOp::Write32 { addr: 0xFEE000F0, word: 0x1FF },
            IoOp::Write32 { addr: 0xFEE000B0, word: 0 },
        ]
    );
}

#[test]
fn second_driver_initialization() {
    let pic = irq_init_pic();
    assert_eq!(pic.len(), 10);
    assert_eq!(pic[0], IoOp::Write8 { addr: 0x20, value: 0x11 });
    assert_eq!(pic[8], IoOp::Write8 { addr: 0x21, value: 0xFB });
    assert_eq!(pic[9], IoOp::Write8 { addr: 0xA1, value: 0xFF });
    assert_eq!(init_interrupts(false), pic);
    assert_eq!(init_interrupts(true), vec![IoOp::Write32 { addr: 0xFEE000F0, word: 0x101 }]);
}
