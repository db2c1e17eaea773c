use mxrox::heap::FreeBlock;
use mxrox::interrupt::{IdtEntry, IoOp};
use mxrox::kernel::Kernel;
use mxrox::vga::Screen;

fn chars(s: &str) -> Vec<char> {
    s.chars().collect()
}

fn boot() -> (Kernel, Vec<IoOp>) {
    Kernel::init_kernel(0x12, 0x34, 0, 0, 0x1000, Screen::new())
}

const BOOT_LOG: &str = "[0] [INFO] PIC initialized\n[0] [INFO] PIT initialization\n[0] [INFO] PIT initialized\n[0] [INFO] 4096\n[0] [INFO] PIT registered\n[0] [INFO] PIT loaded idt\n";

#[test]
fn boot_sets_up_heap_table_and_clock() {
    let (k, _) = boot();
    assert!(!k.apic);
    assert_eq!(k.heap.blocks(), vec![FreeBlock { addr: 0x200000, size: 1048576 }]);
    assert_eq!(k.heap.heap_end(), 0x300000);
    assert_eq!(
        k.idt.entry(0x20),
        IdtEntry { offset_low: 0x1000, selector: 0x08, ist: 0x8E, type_attr: 0x8E, offset_middle: 0 }
    );
    assert_eq!(k.clock.get_time_millis(), 0);
}

#[test]
fn boot_logs_each_stage() {
    let (k, _) = boot();
    assert_eq!(k.terminal.text(), chars(BOOT_LOG));
    assert_eq!(k.screen.cell(0), 0x0F5B);
    assert_eq!(k.screen.cell(80 * 5), 0x0F5B);
    assert_eq!(k.screen.cell(80 * 6), 0x0020);
}

#[test]
fn boot_steps_for_the_hardware() {
    let (_, ops) = boot();
    assert_eq!(ops.len(), 26);
    assert_eq!(ops[0], IoOp::Out { port: 0x20, value: 0x11 });
    assert_eq!(ops[16], IoOp::Out { port: 0x21, value: 0x12 });
    assert_eq!(ops[17], IoOp::Out { port: 0xA1, value: 0x34 });
    assert_eq!(ops[18], IoOp::LoadIdt { limit: 2047 });
    assert_eq!(ops[19], IoOp::Sti);
    assert_eq!(ops[20], IoOp::Out { port: 0x43, value: 0x36 });
    assert_eq!(ops[21], IoOp::Cli);
    assert_eq!(ops[22], IoOp::Out { port: 0x40, value: 0xA0 });
    assert_eq!(ops[23], IoOp::Out { port: 0x40, value: 0 });
    assert_eq!(ops[24], IoOp::LoadIdt { limit: 2047 });
    assert_eq!(ops[25], IoOp::Sti);
}

#[test]
fn timer_interrupt_logs_each_second() {
    let (mut k, _) = boot();
    for _ in 0..999 {
        let ops = k.pit_handler();
        assert_eq!(ops, vec![IoOp::Write8 { addr: 0x20, value: 0x20 }]);
    }
    assert_eq!(k.terminal.text(), chars(BOOT_LOG));
    k.pit_handler();
    let expected = format!("{}[1000] [INFO] proshlo second\n", BOOT_LOG);
    assert_eq!(k.terminal.text(), chars(&expected));
    assert_eq!(k.clock.get_time_seconds(), 1);
}

#[test]
fn kernel_log_lines_use_the_clock() {
    let (mut k, _) = boot();
    k.clock.tick();
    k.clock.tick();
    k.log_error("Unknown error");
    k.log_info("ok");
    let expected = format!("{}[2] [FATAL] Unknown error\n[2] [INFO] ok\n", BOOT_LOG);
    assert_eq!(k.terminal.text(), chars(&expected));
}

#[test]
fn ps2_bring_up() {
    let (mut k, _) = boot();
    let ops = k.init_ps2(0x2000);
    assert_eq!(
        ops,
        vec![
            IoOp::Out { port: 0x64, value: 0xAD },
            IoOp::In { port: 0x60 },
            IoOp::Out { port: 0x64, value: 0x60 },
            IoOp::Out { port: 0x64, value: 0x00 },
            IoOp::Out { port: 0x64, value: 0xAE },
        ]
    );
    assert_eq!(
        k.idt.entry(0x21),
        IdtEntry { offset_low: 0x2000, selector: 0x08, ist: 0x09, type_attr: 0x09, offset_middle: 0 }
    );
    let expected = format!(
        "{}[0] [INFO] [PS/2] Disabled device 1\n[0] [INFO] [PS/2] Flush device data and clear CCB\n[0] [INFO] [PS/2] Enable device 1\n[0] [INFO] [PS/2] Inspected device 1 identify\n[0] [INFO] [PS/2] Bind handler for device 1\n",
        BOOT_LOG
    );
    assert_eq!(k.terminal.text(), chars(&expected));
}

#[test]
fn ps2_device_interrupt_logs_byte_in_hex() {
    let (mut k, _) = boot();
    let ops = k.on_device_1_irq(0xAB);
    assert_eq!(ops, vec![IoOp::Write8 { addr: 0x20, value: 0x20 }]);
    let expected = format!("{}[0] [INFO] [PS/2] device 1 data: 0xAB\n", BOOT_LOG);
    assert_eq!(k.terminal.text(), chars(&expected));
    k.on_device_1_irq(0x5);
    let expected = format!("{}[0] [INFO] [PS/2] device 1 data: 0x5\n", expected);
    assert_eq!(k.terminal.text(), chars(&expected));
}
