//! The PS/2 controller: its ports and commands, and the decisions of the
//! exchanges with a device.
use vstd::prelude::*;
use crate::interrupt::IoOp;

verus! {

/// The controller's data port.
pub const DATA_PORT: u16 = 0x60;
/// The controller's status (read) and command (write) port.
pub const STATUS_PORT: u16 = 0x64;
/// The interrupt line of the first device.
pub const DEVICE1_IRQ: usize = 1;
/// The interrupt line of the second device.
pub const DEVICE2_IRQ: usize = 12;
/// The byte a device answers a command with when it takes it.
pub const ACK: u8 = 0xFA;
/// Command to a device: stop scanning.
pub const DISABLE_SCANNING: u8 = 0xF5;
/// Command to a device: send its identity.
pub const IDENTIFY: u8 = 0xF2;
/// Command to a device: start scanning.
pub const ENABLE_SCANNING: u8 = 0xF4;
/// Milliseconds to wait for a late byte of an identity reply.
pub const IDENTIFY_WAIT_MILLIS: usize = 10;
/// Most bytes of an identity reply.
pub const IDENTIFY_MAX_BYTES: usize = 2;

/// Whether the status byte says that the output buffer holds data (bit 0).
pub fn is_data_available(status: u8) -> (b: bool)
    ensures
        b == (status % 2 == 1),
{
    let r = (status >> 0u8) & 1u8;
    assert(r == status % 2) by (bit_vector)
        requires
            r == (status >> 0u8) & 1u8,
    ;
    r == 1
}

/// Whether the second device is used: it is not.
pub fn is_ps2_2_device_enabled() -> (b: bool)
    ensures
        !b,
{
    false
}

/// Whether a byte from a device acknowledges a command.
pub fn is_ack(byte: u8) -> (b: bool)
    ensures
        b == (byte == ACK),
{
    byte == ACK
}

/// What the exchange that waits for a command's acknowledgement does
/// after a poll of the status: read the data when there is some, else
/// sleep a millisecond and poll again.
#[derive(Clone, Copy, Debug, PartialEq, Eq, Structural)]
pub enum AckStep {
    ReadData,
    Sleep,
}

/// The step of the wait for an acknowledgement after a status poll.
pub fn ack_wait_step(status: u8) -> (step: AckStep)
    ensures
        step == (if status % 2 == 1 { AckStep::ReadData } else { AckStep::Sleep }),
{
    if is_data_available(status) {
        AckStep::ReadData
    } else {
        AckStep::Sleep
    }
}

/// What reading an identity reply does next.
#[derive(Clone, Copy, Debug, PartialEq, Eq, Structural)]
pub enum IdentifyAction {
    /// Read the byte waiting in the data port, and hand it over.
    ReadData,
    /// Sleep `IDENTIFY_WAIT_MILLIS` milliseconds, then poll again.
    Sleep,
    /// The reply is complete.
    Finish,
}

/// The reading of an identity reply: up to `IDENTIFY_MAX_BYTES` bytes;
/// for each, a poll of the status; when no data waits, one sleep and a
/// second poll; when still none waits, the reply ends.
pub struct IdentifyReply {
    reply: Vec<u8>,
    waited: bool,
    finished: bool,
}

impl View for IdentifyReply {
    type V = Seq<u8>;

    closed spec fn view(&self) -> Seq<u8> {
        self.reply@
    }
}

impl IdentifyReply {
    /// Whether the last poll found no data and a sleep followed.
    pub closed spec fn waited(&self) -> bool {
        self.waited
    }

    /// Whether the reply has ended.
    pub closed spec fn finished(&self) -> bool {
        self.finished
    }

    /// The reply's invariant: at most `IDENTIFY_MAX_BYTES` bytes, and ended
    /// once it has that many.
    pub open spec fn wf(&self) -> bool {
        &&& self@.len() <= IDENTIFY_MAX_BYTES
        &&& self@.len() == IDENTIFY_MAX_BYTES ==> self.finished()
    }

    /// A reply with no byte yet.
    pub fn new() -> (r: IdentifyReply)
        ensures
            r.wf(),
            r@ == Seq::<u8>::empty(),
            !r.waited(),
            !r.finished(),
    {
        IdentifyReply { reply: Vec::new(), waited: false, finished: false }
    }

    /// The step after a poll of the status `status`: read the data if some
    /// waits; else sleep if this poll was the first for this byte; else the
    /// reply ends.
    pub fn on_status(&mut self, status: u8) -> (action: IdentifyAction)
        requires
            old(self).wf(),
            !old(self).finished(),
        ensures
            final(self).wf(),
            final(self)@ == old(self)@,
            status % 2 == 1 ==> action == IdentifyAction::ReadData && final(self).waited()
                == old(self).waited() && !final(self).finished(),
            status % 2 != 1 && !old(self).waited() ==> action == IdentifyAction::Sleep
                && final(self).waited() && !final(self).finished(),
            status % 2 != 1 && old(self).waited() ==> action == IdentifyAction::Finish
                && final(self).finished(),
    {
        if is_data_available(status) {
            IdentifyAction::ReadData
        } else if !self.waited {
            self.waited = true;
            IdentifyAction::Sleep
        } else {
            self.finished = true;
            IdentifyAction::Finish
        }
    }

    /// Takes the byte read from the data port; the result tells whether
    /// the reply is then complete.
    pub fn on_data(&mut self, byte: u8) -> (done: bool)
        requires
            old(self).wf(),
            !old(self).finished(),
        ensures
            final(self).wf(),
            final(self)@ == old(self)@.push(byte),
            !final(self).waited(),
            done == final(self).finished(),
            done == (final(self)@.len() == IDENTIFY_MAX_BYTES),
    {
        self.reply.push(byte);
        self.waited = false;
        if self.reply.len() == IDENTIFY_MAX_BYTES {
            self.finished = true;
        }
        self.finished
    }

    /// The bytes of the reply.
    pub fn reply(&self) -> (v: Vec<u8>)
        ensures
            v@ == self@,
    {
        self.reply.clone()
    }
}

/// The controller steps of bringing up the first device: it is disabled,
/// the controller's output flushed by a read, the configuration byte
/// cleared, and the device enabled.
pub open spec fn init_ps2_plan() -> Seq<IoOp> {
    seq![
        IoOp::Out { port: STATUS_PORT, value: 0xAD },
        IoOp::In { port: DATA_PORT },
        IoOp::Out { port: STATUS_PORT, value: 0x60 },
        IoOp::Out { port: STATUS_PORT, value: 0x00 },
        IoOp::Out { port: STATUS_PORT, value: 0xAE },
    ]
}

/// The steps that send `data` to a device, then the acknowledgement wait
/// starts.
pub fn send_data(data: u8) -> (op: IoOp)
    ensures
        op == (IoOp::Out { port: DATA_PORT, value: data }),
{
    IoOp::Out { port: DATA_PORT, value: data }
}

/// The step that sends `command` to the controller.
pub fn send_command(command: u8) -> (op: IoOp)
    ensures
        op == (IoOp::Out { port: STATUS_PORT, value: command }),
{
    IoOp::Out { port: STATUS_PORT, value: command }
}

} // verus!
