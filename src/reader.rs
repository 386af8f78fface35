use vstd::prelude::*;
use vstd::string::*;
use crate::text::{append_hex, code_byte, hex_text};

verus! {

/// Timeout handed to each phase of a register read, in milliseconds.
pub const TRANSFER_TIMEOUT_MS: u32 = 1000;

/// Direction of one I2C master transaction.
#[derive(PartialEq, Eq, Structural, Clone, Copy, Debug)]
pub enum Direction {
    Write,
    Read,
}

/// A transaction descriptor: the 7-bit device address, the payload length
/// and the buffer the payload is sent from or received into.
#[derive(Debug)]
pub struct Transfer {
    pub address: u8,
    pub len: u16,
    pub buffer: Vec<u8>,
}

impl Transfer {
    /// The length field matches the buffer it describes.
    pub open spec fn wf(&self) -> bool {
        self.len as int == self.buffer@.len()
    }

    /// A one-byte transfer to or from `address`, holding `byte`.
    pub fn one_byte(address: u8, byte: u8) -> (r: Transfer)
        ensures
            r.wf(),
            r.address == address,
            r.len == 1,
            r.buffer@ == seq![byte],
    {
        let mut buffer: Vec<u8> = Vec::new();
        buffer.push(byte);
        Transfer { address, len: 1, buffer }
    }
}

/// One blocking master transaction: its direction, its descriptor, its
/// timeout, and whether it ends with a stop condition.
#[derive(Debug)]
pub struct Request {
    pub direction: Direction,
    pub transfer: Transfer,
    pub timeout_ms: u32,
    pub stop: bool,
}

/// The write phase of a register read: the register address as a single
/// byte, with no stop so that a repeated start follows.
pub open spec fn is_select_request(r: Request, addr: u8, register: u8) -> bool {
    &&& r.direction == Direction::Write
    &&& r.transfer.wf()
    &&& r.transfer.address == addr
    &&& r.transfer.len == 1
    &&& r.transfer.buffer@ == seq![register]
    &&& r.timeout_ms == TRANSFER_TIMEOUT_MS
    &&& !r.stop
}

/// The read phase of a register read: one byte into a cleared buffer,
/// ending with a stop.
pub open spec fn is_fetch_request(r: Request, addr: u8) -> bool {
    &&& r.direction == Direction::Read
    &&& r.transfer.wf()
    &&& r.transfer.address == addr
    &&& r.transfer.len == 1
    &&& r.transfer.buffer@ == seq![0u8]
    &&& r.timeout_ms == TRANSFER_TIMEOUT_MS
    &&& r.stop
}

/// The transactions of one read of `register` on device `addr`, in the
/// order they are to be issued: the write of the register address, then
/// the read of one byte.
pub fn register_read_plan(addr: u8, register: u8) -> (r: Vec<Request>)
    ensures
        r@.len() == 2,
        is_select_request(r@[0], addr, register),
        is_fetch_request(r@[1], addr),
{
    let select = Request {
        direction: Direction::Write,
        transfer: Transfer::one_byte(addr, register),
        timeout_ms: TRANSFER_TIMEOUT_MS,
        stop: false,
    };
    let fetch = Request {
        direction: Direction::Read,
        transfer: Transfer::one_byte(addr, 0),
        timeout_ms: TRANSFER_TIMEOUT_MS,
        stop: true,
    };
    let mut r: Vec<Request> = Vec::new();
    r.push(select);
    r.push(fetch);
    r
}

/// The console line giving the result code of the write phase.
pub open spec fn write_line_text(addr: u8, rc: i32) -> Seq<char> {
    "write 0x"@ + hex_text(addr) + ", rc: "@ + hex_text(code_byte(rc)) + "\n"@
}

/// The console line giving the result code of the read phase.
pub open spec fn read_line_text(addr: u8, rc: i32) -> Seq<char> {
    "read 0x"@ + hex_text(addr) + ", rc: "@ + hex_text(code_byte(rc)) + "\n"@
}

/// The console line giving the byte that was read.
pub open spec fn value_line_text(value: u8) -> Seq<char> {
    "read value 0x"@ + hex_text(value) + "\n"@
}

fn code_line(prefix: &str, addr: u8, rc: i32) -> (r: String)
    ensures
        r@ == prefix@ + hex_text(addr) + ", rc: "@ + hex_text(code_byte(rc)) + "\n"@,
{
    let mut s = String::from_str(prefix);
    append_hex(&mut s, addr);
    s.append(", rc: ");
    append_hex(&mut s, rc as u8);
    s.append("\n");
    s
}

/// The console report of one register read: the write phase's code, the
/// read phase's code and the value read, one line each, in that order.
/// The codes are shown, never acted on.
pub fn register_report(addr: u8, write_rc: i32, read_rc: i32, value: u8) -> (r: Vec<String>)
    ensures
        r@.len() == 3,
        r@[0]@ == write_line_text(addr, write_rc),
        r@[1]@ == read_line_text(addr, read_rc),
        r@[2]@ == value_line_text(value),
{
    let mut value_line = String::from_str("read value 0x");
    append_hex(&mut value_line, value);
    value_line.append("\n");
    let mut r: Vec<String> = Vec::new();
    r.push(code_line("write 0x", addr, write_rc));
    r.push(code_line("read 0x", addr, read_rc));
    r.push(value_line);
    r
}

} // verus!
