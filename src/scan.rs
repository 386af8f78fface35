use vstd::prelude::*;
use vstd::string::*;
use crate::text::{append_hex, code_byte, hex_text};

verus! {

/// Lowest address probed; 0 is the reserved general-call address.
pub const FIRST_ADDRESS: u8 = 1;

/// Highest address probed; 127 is reserved.
pub const LAST_ADDRESS: u8 = 126;

/// Number of addresses a scan probes.
pub const SCAN_LEN: usize = 126;

/// Timeout handed to each probe, in milliseconds.
pub const PROBE_TIMEOUT_MS: u32 = 1000;

/// The addresses a scan probes, in the order it probes them.
pub open spec fn scan_order() -> Seq<u8> {
    Seq::new(SCAN_LEN as nat, |i: int| (i + 1) as u8)
}

/// The console line for a device that answered at `addr` with code `rc`.
pub open spec fn device_line_text(addr: u8, rc: i32) -> Seq<char> {
    "0x"@ + hex_text(addr) + ": "@ + hex_text(code_byte(rc)) + "\n"@
}

/// The line that closes every scan.
pub open spec fn done_text() -> Seq<char> {
    "Done\n"@
}

/// The (address, code) pairs a scan reports, given the probe codes of the
/// first `codes.len()` addresses of the scan order: every address whose
/// code is not `nack`, in scan order.
pub open spec fn reported(codes: Seq<i32>, nack: i32) -> Seq<(u8, i32)>
    decreases codes.len(),
{
    if codes.len() == 0 {
        Seq::empty()
    } else {
        let prev = reported(codes.drop_last(), nack);
        let addr = codes.len() as u8;
        if codes.last() != nack {
            prev.push((addr, codes.last()))
        } else {
            prev
        }
    }
}

/// The addresses to probe: 1 through 126, each once, ascending.
pub fn scan_addresses() -> (r: Vec<u8>)
    ensures
        r@ == scan_order(),
{
    let mut r: Vec<u8> = Vec::new();
    let mut addr: u8 = FIRST_ADDRESS;
    while addr <= LAST_ADDRESS
        invariant
            1 <= addr <= 127,
            r@ == scan_order().take(addr - 1),
        decreases 127 - addr,
    {
        r.push(addr);
        addr = addr + 1;
        assert(r@ =~= scan_order().take(addr - 1));
    }
    assert(r@ =~= scan_order());
    r
}

/// Formats the line reporting a device at `addr` that answered `rc`.
pub fn device_line(addr: u8, rc: i32) -> (r: String)
    ensures
        r@ == device_line_text(addr, rc),
{
    let mut s = String::from_str("0x");
    append_hex(&mut s, addr);
    s.append(": ");
    append_hex(&mut s, rc as u8);
    s.append("\n");
    s
}

/// The line for one probe: a device line unless the address was not
/// acknowledged.
pub fn scan_line(addr: u8, rc: i32, nack: i32) -> (r: Option<String>)
    ensures
        r is Some <==> rc != nack,
        r matches Some(line) ==> line@ == device_line_text(addr, rc),
{
    if rc != nack {
        Some(device_line(addr, rc))
    } else {
        None
    }
}

/// The closing line of a scan.
pub fn done_line() -> (r: String)
    ensures
        r@ == done_text(),
{
    String::from_str("Done\n")
}

/// The console report of a whole scan, from the probe codes of the
/// addresses in scan order (`codes[i]` is the code of address `i + 1`):
/// one line per reported device, in ascending address order, then the
/// closing line.
pub fn scan_report(codes: &Vec<i32>, nack: i32) -> (r: Vec<String>)
    requires
        codes@.len() == SCAN_LEN,
    ensures
        r@.len() == reported(codes@, nack).len() + 1,
        forall|k: int|
            0 <= k < reported(codes@, nack).len() ==> #[trigger] r@[k]@ == device_line_text(
                reported(codes@, nack)[k].0,
                reported(codes@, nack)[k].1,
            ),
        r@.last()@ == done_text(),
{
    let mut r: Vec<String> = Vec::new();
    let mut i: usize = 0;
    while i < codes.len()
        invariant
            i <= codes@.len() == SCAN_LEN,
            r@.len() == reported(codes@.take(i as int), nack).len(),
            forall|k: int|
                0 <= k < r@.len() ==> #[trigger] r@[k]@ == device_line_text(
                    reported(codes@.take(i as int), nack)[k].0,
                    reported(codes@.take(i as int), nack)[k].1,
                ),
        decreases codes@.len() - i,
    {
        let addr: u8 = (i + 1) as u8;
        let line = scan_line(addr, codes[i], nack);
        proof {
            assert(codes@.take(i + 1).drop_last() =~= codes@.take(i as int));
        }
        match line {
            Some(l) => r.push(l),
            None => {},
        }
        i = i + 1;
    }
    assert(codes@.take(i as int) =~= codes@);
    r.push(done_line());
    r
}

/// Every entry of a report names an address among the first `codes.len()`,
/// carries that address's code, which is not `nack`, and the entries
/// ascend strictly by address; every address whose code is not `nack`
/// has an entry.
pub proof fn lemma_reported_entries(codes: Seq<i32>, nack: i32)
    requires
        codes.len() <= SCAN_LEN,
    ensures
        forall|k: int|
            0 <= k < reported(codes, nack).len() ==> {
                let e = #[trigger] reported(codes, nack)[k];
                &&& 1 <= e.0 <= codes.len()
                &&& e.1 == codes[e.0 - 1]
                &&& e.1 != nack
            },
        forall|j: int, k: int|
            0 <= j < k < reported(codes, nack).len() ==> #[trigger] reported(codes, nack)[j].0
                < #[trigger] reported(codes, nack)[k].0,
        forall|a: int|
            1 <= a <= codes.len() && #[trigger] codes[a - 1] != nack ==> exists|k: int|
                0 <= k < reported(codes, nack).len() && #[trigger] reported(codes, nack)[k].0
                    == a,
    decreases codes.len(),
{
    if codes.len() > 0 {
        let prev = codes.drop_last();
        lemma_reported_entries(prev, nack);
        let n = codes.len() as int;
        assert forall|a: int|
            1 <= a <= codes.len() && #[trigger] codes[a - 1] != nack implies exists|k: int|
                0 <= k < reported(codes, nack).len() && #[trigger] reported(codes, nack)[k].0
                    == a by {
            if a < n {
                assert(prev[a - 1] == codes[a - 1]);
                let k = choose|k: int|
                    0 <= k < reported(prev, nack).len() && #[trigger] reported(prev, nack)[k].0
                        == a;
                assert(reported(codes, nack)[k] == reported(prev, nack)[k]);
            } else {
                let k = reported(prev, nack).len() as int;
                assert(reported(codes, nack)[k].0 == a);
            }
        }
    }
}

/// A scan probes every address from 1 through 126 exactly once, and in
/// ascending order.
pub proof fn lemma_scan_probes_each_address_once()
    ensures
        scan_order().len() == 126,
        forall|i: int, j: int|
            0 <= i < j < scan_order().len() ==> scan_order()[i] < scan_order()[j],
        forall|a: u8| #[trigger] scan_order().contains(a) <==> 1 <= a <= 126,
        forall|i: int| 0 <= i < scan_order().len() ==> #[trigger] scan_order()[i] == i + 1,
{
    assert forall|a: u8| #[trigger] scan_order().contains(a) <==> 1 <= a <= 126 by {
        if 1 <= a <= 126 {
            assert(scan_order()[a - 1] == a);
        }
    }
}

/// An address of the scan gets a line in the report if and only if its
/// probe code differs from the not-acknowledged code; the line carries
/// that code.
pub proof fn lemma_line_iff_acknowledged(codes: Seq<i32>, nack: i32, addr: u8)
    requires
        codes.len() == SCAN_LEN,
        1 <= addr <= 126,
    ensures
        (exists|k: int|
            0 <= k < reported(codes, nack).len() && #[trigger] reported(codes, nack)[k].0
                == addr) <==> codes[addr - 1] != nack,
        forall|k: int|
            0 <= k < reported(codes, nack).len() && #[trigger] reported(codes, nack)[k].0
                == addr ==> reported(codes, nack)[k].1 == codes[addr - 1],
{
    lemma_reported_entries(codes, nack);
}

} // verus!
