use vstd::prelude::*;
use vstd::string::*;

verus! {

/// The sixteen lower-case hexadecimal digits, in order.
pub open spec fn hex_digits() -> Seq<char> {
    "0123456789abcdef"@
}

/// A byte as two lower-case hexadecimal digits, high nibble first.
pub open spec fn hex_text(b: u8) -> Seq<char> {
    seq![hex_digits()[b as int / 16], hex_digits()[b as int % 16]]
}

/// Appends the two hexadecimal digits of `b` to `out`.
pub fn append_hex(out: &mut String, b: u8)
    ensures
        final(out)@ == old(out)@ + hex_text(b),
{
    let digits = "0123456789abcdef";
    proof {
        reveal_strlit("0123456789abcdef");
    }
    let hi = (b / 16) as usize;
    let lo = (b % 16) as usize;
    out.append(digits.substring_ascii(hi, hi + 1));
    out.append(digits.substring_ascii(lo, lo + 1));
    assert(digits@.subrange(hi as int, hi + 1) =~= seq![hex_digits()[hi as int]]);
    assert(digits@.subrange(lo as int, lo + 1) =~= seq![hex_digits()[lo as int]]);
    assert(out@ =~= old(out)@ + hex_text(b));
}

/// The low byte of a result code, which is what the console shows of it.
pub open spec fn code_byte(rc: i32) -> u8 {
    rc as u8
}

} // verus!
