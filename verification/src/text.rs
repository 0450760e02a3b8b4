//! Building strings one character at a time.

use vstd::prelude::*;

verus! {

/// `String::push` of the standard library: the string grows by the one
/// character given, at its end.
pub assume_specification[ String::push ](s: &mut String, c: char)
    ensures
        final(s)@ == old(s)@.push(c),
;

/// The character with the code of the byte given.
pub open spec fn ascii_char(b: u8) -> char {
    b as char
}

/// The characters with the codes of the bytes given, one for one.
pub open spec fn ascii_text(bytes: Seq<u8>) -> Seq<char> {
    Seq::new(bytes.len(), |i: int| ascii_char(bytes[i]))
}

/// The decimal digit for a number below ten.
pub open spec fn digit_char(d: nat) -> char {
    ((48 + d) as u8) as char
}

/// The decimal notation of a number, without leading zeros.
pub open spec fn decimal(n: nat) -> Seq<char>
    decreases n,
{
    if n < 10 {
        seq![digit_char(n)]
    } else {
        decimal(n / 10).push(digit_char(n % 10))
    }
}

/// Appends the decimal notation of `n` to `s`.
pub fn push_decimal(s: &mut String, n: u64)
    ensures
        final(s)@ == old(s)@ + decimal(n as nat),
    decreases n,
{
    if n >= 10 {
        push_decimal(s, n / 10);
    }
    let d: u8 = (n % 10) as u8;
    s.push((48u8 + d) as char);
}

/// The string with one character for each of the bytes `raw[from..to]`.
pub fn ascii_string(raw: &[u8], from: usize, to: usize) -> (s: String)
    requires
        from <= to <= raw@.len(),
    ensures
        s@ == ascii_text(raw@.subrange(from as int, to as int)),
{
    let mut s = String::new();
    let mut i: usize = from;
    while i < to
        invariant
            from <= i <= to <= raw@.len(),
            s@ == ascii_text(raw@.subrange(from as int, i as int)),
        decreases to - i,
    {
        let b: u8 = raw[i];
        s.push(b as char);
        i = i + 1;
    }
    s
}

} // verus!
