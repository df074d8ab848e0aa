//! Decimal numbers as text, and times of day written with them.

use vstd::prelude::*;
use vstd::string::StringExecFns;

verus! {

/// The digit for a number below ten.
pub open spec fn digit(n: nat) -> Seq<char> {
    if n == 0 {
        "0"@
    } else if n == 1 {
        "1"@
    } else if n == 2 {
        "2"@
    } else if n == 3 {
        "3"@
    } else if n == 4 {
        "4"@
    } else if n == 5 {
        "5"@
    } else if n == 6 {
        "6"@
    } else if n == 7 {
        "7"@
    } else if n == 8 {
        "8"@
    } else {
        "9"@
    }
}

/// A number in decimal.
pub open spec fn decimal(n: nat) -> Seq<char>
    decreases n,
{
    if n < 10 {
        digit(n)
    } else {
        decimal(n / 10) + digit(n % 10)
    }
}

/// A number in decimal, with zeros in front up to a width.
pub open spec fn padded(n: nat, width: nat) -> Seq<char>
    decreases width,
{
    if width <= 1 {
        decimal(n)
    } else {
        padded(n / 10, (width - 1) as nat) + digit(n % 10)
    }
}

/// The digit for a number below ten.
fn push_digit(out: &mut String, n: u32)
    requires
        n < 10,
    ensures
        final(out)@ == old(out)@ + digit(n as nat),
{
    match n {
        0 => out.append("0"),
        1 => out.append("1"),
        2 => out.append("2"),
        3 => out.append("3"),
        4 => out.append("4"),
        5 => out.append("5"),
        6 => out.append("6"),
        7 => out.append("7"),
        8 => out.append("8"),
        _ => out.append("9"),
    }
}

/// Appends a number in decimal.
pub fn push_decimal(out: &mut String, n: u32)
    ensures
        final(out)@ == old(out)@ + decimal(n as nat),
    decreases n,
{
    if n >= 10 {
        push_decimal(out, n / 10);
    }
    push_digit(out, n % 10);
    assert(out@ =~= old(out)@ + decimal(n as nat));
}

/// Appends a number in decimal, with zeros in front up to a width.
pub fn push_padded(out: &mut String, n: u32, width: u32)
    ensures
        final(out)@ == old(out)@ + padded(n as nat, width as nat),
    decreases width,
{
    if width <= 1 {
        push_decimal(out, n);
    } else {
        push_padded(out, n / 10, width - 1);
        push_digit(out, n % 10);
        assert(out@ =~= old(out)@ + padded(n as nat, width as nat));
    }
}

/// A time of day in UTC.
#[derive(Debug, Clone, Copy, PartialEq, Eq, Structural)]
pub struct UtcTime {
    pub year: u32,
    pub month: u32,
    pub day: u32,
    pub hour: u32,
    pub minute: u32,
    pub second: u32,
}

/// A time of day as ISO 8601 has it.
pub open spec fn iso8601_text(t: UtcTime) -> Seq<char> {
    padded(t.year as nat, 4) + "-"@ + padded(t.month as nat, 2) + "-"@ + padded(t.day as nat, 2)
        + "T"@ + padded(t.hour as nat, 2) + ":"@ + padded(t.minute as nat, 2) + ":"@ + padded(
        t.second as nat,
        2,
    ) + "Z"@
}

/// A time of day as ISO 8601 has it.
pub fn iso8601(t: &UtcTime) -> (out: String)
    ensures
        out@ == iso8601_text(*t),
{
    let mut out = String::new();
    proof {
        reveal_strlit("");
    }
    push_padded(&mut out, t.year, 4);
    out.append("-");
    push_padded(&mut out, t.month, 2);
    out.append("-");
    push_padded(&mut out, t.day, 2);
    out.append("T");
    push_padded(&mut out, t.hour, 2);
    out.append(":");
    push_padded(&mut out, t.minute, 2);
    out.append(":");
    push_padded(&mut out, t.second, 2);
    out.append("Z");
    assert(out@ =~= iso8601_text(*t));
    out
}

} // verus!
