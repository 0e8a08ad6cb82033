//! ANSI escape sequences that color terminal text.
use vstd::prelude::*;
use crate::text::{decimal, push_decimal};

verus! {

/// `s` in the 24-bit foreground color `(r, g, b)`, followed by a reset.
pub open spec fn colored(s: Seq<char>, r: u8, g: u8, b: u8) -> Seq<char> {
    "\x1b[38;2;"@ + decimal(r as nat) + ";"@ + decimal(g as nat) + ";"@ + decimal(b as nat) + "m"@
        + s + "\x1b[0m"@
}

/// `s` in bold, on the background color `(br, bg, bb)`, in the foreground
/// color `(fr, fg, fb)`, followed by a reset.
pub open spec fn colored_on(
    s: Seq<char>,
    fr: u8,
    fg: u8,
    fb: u8,
    br: u8,
    bg: u8,
    bb: u8,
) -> Seq<char> {
    "\x1b[1m\x1b[48;2;"@ + decimal(br as nat) + ";"@ + decimal(bg as nat) + ";"@ + decimal(
        bb as nat,
    ) + "m\x1b[38;2;"@ + decimal(fr as nat) + ";"@ + decimal(fg as nat) + ";"@ + decimal(
        fb as nat,
    ) + "m"@ + s + "\x1b[0m"@
}

/// Colors `s` with the foreground color `(r, g, b)`.
pub fn c(s: &str, r: u8, g: u8, b: u8) -> (res: String)
    ensures
        res@ == colored(s@, r, g, b),
{
    let mut out = String::new();
    out.append("\x1b[38;2;");
    push_decimal(&mut out, r as u64);
    out.append(";");
    push_decimal(&mut out, g as u64);
    out.append(";");
    push_decimal(&mut out, b as u64);
    out.append("m");
    out.append(s);
    out.append("\x1b[0m");
    out
}

/// Writes `s` in bold, with the background color `(br, bg, bb)` and the
/// foreground color `(fr, fg, fb)`.
pub fn cbg(s: &str, fr: u8, fg: u8, fb: u8, br: u8, bg: u8, bb: u8) -> (res: String)
    ensures
        res@ == colored_on(s@, fr, fg, fb, br, bg, bb),
{
    let mut out = String::new();
    out.append("\x1b[1m\x1b[48;2;");
    push_decimal(&mut out, br as u64);
    out.append(";");
    push_decimal(&mut out, bg as u64);
    out.append(";");
    push_decimal(&mut out, bb as u64);
    out.append("m\x1b[38;2;");
    push_decimal(&mut out, fr as u64);
    out.append(";");
    push_decimal(&mut out, fg as u64);
    out.append(";");
    push_decimal(&mut out, fb as u64);
    out.append("m");
    out.append(s);
    out.append("\x1b[0m");
    out
}

} // verus!
