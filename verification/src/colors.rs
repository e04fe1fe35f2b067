//! ANSI escape sequences for colours, styles and cursor control.
use vstd::prelude::*;
use crate::text::{dec, push_decimal};

verus! {

pub const RESET: &'static str = "\x1b[0m";
pub const BOLD: &'static str = "\x1b[1m";
pub const DIM: &'static str = "\x1b[2m";

pub const BLACK: &'static str = "\x1b[30m";
pub const RED: &'static str = "\x1b[31m";
pub const GREEN: &'static str = "\x1b[32m";
pub const YELLOW: &'static str = "\x1b[33m";
pub const BLUE: &'static str = "\x1b[34m";
pub const MAGENTA: &'static str = "\x1b[35m";
pub const CYAN: &'static str = "\x1b[36m";
pub const WHITE: &'static str = "\x1b[37m";

pub const BRIGHT_RED: &'static str = "\x1b[91m";
pub const BRIGHT_GREEN: &'static str = "\x1b[92m";
pub const BRIGHT_YELLOW: &'static str = "\x1b[93m";
pub const BRIGHT_BLUE: &'static str = "\x1b[94m";
pub const BRIGHT_MAGENTA: &'static str = "\x1b[95m";
pub const BRIGHT_CYAN: &'static str = "\x1b[96m";
pub const BRIGHT_WHITE: &'static str = "\x1b[97m";

pub const BG_RED: &'static str = "\x1b[41m";
pub const BG_GREEN: &'static str = "\x1b[42m";
pub const BG_YELLOW: &'static str = "\x1b[43m";
pub const BG_BLUE: &'static str = "\x1b[44m";
pub const BG_MAGENTA: &'static str = "\x1b[45m";
pub const BG_CYAN: &'static str = "\x1b[46m";

pub const CLEAR_SCREEN: &'static str = "\x1b[2J";
pub const CURSOR_HOME: &'static str = "\x1b[H";
pub const CURSOR_HIDE: &'static str = "\x1b[?25l";
pub const CURSOR_SHOW: &'static str = "\x1b[?25h";

/// `ESC [ 38 ; 5 ; n m`: foreground colour `n` of the 256-colour palette.
pub open spec fn fg_256_code(n: nat) -> Seq<char> {
    "\x1b[38;5;"@ + dec(n) + "m"@
}

/// `ESC [ 48 ; 5 ; n m`: background colour `n` of the 256-colour palette.
pub open spec fn bg_256_code(n: nat) -> Seq<char> {
    "\x1b[48;5;"@ + dec(n) + "m"@
}

/// `ESC [ 38 ; 2 ; r ; g ; b m`: 24-bit foreground colour.
pub open spec fn fg_rgb_code(r: nat, g: nat, b: nat) -> Seq<char> {
    "\x1b[38;2;"@ + dec(r) + ";"@ + dec(g) + ";"@ + dec(b) + "m"@
}

/// `ESC [ 48 ; 2 ; r ; g ; b m`: 24-bit background colour.
pub open spec fn bg_rgb_code(r: nat, g: nat, b: nat) -> Seq<char> {
    "\x1b[48;2;"@ + dec(r) + ";"@ + dec(g) + ";"@ + dec(b) + "m"@
}

/// `ESC [ row ; col H`: moves the cursor.
pub open spec fn cursor_to_code(row: nat, col: nat) -> Seq<char> {
    "\x1b["@ + dec(row) + ";"@ + dec(col) + "H"@
}

pub fn fg_256(n: u8) -> (s: String)
    ensures
        s@ == fg_256_code(n as nat),
{
    let mut s = String::from_str("\x1b[38;5;");
    push_decimal(&mut s, n as u64);
    s.append("m");
    s
}

pub fn bg_256(n: u8) -> (s: String)
    ensures
        s@ == bg_256_code(n as nat),
{
    let mut s = String::from_str("\x1b[48;5;");
    push_decimal(&mut s, n as u64);
    s.append("m");
    s
}

pub fn fg_rgb(r: u8, g: u8, b: u8) -> (s: String)
    ensures
        s@ == fg_rgb_code(r as nat, g as nat, b as nat),
{
    let mut s = String::from_str("\x1b[38;2;");
    push_decimal(&mut s, r as u64);
    s.append(";");
    push_decimal(&mut s, g as u64);
    s.append(";");
    push_decimal(&mut s, b as u64);
    s.append("m");
    s
}

pub fn bg_rgb(r: u8, g: u8, b: u8) -> (s: String)
    ensures
        s@ == bg_rgb_code(r as nat, g as nat, b as nat),
{
    let mut s = String::from_str("\x1b[48;2;");
    push_decimal(&mut s, r as u64);
    s.append(";");
    push_decimal(&mut s, g as u64);
    s.append(";");
    push_decimal(&mut s, b as u64);
    s.append("m");
    s
}

pub fn cursor_to(row: u16, col: u16) -> (s: String)
    ensures
        s@ == cursor_to_code(row as nat, col as nat),
{
    let mut s = String::from_str("\x1b[");
    push_decimal(&mut s, row as u64);
    s.append(";");
    push_decimal(&mut s, col as u64);
    s.append("H");
    s
}

} // verus!
