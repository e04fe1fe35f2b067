//! System uptime from `sysctl kern.boottime`.
use vstd::prelude::*;
use crate::text::{chars_of, dec, find, find_in, parse_u64, parse_u64_chars, push_decimal, slice_of, trim, trim_chars};

verus! {

/// Seconds since boot, and the same as `3d 4h 5m` (or `4h 5m` under a day).
pub struct UptimeInfo {
    pub seconds: u64,
    pub formatted: String,
}

/// The boot time in `kern.boottime: { sec = 1703123456, usec = 123456 } ...`:
/// the number between the first `sec = ` and the next `,`, without
/// surrounding whitespace.
pub open spec fn boot_seconds(output: Seq<char>) -> Option<u64> {
    match find(output, "sec = "@) {
        None => None,
        Some(i) => {
            let rest = output.skip(i + 6);
            match find(rest, ","@) {
                None => None,
                Some(e) => parse_u64(trim(rest.take(e))),
            }
        },
    }
}

/// `Dd Hh Mm` when the uptime reaches a day, else `Hh Mm`.
pub open spec fn uptime_text(secs: nat) -> Seq<char> {
    let days = secs / 86400;
    let hours = (secs % 86400) / 3600;
    let minutes = (secs % 3600) / 60;
    if days > 0 {
        dec(days) + "d "@ + dec(hours) + "h "@ + dec(minutes) + "m"@
    } else {
        dec(hours) + "h "@ + dec(minutes) + "m"@
    }
}

/// Reads the boot time from `sysctl kern.boottime` output.
pub fn parse_boot_time(output: &str) -> (r: Option<u64>)
    ensures
        r == boot_seconds(output@),
{
    proof {
        reveal_strlit("sec = ");
        reveal_strlit(",");
    }
    let text = chars_of(output);
    let marker = chars_of("sec = ");
    let found = find_in(&text, &marker);
    proof { crate::text::lemma_find_from(text@, marker@, 0); }
    let start = match found {
        Some(i) => {
            assert(crate::text::occurs_at(text@, marker@, i as int));
            let n = text.len();
            assert(i + 6 <= n);
            i + 6
        },
        None => return None,
    };
    let rest = slice_of(&text, start, text.len());
    assert(rest@ =~= output@.skip(start as int));
    let comma = chars_of(",");
    let end = match find_in(&rest, &comma) {
        Some(e) => e,
        None => return None,
    };
    proof { crate::text::lemma_find_from(rest@, comma@, 0); }
    let number = slice_of(&rest, 0, end);
    assert(number@ =~= rest@.take(end as int));
    parse_u64_chars(&trim_chars(&number))
}

/// The uptime as `Dd Hh Mm` or `Hh Mm`.
fn format_uptime(secs: u64) -> (s: String)
    ensures
        s@ == uptime_text(secs as nat),
{
    let days = secs / 86400;
    let hours = (secs % 86400) / 3600;
    let minutes = (secs % 3600) / 60;
    let mut s = String::new();
    if days > 0 {
        push_decimal(&mut s, days);
        s.append("d ");
    }
    push_decimal(&mut s, hours);
    s.append("h ");
    push_decimal(&mut s, minutes);
    s.append("m");
    assert(s@ =~= uptime_text(secs as nat));
    s
}

/// The uptime at `now_secs` (seconds since the Unix epoch) of a system whose
/// `sysctl kern.boottime` output is `sysctl_output`; a boot time after
/// `now_secs` counts as no uptime. `None` when the boot time cannot be read.
pub fn get_uptime(sysctl_output: &str, now_secs: u64) -> (r: Option<UptimeInfo>)
    ensures
        r is Some <==> boot_seconds(sysctl_output@) is Some,
        r matches Some(u) ==> u.seconds == (if now_secs >= boot_seconds(sysctl_output@)->0 {
            now_secs - boot_seconds(sysctl_output@)->0
        } else {
            0
        }) && u.formatted@ == uptime_text(u.seconds as nat),
{
    let boot = match parse_boot_time(sysctl_output) {
        Some(b) => b,
        None => return None,
    };
    let seconds = now_secs.saturating_sub(boot);
    Some(UptimeInfo { seconds, formatted: format_uptime(seconds) })
}

/// The parts of an uptime add up to it, to the minute.
pub proof fn lemma_uptime_parts(secs: nat)
    ensures
        (secs % 86400) / 3600 < 24,
        (secs % 3600) / 60 < 60,
        (secs / 86400) * 86400 + ((secs % 86400) / 3600) * 3600 + ((secs % 3600) / 60) * 60 <= secs,
        secs < (secs / 86400) * 86400 + ((secs % 86400) / 3600) * 3600 + ((secs % 3600) / 60) * 60 + 60,
{
    assert((secs % 86400) / 3600 < 24) by (nonlinear_arith);
    assert((secs % 3600) / 60 < 60) by (nonlinear_arith);
    assert(secs % 3600 == (secs % 86400) % 3600) by (nonlinear_arith);
    assert(secs == (secs / 86400) * 86400 + secs % 86400) by (nonlinear_arith);
    assert(secs % 86400 == ((secs % 86400) / 3600) * 3600 + (secs % 86400) % 3600) by (nonlinear_arith);
    assert(secs % 3600 == ((secs % 3600) / 60) * 60 + (secs % 3600) % 60) by (nonlinear_arith);
    assert((secs % 3600) % 60 < 60) by (nonlinear_arith);
}

} // verus!
