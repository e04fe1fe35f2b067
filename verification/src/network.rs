//! Network interface counters read from `netstat -ibn`.
use vstd::prelude::*;
use std::time::Instant;
use crate::text::{
    chars_eq, chars_of, contains, contains_chars, contains_in, lines, parse_u64, parse_u64_chars, slice_of,
    split_lines, split_tokens, string_of, tokens, views,
};

verus! {

#[verifier::external_type_specification]
#[verifier::external_body]
pub struct ExInstant(Instant);

/// `Instant` is `Copy`, so its `clone` (std) returns the same instant.
pub assume_specification[ <Instant as Clone>::clone ](i: &Instant) -> (r: Instant)
    ensures
        r == *i,
;

/// Counters of one network interface at one moment.
#[derive(Clone)]
pub struct NetworkStats {
    pub interface: String,
    pub packets_in: u64,
    pub packets_out: u64,
    pub bytes_in: u64,
    pub bytes_out: u64,
    pub errors_in: u64,
    pub errors_out: u64,
    pub timestamp: Instant,
}

/// The counters of an interface, without the moment they were read.
pub struct NetEntry {
    pub interface: Seq<char>,
    pub packets_in: u64,
    pub packets_out: u64,
    pub bytes_in: u64,
    pub bytes_out: u64,
    pub errors_in: u64,
    pub errors_out: u64,
}

impl View for NetworkStats {
    type V = NetEntry;

    open spec fn view(&self) -> NetEntry {
        NetEntry {
            interface: self.interface@,
            packets_in: self.packets_in,
            packets_out: self.packets_out,
            bytes_in: self.bytes_in,
            bytes_out: self.bytes_out,
            errors_in: self.errors_in,
            errors_out: self.errors_out,
        }
    }
}

/// The number written in `t`, or 0 when `t` is not a `u64`.
pub open spec fn u64_or_zero(t: Seq<char>) -> u64 {
    match parse_u64(t) {
        Some(v) => v,
        None => 0,
    }
}

/// `lines` without its first line.
pub open spec fn without_header(lines: Seq<Seq<char>>) -> Seq<Seq<char>> {
    if lines.len() == 0 { lines } else { lines.drop_first() }
}

/// A `netstat -ibn` row names a new interface when it has at least ten
/// columns, is not the loopback `lo0`, was not listed before, and its third
/// column is a link-level address (`Link#..`).
pub open spec fn is_interface_row(parts: Seq<Seq<char>>, seen: Seq<Seq<char>>) -> bool {
    &&& parts.len() >= 10
    &&& parts[0] != "lo0"@
    &&& !seen.contains(parts[0])
    &&& contains(parts[2], "Link"@)
}

/// The counters of a row: `Name Mtu Network Address Ipkts Ierrs Ibytes Opkts Oerrs Obytes`.
pub open spec fn row_entry(parts: Seq<Seq<char>>) -> NetEntry {
    NetEntry {
        interface: parts[0],
        packets_in: u64_or_zero(parts[4]),
        errors_in: u64_or_zero(parts[5]),
        bytes_in: u64_or_zero(parts[6]),
        packets_out: u64_or_zero(parts[7]),
        errors_out: u64_or_zero(parts[8]),
        bytes_out: u64_or_zero(parts[9]),
    }
}

/// The interfaces listed by `lines`, given the names `seen` already listed.
pub open spec fn interfaces_after(lines: Seq<Seq<char>>, seen: Seq<Seq<char>>) -> Seq<NetEntry>
    decreases lines.len(),
{
    if lines.len() == 0 {
        seq![]
    } else {
        let parts = tokens(lines[0]);
        if is_interface_row(parts, seen) {
            seq![row_entry(parts)] + interfaces_after(lines.drop_first(), seen.push(parts[0]))
        } else {
            interfaces_after(lines.drop_first(), seen)
        }
    }
}

/// The interfaces listed in the output of `netstat -ibn`, in order.
pub open spec fn netstat_interfaces(output: Seq<char>) -> Seq<NetEntry> {
    interfaces_after(without_header(lines(output)), seq![])
}

/// No interface is listed twice, none is the loopback `lo0`, and none was
/// among the names already `seen`.
pub proof fn lemma_interfaces_distinct(lines: Seq<Seq<char>>, seen: Seq<Seq<char>>)
    ensures
        forall|i: int| 0 <= i < interfaces_after(lines, seen).len() ==> {
            &&& (#[trigger] interfaces_after(lines, seen)[i]).interface != "lo0"@
            &&& !seen.contains(interfaces_after(lines, seen)[i].interface)
        },
        forall|i: int, j: int| 0 <= i < j < interfaces_after(lines, seen).len()
            ==> (#[trigger] interfaces_after(lines, seen)[i]).interface != (#[trigger] interfaces_after(lines, seen)[j]).interface,
    decreases lines.len(),
{
    if lines.len() > 0 {
        let parts = tokens(lines[0]);
        if is_interface_row(parts, seen) {
            let next = seen.push(parts[0]);
            lemma_interfaces_distinct(lines.drop_first(), next);
            let rest = interfaces_after(lines.drop_first(), next);
            let all = interfaces_after(lines, seen);
            assert(all == seq![row_entry(parts)] + rest);
            assert forall|i: int| 0 <= i < all.len() implies {
                &&& (#[trigger] all[i]).interface != "lo0"@
                &&& !seen.contains(all[i].interface)
            } by {
                if i > 0 {
                    assert(all[i] == rest[i - 1]);
                    if seen.contains(all[i].interface) {
                        let k = choose|k: int| 0 <= k < seen.len() && seen[k] == all[i].interface;
                        assert(next[k] == seen[k]);
                    }
                }
            }
            assert forall|i: int, j: int| 0 <= i < j < all.len()
                implies (#[trigger] all[i]).interface != (#[trigger] all[j]).interface by {
                assert(all[j] == rest[j - 1]);
                if i == 0 {
                    assert(next[seen.len() as int] == parts[0]);
                } else {
                    assert(all[i] == rest[i - 1]);
                }
            }
        } else {
            lemma_interfaces_distinct(lines.drop_first(), seen);
            assert(interfaces_after(lines, seen) == interfaces_after(lines.drop_first(), seen));
        }
    } else {
        assert(interfaces_after(lines, seen).len() == 0);
    }
}

/// The counters of one `u64` column, 0 when it does not hold one.
fn column_u64(parts: &Vec<Vec<char>>, k: usize) -> (v: u64)
    requires
        k < parts.len(),
    ensures
        v == u64_or_zero(parts@[k as int]@),
{
    match parse_u64_chars(&parts[k]) {
        Some(v) => v,
        None => 0,
    }
}

/// Reads the interface counters from `netstat -ibn` output, each stamped with
/// `timestamp`.
pub fn parse_network_stats(output: &str, timestamp: Instant) -> (r: Vec<NetworkStats>)
    ensures
        r@.map_values(|n: NetworkStats| n@) == netstat_interfaces(output@),
        forall|i: int| 0 <= i < r@.len() ==> #[trigger] r@[i].timestamp == timestamp,
{
    let text = chars_of(output);
    let all = split_lines(&text);
    let lo0 = chars_of("lo0");
    let link = chars_of("Link");
    let mut r: Vec<NetworkStats> = Vec::new();
    let mut seen: Vec<Vec<char>> = Vec::new();
    let ghost rest0 = without_header(lines(output@));
    let mut i: usize = 1;
    if all.len() == 0 {
        return r;
    }
    assert(views(all@).drop_first() =~= views(all@).skip(1));
    assert(views(seen@) =~= Seq::<Seq<char>>::empty());
    assert(r@.map_values(|n: NetworkStats| n@) =~= Seq::<NetEntry>::empty());
    assert(Seq::<NetEntry>::empty() + interfaces_after(rest0, seq![]) =~= interfaces_after(rest0, seq![]));
    while i < all.len()
        invariant
            1 <= i <= all.len(),
            lo0@ == "lo0"@,
            link@ == "Link"@,
            rest0 == views(all@).drop_first(),
            r@.map_values(|n: NetworkStats| n@) + interfaces_after(views(all@).skip(i as int), views(seen@))
                == interfaces_after(rest0, seq![]),
            forall|k: int| 0 <= k < r@.len() ==> #[trigger] r@[k].timestamp == timestamp,
        decreases all.len() - i,
    {
        let ghost rest = views(all@).skip(i as int);
        assert(rest[0] == all@[i as int]@);
        assert(rest.drop_first() =~= views(all@).skip(i + 1));
        let parts = split_tokens(&all[i]);
        let ghost p = views(parts@);
        let keep = parts.len() >= 10 && !chars_eq(&parts[0], &lo0) && !contains_chars(&seen, &parts[0])
            && contains_in(&parts[2], &link);
        if keep {
            assert(p[0] == parts@[0]@ && p[2] == parts@[2]@);
            let entry = NetworkStats {
                interface: string_of(&parts[0]),
                packets_in: column_u64(&parts, 4),
                errors_in: column_u64(&parts, 5),
                bytes_in: column_u64(&parts, 6),
                packets_out: column_u64(&parts, 7),
                errors_out: column_u64(&parts, 8),
                bytes_out: column_u64(&parts, 9),
                timestamp,
            };
            assert(entry@ == row_entry(p));
            let ghost before = r@.map_values(|n: NetworkStats| n@);
            let ghost seen_before = views(seen@);
            r.push(entry);
            assert(r@.map_values(|n: NetworkStats| n@) =~= before.push(entry@));
            let name = slice_of(&parts[0], 0, parts[0].len());
            assert(name@ =~= parts@[0]@);
            seen.push(name);
            assert(views(seen@) =~= seen_before.push(p[0]));
            assert(before + (seq![row_entry(p)] + interfaces_after(rest.drop_first(), seen_before.push(p[0])))
                =~= before.push(entry@) + interfaces_after(rest.drop_first(), seen_before.push(p[0])));
        } else {
            assert(parts.len() >= 10 ==> p[0] == parts@[0]@ && p[2] == parts@[2]@);
            assert(!is_interface_row(p, views(seen@)));
        }
        i = i + 1;
    }
    assert(views(all@).skip(i as int) =~= Seq::<Seq<char>>::empty());
    assert(r@.map_values(|n: NetworkStats| n@) + Seq::<NetEntry>::empty() =~= r@.map_values(|n: NetworkStats| n@));
    r
}

impl NetworkStats {
    /// Growth of the packet and byte counters since `previous`, as
    /// `(packets_in, packets_out, bytes_in, bytes_out)`; a counter that went
    /// down counts as no growth.
    pub fn counter_deltas(&self, previous: &NetworkStats) -> (d: (u64, u64, u64, u64))
        ensures
            d.0 == (if self.packets_in >= previous.packets_in { self.packets_in - previous.packets_in } else { 0 }),
            d.1 == (if self.packets_out >= previous.packets_out { self.packets_out - previous.packets_out } else { 0 }),
            d.2 == (if self.bytes_in >= previous.bytes_in { self.bytes_in - previous.bytes_in } else { 0 }),
            d.3 == (if self.bytes_out >= previous.bytes_out { self.bytes_out - previous.bytes_out } else { 0 }),
    {
        (
            self.packets_in.saturating_sub(previous.packets_in),
            self.packets_out.saturating_sub(previous.packets_out),
            self.bytes_in.saturating_sub(previous.bytes_in),
            self.bytes_out.saturating_sub(previous.bytes_out),
        )
    }
}

/// The first interface named `en0`, the usual Wi-Fi or Ethernet port.
pub fn get_primary_interface(interfaces: Vec<NetworkStats>) -> (r: Option<NetworkStats>)
    ensures
        r matches Some(n) ==> exists|i: int|
            0 <= i < interfaces@.len() && #[trigger] interfaces@[i] == n && n.interface@ == "en0"@
            && forall|j: int| 0 <= j < i ==> (#[trigger] interfaces@[j]).interface@ != "en0"@,
        r is None ==> forall|i: int| 0 <= i < interfaces@.len() ==> (#[trigger] interfaces@[i]).interface@ != "en0"@,
{
    let en0 = chars_of("en0");
    let mut k: usize = 0;
    while k < interfaces.len()
        invariant
            en0@ == "en0"@,
            k <= interfaces.len(),
            forall|j: int| 0 <= j < k ==> (#[trigger] interfaces@[j]).interface@ != "en0"@,
        decreases interfaces.len() - k,
    {
        let name = chars_of(interfaces[k].interface.as_str());
        if chars_eq(&name, &en0) {
            let ghost all = interfaces@;
            let mut rest = interfaces;
            let n = rest.remove(k);
            assert(all[k as int] == n);
            return Some(n);
        }
        k = k + 1;
    }
    None
}

} // verus!
