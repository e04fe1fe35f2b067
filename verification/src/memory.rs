//! Memory figures from `sysctl hw.memsize`, `vm_stat` and `sysctl vm.swapusage`.
use vstd::prelude::*;
use crate::text::{
    chars_of, contains, contains_in, find, find_in, is_digit, lines, parse_u64, parse_u64_chars, slice_of,
    split_lines, string_of, trim, trim_chars, views,
};

verus! {

/// Memory usage in bytes.
pub struct MemoryInfo {
    pub physical_total: u64,
    pub used: u64,
    pub free: u64,
    pub cached: u64,
    pub wired: u64,
    pub active: u64,
    pub inactive: u64,
    pub swap_total: u64,
    pub swap_used: u64,
}

/// Page counts reported by `vm_stat`.
pub struct VmStats {
    pub free: u64,
    pub active: u64,
    pub inactive: u64,
    pub speculative: u64,
    pub wired: u64,
    pub purgeable: u64,
    pub file_backed: u64,
}

/// The page size in the `vm_stat` banner
/// `Mach Virtual Memory Statistics: (page size of 16384 bytes)`: the number
/// between `page size of ` and the next space.
pub open spec fn page_size_in(output: Seq<char>) -> Option<u64> {
    match find(output, "page size of "@) {
        None => None,
        Some(i) => {
            let rest = output.skip(i + 13);
            match find(rest, " "@) {
                None => None,
                Some(e) => parse_u64(rest.take(e)),
            }
        },
    }
}

/// Reads the page size from `vm_stat` output.
pub fn parse_page_size(output: &str) -> (r: Option<u64>)
    ensures
        r == page_size_in(output@),
{
    proof {
        reveal_strlit("page size of ");
    }
    let text = chars_of(output);
    let marker = chars_of("page size of ");
    let found = find_in(&text, &marker);
    proof { crate::text::lemma_find_from(text@, marker@, 0); }
    let start = match found {
        Some(i) => {
            assert(crate::text::occurs_at(text@, marker@, i as int));
            assert(marker@.len() == 13);
            let n = text.len();
            assert(i + 13 <= n);
            i + 13
        },
        None => return None,
    };
    let rest = slice_of(&text, start, text.len());
    assert(rest@ =~= output@.skip(start as int));
    let space = chars_of(" ");
    let end = match find_in(&rest, &space) {
        Some(e) => e,
        None => return None,
    };
    proof { crate::text::lemma_find_from(rest@, space@, 0); }
    let number = slice_of(&rest, 0, end);
    assert(number@ =~= rest@.take(end as int));
    parse_u64_chars(&number)
}

/// The digits of `s`, in order.
pub open spec fn digits_only(s: Seq<char>) -> Seq<char>
    decreases s.len(),
{
    if s.len() == 0 {
        seq![]
    } else if is_digit(s.last()) {
        digits_only(s.drop_last()).push(s.last())
    } else {
        digits_only(s.drop_last())
    }
}

/// The text between the first and the second `:` of `line` (or the end of
/// the line); `None` when there is no `:`.
pub open spec fn second_field(line: Seq<char>) -> Option<Seq<char>> {
    match find(line, ":"@) {
        None => None,
        Some(i) => {
            let rest = line.skip(i + 1);
            match find(rest, ":"@) {
                None => Some(rest),
                Some(j) => Some(rest.take(j)),
            }
        },
    }
}

/// The value on the first of `lines` that mentions `key`: the digits of its
/// second `:`-separated field.
pub open spec fn value_in_lines(lines: Seq<Seq<char>>, key: Seq<char>) -> Option<u64>
    decreases lines.len(),
{
    if lines.len() == 0 {
        None
    } else if contains(lines[0], key) {
        match second_field(lines[0]) {
            None => None,
            Some(f) => parse_u64(digits_only(f)),
        }
    } else {
        value_in_lines(lines.drop_first(), key)
    }
}

/// The value `vm_stat` reports for `key`, such as `Pages free:  12345.`.
pub open spec fn vm_value(output: Seq<char>, key: Seq<char>) -> Option<u64> {
    value_in_lines(lines(output), key)
}

/// The digits of `s`.
fn digits_of(s: &Vec<char>) -> (r: Vec<char>)
    ensures
        r@ == digits_only(s@),
{
    let mut r: Vec<char> = Vec::new();
    let mut i: usize = 0;
    assert(s@.take(0) =~= Seq::<char>::empty());
    while i < s.len()
        invariant
            i <= s.len(),
            r@ == digits_only(s@.take(i as int)),
        decreases s.len() - i,
    {
        assert(s@.take(i + 1).drop_last() =~= s@.take(i as int));
        let c = s[i];
        if '0' <= c && c <= '9' {
            r.push(c);
        }
        i = i + 1;
    }
    assert(s@.take(s.len() as int) =~= s@);
    r
}

/// The second `:`-separated field of `line`.
fn second_field_of(line: &Vec<char>) -> (r: Option<Vec<char>>)
    ensures
        r matches Some(f) ==> second_field(line@) == Some(f@),
        r is None ==> second_field(line@) is None,
{
    let colon = chars_of(":");
    let found = find_in(line, &colon);
    proof {
        crate::text::lemma_find_from(line@, colon@, 0);
        reveal_strlit(":");
    }
    let i = match found {
        Some(i) => i,
        None => return None,
    };
    assert(crate::text::occurs_at(line@, colon@, i as int));
    assert(colon@.len() == 1);
    let n = line.len();
    assert(i + 1 <= n);
    let rest = slice_of(line, i + 1, line.len());
    assert(rest@ =~= line@.skip(i + 1));
    match find_in(&rest, &colon) {
        None => Some(rest),
        Some(j) => {
            proof { crate::text::lemma_find_from(rest@, colon@, 0); }
            let f = slice_of(&rest, 0, j);
            assert(f@ =~= rest@.take(j as int));
            Some(f)
        },
    }
}

/// Reads the value `vm_stat` reports for `key`.
pub fn parse_vm_value(output: &str, key: &str) -> (r: Option<u64>)
    ensures
        r == vm_value(output@, key@),
{
    let text = chars_of(output);
    let all = split_lines(&text);
    let k = chars_of(key);
    let mut i: usize = 0;
    assert(views(all@).skip(0) =~= views(all@));
    while i < all.len()
        invariant
            i <= all.len(),
            k@ == key@,
            views(all@) == lines(output@),
            value_in_lines(views(all@).skip(i as int), key@) == vm_value(output@, key@),
        decreases all.len() - i,
    {
        let ghost rest = views(all@).skip(i as int);
        assert(rest[0] == all@[i as int]@);
        assert(rest.drop_first() =~= views(all@).skip(i + 1));
        if contains_in(&all[i], &k) {
            return match second_field_of(&all[i]) {
                None => None,
                Some(f) => parse_u64_chars(&digits_of(&f)),
            };
        }
        i = i + 1;
    }
    assert(views(all@).skip(i as int) =~= Seq::<Seq<char>>::empty());
    None
}

/// `v`, or 0 when it is missing.
pub open spec fn or_zero(v: Option<u64>) -> u64 {
    match v {
        Some(x) => x,
        None => 0,
    }
}

/// The page size and page counts of `vm_stat` output; a missing count is 0,
/// a missing page size gives `None`.
pub open spec fn vm_stats_in(output: Seq<char>) -> Option<(u64, VmStats)> {
    match page_size_in(output) {
        None => None,
        Some(page_size) => Some((page_size, VmStats {
            free: or_zero(vm_value(output, "Pages free"@)),
            active: or_zero(vm_value(output, "Pages active"@)),
            inactive: or_zero(vm_value(output, "Pages inactive"@)),
            speculative: or_zero(vm_value(output, "Pages speculative"@)),
            wired: or_zero(vm_value(output, "Pages wired down"@)),
            purgeable: or_zero(vm_value(output, "Pages purgeable"@)),
            file_backed: or_zero(vm_value(output, "File-backed pages"@)),
        })),
    }
}

fn value_or_zero(output: &str, key: &str) -> (v: u64)
    ensures
        v == or_zero(vm_value(output@, key@)),
{
    match parse_vm_value(output, key) {
        Some(v) => v,
        None => 0,
    }
}

/// Reads the page size and page counts from `vm_stat` output.
pub fn parse_vm_stats(output: &str) -> (r: Option<(u64, VmStats)>)
    ensures
        r == vm_stats_in(output@),
{
    let page_size = match parse_page_size(output) {
        Some(p) => p,
        None => return None,
    };
    let stats = VmStats {
        free: value_or_zero(output, "Pages free"),
        active: value_or_zero(output, "Pages active"),
        inactive: value_or_zero(output, "Pages inactive"),
        speculative: value_or_zero(output, "Pages speculative"),
        wired: value_or_zero(output, "Pages wired down"),
        purgeable: value_or_zero(output, "Pages purgeable"),
        file_backed: value_or_zero(output, "File-backed pages"),
    };
    Some((page_size, stats))
}

/// Reads the physical memory size printed by `sysctl -n hw.memsize`.
pub fn parse_total_memory(output: &str) -> (r: Option<u64>)
    ensures
        r == parse_u64(trim(output@)),
{
    parse_u64_chars(&trim_chars(&chars_of(output)))
}

pub open spec fn is_number_char(c: char) -> bool {
    is_digit(c) || c == '.'
}

/// The first position of `s` at or after `i` that is neither a digit nor `.`.
pub open spec fn number_end_from(s: Seq<char>, i: int) -> Option<int>
    decreases s.len() - i,
{
    if i < 0 || i >= s.len() {
        None
    } else if !is_number_char(s[i]) {
        Some(i)
    } else {
        number_end_from(s, i + 1)
    }
}

/// Bytes per unit for the size suffixes of `sysctl vm.swapusage`.
pub open spec fn unit_multiplier(c: char) -> u64 {
    if c == 'G' {
        1073741824
    } else if c == 'M' {
        1048576
    } else if c == 'K' {
        1024
    } else {
        1
    }
}

/// In `vm.swapusage: total = 2048.00M  used = 512.00M  free = 1536.00M`, the
/// number written after `key = ` and the bytes per unit of the suffix after
/// it. `None` when `key = ` is absent or nothing follows the number.
pub open spec fn swap_field(output: Seq<char>, key: Seq<char>) -> Option<(Seq<char>, u64)> {
    match find(output, key + " = "@) {
        None => None,
        Some(p) => {
            let rest = output.skip(p + key.len() + 3);
            match number_end_from(rest, 0) {
                None => None,
                Some(e) => Some((rest.take(e), unit_multiplier(rest[e]))),
            }
        },
    }
}

/// Reads the number written after `key = ` in `sysctl vm.swapusage` output,
/// as text, with the bytes per unit of its suffix (`G`, `M`, `K`, or 1).
pub fn swap_value_parts(output: &str, key: &str) -> (r: Option<(String, u64)>)
    ensures
        r matches Some(p) ==> swap_field(output@, key@) == Some((p.0@, p.1)),
        r is None ==> swap_field(output@, key@) is None,
{
    proof {
        reveal_strlit(" = ");
    }
    let text = chars_of(output);
    let k = chars_of(key);
    let mut pattern = String::from_str(key);
    pattern.append(" = ");
    let pat = chars_of(pattern.as_str());
    let found = find_in(&text, &pat);
    proof { crate::text::lemma_find_from(text@, pat@, 0); }
    let p = match found {
        Some(p) => p,
        None => return None,
    };
    assert(crate::text::occurs_at(text@, pat@, p as int));
    assert(pat@.len() == k@.len() + 3);
    let n = text.len();
    assert(p + k.len() + 3 <= n);
    let start = p + k.len() + 3;
    let rest = slice_of(&text, start, text.len());
    assert(rest@ =~= output@.skip(start as int));
    let mut e: usize = 0;
    while e < rest.len() && (('0' <= rest[e] && rest[e] <= '9') || rest[e] == '.')
        invariant
            e <= rest.len(),
            number_end_from(rest@, e as int) == number_end_from(rest@, 0),
        decreases rest.len() - e,
    {
        e = e + 1;
    }
    if e >= rest.len() {
        return None;
    }
    let unit = rest[e];
    let multiplier: u64 = if unit == 'G' {
        1073741824
    } else if unit == 'M' {
        1048576
    } else if unit == 'K' {
        1024
    } else {
        1
    };
    let number = slice_of(&rest, 0, e);
    assert(number@ =~= rest@.take(e as int));
    Some((string_of(&number), multiplier))
}

/// The byte figures computed from a page count report all fit in `u64`, and
/// the free memory does not exceed the total.
pub open spec fn memory_fits(total: u64, page_size: u64, st: VmStats) -> bool {
    let free_pages = st.free + st.speculative;
    &&& free_pages <= u64::MAX
    &&& free_pages * page_size <= u64::MAX
    &&& st.wired * page_size <= u64::MAX
    &&& st.active * page_size <= u64::MAX
    &&& st.inactive * page_size <= u64::MAX
    &&& st.purgeable * page_size <= u64::MAX
    &&& st.file_backed * page_size <= u64::MAX
    &&& st.purgeable * page_size + st.file_backed * page_size <= u64::MAX
    &&& free_pages * page_size <= total
}

/// The memory figures computed from the total, the page size and the page counts.
pub open spec fn memory_info_spec(total: u64, page_size: u64, st: VmStats, swap_total: u64, swap_used: u64) -> MemoryInfo {
    let free = (st.free + st.speculative) * page_size;
    MemoryInfo {
        physical_total: total,
        used: (total - free) as u64,
        free: free as u64,
        cached: (st.purgeable * page_size + st.file_backed * page_size) as u64,
        wired: (st.wired * page_size) as u64,
        active: (st.active * page_size) as u64,
        inactive: (st.inactive * page_size) as u64,
        swap_total,
        swap_used,
    }
}

/// Memory figures in bytes: free memory counts free and speculative pages,
/// cached memory counts purgeable and file-backed pages, and used memory is
/// the rest of the total. `None` when a figure overflows `u64` or free
/// memory exceeds the total.
pub fn memory_info_from_stats(total: u64, page_size: u64, stats: &VmStats, swap_total: u64, swap_used: u64)
    -> (r: Option<MemoryInfo>)
    ensures
        r is Some <==> memory_fits(total, page_size, *stats),
        r matches Some(m) ==> m == memory_info_spec(total, page_size, *stats, swap_total, swap_used),
{
    let free_pages = match stats.free.checked_add(stats.speculative) {
        Some(v) => v,
        None => return None,
    };
    let free = match free_pages.checked_mul(page_size) {
        Some(v) => v,
        None => return None,
    };
    let wired = match stats.wired.checked_mul(page_size) {
        Some(v) => v,
        None => return None,
    };
    let active = match stats.active.checked_mul(page_size) {
        Some(v) => v,
        None => return None,
    };
    let inactive = match stats.inactive.checked_mul(page_size) {
        Some(v) => v,
        None => return None,
    };
    let purgeable = match stats.purgeable.checked_mul(page_size) {
        Some(v) => v,
        None => return None,
    };
    let file_backed = match stats.file_backed.checked_mul(page_size) {
        Some(v) => v,
        None => return None,
    };
    let cached = match purgeable.checked_add(file_backed) {
        Some(v) => v,
        None => return None,
    };
    if free > total {
        return None;
    }
    Some(MemoryInfo {
        physical_total: total,
        used: total - free,
        free,
        cached,
        wired,
        active,
        inactive,
        swap_total,
        swap_used,
    })
}

} // verus!
