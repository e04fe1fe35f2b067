//! CPU figures from `top` and `sysctl -n hw.ncpu`.
use vstd::prelude::*;
use crate::text::{
    chars_eq, chars_of, contains, contains_in, lines, parse_u32, parse_u32_chars, parse_usize,
    parse_usize_chars, split_lines, split_tokens, starts_with, starts_with_in, string_of, strip_end,
    strip_end_chars, tokens, trim, trim_chars, views,
};

verus! {

/// The first of `lines` that starts with `prefix`.
pub open spec fn first_line_starting(lines: Seq<Seq<char>>, prefix: Seq<char>) -> Option<Seq<char>>
    decreases lines.len(),
{
    if lines.len() == 0 {
        None
    } else if starts_with(lines[0], prefix) {
        Some(lines[0])
    } else {
        first_line_starting(lines.drop_first(), prefix)
    }
}

/// The last of `lines` that contains `pattern`.
pub open spec fn last_line_containing(lines: Seq<Seq<char>>, pattern: Seq<char>) -> Option<Seq<char>>
    decreases lines.len(),
{
    if lines.len() == 0 {
        None
    } else if contains(lines.last(), pattern) {
        Some(lines.last())
    } else {
        last_line_containing(lines.drop_last(), pattern)
    }
}

/// The first position of `token` in `parts`.
pub open spec fn token_index(parts: Seq<Seq<char>>, token: Seq<char>) -> Option<int>
    decreases parts.len(),
{
    if parts.len() == 0 {
        None
    } else if parts[0] == token {
        Some(0)
    } else {
        match token_index(parts.drop_first(), token) {
            Some(i) => Some(i + 1),
            None => None,
        }
    }
}

/// The number written in `t`, or 0 when `t` is not a `u32`.
pub open spec fn u32_or_zero(t: Seq<char>) -> u32 {
    match parse_u32(t) {
        Some(v) => v,
        None => 0,
    }
}

/// From `top`'s `Processes: 423 total, 2 running, 421 sleeping, 1842 threads`
/// line, the process count (second column) and the thread count (the column
/// before `threads`, without trailing commas); each 0 when missing.
pub open spec fn process_thread_counts(output: Seq<char>) -> (u32, u32) {
    match first_line_starting(lines(output), "Processes:"@) {
        None => (0, 0),
        Some(line) => {
            let parts = tokens(line);
            let processes = if parts.len() > 1 { u32_or_zero(parts[1]) } else { 0 };
            let threads = match token_index(parts, "threads"@) {
                Some(p) => if p >= 1 { u32_or_zero(strip_end(parts[p - 1], ',')) } else { 0 },
                None => 0,
            };
            (processes, threads)
        },
    }
}

fn u32_or_zero_of(t: &Vec<char>) -> (v: u32)
    ensures
        v == u32_or_zero(t@),
{
    match parse_u32_chars(t) {
        Some(v) => v,
        None => 0,
    }
}

/// Reads the process and thread counts from `top -l 1 -n 0` output.
pub fn parse_process_thread_count(output: &str) -> (r: (u32, u32))
    ensures
        r == process_thread_counts(output@),
{
    let text = chars_of(output);
    let all = split_lines(&text);
    let prefix = chars_of("Processes:");
    let mut i: usize = 0;
    assert(views(all@).skip(0) =~= views(all@));
    while i < all.len()
        invariant
            i <= all.len(),
            prefix@ == "Processes:"@,
            views(all@) == lines(output@),
            first_line_starting(views(all@).skip(i as int), "Processes:"@) == first_line_starting(
                lines(output@),
                "Processes:"@,
            ),
        decreases all.len() - i,
    {
        let ghost rest = views(all@).skip(i as int);
        assert(rest[0] == all@[i as int]@);
        assert(rest.drop_first() =~= views(all@).skip(i + 1));
        if starts_with_in(&all[i], &prefix) {
            let parts = split_tokens(&all[i]);
            let ghost p = views(parts@);
            let processes = if parts.len() > 1 {
                assert(p[1] == parts@[1]@);
                u32_or_zero_of(&parts[1])
            } else {
                0
            };
            assert(first_line_starting(rest, "Processes:"@) == Some(all@[i as int]@));
            let ghost line = all@[i as int]@;
            let word = chars_of("threads");
            let mut k: usize = 0;
            let mut threads: u32 = 0;
            assert(p.skip(0) =~= p);
            while k < parts.len()
                invariant
                    k <= parts.len(),
                    word@ == "threads"@,
                    p == views(parts@),
                    p == tokens(line),
                    first_line_starting(lines(output@), "Processes:"@) == Some(line),
                    processes == (if p.len() > 1 { u32_or_zero(p[1]) } else { 0 }),
                    threads == 0,
                    forall|j: int| 0 <= j < k ==> p[j] != "threads"@,
                decreases parts.len() - k,
            {
                assert(p[k as int] == parts@[k as int]@);
                if chars_eq(&parts[k], &word) {
                    proof { lemma_token_index_first(p, "threads"@, k as int); }
                    if k >= 1 {
                        assert(p[k - 1] == parts@[k - 1]@);
                        threads = u32_or_zero_of(&strip_end_chars(&parts[k - 1], ','));
                    }
                    return (processes, threads);
                }
                k = k + 1;
            }
            proof { lemma_token_index_absent(p, "threads"@); }
            return (processes, threads);
        }
        i = i + 1;
    }
    assert(views(all@).skip(i as int) =~= Seq::<Seq<char>>::empty());
    (0, 0)
}

proof fn lemma_token_index_first(parts: Seq<Seq<char>>, token: Seq<char>, k: int)
    requires
        0 <= k < parts.len(),
        parts[k] == token,
        forall|j: int| 0 <= j < k ==> parts[j] != token,
    ensures
        token_index(parts, token) == Some(k),
    decreases k,
{
    if k > 0 {
        lemma_token_index_first(parts.drop_first(), token, k - 1);
    }
}

proof fn lemma_token_index_absent(parts: Seq<Seq<char>>, token: Seq<char>)
    requires
        forall|j: int| 0 <= j < parts.len() ==> parts[j] != token,
    ensures
        token_index(parts, token) is None,
    decreases parts.len(),
{
    if parts.len() > 0 {
        lemma_token_index_absent(parts.drop_first(), token);
    }
}

/// A percentage column such as `5.26%` or `5.26%,` without its `%` and `,` suffixes.
pub open spec fn percentage_text(t: Seq<char>) -> Seq<char> {
    strip_end(strip_end(t, '%'), ',')
}

/// From the last `CPU usage: 5.26% user, 10.52% sys, 84.21% idle` line, the
/// user, system and idle percentages as text; `None` without such a line of
/// at least seven columns.
pub open spec fn cpu_usage_columns(output: Seq<char>) -> Option<(Seq<char>, Seq<char>, Seq<char>)> {
    match last_line_containing(lines(output), "CPU usage:"@) {
        None => None,
        Some(line) => {
            let parts = tokens(line);
            if parts.len() > 6 {
                Some((percentage_text(parts[2]), percentage_text(parts[4]), percentage_text(parts[6])))
            } else {
                None
            }
        },
    }
}

fn percentage_of(t: &Vec<char>) -> (s: String)
    ensures
        s@ == percentage_text(t@),
{
    string_of(&strip_end_chars(&strip_end_chars(t, '%'), ','))
}

/// Reads the user, system and idle percentages, as text, from the last CPU
/// usage line of `top -l 2 -n 0 -s 1` output.
pub fn cpu_usage_fields(output: &str) -> (r: Option<(String, String, String)>)
    ensures
        r matches Some(f) ==> cpu_usage_columns(output@) == Some((f.0@, f.1@, f.2@)),
        r is None ==> cpu_usage_columns(output@) is None,
{
    let text = chars_of(output);
    let all = split_lines(&text);
    let marker = chars_of("CPU usage:");
    let mut n: usize = all.len();
    assert(views(all@).take(n as int) =~= views(all@));
    while n > 0
        invariant
            n <= all.len(),
            marker@ == "CPU usage:"@,
            views(all@) == lines(output@),
            last_line_containing(views(all@).take(n as int), "CPU usage:"@) == last_line_containing(
                lines(output@),
                "CPU usage:"@,
            ),
        decreases n,
    {
        let ghost upto = views(all@).take(n as int);
        assert(upto.last() == all@[n - 1]@);
        assert(upto.drop_last() =~= views(all@).take(n - 1));
        if contains_in(&all[n - 1], &marker) {
            let parts = split_tokens(&all[n - 1]);
            let ghost p = views(parts@);
            if parts.len() > 6 {
                assert(p[2] == parts@[2]@ && p[4] == parts@[4]@ && p[6] == parts@[6]@);
                return Some((percentage_of(&parts[2]), percentage_of(&parts[4]), percentage_of(&parts[6])));
            }
            return None;
        }
        n = n - 1;
    }
    assert(views(all@).take(0) =~= Seq::<Seq<char>>::empty());
    None
}

/// Reads the core count printed by `sysctl -n hw.ncpu`.
pub fn parse_core_count(output: &str) -> (r: Option<usize>)
    ensures
        r == parse_usize(trim(output@)),
{
    parse_usize_chars(&trim_chars(&chars_of(output)))
}

} // verus!
