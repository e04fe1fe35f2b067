//! The four screen sections: CPU, memory, disk and network. The caller
//! formats the figures; these functions lay out the lines.
use vstd::prelude::*;
use crate::colors::{BRIGHT_CYAN, BRIGHT_GREEN, BRIGHT_MAGENTA, BRIGHT_RED, BRIGHT_YELLOW, DIM, RESET};
use crate::layout::{inner_box, inner_box_lines, section_header, section_header_text, string_views};
use crate::render::{side_by_side, side_by_side_lines, WIDTH};
use crate::text::push_char;

verus! {

/// `lines` joined by newlines, as `[String]::join("\n")` gives them.
pub open spec fn join_lines(lines: Seq<Seq<char>>) -> Seq<char>
    decreases lines.len(),
{
    if lines.len() == 0 {
        seq![]
    } else if lines.len() == 1 {
        lines[0]
    } else {
        join_lines(lines.drop_last()) + seq!['\n'] + lines.last()
    }
}

/// Joins `lines` with newlines.
pub fn join(lines: &Vec<String>) -> (s: String)
    ensures
        s@ == join_lines(string_views(lines@)),
{
    let ghost v = string_views(lines@);
    let mut s = String::new();
    let mut i: usize = 0;
    assert(v.take(0) =~= Seq::<Seq<char>>::empty());
    while i < lines.len()
        invariant
            i <= lines.len(),
            v == string_views(lines@),
            s@ == join_lines(v.take(i as int)),
        decreases lines.len() - i,
    {
        if i > 0 {
            push_char(&mut s, '\n');
        }
        s.append(lines[i].as_str());
        i = i + 1;
        assert(v.take(i as int).drop_last() =~= v.take(i - 1));
        assert(s@ =~= join_lines(v.take(i as int)));
    }
    assert(v.take(lines.len() as int) =~= v);
    s
}

/// `line` indented by two spaces.
pub open spec fn indent(line: Seq<char>) -> Seq<char> {
    seq![' ', ' '] + line
}

/// Each of `lines` indented by two spaces.
pub open spec fn indent_all(lines: Seq<Seq<char>>) -> Seq<Seq<char>> {
    lines.map_values(|l: Seq<char>| indent(l))
}

/// `label` in `style`, then a space and `value`: `<style>label<reset> value`.
pub open spec fn labeled(style: Seq<char>, label: Seq<char>, value: Seq<char>) -> Seq<char> {
    style + label + RESET@ + seq![' '] + value
}

/// Appends the lines of `src`, each indented by two spaces.
fn push_indented(lines: &mut Vec<String>, src: &[String])
    ensures
        string_views(final(lines)@) == string_views(old(lines)@) + indent_all(string_views(src@)),
{
    let ghost v = string_views(src@);
    let mut i: usize = 0;
    assert(string_views(lines@) =~= string_views(old(lines)@) + indent_all(v.take(0)));
    while i < src.len()
        invariant
            i <= src.len(),
            v == string_views(src@),
            string_views(lines@) == string_views(old(lines)@) + indent_all(v.take(i as int)),
        decreases src.len() - i,
    {
        let mut l = String::new();
        push_char(&mut l, ' ');
        push_char(&mut l, ' ');
        l.append(src[i].as_str());
        assert(l@ =~= indent(v[i as int]));
        let ghost before = string_views(lines@);
        lines.push(l);
        assert(string_views(lines@) =~= before.push(l@));
        i = i + 1;
        assert(indent_all(v.take(i as int)) =~= indent_all(v.take(i - 1)).push(indent(v[i - 1])));
    }
    assert(v.take(src.len() as int) =~= v);
}

/// Pushes one line.
fn push_line(lines: &mut Vec<String>, line: String)
    ensures
        string_views(final(lines)@) == string_views(old(lines)@).push(line@),
{
    lines.push(line);
    assert(string_views(lines@) =~= string_views(old(lines)@).push(line@));
}

/// `<indent><style>label<reset> value`.
fn labeled_line(style: &str, label: &str, value: &str) -> (s: String)
    ensures
        s@ == indent(labeled(style@, label@, value@)),
{
    let mut s = String::new();
    push_char(&mut s, ' ');
    push_char(&mut s, ' ');
    s.append(style);
    s.append(label);
    s.append(RESET);
    push_char(&mut s, ' ');
    s.append(value);
    assert(s@ =~= indent(labeled(style@, label@, value@)));
    s
}

/// `  <indent text>`.
fn indented(text: &str) -> (s: String)
    ensures
        s@ == indent(text@),
{
    let mut s = String::new();
    push_char(&mut s, ' ');
    push_char(&mut s, ' ');
    s.append(text);
    assert(s@ =~= indent(text@));
    s
}

// ---------------------------------------------------------------------------
// CPU
// ---------------------------------------------------------------------------

pub open spec fn cpu_header() -> Seq<char> {
    section_header_text("CPU"@, WIDTH as nat, BRIGHT_CYAN@)
}

/// The CPU section: its header, the usage bar line, a blank line, the core
/// rows, a blank line, the thread and process counts, a blank line and the
/// history sparkline.
pub open spec fn cpu_section_lines(
    usage: Seq<char>,
    cores: Seq<Seq<char>>,
    threads: Seq<char>,
    processes: Seq<char>,
    history: Seq<char>,
) -> Seq<Seq<char>> {
    seq![cpu_header(), indent(usage), seq![]] + indent_all(cores) + seq![
        seq![],
        indent(labeled(DIM@, "Threads:"@, threads) + seq![' ', ' ', ' ', ' '] + labeled(DIM@, "Processes:"@, processes)),
        seq![],
        indent(labeled(DIM@, "History:"@, history)),
    ]
}

/// The CPU section when no CPU figures could be read.
pub open spec fn cpu_section_empty() -> Seq<Seq<char>> {
    seq![cpu_header(), "  No CPU data available"@]
}

/// Lays out the CPU section. `body` holds, already formatted, the usage bar
/// text, the per-core rows, the thread count, the process count and the
/// history sparkline; `None` when no CPU figures could be read.
pub fn cpu_section(body: Option<(&str, &[String], &str, &str, &str)>) -> (s: String)
    ensures
        match body {
            Some(b) => s@ == join_lines(cpu_section_lines(b.0@, string_views(b.1@), b.2@, b.3@, b.4@)),
            None => s@ == join_lines(cpu_section_empty()),
        },
{
    let mut lines: Vec<String> = Vec::new();
    let header = section_header("CPU", WIDTH, BRIGHT_CYAN);
    push_line(&mut lines, header);
    match body {
        Some((usage, cores, threads, processes, history)) => {
            push_line(&mut lines, indented(usage));
            push_line(&mut lines, String::new());
            push_indented(&mut lines, cores);
            push_line(&mut lines, String::new());
            let mut counts = labeled_line(DIM, "Threads:", threads);
            let ghost first = counts@;
            counts.append("    ");
            counts.append(DIM);
            counts.append("Processes:");
            counts.append(RESET);
            push_char(&mut counts, ' ');
            counts.append(processes);
            proof { reveal_strlit("    "); }
            assert(counts@ =~= indent(labeled(DIM@, "Threads:"@, threads@) + seq![' ', ' ', ' ', ' '] + labeled(
                DIM@,
                "Processes:"@,
                processes@,
            )));
            push_line(&mut lines, counts);
            push_line(&mut lines, String::new());
            push_line(&mut lines, labeled_line(DIM, "History:", history));
            assert(string_views(lines@) =~= cpu_section_lines(usage@, string_views(cores@), threads@, processes@, history@));
        },
        None => {
            push_line(&mut lines, String::from_str("  No CPU data available"));
            assert(string_views(lines@) =~= cpu_section_empty());
        },
    }
    join(&lines)
}

// ---------------------------------------------------------------------------
// Memory
// ---------------------------------------------------------------------------

pub open spec fn memory_header() -> Seq<char> {
    section_header_text("MEMORY"@, WIDTH as nat, BRIGHT_GREEN@)
}

/// The memory breakdown line: physical, used, cached and swap sizes.
pub open spec fn memory_breakdown(physical: Seq<char>, used: Seq<char>, cached: Seq<char>, swap: Seq<char>) -> Seq<char> {
    indent(labeled(DIM@, "Physical:"@, physical) + seq![' ', ' ', ' '] + labeled(DIM@, "Used:"@, used) + seq![' ', ' ', ' ']
        + labeled(DIM@, "Cached:"@, cached) + seq![' ', ' ', ' '] + labeled(DIM@, "Swap:"@, swap))
}

/// The memory section: its header, the usage bar line, a blank line, the
/// breakdown, a blank line and the history sparkline.
pub open spec fn memory_section_lines(
    usage: Seq<char>,
    physical: Seq<char>,
    used: Seq<char>,
    cached: Seq<char>,
    swap: Seq<char>,
    history: Seq<char>,
) -> Seq<Seq<char>> {
    seq![
        memory_header(),
        indent(usage),
        seq![],
        memory_breakdown(physical, used, cached, swap),
        seq![],
        indent(labeled(DIM@, "History:"@, history)),
    ]
}

pub open spec fn memory_section_empty() -> Seq<Seq<char>> {
    seq![memory_header(), "  No memory data available"@]
}

/// Lays out the memory section. `body` holds, already formatted, the usage
/// bar text, the physical, used, cached and swap sizes, and the history
/// sparkline; `None` when no memory figures could be read.
pub fn memory_section(body: Option<(&str, &str, &str, &str, &str, &str)>) -> (s: String)
    ensures
        match body {
            Some(b) => s@ == join_lines(memory_section_lines(b.0@, b.1@, b.2@, b.3@, b.4@, b.5@)),
            None => s@ == join_lines(memory_section_empty()),
        },
{
    let mut lines: Vec<String> = Vec::new();
    push_line(&mut lines, section_header("MEMORY", WIDTH, BRIGHT_GREEN));
    match body {
        Some((usage, physical, used, cached, swap, history)) => {
            push_line(&mut lines, indented(usage));
            push_line(&mut lines, String::new());
            let mut b = labeled_line(DIM, "Physical:", physical);
            b.append("   ");
            b.append(DIM);
            b.append("Used:");
            b.append(RESET);
            push_char(&mut b, ' ');
            b.append(used);
            b.append("   ");
            b.append(DIM);
            b.append("Cached:");
            b.append(RESET);
            push_char(&mut b, ' ');
            b.append(cached);
            b.append("   ");
            b.append(DIM);
            b.append("Swap:");
            b.append(RESET);
            push_char(&mut b, ' ');
            b.append(swap);
            proof { reveal_strlit("   "); }
            assert(b@ =~= memory_breakdown(physical@, used@, cached@, swap@));
            push_line(&mut lines, b);
            push_line(&mut lines, String::new());
            push_line(&mut lines, labeled_line(DIM, "History:", history));
            assert(string_views(lines@) =~= memory_section_lines(usage@, physical@, used@, cached@, swap@, history@));
        },
        None => {
            push_line(&mut lines, String::from_str("  No memory data available"));
            assert(string_views(lines@) =~= memory_section_empty());
        },
    }
    join(&lines)
}

// ---------------------------------------------------------------------------
// Disk
// ---------------------------------------------------------------------------

/// `name`, or `N/A` when there is none.
pub open spec fn name_or_na(name: Option<Seq<char>>) -> Seq<char> {
    match name {
        Some(n) => n,
        None => "N/A"@,
    }
}

pub open spec fn opt_view(name: Option<&str>) -> Option<Seq<char>> {
    match name {
        Some(n) => Some(n@),
        None => None,
    }
}

pub open spec fn disk_header(mount_point: Option<Seq<char>>) -> Seq<char> {
    section_header_text("DISK I/O  ["@ + name_or_na(mount_point) + "]"@, WIDTH as nat, BRIGHT_YELLOW@)
}

/// The disk section: its header naming the selected mount point, the
/// realtime box indented, a blank line and the read and write sparklines.
pub open spec fn disk_section_lines(
    mount_point: Option<Seq<char>>,
    realtime: Seq<Seq<char>>,
    read: Seq<char>,
    write: Seq<char>,
) -> Seq<Seq<char>> {
    seq![disk_header(mount_point)] + indent_all(inner_box_lines(realtime, "Realtime"@, 30)) + seq![
        seq![],
        indent(labeled(BRIGHT_GREEN@, "Read: "@, read)),
        indent(labeled(BRIGHT_RED@, "Write:"@, write)),
    ]
}

pub open spec fn disk_section_empty(mount_point: Option<Seq<char>>) -> Seq<Seq<char>> {
    seq![disk_header(mount_point), "  No disk data available"@]
}

/// `prefix + name + suffix`, with `N/A` for a missing name.
fn bracketed(prefix: &str, name: Option<&str>) -> (s: String)
    ensures
        s@ == prefix@ + name_or_na(opt_view(name)) + "]"@,
{
    let mut s = String::from_str(prefix);
    match name {
        Some(n) => s.append(n),
        None => s.append("N/A"),
    }
    s.append("]");
    s
}

/// Lays out the disk section for the disk mounted at `mount_point` (`N/A`
/// when none is selected). `realtime` holds the formatted read and write
/// rates, `None` when there are no rates.
pub fn disk_section(mount_point: Option<&str>, realtime: Option<&[String]>, read_spark: &str, write_spark: &str)
    -> (s: String)
    ensures
        match realtime {
            Some(r) => s@ == join_lines(disk_section_lines(opt_view(mount_point), string_views(r@), read_spark@, write_spark@)),
            None => s@ == join_lines(disk_section_empty(opt_view(mount_point))),
        },
{
    let mut lines: Vec<String> = Vec::new();
    let title = bracketed("DISK I/O  [", mount_point);
    push_line(&mut lines, section_header(title.as_str(), WIDTH, BRIGHT_YELLOW));
    match realtime {
        Some(r) => {
            let boxed = inner_box(r, "Realtime", 30);
            push_indented(&mut lines, boxed.as_slice());
            push_line(&mut lines, String::new());
            push_line(&mut lines, labeled_line(BRIGHT_GREEN, "Read: ", read_spark));
            push_line(&mut lines, labeled_line(BRIGHT_RED, "Write:", write_spark));
            assert(string_views(lines@) =~= disk_section_lines(
                opt_view(mount_point),
                string_views(r@),
                read_spark@,
                write_spark@,
            ));
        },
        None => {
            push_line(&mut lines, String::from_str("  No disk data available"));
            assert(string_views(lines@) =~= disk_section_empty(opt_view(mount_point)));
        },
    }
    join(&lines)
}

// ---------------------------------------------------------------------------
// Network
// ---------------------------------------------------------------------------

pub open spec fn network_header(interface: Option<Seq<char>>) -> Seq<char> {
    section_header_text("NETWORK  ["@ + name_or_na(interface) + "]"@, WIDTH as nat, BRIGHT_MAGENTA@)
}

/// The network section: its header naming the selected interface, the
/// realtime and total boxes side by side, a blank line and the incoming and
/// outgoing sparklines.
pub open spec fn network_section_lines(
    interface: Option<Seq<char>>,
    realtime: Seq<Seq<char>>,
    totals: Seq<Seq<char>>,
    incoming: Seq<char>,
    outgoing: Seq<char>,
) -> Seq<Seq<char>> {
    seq![network_header(interface)] + side_by_side_lines(
        inner_box_lines(realtime, "Realtime"@, 34),
        inner_box_lines(totals, "Total"@, 34),
    ) + seq![
        seq![],
        indent(labeled(BRIGHT_CYAN@, "In: "@, incoming)),
        indent(labeled(BRIGHT_MAGENTA@, "Out:"@, outgoing)),
    ]
}

pub open spec fn network_section_empty(interface: Option<Seq<char>>) -> Seq<Seq<char>> {
    seq![network_header(interface), "  No network data available"@]
}

/// Lays out the network section for `interface` (`N/A` when none is
/// selected). `boxes` holds the formatted realtime and total lines, `None`
/// when there are no rates.
pub fn network_section(
    interface: Option<&str>,
    boxes: Option<(&[String], &[String])>,
    in_spark: &str,
    out_spark: &str,
) -> (s: String)
    ensures
        match boxes {
            Some(b) => s@ == join_lines(
                network_section_lines(opt_view(interface), string_views(b.0@), string_views(b.1@), in_spark@, out_spark@),
            ),
            None => s@ == join_lines(network_section_empty(opt_view(interface))),
        },
{
    let mut lines: Vec<String> = Vec::new();
    let title = bracketed("NETWORK  [", interface);
    push_line(&mut lines, section_header(title.as_str(), WIDTH, BRIGHT_MAGENTA));
    match boxes {
        Some((realtime, totals)) => {
            let rt_box = inner_box(realtime, "Realtime", 34);
            let tot_box = inner_box(totals, "Total", 34);
            let rows = side_by_side(rt_box.as_slice(), tot_box.as_slice());
            let ghost before = string_views(lines@);
            let mut k: usize = 0;
            while k < rows.len()
                invariant
                    k <= rows.len(),
                    string_views(lines@) == before + string_views(rows@).take(k as int),
                decreases rows.len() - k,
            {
                let row = rows[k].clone();
                push_line(&mut lines, row);
                k = k + 1;
                assert(string_views(rows@).take(k as int) =~= string_views(rows@).take(k - 1).push(rows@[k - 1]@));
            }
            assert(string_views(rows@).take(rows.len() as int) =~= string_views(rows@));
            push_line(&mut lines, String::new());
            push_line(&mut lines, labeled_line(BRIGHT_CYAN, "In: ", in_spark));
            push_line(&mut lines, labeled_line(BRIGHT_MAGENTA, "Out:", out_spark));
            assert(string_views(lines@) =~= network_section_lines(
                opt_view(interface),
                string_views(realtime@),
                string_views(totals@),
                in_spark@,
                out_spark@,
            ));
        },
        None => {
            push_line(&mut lines, String::from_str("  No network data available"));
            assert(string_views(lines@) =~= network_section_empty(opt_view(interface)));
        },
    }
    join(&lines)
}

// ---------------------------------------------------------------------------
// Every section opens with its header
// ---------------------------------------------------------------------------

/// Joined lines begin with the first line, followed by a newline when more
/// lines come.
proof fn lemma_join_first(lines: Seq<Seq<char>>)
    requires
        lines.len() >= 2,
    ensures
        join_lines(lines).len() >= lines[0].len() + 1,
        join_lines(lines).take(lines[0].len() as int + 1) == lines[0] + seq!['\n'],
    decreases lines.len(),
{
    if lines.len() == 2 {
        assert(lines.drop_last() =~= seq![lines[0]]);
        assert(join_lines(lines.drop_last()) == lines[0]);
        assert(join_lines(lines) == lines[0] + seq!['\n'] + lines[1]);
        assert(join_lines(lines).take(lines[0].len() as int + 1) =~= lines[0] + seq!['\n']);
    } else {
        let d = lines.drop_last();
        lemma_join_first(d);
        assert(d[0] == lines[0]);
        assert(join_lines(lines) == join_lines(d) + seq!['\n'] + lines.last());
        assert(join_lines(lines).take(lines[0].len() as int + 1) =~= join_lines(d).take(lines[0].len() as int + 1));
    }
}

/// Whatever the rates, the network section opens with the section header
/// `NETWORK  [<interface>]` naming the selected interface (`N/A` only when
/// none is selected), then a newline.
pub proof fn lemma_network_section_header(
    interface: Option<Seq<char>>,
    realtime: Seq<Seq<char>>,
    totals: Seq<Seq<char>>,
    incoming: Seq<char>,
    outgoing: Seq<char>,
)
    ensures
        ({
            let name = match interface {
                Some(n) => n,
                None => "N/A"@,
            };
            let header = section_header_text("NETWORK  ["@ + name + "]"@, 78, BRIGHT_MAGENTA@);
            &&& join_lines(network_section_lines(interface, realtime, totals, incoming, outgoing)).take(header.len() as int + 1)
                == header + seq!['\n']
            &&& join_lines(network_section_empty(interface)).take(header.len() as int + 1) == header + seq!['\n']
        }),
{
    lemma_join_first(network_section_lines(interface, realtime, totals, incoming, outgoing));
    lemma_join_first(network_section_empty(interface));
}

/// Whatever the rates, the disk section opens with the section header
/// `DISK I/O  [<mount point>]` naming the selected disk (`N/A` only when none
/// is selected), then a newline.
pub proof fn lemma_disk_section_header(
    mount_point: Option<Seq<char>>,
    realtime: Seq<Seq<char>>,
    read: Seq<char>,
    write: Seq<char>,
)
    ensures
        ({
            let name = match mount_point {
                Some(n) => n,
                None => "N/A"@,
            };
            let header = section_header_text("DISK I/O  ["@ + name + "]"@, 78, BRIGHT_YELLOW@);
            &&& join_lines(disk_section_lines(mount_point, realtime, read, write)).take(header.len() as int + 1)
                == header + seq!['\n']
            &&& join_lines(disk_section_empty(mount_point)).take(header.len() as int + 1) == header + seq!['\n']
        }),
{
    lemma_join_first(disk_section_lines(mount_point, realtime, read, write));
    lemma_join_first(disk_section_empty(mount_point));
}

/// The CPU and memory sections open with their headers `CPU` and `MEMORY`,
/// with or without figures.
pub proof fn lemma_cpu_memory_section_headers(
    usage: Seq<char>,
    cores: Seq<Seq<char>>,
    threads: Seq<char>,
    processes: Seq<char>,
    physical: Seq<char>,
    used: Seq<char>,
    cached: Seq<char>,
    swap: Seq<char>,
    history: Seq<char>,
)
    ensures
        ({
            let cpu = section_header_text("CPU"@, 78, BRIGHT_CYAN@);
            let mem = section_header_text("MEMORY"@, 78, BRIGHT_GREEN@);
            &&& join_lines(cpu_section_lines(usage, cores, threads, processes, history)).take(cpu.len() as int + 1)
                == cpu + seq!['\n']
            &&& join_lines(cpu_section_empty()).take(cpu.len() as int + 1) == cpu + seq!['\n']
            &&& join_lines(memory_section_lines(usage, physical, used, cached, swap, history)).take(mem.len() as int + 1)
                == mem + seq!['\n']
            &&& join_lines(memory_section_empty()).take(mem.len() as int + 1) == mem + seq!['\n']
        }),
{
    lemma_join_first(cpu_section_lines(usage, cores, threads, processes, history));
    lemma_join_first(cpu_section_empty());
    lemma_join_first(memory_section_lines(usage, physical, used, cached, swap, history));
    lemma_join_first(memory_section_empty());
}

} // verus!
