//! Disk capacity from `df -k` and disk activity columns from `iostat`.
use vstd::prelude::*;
use crate::network::{u64_or_zero, without_header};
use crate::text::{
    chars_of, contains, contains_in, lines, parse_u64_chars, split_lines, split_tokens, starts_with,
    starts_with_in, string_of, tokens, views,
};

verus! {

/// Size and usage of one mounted disk, in bytes.
#[derive(Clone)]
pub struct DiskCapacity {
    pub name: String,
    pub mount_point: String,
    pub total_bytes: u64,
    pub used_bytes: u64,
    pub available_bytes: u64,
}

/// A disk as listed by `df -k`, with sizes in bytes.
pub struct DiskEntry {
    pub name: Seq<char>,
    pub mount_point: Seq<char>,
    pub total_bytes: nat,
    pub used_bytes: nat,
    pub available_bytes: nat,
}

impl View for DiskCapacity {
    type V = DiskEntry;

    open spec fn view(&self) -> DiskEntry {
        DiskEntry {
            name: self.name@,
            mount_point: self.mount_point@,
            total_bytes: self.total_bytes as nat,
            used_bytes: self.used_bytes as nat,
            available_bytes: self.available_bytes as nat,
        }
    }
}

/// A `df -k` row describes a real disk when it has at least six columns and
/// its file system is a `/dev/` device.
pub open spec fn is_disk_row(parts: Seq<Seq<char>>) -> bool {
    parts.len() >= 6 && starts_with(parts[0], "/dev/"@)
}

/// `Filesystem 1024-blocks Used Available Capacity ... Mounted-on`, sizes
/// turned from kilobytes into bytes.
pub open spec fn disk_entry(parts: Seq<Seq<char>>) -> DiskEntry {
    DiskEntry {
        name: parts[0],
        mount_point: parts.last(),
        total_bytes: u64_or_zero(parts[1]) as nat * 1024,
        used_bytes: u64_or_zero(parts[2]) as nat * 1024,
        available_bytes: u64_or_zero(parts[3]) as nat * 1024,
    }
}

/// The sizes of a disk fit in `u64`.
pub open spec fn entry_fits(e: DiskEntry) -> bool {
    e.total_bytes <= u64::MAX && e.used_bytes <= u64::MAX && e.available_bytes <= u64::MAX
}

/// The disks listed by `lines`.
pub open spec fn disks_in(lines: Seq<Seq<char>>) -> Seq<DiskEntry>
    decreases lines.len(),
{
    if lines.len() == 0 {
        seq![]
    } else if is_disk_row(tokens(lines[0])) {
        seq![disk_entry(tokens(lines[0]))] + disks_in(lines.drop_first())
    } else {
        disks_in(lines.drop_first())
    }
}

/// The disks listed in the output of `df -k`, in order.
pub open spec fn df_disks(output: Seq<char>) -> Seq<DiskEntry> {
    disks_in(without_header(lines(output)))
}

/// Only `/dev/` devices are listed.
pub proof fn lemma_disks_are_devices(lines: Seq<Seq<char>>)
    ensures
        forall|i: int| 0 <= i < disks_in(lines).len() ==> starts_with(#[trigger] disks_in(lines)[i].name, "/dev/"@),
    decreases lines.len(),
{
    if lines.len() > 0 {
        lemma_disks_are_devices(lines.drop_first());
        let rest = disks_in(lines.drop_first());
        if is_disk_row(tokens(lines[0])) {
            let all = disks_in(lines);
            assert(all == seq![disk_entry(tokens(lines[0]))] + rest);
            assert forall|i: int| 0 <= i < all.len() implies starts_with(#[trigger] all[i].name, "/dev/"@) by {
                if i > 0 {
                    assert(all[i] == rest[i - 1]);
                }
            }
        } else {
            assert(disks_in(lines) == rest);
        }
    } else {
        assert(disks_in(lines).len() == 0);
    }
}

/// Kilobytes in column `k`, as bytes; `None` when they do not fit in `u64`.
fn column_bytes(parts: &Vec<Vec<char>>, k: usize) -> (r: Option<u64>)
    requires
        k < parts.len(),
    ensures
        r matches Some(v) ==> v == u64_or_zero(parts@[k as int]@) as nat * 1024,
        r is None ==> u64_or_zero(parts@[k as int]@) as nat * 1024 > u64::MAX,
{
    let kb = match parse_u64_chars(&parts[k]) {
        Some(v) => v,
        None => 0,
    };
    kb.checked_mul(1024)
}

/// Reads the real disks from `df -k` output. Sizes are reported in
/// kilobytes and turned into bytes; `None` when a size does not fit in `u64`
/// bytes.
pub fn parse_disk_capacity(output: &str) -> (r: Option<Vec<DiskCapacity>>)
    ensures
        r is None <==> exists|i: int| 0 <= i < df_disks(output@).len() && !entry_fits(#[trigger] df_disks(output@)[i]),
        r matches Some(v) ==> v@.map_values(|d: DiskCapacity| d@) == df_disks(output@),
{
    let text = chars_of(output);
    let all = split_lines(&text);
    let dev = chars_of("/dev/");
    let mut r: Vec<DiskCapacity> = Vec::new();
    if all.len() == 0 {
        assert(df_disks(output@) =~= Seq::<DiskEntry>::empty());
        return Some(r);
    }
    let ghost rest0 = without_header(lines(output@));
    assert(views(all@).drop_first() =~= views(all@).skip(1));
    assert(r@.map_values(|d: DiskCapacity| d@) + disks_in(rest0) =~= disks_in(rest0));
    let mut i: usize = 1;
    while i < all.len()
        invariant
            1 <= i <= all.len(),
            dev@ == "/dev/"@,
            rest0 == views(all@).drop_first(),
            rest0 == without_header(lines(output@)),
            r@.map_values(|d: DiskCapacity| d@) + disks_in(views(all@).skip(i as int)) == disks_in(rest0),
            forall|k: int| 0 <= k < r@.len() ==> entry_fits(#[trigger] r@[k]@),
        decreases all.len() - i,
    {
        let ghost rest = views(all@).skip(i as int);
        assert(rest[0] == all@[i as int]@);
        assert(rest.drop_first() =~= views(all@).skip(i + 1));
        let parts = split_tokens(&all[i]);
        let ghost p = views(parts@);
        if parts.len() >= 6 && starts_with_in(&parts[0], &dev) {
            assert(p[0] == parts@[0]@);
            assert(is_disk_row(p));
            let ghost before = r@.map_values(|d: DiskCapacity| d@);
            let ghost e = disk_entry(p);
            let last = parts.len() - 1;
            assert(p.last() == parts@[last as int]@);
            let total = column_bytes(&parts, 1);
            let used = column_bytes(&parts, 2);
            let available = column_bytes(&parts, 3);
            if total.is_none() || used.is_none() || available.is_none() {
                assert(!entry_fits(e));
                assert(disks_in(rest) == seq![e] + disks_in(rest.drop_first()));
                assert((before + disks_in(rest))[before.len() as int] == e);
                assert(df_disks(output@)[before.len() as int] == e);
                return None;
            }
            let entry = DiskCapacity {
                name: string_of(&parts[0]),
                mount_point: string_of(&parts[last]),
                total_bytes: total.unwrap(),
                used_bytes: used.unwrap(),
                available_bytes: available.unwrap(),
            };
            assert(entry@ == e);
            r.push(entry);
            assert(r@.map_values(|d: DiskCapacity| d@) =~= before.push(e));
            assert(before + (seq![e] + disks_in(rest.drop_first())) =~= before.push(e) + disks_in(
                rest.drop_first(),
            ));
        } else {
            assert(parts.len() >= 6 ==> p[0] == parts@[0]@);
            assert(!is_disk_row(p));
        }
        i = i + 1;
    }
    assert(views(all@).skip(i as int) =~= Seq::<Seq<char>>::empty());
    assert(r@.map_values(|d: DiskCapacity| d@) + Seq::<DiskEntry>::empty() =~= r@.map_values(
        |d: DiskCapacity| d@,
    ));
    assert forall|k: int| 0 <= k < df_disks(output@).len() implies entry_fits(#[trigger] df_disks(output@)[k]) by {
        assert(df_disks(output@)[k] == r@[k]@);
    }
    Some(r)
}

/// The views of pairs of strings.
pub open spec fn pair_views(v: Seq<(String, String)>) -> Seq<(Seq<char>, Seq<char>)> {
    v.map_values(|p: (String, String)| (p.0@, p.1@))
}

/// The second and third columns of a row.
pub open spec fn rate_columns(parts: Seq<Seq<char>>) -> (Seq<char>, Seq<char>) {
    (parts[1], parts[2])
}

/// The data rows of `iostat` output that follow its column header (the first
/// line naming `KB/t`); later header lines and rows of fewer than three
/// columns are passed over. `found` says whether the header was seen.
pub open spec fn iostat_rows_after(lines: Seq<Seq<char>>, found: bool) -> Seq<(Seq<char>, Seq<char>)>
    decreases lines.len(),
{
    if lines.len() == 0 {
        seq![]
    } else if contains(lines[0], "KB/t"@) {
        iostat_rows_after(lines.drop_first(), true)
    } else if !found || tokens(lines[0]).len() < 3 {
        iostat_rows_after(lines.drop_first(), found)
    } else {
        seq![rate_columns(tokens(lines[0]))] + iostat_rows_after(lines.drop_first(), found)
    }
}

/// The columns of the first row of at least three columns in `lines`.
pub open spec fn first_wide_row(lines: Seq<Seq<char>>) -> Seq<(Seq<char>, Seq<char>)>
    decreases lines.len(),
{
    if lines.len() == 0 {
        seq![]
    } else if tokens(lines[0]).len() >= 3 {
        seq![rate_columns(tokens(lines[0]))]
    } else {
        first_wide_row(lines.drop_first())
    }
}

/// `lines` without its first `n` lines.
pub open spec fn skip_lines(lines: Seq<Seq<char>>, n: nat) -> Seq<Seq<char>> {
    if lines.len() <= n { seq![] } else { lines.skip(n as int) }
}

/// The transfers-per-second and megabytes-per-second columns of the data rows
/// of `iostat -d` output; when no row follows a header, those of the first
/// row of at least three columns after the first two lines.
pub open spec fn iostat_rates(output: Seq<char>) -> Seq<(Seq<char>, Seq<char>)> {
    let main = iostat_rows_after(lines(output), false);
    if main.len() > 0 {
        main
    } else {
        first_wide_row(skip_lines(lines(output), 2))
    }
}

/// The columns (second, third) of a row as strings.
fn rate_pair(parts: &Vec<Vec<char>>) -> (r: (String, String))
    requires
        parts.len() >= 3,
    ensures
        (r.0@, r.1@) == rate_columns(views(parts@)),
{
    (string_of(&parts[1]), string_of(&parts[2]))
}

/// The transfers-per-second and megabytes-per-second columns of the rows
/// that `iostat_rates` selects, as text.
fn iostat_rows(output: &str) -> (r: Vec<(String, String)>)
    ensures
        pair_views(r@) == iostat_rates(output@),
{
    let text = chars_of(output);
    let all = split_lines(&text);
    let header = chars_of("KB/t");
    let mut r: Vec<(String, String)> = Vec::new();
    let mut found = false;
    let mut i: usize = 0;
    assert(views(all@).skip(0) =~= views(all@));
    assert(pair_views(r@) + iostat_rows_after(views(all@), false) =~= iostat_rows_after(views(all@), false));
    while i < all.len()
        invariant
            i <= all.len(),
            header@ == "KB/t"@,
            views(all@) == lines(output@),
            pair_views(r@) + iostat_rows_after(views(all@).skip(i as int), found) == iostat_rows_after(
                views(all@),
                false,
            ),
        decreases all.len() - i,
    {
        let ghost rest = views(all@).skip(i as int);
        assert(rest[0] == all@[i as int]@);
        assert(rest.drop_first() =~= views(all@).skip(i + 1));
        if contains_in(&all[i], &header) {
            found = true;
        } else if found {
            let parts = split_tokens(&all[i]);
            if parts.len() >= 3 {
                let pair = rate_pair(&parts);
                let ghost before = pair_views(r@);
                r.push(pair);
                assert(pair_views(r@) =~= before.push((pair.0@, pair.1@)));
                assert(before + (seq![(pair.0@, pair.1@)] + iostat_rows_after(rest.drop_first(), found))
                    =~= before.push((pair.0@, pair.1@)) + iostat_rows_after(rest.drop_first(), found));
            }
        }
        i = i + 1;
    }
    assert(views(all@).skip(i as int) =~= Seq::<Seq<char>>::empty());
    assert(pair_views(r@) + Seq::<(Seq<char>, Seq<char>)>::empty() =~= pair_views(r@));
    if r.len() > 0 {
        return r;
    }
    assert(pair_views(r@) =~= Seq::<(Seq<char>, Seq<char>)>::empty());
    if all.len() <= 2 {
        assert(skip_lines(views(all@), 2) =~= Seq::<Seq<char>>::empty());
        return r;
    }
    assert(iostat_rows_after(views(all@), false).len() == 0);
    let mut j: usize = 2;
    assert(views(all@).skip(2) =~= skip_lines(views(all@), 2));
    while j < all.len()
        invariant
            2 <= j <= all.len(),
            r@.len() == 0,
            views(all@) == lines(output@),
            iostat_rows_after(views(all@), false).len() == 0,
            first_wide_row(views(all@).skip(j as int)) == first_wide_row(skip_lines(views(all@), 2)),
        decreases all.len() - j,
    {
        let ghost rest = views(all@).skip(j as int);
        assert(rest[0] == all@[j as int]@);
        assert(rest.drop_first() =~= views(all@).skip(j + 1));
        let parts = split_tokens(&all[j]);
        if parts.len() >= 3 {
            let pair = rate_pair(&parts);
            r.push(pair);
            assert(pair_views(r@) =~= seq![(pair.0@, pair.1@)]);
            return r;
        }
        j = j + 1;
    }
    assert(views(all@).skip(j as int) =~= Seq::<Seq<char>>::empty());
    assert(pair_views(r@) =~= Seq::<(Seq<char>, Seq<char>)>::empty());
    r
}

/// The columns of the latest sample: the last data row of `iostat -d`
/// output (the samples after the first cover the interval just measured,
/// while the first covers the time since boot); `None` without any row.
pub open spec fn iostat_latest(output: Seq<char>) -> Option<(Seq<char>, Seq<char>)> {
    let rows = iostat_rates(output);
    if rows.len() == 0 { None } else { Some(rows.last()) }
}

/// Reads the transfers-per-second and megabytes-per-second columns of the
/// latest disk sample of `iostat -d -c 2` output, as text.
pub fn iostat_columns(output: &str) -> (r: Option<(String, String)>)
    ensures
        r matches Some(p) ==> iostat_latest(output@) == Some((p.0@, p.1@)),
        r is None ==> iostat_latest(output@) is None,
{
    let mut rows = iostat_rows(output);
    let ghost all = pair_views(rows@);
    match rows.pop() {
        Some(p) => {
            assert(all.last() == (p.0@, p.1@));
            Some(p)
        },
        None => None,
    }
}

} // verus!
