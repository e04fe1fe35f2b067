//! Bars and sparkline glyphs.
use vstd::prelude::*;
use crate::colors::{CYAN, DIM, RESET};
use crate::layout::{
    is_invisible, is_plain, lemma_append_width, lemma_plain_facts, lemma_repeat_plain, lemma_style_codes_invisible,
    open_after, sat_sub, string_views, visible,
};
use crate::text::{dec, push_char, push_decimal, push_repeat, repeat};

verus! {

/// A bar of `filled` `full` glyphs in `color`, then dimmed `empty` glyphs up
/// to `width`.
pub open spec fn bar_text(color: Seq<char>, filled: nat, width: nat, full: char, empty: char) -> Seq<char> {
    let rest = if width > filled { (width - filled) as nat } else { 0 };
    color + repeat(full, filled) + DIM@ + repeat(empty, rest) + RESET@
}

/// Draws a bar with `filled` of `width` cells filled, such as `▰▰▰▱▱`.
pub fn filled_bar(color: &str, filled: usize, width: usize, full: char, empty: char) -> (s: String)
    ensures
        s@ == bar_text(color@, filled as nat, width as nat, full, empty),
{
    let mut s = String::from_str(color);
    push_repeat(&mut s, full, filled);
    s.append(DIM);
    push_repeat(&mut s, empty, width.saturating_sub(filled));
    s.append(RESET);
    s
}

/// A bar that is not overfull spans exactly its width.
pub proof fn lemma_bar_width(color: Seq<char>, filled: nat, width: nat, full: char, empty: char)
    requires
        is_invisible(color),
        filled <= width,
        full != '\x1b',
        empty != '\x1b',
    ensures
        visible(bar_text(color, filled, width, full, empty)).len() == width,
{
    lemma_style_codes_invisible();
    lemma_repeat_plain(full, filled);
    lemma_repeat_plain(empty, (width - filled) as nat);
    let a = color + repeat(full, filled);
    lemma_append_width(color, repeat(full, filled));
    let b = a + DIM@;
    lemma_append_width(a, DIM@);
    let c = b + repeat(empty, (width - filled) as nat);
    lemma_append_width(b, repeat(empty, (width - filled) as nat));
    let d = c + RESET@;
    lemma_append_width(c, RESET@);
    assert(d =~= bar_text(color, filled, width, full, empty));
}

/// The sparkline glyphs from lowest to highest.
pub open spec fn spark_glyph(level: nat) -> char {
    if level == 0 {
        '▁'
    } else if level == 1 {
        '▂'
    } else if level == 2 {
        '▃'
    } else if level == 3 {
        '▄'
    } else if level == 4 {
        '▅'
    } else if level == 5 {
        '▆'
    } else if level == 6 {
        '▇'
    } else {
        '█'
    }
}

/// The sparkline glyph of `level`, where levels above 7 show as the highest.
pub fn spark_char(level: usize) -> (c: char)
    ensures
        c == spark_glyph(level as nat),
{
    if level == 0 {
        '▁'
    } else if level == 1 {
        '▂'
    } else if level == 2 {
        '▃'
    } else if level == 3 {
        '▄'
    } else if level == 4 {
        '▅'
    } else if level == 5 {
        '▆'
    } else if level == 6 {
        '▇'
    } else {
        '█'
    }
}

/// The sparkline glyphs are the block elements `▁` (U+2581) to `█`
/// (U+2588): level `l` draws the `(l + 1)`-eighths block, so glyphs grow
/// strictly taller with the level up to 7, and every level from 7 on draws
/// the full block.
pub proof fn lemma_spark_glyph_heights(level: nat)
    ensures
        spark_glyph(level) as int == 0x2581 + (if level < 7 { level as int } else { 7 }),
        level < 7 ==> (spark_glyph(level) as int) < (spark_glyph(level + 1) as int),
        level >= 7 ==> spark_glyph(level) == '█',
        spark_glyph(0) == '▁',
{
}

/// A bar shows exactly `filled` full glyphs followed by exactly
/// `width - filled` empty glyphs (none when `filled` reaches `width`); its
/// colour and dimming take no columns.
pub proof fn lemma_bar_cells(color: Seq<char>, filled: nat, width: nat, full: char, empty: char)
    requires
        is_invisible(color),
        full != '\x1b',
        empty != '\x1b',
    ensures
        visible(bar_text(color, filled, width, full, empty)) == repeat(full, filled) + repeat(empty, sat_sub(width, filled)),
{
    lemma_style_codes_invisible();
    lemma_repeat_plain(full, filled);
    lemma_repeat_plain(empty, sat_sub(width, filled));
    crate::layout::lemma_visible_plain(repeat(full, filled));
    crate::layout::lemma_visible_plain(repeat(empty, sat_sub(width, filled)));
    let a = color + repeat(full, filled);
    crate::layout::lemma_closed_concat(color, repeat(full, filled));
    let b = a + DIM@;
    crate::layout::lemma_closed_concat(a, DIM@);
    let c = b + repeat(empty, sat_sub(width, filled));
    crate::layout::lemma_closed_concat(b, repeat(empty, sat_sub(width, filled)));
    let d = c + RESET@;
    crate::layout::lemma_closed_concat(c, RESET@);
    assert(d =~= bar_text(color, filled, width, full, empty));
    assert(visible(color) =~= Seq::<char>::empty());
    assert(visible(DIM@) =~= Seq::<char>::empty());
    assert(visible(RESET@) =~= Seq::<char>::empty());
    assert(visible(d) =~= repeat(full, filled) + repeat(empty, sat_sub(width, filled)));
}

/// The glyph cells of a sparkline: for each shown sample, its colour code
/// followed by its glyph.
pub open spec fn spark_cells(colors: Seq<Seq<char>>, levels: Seq<usize>) -> Seq<char>
    decreases levels.len(),
{
    if levels.len() == 0 {
        seq![]
    } else {
        spark_cells(colors.drop_last(), levels.drop_last()) + colors.last() + seq![spark_glyph(levels.last() as nat)]
    }
}

/// A sparkline `width` columns wide over the samples at `levels` (each shown
/// as a glyph of that level, after its colour code in `colors`): `prefix`,
/// the cells of the last `width` samples, a reset, and spaces up to `width`.
/// Without samples it is `width` spaces.
pub open spec fn sparkline_text(prefix: Seq<char>, colors: Seq<Seq<char>>, levels: Seq<usize>, width: nat) -> Seq<char> {
    if levels.len() == 0 {
        repeat(' ', width)
    } else {
        let start = sat_sub(levels.len(), width);
        let shown = (levels.len() - start) as nat;
        prefix + spark_cells(colors.skip(start as int), levels.skip(start as int)) + RESET@ + repeat(
            ' ',
            sat_sub(width, shown),
        )
    }
}

/// The number of characters taken by the first `k` cells, each a colour
/// code and one glyph.
pub open spec fn cells_width(colors: Seq<Seq<char>>, k: int) -> int
    decreases k,
{
    if k <= 0 { 0 } else { cells_width(colors, k - 1) + colors[k - 1].len() + 1 }
}

proof fn lemma_cells_width_prefix(colors: Seq<Seq<char>>, n: int, k: int)
    requires
        0 <= k <= n <= colors.len(),
    ensures
        cells_width(colors.take(n), k) == cells_width(colors, k),
    decreases k,
{
    if k > 0 {
        lemma_cells_width_prefix(colors, n, k - 1);
        assert(colors.take(n)[k - 1] == colors[k - 1]);
    }
}

proof fn lemma_cells_width_skip(colors: Seq<Seq<char>>, d: int, k: int)
    requires
        0 <= d,
        0 <= k,
        d + k <= colors.len(),
    ensures
        cells_width(colors.skip(d), k) + cells_width(colors, d) == cells_width(colors, d + k),
    decreases k,
{
    if k > 0 {
        lemma_cells_width_skip(colors, d, k - 1);
        assert(colors.skip(d)[k - 1] == colors[d + k - 1]);
    }
}

/// Cell `k` of the cells of `colors` and `levels` is `colors[k]` followed by
/// the glyph of `levels[k]`, and starts after the first `k` cells.
proof fn lemma_spark_cell_at(colors: Seq<Seq<char>>, levels: Seq<usize>, k: int)
    requires
        colors.len() == levels.len(),
        0 <= k < levels.len(),
    ensures
        spark_cells(colors, levels).len() == cells_width(colors, colors.len() as int),
        spark_cells(colors, levels).subrange(cells_width(colors, k) as int, cells_width(colors, k) + colors[k].len() + 1)
            == colors[k] + seq![spark_glyph(levels[k] as nat)],
    decreases levels.len(),
{
    let n = levels.len() as int;
    let c = colors.drop_last();
    let l = levels.drop_last();
    let cells = spark_cells(colors, levels);
    let cell = colors[n - 1] + seq![spark_glyph(levels[n - 1] as nat)];
    assert(cells == spark_cells(c, l) + colors.last() + seq![spark_glyph(levels.last() as nat)]);
    lemma_spark_cells_len(c, l);
    lemma_cells_width_prefix(colors, n - 1, n - 1);
    assert(c == colors.take(n - 1));
    if k < n - 1 {
        lemma_spark_cell_at(c, l, k);
        lemma_cells_width_prefix(colors, n - 1, k);
        assert(c[k] == colors[k]);
        assert(l[k] == levels[k]);
        lemma_cells_width_le(colors, k + 1, n - 1);
        lemma_cells_width_le(colors, 0, k);
        assert(cells_width(colors, k + 1) == cells_width(colors, k) + colors[k].len() + 1);
        assert(spark_cells(c, l).len() == cells_width(colors, n - 1));
        assert(cells.subrange(cells_width(colors, k) as int, cells_width(colors, k) + colors[k].len() + 1)
            =~= spark_cells(c, l).subrange(cells_width(colors, k) as int, cells_width(colors, k) + colors[k].len() + 1));
    } else {
        assert(cells.subrange(cells_width(colors, k) as int, cells_width(colors, k) + colors[k].len() + 1) =~= cell);
    }
}

proof fn lemma_spark_cells_len(colors: Seq<Seq<char>>, levels: Seq<usize>)
    requires
        colors.len() == levels.len(),
    ensures
        spark_cells(colors, levels).len() == cells_width(colors, colors.len() as int),
    decreases levels.len(),
{
    if levels.len() > 0 {
        let n = levels.len() as int;
        lemma_spark_cells_len(colors.drop_last(), levels.drop_last());
        lemma_cells_width_prefix(colors, n - 1, n - 1);
        assert(colors.drop_last() == colors.take(n - 1));
    }
}

proof fn lemma_cells_width_le(colors: Seq<Seq<char>>, j: int, k: int)
    requires
        0 <= j <= k <= colors.len(),
    ensures
        cells_width(colors, j) <= cells_width(colors, k),
    decreases k - j,
{
    if j < k {
        lemma_cells_width_le(colors, j, k - 1);
    }
}

/// Each shown sample `i` (one of the last `width`) is drawn as its own
/// colour code `colors[i]` immediately followed by the glyph of its own level
/// `levels[i]`, after the prefix and the cells of the shown samples before it.
pub proof fn lemma_sparkline_cell(prefix: Seq<char>, colors: Seq<Seq<char>>, levels: Seq<usize>, width: nat, i: int)
    requires
        colors.len() == levels.len(),
        sat_sub(levels.len(), width) <= i < levels.len(),
    ensures
        ({
            let start = sat_sub(levels.len(), width) as int;
            let off = prefix.len() + cells_width(colors.skip(start), i - start);
            sparkline_text(prefix, colors, levels, width).subrange(off, off + colors[i].len() + 1)
                == colors[i] + seq![spark_glyph(levels[i] as nat)]
        }),
{
    let start = sat_sub(levels.len(), width) as int;
    let c = colors.skip(start);
    let l = levels.skip(start);
    let k = i - start;
    lemma_spark_cell_at(c, l, k);
    assert(c[k] == colors[i]);
    assert(l[k] == levels[i]);
    let cells = spark_cells(c, l);
    let text = sparkline_text(prefix, colors, levels, width);
    let off = prefix.len() + cells_width(c, k);
    lemma_cells_width_le(c, k + 1, c.len() as int);
    lemma_cells_width_le(c, 0, k);
    assert(cells_width(c, k + 1) == cells_width(c, k) + c[k].len() + 1);
    assert(text == prefix + cells + RESET@ + repeat(' ', sat_sub(width, (levels.len() - start) as nat)));
    assert(text.subrange(off, off + colors[i].len() + 1) =~= cells.subrange(
        cells_width(c, k) as int,
        cells_width(c, k) + colors[i].len() + 1,
    ));
}

/// Samples that are not shown do not matter: dropping up to all of them
/// gives the same sparkline.
pub proof fn lemma_sparkline_drops_hidden(prefix: Seq<char>, colors: Seq<Seq<char>>, levels: Seq<usize>, width: nat, d: int)
    requires
        colors.len() == levels.len(),
        0 <= d <= sat_sub(levels.len(), width),
        d < levels.len(),
    ensures
        sparkline_text(prefix, colors.skip(d), levels.skip(d), width) == sparkline_text(prefix, colors, levels, width),
{
    let start = sat_sub(levels.len(), width) as int;
    assert(colors.skip(d).skip(start - d) =~= colors.skip(start));
    assert(levels.skip(d).skip(start - d) =~= levels.skip(start));
}

/// What a sparkline shows: the glyphs of the last `width` levels, oldest
/// first, then spaces up to `width` (only spaces without samples), when its
/// prefix and colour codes take no columns.
pub proof fn lemma_sparkline_glyphs(prefix: Seq<char>, colors: Seq<Seq<char>>, levels: Seq<usize>, width: nat)
    requires
        colors.len() == levels.len(),
        is_invisible(prefix),
        forall|i: int| 0 <= i < colors.len() ==> is_invisible(#[trigger] colors[i]),
    ensures
        ({
            let start = sat_sub(levels.len(), width) as int;
            let shown = levels.len() - start;
            visible(sparkline_text(prefix, colors, levels, width)) == Seq::new(
                shown as nat,
                |k: int| spark_glyph(levels[start + k] as nat),
            ) + repeat(' ', sat_sub(width, shown as nat))
        }),
{
    lemma_style_codes_invisible();
    let start = sat_sub(levels.len(), width) as int;
    let shown = levels.len() - start;
    let glyphs = Seq::new(shown as nat, |k: int| spark_glyph(levels[start + k] as nat));
    if levels.len() == 0 {
        crate::layout::lemma_visible_plain(repeat(' ', width));
        assert(glyphs =~= Seq::<char>::empty());
        assert(glyphs + repeat(' ', width) =~= repeat(' ', width));
    } else {
        let c = colors.skip(start);
        let l = levels.skip(start);
        assert forall|i: int| 0 <= i < c.len() implies is_invisible(#[trigger] c[i]) by {
            assert(c[i] == colors[i + start]);
        }
        lemma_spark_cells_visible(c, l);
        assert(Seq::new(l.len(), |k: int| spark_glyph(l[k] as nat)) =~= glyphs);
        let pad = repeat(' ', sat_sub(width, shown as nat));
        crate::layout::lemma_visible_plain(pad);
        let cells = spark_cells(c, l);
        crate::layout::lemma_closed_concat(prefix, cells);
        crate::layout::lemma_closed_concat(prefix + cells, RESET@);
        crate::layout::lemma_closed_concat(prefix + cells + RESET@, pad);
        assert(visible(prefix) =~= Seq::<char>::empty());
        assert(visible(RESET@) =~= Seq::<char>::empty());
        assert(visible(prefix + cells + RESET@ + pad) =~= glyphs + pad);
    }
}

proof fn lemma_spark_cells_visible(colors: Seq<Seq<char>>, levels: Seq<usize>)
    requires
        colors.len() == levels.len(),
        forall|i: int| 0 <= i < colors.len() ==> is_invisible(#[trigger] colors[i]),
    ensures
        visible(spark_cells(colors, levels)) == Seq::new(levels.len(), |k: int| spark_glyph(levels[k] as nat)),
        !open_after(spark_cells(colors, levels), false),
    decreases levels.len(),
{
    if levels.len() == 0 {
        assert(Seq::new(levels.len(), |k: int| spark_glyph(levels[k] as nat)) =~= Seq::<char>::empty());
    } else {
        let c = colors.drop_last();
        let l = levels.drop_last();
        assert forall|i: int| 0 <= i < c.len() implies is_invisible(#[trigger] c[i]) by {
            assert(c[i] == colors[i]);
        }
        lemma_spark_cells_visible(c, l);
        let g = spark_glyph(levels.last() as nat);
        assert(g != '\x1b');
        assert(is_plain(seq![g]));
        crate::layout::lemma_visible_plain(seq![g]);
        assert(is_invisible(colors[colors.len() - 1]));
        crate::layout::lemma_closed_concat(spark_cells(c, l), colors.last());
        crate::layout::lemma_closed_concat(spark_cells(c, l) + colors.last(), seq![g]);
        assert(visible(colors.last()) =~= Seq::<char>::empty());
        assert(Seq::new(levels.len(), |k: int| spark_glyph(levels[k] as nat)) =~= Seq::new(
            l.len(),
            |k: int| spark_glyph(l[k] as nat),
        ).push(g));
    }
}

/// Draws a sparkline of the last `width` samples; sample `i` is drawn as the
/// glyph of `levels[i]` after the colour code `colors[i]`.
pub fn compose_sparkline(prefix: &str, colors: &[String], levels: &[usize], width: usize) -> (s: String)
    requires
        colors.len() == levels.len(),
    ensures
        s@ == sparkline_text(prefix@, string_views(colors@), levels@, width as nat),
{
    let mut s = String::new();
    if levels.len() == 0 {
        push_repeat(&mut s, ' ', width);
        assert(s@ =~= sparkline_text(prefix@, string_views(colors@), levels@, width as nat));
        return s;
    }
    let ghost cs = string_views(colors@);
    let start = levels.len().saturating_sub(width);
    s.append(prefix);
    let ghost base = s@;
    let mut i = start;
    assert(cs.subrange(start as int, start as int) =~= Seq::<Seq<char>>::empty());
    assert(levels@.subrange(start as int, start as int) =~= Seq::<usize>::empty());
    while i < levels.len()
        invariant
            start <= i <= levels.len(),
            colors.len() == levels.len(),
            cs == string_views(colors@),
            s@ == base + spark_cells(cs.subrange(start as int, i as int), levels@.subrange(start as int, i as int)),
        decreases levels.len() - i,
    {
        s.append(colors[i].as_str());
        push_char(&mut s, spark_char(levels[i]));
        i = i + 1;
        assert(cs.subrange(start as int, i as int).drop_last() =~= cs.subrange(start as int, i - 1));
        assert(levels@.subrange(start as int, i as int).drop_last() =~= levels@.subrange(start as int, i - 1));
        assert(s@ =~= base + spark_cells(cs.subrange(start as int, i as int), levels@.subrange(start as int, i as int)));
    }
    assert(cs.subrange(start as int, levels.len() as int) =~= cs.skip(start as int));
    assert(levels@.subrange(start as int, levels.len() as int) =~= levels@.skip(start as int));
    s.append(RESET);
    push_repeat(&mut s, ' ', width.saturating_sub(levels.len() - start));
    assert(s@ =~= sparkline_text(prefix@, string_views(colors@), levels@, width as nat));
    s
}

proof fn lemma_spark_cells_width(colors: Seq<Seq<char>>, levels: Seq<usize>)
    requires
        colors.len() == levels.len(),
        forall|i: int| 0 <= i < colors.len() ==> is_invisible(#[trigger] colors[i]),
    ensures
        visible(spark_cells(colors, levels)).len() == levels.len(),
        !open_after(spark_cells(colors, levels), false),
    decreases levels.len(),
{
    if levels.len() > 0 {
        let c = colors.drop_last();
        let l = levels.drop_last();
        assert forall|i: int| 0 <= i < c.len() implies is_invisible(#[trigger] c[i]) by {
            assert(c[i] == colors[i]);
        }
        lemma_spark_cells_width(c, l);
        let g = spark_glyph(levels.last() as nat);
        assert(g != '\x1b');
        assert(is_plain(seq![g]));
        lemma_plain_facts(seq![g]);
        assert(is_invisible(colors[colors.len() - 1]));
        lemma_append_width(spark_cells(c, l), colors.last());
        lemma_append_width(spark_cells(c, l) + colors.last(), seq![g]);
    }
}

/// A sparkline spans exactly `width` columns when its prefix and colour
/// codes are invisible.
pub proof fn lemma_sparkline_width(prefix: Seq<char>, colors: Seq<Seq<char>>, levels: Seq<usize>, width: nat)
    requires
        colors.len() == levels.len(),
        is_invisible(prefix),
        forall|i: int| 0 <= i < colors.len() ==> is_invisible(#[trigger] colors[i]),
    ensures
        visible(sparkline_text(prefix, colors, levels, width)).len() == width,
{
    lemma_style_codes_invisible();
    if levels.len() == 0 {
        lemma_repeat_plain(' ', width);
    } else {
        let start = sat_sub(levels.len(), width);
        let shown = (levels.len() - start) as nat;
        let c = colors.skip(start as int);
        let l = levels.skip(start as int);
        assert forall|i: int| 0 <= i < c.len() implies is_invisible(#[trigger] c[i]) by {
            assert(c[i] == colors[i + start]);
        }
        lemma_spark_cells_width(c, l);
        lemma_repeat_plain(' ', sat_sub(width, shown));
        let a = prefix + spark_cells(c, l);
        lemma_append_width(prefix, spark_cells(c, l));
        let b = a + RESET@;
        lemma_append_width(a, RESET@);
        let d = b + repeat(' ', sat_sub(width, shown));
        lemma_append_width(b, repeat(' ', sat_sub(width, shown)));
    }
}

/// `n` in decimal, padded with spaces on the right to two columns.
pub open spec fn left_aligned2(n: nat) -> Seq<char> {
    if dec(n).len() < 2 { dec(n) + repeat(' ', (2 - dec(n).len()) as nat) } else { dec(n) }
}

/// One core's cell: `C<number>`, its bar and its usage text, then `%`.
pub open spec fn core_cell(n: nat, bar: Seq<char>, usage: Seq<char>) -> Seq<char> {
    CYAN@ + seq!['C'] + left_aligned2(n) + RESET@ + seq![' '] + bar + seq![' '] + usage + seq!['%', ' ', ' ']
}

/// The cells of cores `start` up to `end`, side by side.
pub open spec fn core_row(bars: Seq<Seq<char>>, usages: Seq<Seq<char>>, start: nat, end: nat) -> Seq<char>
    decreases end,
{
    if end <= start {
        seq![]
    } else {
        core_row(bars, usages, start, (end - 1) as nat) + core_cell((end - 1) as nat, bars[end - 1], usages[end - 1])
    }
}

/// Rows of `per_row` core cells each, from core `start` on; the last row
/// may be shorter.
pub open spec fn core_rows_from(bars: Seq<Seq<char>>, usages: Seq<Seq<char>>, per_row: nat, start: nat) -> Seq<Seq<char>>
    decreases bars.len() - start,
{
    if per_row == 0 || start >= bars.len() {
        seq![]
    } else {
        let end = if start + per_row <= bars.len() { start + per_row } else { bars.len() };
        seq![core_row(bars, usages, start, end)] + core_rows_from(bars, usages, per_row, end)
    }
}

/// Appends `n`, left-aligned in two columns.
fn push_left_aligned2(out: &mut String, n: usize)
    ensures
        final(out)@ == old(out)@ + left_aligned2(n as nat),
{
    push_decimal(out, n as u64);
    if n < 10 {
        assert(dec(n as nat).len() == 1);
        push_char(out, ' ');
        assert(final(out)@ =~= old(out)@ + left_aligned2(n as nat));
    } else {
        proof { lemma_dec_len_at_least_two(n as nat); }
    }
}

proof fn lemma_dec_len_at_least_two(n: nat)
    requires
        n >= 10,
    ensures
        dec(n).len() >= 2,
{
    assert(dec(n) == dec(n / 10).push(crate::text::digit_char(n % 10)));
    assert(dec(n / 10).len() >= 1) by {
        reveal_with_fuel(dec, 2);
    }
}

/// Lays out per-core cells `per_row` to a line: core `i` shows `bars[i]`
/// and the usage text `usages[i]`, numbered from 0.
pub fn core_rows(bars: &[String], usages: &[String], per_row: usize) -> (lines: Vec<String>)
    requires
        bars.len() == usages.len(),
        per_row > 0,
    ensures
        string_views(lines@) == core_rows_from(string_views(bars@), string_views(usages@), per_row as nat, 0),
{
    let ghost b = string_views(bars@);
    let ghost u = string_views(usages@);
    let n = bars.len();
    let mut lines: Vec<String> = Vec::new();
    let mut start: usize = 0;
    assert(string_views(lines@) + core_rows_from(b, u, per_row as nat, 0) =~= core_rows_from(b, u, per_row as nat, 0));
    while start < n
        invariant
            start <= n,
            n == bars.len(),
            bars.len() == usages.len(),
            per_row > 0,
            b == string_views(bars@),
            u == string_views(usages@),
            string_views(lines@) + core_rows_from(b, u, per_row as nat, start as nat) == core_rows_from(
                b,
                u,
                per_row as nat,
                0,
            ),
        decreases n - start,
    {
        let end = if per_row <= n - start { start + per_row } else { n };
        let mut row = String::new();
        let mut i = start;
        assert(row@ =~= core_row(b, u, start as nat, start as nat));
        while i < end
            invariant
                start <= i <= end <= n,
                n == bars.len(),
                bars.len() == usages.len(),
                b == string_views(bars@),
                u == string_views(usages@),
                row@ == core_row(b, u, start as nat, i as nat),
            decreases end - i,
        {
            row.append(CYAN);
            push_char(&mut row, 'C');
            push_left_aligned2(&mut row, i);
            row.append(RESET);
            push_char(&mut row, ' ');
            row.append(bars[i].as_str());
            push_char(&mut row, ' ');
            row.append(usages[i].as_str());
            push_char(&mut row, '%');
            push_char(&mut row, ' ');
            push_char(&mut row, ' ');
            assert(b[i as int] == bars@[i as int]@ && u[i as int] == usages@[i as int]@);
            i = i + 1;
            assert(row@ =~= core_row(b, u, start as nat, i as nat));
        }
        let ghost before = string_views(lines@);
        lines.push(row);
        assert(string_views(lines@) =~= before.push(row@));
        assert(before + (seq![row@] + core_rows_from(b, u, per_row as nat, end as nat)) =~= before.push(row@)
            + core_rows_from(b, u, per_row as nat, end as nat));
        start = end;
    }
    assert(string_views(lines@) + Seq::<Seq<char>>::empty() =~= string_views(lines@));
    lines
}

} // verus!
