//! Box drawing, section headers and the visible width of styled text.
use vstd::prelude::*;
use crate::colors::{BOLD, DIM, RESET};
use crate::colors::{bg_256_code, bg_rgb_code, fg_256_code, fg_rgb_code};
use crate::text::{chars_of, dec, push_char, push_repeat, repeat};

verus! {

pub const BOX_TL: char = '┌';
pub const BOX_TR: char = '┐';
pub const BOX_BL: char = '└';
pub const BOX_BR: char = '┘';
pub const BOX_H: char = '─';
pub const BOX_V: char = '│';

pub const BOX_T_DOWN: char = '┬';
pub const BOX_T_UP: char = '┴';
pub const BOX_T_RIGHT: char = '├';
pub const BOX_T_LEFT: char = '┤';
pub const BOX_CROSS: char = '┼';

pub const DBOX_TL: char = '╔';
pub const DBOX_TR: char = '╗';
pub const DBOX_BL: char = '╚';
pub const DBOX_BR: char = '╝';
pub const DBOX_H: char = '═';
pub const DBOX_V: char = '║';

/// `a - b`, or 0 when `b` exceeds `a`.
pub open spec fn sat_sub(a: nat, b: nat) -> nat {
    if a > b { (a - b) as nat } else { 0 }
}

// ---------------------------------------------------------------------------
// Visible text
// ---------------------------------------------------------------------------

/// The characters of `s` that show on a terminal, where `esc` says whether an
/// escape sequence is open: `ESC` opens one, and the next `m` closes it.
pub open spec fn visible_from(s: Seq<char>, esc: bool) -> Seq<char>
    decreases s.len(),
{
    if s.len() == 0 {
        seq![]
    } else if s[0] == '\x1b' {
        visible_from(s.drop_first(), true)
    } else if esc {
        visible_from(s.drop_first(), s[0] != 'm')
    } else {
        seq![s[0]] + visible_from(s.drop_first(), false)
    }
}

/// Whether an escape sequence is still open after `s`, starting in state `esc`.
pub open spec fn open_after(s: Seq<char>, esc: bool) -> bool
    decreases s.len(),
{
    if s.len() == 0 {
        esc
    } else if s[0] == '\x1b' {
        open_after(s.drop_first(), true)
    } else if esc {
        open_after(s.drop_first(), s[0] != 'm')
    } else {
        open_after(s.drop_first(), false)
    }
}

/// The characters of `s` that show on a terminal.
pub open spec fn visible(s: Seq<char>) -> Seq<char> {
    visible_from(s, false)
}

/// `s` shows nothing and leaves no escape sequence open.
pub open spec fn is_invisible(s: Seq<char>) -> bool {
    visible(s).len() == 0 && !open_after(s, false)
}

/// `s` has no escape sequence in it at all.
pub open spec fn is_plain(s: Seq<char>) -> bool {
    forall|i: int| 0 <= i < s.len() ==> #[trigger] s[i] != '\x1b'
}

/// Text with ANSI escape sequences removed.
pub fn strip_ansi(s: &str) -> (r: String)
    ensures
        r@ == visible(s@),
{
    let v = chars_of(s);
    let mut r = String::new();
    let mut in_escape = false;
    let mut i: usize = 0;
    assert(v@.skip(0) =~= v@);
    while i < v.len()
        invariant
            i <= v.len(),
            v@ == s@,
            r@ + visible_from(v@.skip(i as int), in_escape) == visible(s@),
        decreases v.len() - i,
    {
        let c = v[i];
        assert(v@.skip(i as int)[0] == c);
        assert(v@.skip(i as int).drop_first() =~= v@.skip(i + 1));
        if c == '\x1b' {
            in_escape = true;
        } else if in_escape {
            if c == 'm' {
                in_escape = false;
            }
        } else {
            let ghost before = r@;
            push_char(&mut r, c);
            assert(before + (seq![c] + visible_from(v@.skip(i + 1), false)) =~= r@ + visible_from(
                v@.skip(i + 1),
                false,
            ));
        }
        i = i + 1;
    }
    assert(v@.skip(i as int) =~= Seq::<char>::empty());
    assert(r@ + visible_from(v@.skip(i as int), in_escape) =~= r@);
    r
}

/// Visible text splits along concatenation.
pub proof fn lemma_visible_concat(a: Seq<char>, b: Seq<char>, esc: bool)
    ensures
        visible_from(a + b, esc) == visible_from(a, esc) + visible_from(b, open_after(a, esc)),
        open_after(a + b, esc) == open_after(b, open_after(a, esc)),
    decreases a.len(),
{
    if a.len() == 0 {
        assert(a + b =~= b);
    } else {
        assert((a + b).drop_first() =~= a.drop_first() + b);
        let next = if a[0] == '\x1b' { true } else if esc { a[0] != 'm' } else { false };
        lemma_visible_concat(a.drop_first(), b, next);
        if a[0] != '\x1b' && !esc {
            assert(seq![a[0]] + (visible_from(a.drop_first(), false) + visible_from(b, open_after(a.drop_first(), false)))
                =~= seq![a[0]] + visible_from(a.drop_first(), false) + visible_from(b, open_after(a.drop_first(), false)));
        }
    }
}

/// Text without escapes shows as it is.
pub proof fn lemma_visible_plain(s: Seq<char>)
    requires
        is_plain(s),
    ensures
        visible(s) == s,
        !open_after(s, false),
    decreases s.len(),
{
    if s.len() > 0 {
        assert(is_plain(s.drop_first())) by {
            assert forall|i: int| 0 <= i < s.drop_first().len() implies #[trigger] s.drop_first()[i] != '\x1b' by {
                assert(s.drop_first()[i] == s[i + 1]);
            }
        }
        lemma_visible_plain(s.drop_first());
        assert(seq![s[0]] + s.drop_first() =~= s);
    }
}

/// Removing escapes leaves no escape behind.
pub proof fn lemma_visible_is_plain(s: Seq<char>, esc: bool)
    ensures
        is_plain(visible_from(s, esc)),
    decreases s.len(),
{
    if s.len() > 0 {
        let next = if s[0] == '\x1b' { true } else if esc { s[0] != 'm' } else { false };
        lemma_visible_is_plain(s.drop_first(), next);
        if s[0] != '\x1b' && !esc {
            let t = visible_from(s.drop_first(), false);
            assert forall|i: int| 0 <= i < (seq![s[0]] + t).len() implies #[trigger] (seq![s[0]] + t)[i] != '\x1b' by {
                if i > 0 {
                    assert((seq![s[0]] + t)[i] == t[i - 1]);
                }
            }
        }
    }
}

/// Stripping escapes twice is the same as stripping them once.
pub proof fn lemma_strip_idempotent(s: Seq<char>)
    ensures
        visible(visible(s)) == visible(s),
{
    lemma_visible_is_plain(s, false);
    lemma_visible_plain(visible(s));
}

/// Joining text after which no escape sequence is open keeps both visible parts.
pub proof fn lemma_closed_concat(a: Seq<char>, b: Seq<char>)
    requires
        !open_after(a, false),
    ensures
        visible(a + b) == visible(a) + visible(b),
        open_after(a + b, false) == open_after(b, false),
{
    lemma_visible_concat(a, b, false);
}

/// The bold, dim and reset codes show nothing and close themselves.
pub proof fn lemma_style_codes_invisible()
    ensures
        is_invisible(BOLD@),
        is_invisible(DIM@),
        is_invisible(RESET@),
{
    reveal_strlit("\x1b[1m");
    reveal_strlit("\x1b[2m");
    reveal_strlit("\x1b[0m");
    reveal_with_fuel(visible_from, 5);
    reveal_with_fuel(open_after, 5);
}

/// A run of one character other than `ESC` has no escape sequence.
pub proof fn lemma_repeat_plain(c: char, n: nat)
    requires
        c != '\x1b',
    ensures
        is_plain(repeat(c, n)),
        visible(repeat(c, n)).len() == n,
        !open_after(repeat(c, n), false),
{
    lemma_visible_plain(repeat(c, n));
}

// ---------------------------------------------------------------------------
// Section headers and dividers
// ---------------------------------------------------------------------------

/// `═══ title ═════` padded with double lines to `width` visible columns.
pub open spec fn section_header_text(title: Seq<char>, width: nat, color: Seq<char>) -> Seq<char> {
    let right = sat_sub(sat_sub(width, title.len() + 2), 2);
    color + repeat(DBOX_H, 2) + BOLD@ + seq![' '] + title + seq![' '] + RESET@ + repeat(DBOX_H, right)
}

/// Section header with double line.
pub fn section_header(title: &str, width: usize, color: &str) -> (s: String)
    ensures
        s@ == section_header_text(title@, width as nat, color@),
{
    let title_len = chars_of(title).len();
    let remaining = width.saturating_sub(title_len).saturating_sub(2);
    let right = remaining.saturating_sub(2);
    let mut s = String::from_str(color);
    push_repeat(&mut s, DBOX_H, 2);
    s.append(BOLD);
    push_char(&mut s, ' ');
    s.append(title);
    push_char(&mut s, ' ');
    s.append(RESET);
    push_repeat(&mut s, DBOX_H, right);
    assert(s@ =~= section_header_text(title@, width as nat, color@));
    s
}

/// Plain text shows all of its characters and leaves nothing open.
pub proof fn lemma_plain_facts(s: Seq<char>)
    requires
        is_plain(s),
    ensures
        visible(s).len() == s.len(),
        !open_after(s, false),
{
    lemma_visible_plain(s);
}

/// Appending `b` to `a` (after which nothing is open) adds `b`'s visible width.
pub proof fn lemma_append_width(a: Seq<char>, b: Seq<char>)
    requires
        !open_after(a, false),
    ensures
        visible(a + b).len() == visible(a).len() + visible(b).len(),
        open_after(a + b, false) == open_after(b, false),
{
    lemma_closed_concat(a, b);
}

/// A section header spans exactly `width` visible columns when the title fits.
pub proof fn lemma_section_header_width(title: Seq<char>, width: nat, color: Seq<char>)
    requires
        is_plain(title),
        is_invisible(color),
        width >= title.len() + 4,
    ensures
        visible(section_header_text(title, width, color)).len() == width,
        !open_after(section_header_text(title, width, color), false),
{
    lemma_style_codes_invisible();
    let right = sat_sub(sat_sub(width, title.len() + 2), 2);
    let mid = seq![' '] + title + seq![' '];
    assert(is_plain(mid)) by {
        assert forall|i: int| 0 <= i < mid.len() implies #[trigger] mid[i] != '\x1b' by {
            if 0 < i < mid.len() - 1 {
                assert(mid[i] == title[i - 1]);
            }
        }
    }
    lemma_plain_facts(mid);
    lemma_repeat_plain(DBOX_H, 2);
    lemma_repeat_plain(DBOX_H, right);
    let p1 = color + repeat(DBOX_H, 2);
    lemma_append_width(color, repeat(DBOX_H, 2));
    let p2 = p1 + BOLD@;
    lemma_append_width(p1, BOLD@);
    let p3 = p2 + mid;
    lemma_append_width(p2, mid);
    let p4 = p3 + RESET@;
    lemma_append_width(p3, RESET@);
    let p5 = p4 + repeat(DBOX_H, right);
    lemma_append_width(p4, repeat(DBOX_H, right));
    assert(p5 =~= section_header_text(title, width, color));
}

/// A horizontal line of `width` single box characters.
pub fn divider(width: usize, color: &str) -> (s: String)
    ensures
        s@ == color@ + repeat(BOX_H, width as nat) + RESET@,
{
    let mut s = String::from_str(color);
    push_repeat(&mut s, BOX_H, width);
    s.append(RESET);
    s
}

// ---------------------------------------------------------------------------
// Boxes
// ---------------------------------------------------------------------------

/// The views of a vector of strings.
pub open spec fn string_views(v: Seq<String>) -> Seq<Seq<char>> {
    v.map_values(|x: String| x@)
}

/// `" title "`, or nothing for an empty title.
pub open spec fn box_title(title: Seq<char>) -> Seq<char> {
    if title.len() == 0 { seq![] } else { seq![' '] + title + seq![' '] }
}

pub open spec fn draw_box_top(width: nat, title: Seq<char>, color: Seq<char>) -> Seq<char> {
    let t = box_title(title);
    let right = sat_sub(sat_sub(width, t.len() + 2), 2);
    color + seq![BOX_TL] + repeat(BOX_H, 2) + BOLD@ + t + RESET@ + color + repeat(BOX_H, right)
        + seq![BOX_TR] + RESET@
}

pub open spec fn draw_box_middle(width: nat, color: Seq<char>) -> Seq<char> {
    color + seq![BOX_V] + repeat(' ', (width - 2) as nat) + seq![BOX_V] + RESET@
}

pub open spec fn draw_box_bottom(width: nat, color: Seq<char>) -> Seq<char> {
    color + seq![BOX_BL] + repeat(BOX_H, (width - 2) as nat) + seq![BOX_BR] + RESET@
}

/// The lines of an empty box `height` lines tall, titled on its top border.
pub open spec fn draw_box_lines(width: nat, height: nat, title: Seq<char>, color: Seq<char>) -> Seq<Seq<char>> {
    seq![draw_box_top(width, title, color)] + Seq::new(sat_sub(height, 2), |_i: int| draw_box_middle(width, color))
        + seq![draw_box_bottom(width, color)]
}

/// Draws a box with a title.
pub fn draw_box(width: usize, height: usize, title: &str, color: &str) -> (lines: Vec<String>)
    requires
        width >= 2,
    ensures
        string_views(lines@) == draw_box_lines(width as nat, height as nat, title@, color@),
{
    let mut lines: Vec<String> = Vec::new();
    let title_len = chars_of(title).len();
    let mut title_display = String::new();
    if title_len > 0 {
        push_char(&mut title_display, ' ');
        title_display.append(title);
        push_char(&mut title_display, ' ');
    }
    assert(title_display@ =~= box_title(title@));
    let remaining = if title_len > 0 { width.saturating_sub(title_len).saturating_sub(2).saturating_sub(2) } else { width.saturating_sub(2) };
    assert(remaining == sat_sub(width as nat, box_title(title@).len() + 2));
    let right = remaining.saturating_sub(2);

    let mut top = String::from_str(color);
    push_char(&mut top, BOX_TL);
    push_repeat(&mut top, BOX_H, 2);
    top.append(BOLD);
    top.append(title_display.as_str());
    top.append(RESET);
    top.append(color);
    push_repeat(&mut top, BOX_H, right);
    push_char(&mut top, BOX_TR);
    top.append(RESET);
    assert(top@ =~= draw_box_top(width as nat, title@, color@));
    lines.push(top);

    let middle_count = height.saturating_sub(2);
    let mut k: usize = 0;
    while k < middle_count
        invariant
            k <= middle_count,
            width >= 2,
            middle_count == sat_sub(height as nat, 2),
            string_views(lines@) == seq![draw_box_top(width as nat, title@, color@)] + Seq::new(
                k as nat,
                |_i: int| draw_box_middle(width as nat, color@),
            ),
        decreases middle_count - k,
    {
        let mut middle = String::from_str(color);
        push_char(&mut middle, BOX_V);
        push_repeat(&mut middle, ' ', width - 2);
        push_char(&mut middle, BOX_V);
        middle.append(RESET);
        assert(middle@ =~= draw_box_middle(width as nat, color@));
        let ghost before = string_views(lines@);
        lines.push(middle);
        assert(string_views(lines@) =~= before.push(middle@));
        k = k + 1;
        assert(string_views(lines@) =~= seq![draw_box_top(width as nat, title@, color@)] + Seq::new(
            k as nat,
            |_i: int| draw_box_middle(width as nat, color@),
        ));
    }

    let mut bottom = String::from_str(color);
    push_char(&mut bottom, BOX_BL);
    push_repeat(&mut bottom, BOX_H, width - 2);
    push_char(&mut bottom, BOX_BR);
    bottom.append(RESET);
    let ghost before = string_views(lines@);
    lines.push(bottom);
    assert(string_views(lines@) =~= before.push(bottom@));
    assert(bottom@ =~= draw_box_bottom(width as nat, color@));
    assert(string_views(lines@) =~= draw_box_lines(width as nat, height as nat, title@, color@));
    lines
}

pub open spec fn inner_box_top(title: Seq<char>, width: nat) -> Seq<char> {
    let t = seq![BOX_H, ' '] + title + seq![' '];
    DIM@ + seq![BOX_TL] + t + repeat(BOX_H, sat_sub(width, t.len() + 2)) + seq![BOX_TR]
}

pub open spec fn inner_box_row(line: Seq<char>, width: nat) -> Seq<char> {
    let padding = sat_sub(width, visible(line).len() + 4);
    DIM@ + seq![BOX_V] + RESET@ + seq![' ', ' '] + line + repeat(' ', padding) + DIM@ + seq![BOX_V]
}

pub open spec fn inner_box_bottom(width: nat) -> Seq<char> {
    DIM@ + seq![BOX_BL] + repeat(BOX_H, (width - 2) as nat) + seq![BOX_BR] + RESET@
}

/// The lines of a titled box around `content`.
pub open spec fn inner_box_lines(content: Seq<Seq<char>>, title: Seq<char>, width: nat) -> Seq<Seq<char>> {
    seq![inner_box_top(title, width)] + content.map_values(|line: Seq<char>| inner_box_row(line, width))
        + seq![inner_box_bottom(width)]
}

/// A dimmed box with `title` on its top border around the lines of `content`.
pub fn inner_box(content: &[String], title: &str, width: usize) -> (lines: Vec<String>)
    requires
        width >= 2,
    ensures
        string_views(lines@) == inner_box_lines(string_views(content@), title@, width as nat),
{
    let ghost rows = string_views(content@);
    let mut lines: Vec<String> = Vec::new();

    let title_len = chars_of(title).len();
    let mut top = String::from_str(DIM);
    push_char(&mut top, BOX_TL);
    push_char(&mut top, BOX_H);
    push_char(&mut top, ' ');
    top.append(title);
    push_char(&mut top, ' ');
    push_repeat(&mut top, BOX_H, width.saturating_sub(title_len).saturating_sub(5));
    push_char(&mut top, BOX_TR);
    assert(top@ =~= inner_box_top(title@, width as nat));
    lines.push(top);

    let mut k: usize = 0;
    while k < content.len()
        invariant
            k <= content.len(),
            rows == string_views(content@),
            string_views(lines@) == seq![inner_box_top(title@, width as nat)] + rows.take(k as int).map_values(
                |line: Seq<char>| inner_box_row(line, width as nat),
            ),
        decreases content.len() - k,
    {
        let line = &content[k];
        let visible_len = chars_of(strip_ansi(line.as_str()).as_str()).len();
        let padding = width.saturating_sub(visible_len).saturating_sub(4);
        let mut row = String::from_str(DIM);
        push_char(&mut row, BOX_V);
        row.append(RESET);
        push_char(&mut row, ' ');
        push_char(&mut row, ' ');
        row.append(line.as_str());
        push_repeat(&mut row, ' ', padding);
        row.append(DIM);
        push_char(&mut row, BOX_V);
        assert(rows[k as int] == line@);
        assert(row@ =~= inner_box_row(rows[k as int], width as nat));
        let ghost before = string_views(lines@);
        lines.push(row);
        assert(string_views(lines@) =~= before.push(row@));
        k = k + 1;
        assert(rows.take(k as int) =~= rows.take(k - 1).push(rows[k - 1]));
        assert(string_views(lines@) =~= seq![inner_box_top(title@, width as nat)] + rows.take(k as int).map_values(
            |line: Seq<char>| inner_box_row(line, width as nat),
        ));
    }

    let mut bottom = String::from_str(DIM);
    push_char(&mut bottom, BOX_BL);
    push_repeat(&mut bottom, BOX_H, width - 2);
    push_char(&mut bottom, BOX_BR);
    bottom.append(RESET);
    let ghost before = string_views(lines@);
    lines.push(bottom);
    assert(rows.take(content.len() as int) =~= rows);
    assert(string_views(lines@) =~= before.push(bottom@));
    assert(bottom@ =~= inner_box_bottom(width as nat));
    assert(string_views(lines@) =~= inner_box_lines(rows, title@, width as nat));
    lines
}

// ---------------------------------------------------------------------------
// Widths of boxes
// ---------------------------------------------------------------------------

proof fn lemma_char_plain(c: char)
    requires
        c != '\x1b',
    ensures
        visible(seq![c]).len() == 1,
        !open_after(seq![c], false),
{
    assert(is_plain(seq![c]));
    lemma_plain_facts(seq![c]);
}

/// Every line of a box drawn by `draw_box` spans `width` visible columns
/// when the title fits on the top border.
pub proof fn lemma_draw_box_width(width: nat, height: nat, title: Seq<char>, color: Seq<char>)
    requires
        is_plain(title),
        is_invisible(color),
        width >= box_title(title).len() + 4,
    ensures
        forall|i: int| 0 <= i < draw_box_lines(width, height, title, color).len()
            ==> #[trigger] visible(draw_box_lines(width, height, title, color)[i]).len() == width,
{
    lemma_style_codes_invisible();
    let t = box_title(title);
    assert(is_plain(t)) by {
        assert forall|i: int| 0 <= i < t.len() implies #[trigger] t[i] != '\x1b' by {
            if 0 < i < t.len() - 1 {
                assert(t[i] == title[i - 1]);
            }
        }
    }
    lemma_plain_facts(t);
    let right = sat_sub(sat_sub(width, t.len() + 2), 2);
    lemma_repeat_plain(BOX_H, 2);
    lemma_repeat_plain(BOX_H, right);
    lemma_repeat_plain(BOX_H, (width - 2) as nat);
    lemma_repeat_plain(' ', (width - 2) as nat);
    lemma_char_plain(BOX_TL);
    lemma_char_plain(BOX_TR);
    lemma_char_plain(BOX_BL);
    lemma_char_plain(BOX_BR);
    lemma_char_plain(BOX_V);

    let a1 = color + seq![BOX_TL];
    lemma_append_width(color, seq![BOX_TL]);
    let a2 = a1 + repeat(BOX_H, 2);
    lemma_append_width(a1, repeat(BOX_H, 2));
    let a3 = a2 + BOLD@;
    lemma_append_width(a2, BOLD@);
    let a4 = a3 + t;
    lemma_append_width(a3, t);
    let a5 = a4 + RESET@;
    lemma_append_width(a4, RESET@);
    let a6 = a5 + color;
    lemma_append_width(a5, color);
    let a7 = a6 + repeat(BOX_H, right);
    lemma_append_width(a6, repeat(BOX_H, right));
    let a8 = a7 + seq![BOX_TR];
    lemma_append_width(a7, seq![BOX_TR]);
    let a9 = a8 + RESET@;
    lemma_append_width(a8, RESET@);
    assert(a9 =~= draw_box_top(width, title, color));

    let m1 = color + seq![BOX_V];
    lemma_append_width(color, seq![BOX_V]);
    let m2 = m1 + repeat(' ', (width - 2) as nat);
    lemma_append_width(m1, repeat(' ', (width - 2) as nat));
    let m3 = m2 + seq![BOX_V];
    lemma_append_width(m2, seq![BOX_V]);
    let m4 = m3 + RESET@;
    lemma_append_width(m3, RESET@);
    assert(m4 =~= draw_box_middle(width, color));

    let b1 = color + seq![BOX_BL];
    lemma_append_width(color, seq![BOX_BL]);
    let b2 = b1 + repeat(BOX_H, (width - 2) as nat);
    lemma_append_width(b1, repeat(BOX_H, (width - 2) as nat));
    let b3 = b2 + seq![BOX_BR];
    lemma_append_width(b2, seq![BOX_BR]);
    let b4 = b3 + RESET@;
    lemma_append_width(b3, RESET@);
    assert(b4 =~= draw_box_bottom(width, color));

    let lines = draw_box_lines(width, height, title, color);
    assert forall|i: int| 0 <= i < lines.len() implies #[trigger] visible(lines[i]).len() == width by {
        if i == 0 {
        } else if i == lines.len() - 1 {
        } else {
            assert(lines[i] == draw_box_middle(width, color));
        }
    }
}

/// A row of `inner_box` spans `width` visible columns when its text fits.
pub proof fn lemma_inner_box_row_width(line: Seq<char>, width: nat)
    requires
        !open_after(line, false),
        visible(line).len() + 4 <= width,
    ensures
        visible(inner_box_row(line, width)).len() == width,
{
    lemma_style_codes_invisible();
    let padding = sat_sub(width, visible(line).len() + 4);
    lemma_repeat_plain(' ', padding);
    lemma_char_plain(BOX_V);
    assert(is_plain(seq![' ', ' ']));
    lemma_plain_facts(seq![' ', ' ']);
    let r1 = DIM@ + seq![BOX_V];
    lemma_append_width(DIM@, seq![BOX_V]);
    let r2 = r1 + RESET@;
    lemma_append_width(r1, RESET@);
    let r3 = r2 + seq![' ', ' '];
    lemma_append_width(r2, seq![' ', ' ']);
    let r4 = r3 + line;
    lemma_append_width(r3, line);
    let r5 = r4 + repeat(' ', padding);
    lemma_append_width(r4, repeat(' ', padding));
    let r6 = r5 + DIM@;
    lemma_append_width(r5, DIM@);
    let r7 = r6 + seq![BOX_V];
    lemma_append_width(r6, seq![BOX_V]);
    assert(r7 =~= inner_box_row(line, width));
}

/// When the title and every content line fit, every line of `inner_box`
/// spans `width` visible columns: the box is a closed rectangle.
pub proof fn lemma_inner_box_width(content: Seq<Seq<char>>, title: Seq<char>, width: nat)
    requires
        is_plain(title),
        width >= title.len() + 5,
        forall|i: int| 0 <= i < content.len() ==> !open_after(#[trigger] content[i], false)
            && visible(content[i]).len() + 4 <= width,
    ensures
        forall|i: int| 0 <= i < inner_box_lines(content, title, width).len()
            ==> #[trigger] visible(inner_box_lines(content, title, width)[i]).len() == width,
{
    lemma_style_codes_invisible();
    let t = seq![BOX_H, ' '] + title + seq![' '];
    assert(is_plain(t)) by {
        assert forall|i: int| 0 <= i < t.len() implies #[trigger] t[i] != '\x1b' by {
            if 1 < i < t.len() - 1 {
                assert(t[i] == title[i - 2]);
            }
        }
    }
    lemma_plain_facts(t);
    let right = sat_sub(width, t.len() + 2);
    lemma_repeat_plain(BOX_H, right);
    lemma_repeat_plain(BOX_H, (width - 2) as nat);
    lemma_char_plain(BOX_TL);
    lemma_char_plain(BOX_TR);
    lemma_char_plain(BOX_BL);
    lemma_char_plain(BOX_BR);
    let a1 = DIM@ + seq![BOX_TL];
    lemma_append_width(DIM@, seq![BOX_TL]);
    let a2 = a1 + t;
    lemma_append_width(a1, t);
    let a3 = a2 + repeat(BOX_H, right);
    lemma_append_width(a2, repeat(BOX_H, right));
    let a4 = a3 + seq![BOX_TR];
    lemma_append_width(a3, seq![BOX_TR]);
    assert(a4 =~= inner_box_top(title, width));

    let b1 = DIM@ + seq![BOX_BL];
    lemma_append_width(DIM@, seq![BOX_BL]);
    let b2 = b1 + repeat(BOX_H, (width - 2) as nat);
    lemma_append_width(b1, repeat(BOX_H, (width - 2) as nat));
    let b3 = b2 + seq![BOX_BR];
    lemma_append_width(b2, seq![BOX_BR]);
    let b4 = b3 + RESET@;
    lemma_append_width(b3, RESET@);
    assert(b4 =~= inner_box_bottom(width));
    assert(visible(b4).len() == width);

    let lines = inner_box_lines(content, title, width);
    let rows = content.map_values(|line: Seq<char>| inner_box_row(line, width));
    assert(lines == seq![inner_box_top(title, width)] + rows + seq![inner_box_bottom(width)]);
    assert(visible(a4).len() == width);
    assert forall|i: int| 0 <= i < lines.len() implies #[trigger] visible(lines[i]).len() == width by {
        if i == 0 {
            assert(lines[i] == inner_box_top(title, width));
        } else if i == lines.len() - 1 {
            assert(lines[i] == inner_box_bottom(width));
        } else {
            assert(lines[i] == rows[i - 1]);
            assert(lines[i] == inner_box_row(content[i - 1], width));
            lemma_inner_box_row_width(content[i - 1], width);
        }
    }
}

// ---------------------------------------------------------------------------
// Colour codes take no columns
// ---------------------------------------------------------------------------

/// Inside an escape sequence, text without `m` shows nothing and keeps it open.
proof fn lemma_escape_body(a: Seq<char>)
    requires
        forall|i: int| 0 <= i < a.len() ==> #[trigger] a[i] != 'm',
    ensures
        visible_from(a, true).len() == 0,
        open_after(a, true),
    decreases a.len(),
{
    if a.len() > 0 {
        assert forall|i: int| 0 <= i < a.drop_first().len() implies #[trigger] a.drop_first()[i] != 'm' by {
            assert(a.drop_first()[i] == a[i + 1]);
        }
        lemma_escape_body(a.drop_first());
    }
}

/// Decimal digits contain no `m`.
proof fn lemma_dec_no_m(n: nat)
    ensures
        forall|i: int| 0 <= i < dec(n).len() ==> #[trigger] dec(n)[i] != 'm',
    decreases n,
{
    if n >= 10 {
        lemma_dec_no_m(n / 10);
        assert forall|i: int| 0 <= i < dec(n).len() implies #[trigger] dec(n)[i] != 'm' by {
            if i < dec(n).len() - 1 {
                assert(dec(n)[i] == dec(n / 10)[i]);
            }
        }
    }
}

/// `ESC` followed by `body` (without `m`) and a final `m` shows nothing.
proof fn lemma_escape_code(head: Seq<char>, body: Seq<char>)
    requires
        head.len() > 0,
        head[0] == '\x1b',
        forall|i: int| 0 <= i < head.len() ==> #[trigger] head[i] != 'm',
        forall|i: int| 0 <= i < body.len() ==> #[trigger] body[i] != 'm',
    ensures
        is_invisible(head + body + seq!['m']),
{
    assert forall|i: int| 0 <= i < head.drop_first().len() implies #[trigger] head.drop_first()[i] != 'm' by {
        assert(head.drop_first()[i] == head[i + 1]);
    }
    lemma_escape_body(head.drop_first());
    assert(visible_from(head, false) == visible_from(head.drop_first(), true));
    assert(open_after(head, false) == open_after(head.drop_first(), true));
    lemma_escape_body(body);
    lemma_visible_concat(head, body, false);
    reveal_with_fuel(visible_from, 2);
    reveal_with_fuel(open_after, 2);
    lemma_visible_concat(head + body, seq!['m'], false);
}

proof fn lemma_two_numbers_no_m(a: nat, b: nat, c: nat)
    ensures
        forall|i: int| 0 <= i < (dec(a) + ";"@ + dec(b) + ";"@ + dec(c)).len()
            ==> #[trigger] (dec(a) + ";"@ + dec(b) + ";"@ + dec(c))[i] != 'm',
{
    reveal_strlit(";");
    lemma_dec_no_m(a);
    lemma_dec_no_m(b);
    lemma_dec_no_m(c);
    let s = dec(a) + ";"@ + dec(b) + ";"@ + dec(c);
    assert forall|i: int| 0 <= i < s.len() implies #[trigger] s[i] != 'm' by {
        let la = dec(a).len() as int;
        let lb = dec(b).len() as int;
        if i < la {
            assert(s[i] == dec(a)[i]);
        } else if i == la {
        } else if i < la + 1 + lb {
            assert(s[i] == dec(b)[i - la - 1]);
        } else if i == la + 1 + lb {
        } else {
            assert(s[i] == dec(c)[i - la - lb - 2]);
        }
    }
}

/// The colour codes built by `fg_256`, `bg_256`, `fg_rgb` and `bg_rgb` take no
/// columns and leave no escape sequence open.
pub proof fn lemma_color_codes_invisible(r: nat, g: nat, b: nat)
    ensures
        is_invisible(fg_256_code(r)),
        is_invisible(bg_256_code(r)),
        is_invisible(fg_rgb_code(r, g, b)),
        is_invisible(bg_rgb_code(r, g, b)),
{
    reveal_strlit("\x1b[38;5;");
    reveal_strlit("\x1b[48;5;");
    reveal_strlit("\x1b[38;2;");
    reveal_strlit("\x1b[48;2;");
    reveal_strlit("m");
    reveal_strlit(";");
    lemma_dec_no_m(r);
    lemma_escape_code("\x1b[38;5;"@, dec(r));
    assert(fg_256_code(r) =~= "\x1b[38;5;"@ + dec(r) + seq!['m']);
    lemma_escape_code("\x1b[48;5;"@, dec(r));
    assert(bg_256_code(r) =~= "\x1b[48;5;"@ + dec(r) + seq!['m']);
    lemma_two_numbers_no_m(r, g, b);
    let body = dec(r) + ";"@ + dec(g) + ";"@ + dec(b);
    lemma_escape_code("\x1b[38;2;"@, body);
    assert(fg_rgb_code(r, g, b) =~= "\x1b[38;2;"@ + body + seq!['m']);
    lemma_escape_code("\x1b[48;2;"@, body);
    assert(bg_rgb_code(r, g, b) =~= "\x1b[48;2;"@ + body + seq!['m']);
}

} // verus!
