//! Composition of the monitor's screen: header, footer, side-by-side boxes
//! and the screen itself.
use vstd::prelude::*;
use vstd::string::StringSliceAdditionalSpecFns;
use crate::colors::{BOLD, BRIGHT_WHITE, BRIGHT_YELLOW, CLEAR_SCREEN, CURSOR_HOME, CYAN, DIM, RESET};
use crate::layout::{
    is_invisible, is_plain, lemma_append_width, lemma_plain_facts, lemma_repeat_plain, lemma_style_codes_invisible,
    open_after, sat_sub, string_views, visible, DBOX_BL, DBOX_BR, DBOX_H, DBOX_TL, DBOX_TR, DBOX_V,
};
use crate::text::{push_char, push_repeat, repeat};

verus! {

/// Columns of the screen.
pub const WIDTH: usize = 78;

pub const TITLE: &'static str = "TOR-MONITOR - Resource Monitor";

pub const FOOTER_TEXT: &'static str = "  Press 'q' to quit | 'd' cycle Disk | 'n' cycle Network";

/// The header's top border.
pub open spec fn header_top() -> Seq<char> {
    CYAN@ + BOLD@ + seq![DBOX_TL] + repeat(DBOX_H, (WIDTH - 2) as nat) + seq![DBOX_TR] + RESET@
}

/// The header's middle line: the title on the left and `Uptime: ...` on the
/// right, padded to the screen width counted in bytes.
pub open spec fn header_middle(uptime: Seq<char>, uptime_bytes: nat) -> Seq<char> {
    let padding = sat_sub(WIDTH as nat, TITLE.len() as nat + "Uptime: ".len() as nat + uptime_bytes + 6);
    CYAN@ + seq![DBOX_V, ' ', ' '] + BRIGHT_WHITE@ + BOLD@ + TITLE@ + RESET@ + repeat(' ', padding)
        + BRIGHT_YELLOW@ + "Uptime: "@ + uptime + seq![' ', ' ', DBOX_V] + RESET@
}

/// The header's bottom border.
pub open spec fn header_bottom() -> Seq<char> {
    CYAN@ + seq![DBOX_BL] + repeat(DBOX_H, (WIDTH - 2) as nat) + seq![DBOX_BR] + RESET@
}

/// The three header lines, joined by newlines.
pub open spec fn header_text(uptime: Seq<char>, uptime_bytes: nat) -> Seq<char> {
    header_top() + seq!['\n'] + header_middle(uptime, uptime_bytes) + seq!['\n'] + header_bottom()
}

fn header_top_line() -> (s: String)
    ensures
        s@ == header_top(),
{
    let mut s = String::from_str(CYAN);
    s.append(BOLD);
    push_char(&mut s, DBOX_TL);
    push_repeat(&mut s, DBOX_H, WIDTH - 2);
    push_char(&mut s, DBOX_TR);
    s.append(RESET);
    assert(s@ =~= header_top());
    s
}

fn header_middle_line(uptime: &str) -> (s: String)
    ensures
        s@ == header_middle(uptime@, uptime.len() as nat),
{
    let padding = WIDTH.saturating_sub(TITLE.len()).saturating_sub("Uptime: ".len()).saturating_sub(6).saturating_sub(
        uptime.len(),
    );
    let mut s = String::from_str(CYAN);
    push_char(&mut s, DBOX_V);
    push_char(&mut s, ' ');
    push_char(&mut s, ' ');
    s.append(BRIGHT_WHITE);
    s.append(BOLD);
    s.append(TITLE);
    s.append(RESET);
    push_repeat(&mut s, ' ', padding);
    s.append(BRIGHT_YELLOW);
    s.append("Uptime: ");
    s.append(uptime);
    push_char(&mut s, ' ');
    push_char(&mut s, ' ');
    push_char(&mut s, DBOX_V);
    s.append(RESET);
    assert(s@ =~= header_middle(uptime@, uptime.len() as nat));
    s
}

fn header_bottom_line() -> (s: String)
    ensures
        s@ == header_bottom(),
{
    let mut s = String::from_str(CYAN);
    push_char(&mut s, DBOX_BL);
    push_repeat(&mut s, DBOX_H, WIDTH - 2);
    push_char(&mut s, DBOX_BR);
    s.append(RESET);
    assert(s@ =~= header_bottom());
    s
}

/// The boxed header with the title and the uptime text `uptime`.
pub fn render_header(uptime: &str) -> (s: String)
    ensures
        s@ == header_text(uptime@, uptime.len() as nat),
{
    let mut s = header_top_line();
    push_char(&mut s, '\n');
    let middle = header_middle_line(uptime);
    s.append(middle.as_str());
    push_char(&mut s, '\n');
    let bottom = header_bottom_line();
    s.append(bottom.as_str());
    assert(s@ =~= header_text(uptime@, uptime.len() as nat));
    s
}

/// The title and the uptime label are ASCII, one byte per character.
pub proof fn lemma_header_label_bytes()
    ensures
        TITLE.len() == 30,
        TITLE@.len() == 30,
        "Uptime: ".len() == 8,
        "Uptime: "@.len() == 8,
{
    broadcast use vstd::string::is_ascii_spec_bytes;
    reveal_strlit("TOR-MONITOR - Resource Monitor");
    reveal_strlit("Uptime: ");
    assert(vstd::string::is_ascii("TOR-MONITOR - Resource Monitor"));
    assert(vstd::string::is_ascii("Uptime: "));
}

proof fn lemma_header_codes_invisible()
    ensures
        is_invisible(CYAN@),
        is_invisible(BRIGHT_WHITE@),
        is_invisible(BRIGHT_YELLOW@),
{
    reveal_strlit("\x1b[36m");
    reveal_strlit("\x1b[97m");
    reveal_strlit("\x1b[93m");
    reveal_with_fuel(crate::layout::visible_from, 6);
    reveal_with_fuel(crate::layout::open_after, 6);
}

proof fn lemma_chars_plain(s: Seq<char>)
    requires
        forall|i: int| 0 <= i < s.len() ==> #[trigger] s[i] != '\x1b',
    ensures
        visible(s).len() == s.len(),
        !open_after(s, false),
{
    lemma_plain_facts(s);
}

/// Each header line spans the screen width when the uptime text is plain
/// ASCII (one byte per character) and fits beside the title.
pub proof fn lemma_header_width(uptime: Seq<char>, uptime_bytes: nat)
    requires
        is_plain(uptime),
        uptime_bytes == uptime.len(),
        uptime.len() + 44 <= WIDTH,
    ensures
        visible(header_top()).len() == WIDTH,
        visible(header_middle(uptime, uptime_bytes)).len() == WIDTH,
        visible(header_bottom()).len() == WIDTH,
{
    lemma_style_codes_invisible();
    lemma_header_codes_invisible();
    lemma_header_label_bytes();
    reveal_strlit("TOR-MONITOR - Resource Monitor");
    reveal_strlit("Uptime: ");
    lemma_repeat_plain(DBOX_H, (WIDTH - 2) as nat);
    lemma_chars_plain(seq![DBOX_TL]);
    lemma_chars_plain(seq![DBOX_TR]);
    lemma_chars_plain(seq![DBOX_BL]);
    lemma_chars_plain(seq![DBOX_BR]);
    lemma_chars_plain(seq![DBOX_V, ' ', ' ']);
    lemma_chars_plain(seq![' ', ' ', DBOX_V]);
    lemma_chars_plain(TITLE@);
    lemma_chars_plain("Uptime: "@);
    lemma_plain_facts(uptime);

    let t1 = CYAN@ + BOLD@;
    lemma_append_width(CYAN@, BOLD@);
    let t2 = t1 + seq![DBOX_TL];
    lemma_append_width(t1, seq![DBOX_TL]);
    let t3 = t2 + repeat(DBOX_H, (WIDTH - 2) as nat);
    lemma_append_width(t2, repeat(DBOX_H, (WIDTH - 2) as nat));
    let t4 = t3 + seq![DBOX_TR];
    lemma_append_width(t3, seq![DBOX_TR]);
    let t5 = t4 + RESET@;
    lemma_append_width(t4, RESET@);
    assert(t5 =~= header_top());

    let padding = sat_sub(WIDTH as nat, TITLE.len() as nat + "Uptime: ".len() as nat + uptime_bytes + 6);
    lemma_repeat_plain(' ', padding);
    let m1 = CYAN@ + seq![DBOX_V, ' ', ' '];
    lemma_append_width(CYAN@, seq![DBOX_V, ' ', ' ']);
    let m2 = m1 + BRIGHT_WHITE@;
    lemma_append_width(m1, BRIGHT_WHITE@);
    let m3 = m2 + BOLD@;
    lemma_append_width(m2, BOLD@);
    let m4 = m3 + TITLE@;
    lemma_append_width(m3, TITLE@);
    let m5 = m4 + RESET@;
    lemma_append_width(m4, RESET@);
    let m6 = m5 + repeat(' ', padding);
    lemma_append_width(m5, repeat(' ', padding));
    let m7 = m6 + BRIGHT_YELLOW@;
    lemma_append_width(m6, BRIGHT_YELLOW@);
    let m8 = m7 + "Uptime: "@;
    lemma_append_width(m7, "Uptime: "@);
    let m9 = m8 + uptime;
    lemma_append_width(m8, uptime);
    let m10 = m9 + seq![' ', ' ', DBOX_V];
    lemma_append_width(m9, seq![' ', ' ', DBOX_V]);
    let m11 = m10 + RESET@;
    lemma_append_width(m10, RESET@);
    assert(m11 =~= header_middle(uptime, uptime_bytes));

    let b1 = CYAN@ + seq![DBOX_BL];
    lemma_append_width(CYAN@, seq![DBOX_BL]);
    let b2 = b1 + repeat(DBOX_H, (WIDTH - 2) as nat);
    lemma_append_width(b1, repeat(DBOX_H, (WIDTH - 2) as nat));
    let b3 = b2 + seq![DBOX_BR];
    lemma_append_width(b2, seq![DBOX_BR]);
    let b4 = b3 + RESET@;
    lemma_append_width(b3, RESET@);
    assert(b4 =~= header_bottom());
}

/// The footer: a blank line, then the key help, dimmed.
pub open spec fn footer_text() -> Seq<char> {
    seq!['\n'] + DIM@ + FOOTER_TEXT@ + RESET@
}

/// The key help shown under the sections.
pub fn render_footer() -> (s: String)
    ensures
        s@ == footer_text(),
{
    let mut s = String::new();
    push_char(&mut s, '\n');
    s.append(DIM);
    s.append(FOOTER_TEXT);
    s.append(RESET);
    assert(s@ =~= footer_text());
    s
}

/// Line `i` of `lines`, or nothing past its end.
pub open spec fn line_or_empty(lines: Seq<Seq<char>>, i: int) -> Seq<char> {
    if 0 <= i < lines.len() { lines[i] } else { seq![] }
}

/// Two columns of lines side by side, each row indented by two spaces and the
/// columns two spaces apart; the shorter column is continued with nothing.
pub open spec fn side_by_side_lines(left: Seq<Seq<char>>, right: Seq<Seq<char>>) -> Seq<Seq<char>> {
    let rows = if left.len() >= right.len() { left.len() } else { right.len() };
    Seq::new(rows, |i: int| seq![' ', ' '] + line_or_empty(left, i) + seq![' ', ' '] + line_or_empty(right, i))
}

/// Places the lines of `right` beside those of `left`.
pub fn side_by_side(left: &[String], right: &[String]) -> (lines: Vec<String>)
    ensures
        string_views(lines@) == side_by_side_lines(string_views(left@), string_views(right@)),
{
    let rows = if left.len() >= right.len() { left.len() } else { right.len() };
    let ghost l = string_views(left@);
    let ghost r = string_views(right@);
    let mut lines: Vec<String> = Vec::new();
    let mut i: usize = 0;
    while i < rows
        invariant
            i <= rows,
            rows == (if left.len() >= right.len() { left.len() } else { right.len() }),
            l == string_views(left@),
            r == string_views(right@),
            string_views(lines@) == side_by_side_lines(l, r).take(i as int),
        decreases rows - i,
    {
        let mut row = String::new();
        push_char(&mut row, ' ');
        push_char(&mut row, ' ');
        if i < left.len() {
            row.append(left[i].as_str());
        }
        push_char(&mut row, ' ');
        push_char(&mut row, ' ');
        if i < right.len() {
            row.append(right[i].as_str());
        }
        assert(row@ =~= side_by_side_lines(l, r)[i as int]);
        let ghost before = string_views(lines@);
        lines.push(row);
        assert(string_views(lines@) =~= before.push(row@));
        i = i + 1;
        assert(string_views(lines@) =~= side_by_side_lines(l, r).take(i as int));
    }
    assert(side_by_side_lines(l, r).take(rows as int) =~= side_by_side_lines(l, r));
    lines
}

/// The whole screen: clear and home the cursor, then the header and the
/// sections, one per line, and the footer.
pub open spec fn screen_text(header: Seq<char>, sections: Seq<Seq<char>>) -> Seq<char>
    decreases sections.len(),
{
    if sections.len() == 0 {
        CLEAR_SCREEN@ + CURSOR_HOME@ + header + seq!['\n']
    } else {
        screen_text(header, sections.drop_last()) + sections.last() + seq!['\n']
    }
}

/// Composes the screen from the header, the sections in display order, and
/// the footer.
pub fn render_screen(header: &str, sections: &[String]) -> (s: String)
    ensures
        s@ == screen_text(header@, string_views(sections@)) + footer_text(),
{
    let mut s = String::from_str(CLEAR_SCREEN);
    s.append(CURSOR_HOME);
    s.append(header);
    push_char(&mut s, '\n');
    let ghost secs = string_views(sections@);
    assert(s@ =~= screen_text(header@, secs.take(0)));
    let mut i: usize = 0;
    while i < sections.len()
        invariant
            i <= sections.len(),
            secs == string_views(sections@),
            s@ == screen_text(header@, secs.take(i as int)),
        decreases sections.len() - i,
    {
        s.append(sections[i].as_str());
        push_char(&mut s, '\n');
        i = i + 1;
        assert(secs.take(i as int).drop_last() =~= secs.take(i - 1));
        assert(s@ =~= screen_text(header@, secs.take(i as int)));
    }
    assert(secs.take(sections.len() as int) =~= secs);
    let footer = render_footer();
    s.append(footer.as_str());
    s
}

} // verus!
