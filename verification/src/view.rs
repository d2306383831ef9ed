//! What the screens show, worked out apart from drawing them: heights, texts that
//! must fit, and the layout of the detail list.

use vstd::prelude::*;
use crate::app::{App, CHROME_ROWS};
use crate::keys::{reference, Hint, REFERENCE_LEN};
use crate::text::{chars_of, digit_chars, digits, push_text, string_from_chars};

verus! {

/// Terminals narrower than this get the compact hints and badges.
pub const NARROW: u16 = 56;

/// Half a page, but at least one row, so that a tiny terminal still moves.
pub fn half_page(height: u16) -> (r: u16)
    ensures
        r == (if height / 2 > 1 {
            height / 2
        } else {
            1
        }),
{
    let h = height / 2;
    if h > 1 {
        h
    } else {
        1
    }
}

/// `rows` less `taken`, or 0 when `taken` is more.
pub open spec fn rows_left(rows: u16, taken: int) -> u16 {
    if rows >= taken {
        (rows - taken) as u16
    } else {
        0
    }
}

/// The rows of the target and detail lists in a terminal of `rows` rows (frame
/// and body padding taken off); 10 when the size is unknown.
pub fn list_viewport_height(rows: Option<u16>) -> (h: u16)
    ensures
        h == match rows {
            Some(r) => rows_left(r, CHROME_ROWS + 2 + 2),
            None => 10,
        },
{
    match rows {
        Some(r) => r.saturating_sub(CHROME_ROWS + 2 + 2),
        None => 10,
    }
}

/// The rows of the about screen's body in a terminal of `rows` rows; 10 when the
/// size is unknown.
pub fn about_viewport_height(rows: Option<u16>) -> (h: u16)
    ensures
        h == match rows {
            Some(r) => rows_left(r, CHROME_ROWS + 2),
            None => 10,
        },
{
    match rows {
        Some(r) => r.saturating_sub(CHROME_ROWS + 2),
        None => 10,
    }
}

/// The lines of the about screen above the keyboard reference.
pub const HEAD_LINES: u16 = 14;

/// The lines of the tips below the keyboard reference.
pub const TIPS_LINES: u16 = 6;

/// The lines of the virtual-mode notes.
pub const VIRTUAL_LINES: u16 = 6;

/// How many lines the about screen holds: the head, the keyboard reference, the
/// tips, and the virtual-mode notes when the list is replayed.
pub fn content_len(is_virtual: bool) -> (n: u16)
    ensures
        n == HEAD_LINES + REFERENCE_LEN + TIPS_LINES + (if is_virtual {
            VIRTUAL_LINES
        } else {
            0
        }),
{
    let r = reference();
    let refs = r.len() as u16;
    HEAD_LINES + refs + TIPS_LINES + if is_virtual {
        VIRTUAL_LINES
    } else {
        0
    }
}

/// `s` cut to at most `max` characters, an ellipsis taking the last place when cut.
pub open spec fn truncated(s: Seq<char>, max: nat) -> Seq<char> {
    if s.len() <= max {
        s
    } else if max == 0 {
        Seq::empty()
    } else if max == 1 {
        seq!['\u{2026}']
    } else {
        s.take(max - 1).push('\u{2026}')
    }
}

/// Cuts `s` to at most `max_chars` characters, marking a cut with an ellipsis.
pub fn truncate_str(s: &str, max_chars: usize) -> (r: String)
    ensures
        r@ == truncated(s@, max_chars as nat),
{
    let v = chars_of(s);
    if v.len() <= max_chars {
        return string_from_chars(v.as_slice());
    }
    if max_chars == 0 {
        return String::new();
    }
    let mut out: Vec<char> = Vec::new();
    let keep = max_chars - 1;
    for i in 0..keep
        invariant
            keep < v@.len(),
            out@ == v@.take(i as int),
    {
        out.push(v[i]);
        assert(v@.take(i + 1) =~= v@.take(i as int).push(v@[i as int]));
    }
    out.push('\u{2026}');
    assert(out@ =~= truncated(v@, max_chars as nat));
    string_from_chars(out.as_slice())
}

/// `n` spaces.
pub open spec fn spaces(n: nat) -> Seq<char> {
    Seq::new(n, |i: int| ' ')
}

/// The width of the key column of the keyboard reference.
pub open spec fn key_column(narrow: bool) -> nat {
    if narrow {
        14
    } else {
        18
    }
}

/// `key` padded with spaces on the right to the key column of the keyboard
/// reference (14 characters, 18 on a wide terminal); a longer key stays whole.
pub fn pad_key(key: &str, narrow: bool) -> (r: String)
    ensures
        r@ == key@ + spaces(if key@.len() < key_column(narrow) {
            (key_column(narrow) - key@.len()) as nat
        } else {
            0
        }),
{
    let col: usize = if narrow {
        14
    } else {
        18
    };
    let mut v = chars_of(key);
    let n = v.len();
    let ghost start = v@;
    while v.len() < col
        invariant
            n == start.len(),
            start == key@,
            col == key_column(narrow),
            n <= v@.len(),
            v@.len() <= col || v@.len() == n,
            v@ == start + spaces((v@.len() - n) as nat),
        decreases col - v@.len(),
    {
        v.push(' ');
        assert(v@ =~= start + spaces((v@.len() - n) as nat));
    }
    assert(v@ =~= key@ + spaces(if key@.len() < key_column(narrow) {
        (key_column(narrow) - key@.len()) as nat
    } else {
        0
    }));
    string_from_chars(v.as_slice())
}

/// How many of the widths `widths`, taken in order from `used` on, fit in `width`.
pub open spec fn fitting(widths: Seq<int>, used: int, width: int) -> nat
    decreases widths.len(),
{
    if widths.len() == 0 || used + widths[0] > width {
        0
    } else {
        1 + fitting(widths.drop_first(), used + widths[0], width)
    }
}

/// The width a hint takes in the footer: key, a space, description, three spaces.
pub open spec fn hint_width(h: Hint) -> int {
    (h.key@.len() + 1 + h.desc@.len() + 3) as int
}

/// The widest the status may get in a footer of `width` columns.
pub open spec fn status_room(width: u16) -> nat {
    if width * 40 / 100 > 12 {
        (width * 40 / 100) as nat
    } else {
        12
    }
}

/// The columns the footer takes before its hints: two of indent, and, with a
/// status, the status and its separator (counted with two more).
pub open spec fn footer_lead(status: Seq<char>, width: u16) -> int {
    if status.len() == 0 {
        2
    } else {
        (2 + 2 + truncated(status, status_room(width)).len() + 7) as int
    }
}

/// The columns that hint `h` takes.
fn hint_cols(h: Hint) -> (n: u64)
    requires
        hint_width(h) <= 32768,
    ensures
        n == hint_width(h),
{
    chars_of(h.key).len() as u64 + 1 + chars_of(h.desc).len() as u64 + 3
}

/// What a footer of `width` columns shows: the status cut to its room (when there
/// is one) and how many of `hints`, in order, fit after it.
pub fn footer_layout(status: &str, hints: &Vec<Hint>, width: u16) -> (r: (Option<String>, usize))
    requires
        forall|i: int| 0 <= i < hints@.len() ==> hint_width(#[trigger] hints@[i]) <= 32768,
    ensures
        match r.0 {
            Some(m) => status@.len() > 0 && m@ == truncated(status@, status_room(width)),
            None => status@.len() == 0,
        },
        r.1 == fitting(hints@.map_values(|h: Hint| hint_width(h)), footer_lead(status@, width), width as int),
{
    let mut used: u64 = 2;
    let mut shown: Option<String> = None;
    if !status.is_empty() {
        let w = width as usize;
        let room = if w * 40 / 100 > 12 {
            w * 40 / 100
        } else {
            12
        };
        let msg = truncate_str(status, room);
        let len = chars_of(msg.as_str()).len();
        assert(len <= room);
        used = used + 2 + len as u64 + 7;
        shown = Some(msg);
    }
    let ghost widths = hints@.map_values(|h: Hint| hint_width(h));
    let ghost lead = used as int;
    let mut count: usize = 0;
    assert(widths.skip(0) =~= widths);
    while count < hints.len() && used + hint_cols(hints[count]) <= width as u64
        invariant
            count <= hints@.len(),
            widths == hints@.map_values(|h: Hint| hint_width(h)),
            forall|i: int| 0 <= i < hints@.len() ==> hint_width(#[trigger] hints@[i]) <= 32768,
            used <= width + 32768 + 30000,
            fitting(widths, lead, width as int) == count + fitting(widths.skip(count as int), used as int, width as int),
        decreases hints@.len() - count,
    {
        let item = hint_cols(hints[count]);
        assert(widths.skip(count as int)[0] == hint_width(hints@[count as int]));
        assert(widths.skip(count as int).drop_first() =~= widths.skip(count + 1));
        used = used + item;
        count = count + 1;
    }
    if count < hints.len() {
        assert(widths.skip(count as int)[0] == hint_width(hints@[count as int]));
    } else {
        assert(widths.skip(count as int).len() == 0);
    }
    (shown, count)
}

/// The columns that `s` takes on a terminal.
pub uninterp spec fn display_width(s: Seq<char>) -> nat;

/// ratatui's `Span::width`: the display width of `s`, by the Unicode width of
/// each character. The contract names the result; it is a function of `s` alone.
#[verifier::external_body]
fn span_width(s: &str) -> (w: usize)
    ensures
        w == display_width(s@),
{
    ratatui::text::Span::raw(s).width()
}

/// The marker before the breadcrumb's left part.
pub const CRUMB_GUTTER: &'static str = " \u{258e} ";

/// The marker before the breadcrumb's right part.
pub const CRUMB_SEPARATOR: &'static str = " \u{f01d9} ";

/// What follows the breadcrumb's right part.
pub const CRUMB_TAIL: &'static str = "  ";

/// The columns of the breadcrumb's right part.
pub open spec fn crumb_right_width(right: Seq<char>) -> nat {
    display_width(CRUMB_SEPARATOR@) + display_width(right) + display_width(CRUMB_TAIL@)
}

/// The columns of the breadcrumb's left part.
pub open spec fn crumb_left_width(left: Seq<char>) -> nat {
    display_width(CRUMB_GUTTER@) + display_width(left)
}

/// Whether the breadcrumb's right part fits beside its left part in `area_width`
/// columns (two columns to spare), and the right part's width.
pub fn breadcrumb_fit(left: &str, right: &str, area_width: u16) -> (r: (bool, u16))
    requires
        crumb_left_width(left@) + crumb_right_width(right@) + 2 <= u16::MAX,
    ensures
        r.1 == crumb_right_width(right@),
        r.0 == (area_width >= crumb_left_width(left@) + crumb_right_width(right@) + 2),
{
    let lw = span_width(CRUMB_GUTTER) + span_width(left);
    let rw = span_width(CRUMB_SEPARATOR) + span_width(right) + span_width(CRUMB_TAIL);
    let left_w = lw as u16;
    let right_w = rw as u16;
    let need = left_w + right_w + 2;
    (area_width >= need, right_w)
}

/// `breadcrumb_fit` for any texts: `None` when the two parts together are too
/// wide for a terminal's column count, and otherwise what `breadcrumb_fit` gives.
pub fn breadcrumb_fit_checked(left: &str, right: &str, area_width: u16) -> (r: Option<(bool, u16)>)
    ensures
        r is Some <==> crumb_left_width(left@) + crumb_right_width(right@) + 2 <= u16::MAX,
        r matches Some(p) ==> p.1 == crumb_right_width(right@) && p.0 == (area_width
            >= crumb_left_width(left@) + crumb_right_width(right@) + 2),
{
    let limit: usize = 65535;
    let g = span_width(CRUMB_GUTTER);
    let l = span_width(left);
    let sep = span_width(CRUMB_SEPARATOR);
    let rt = span_width(right);
    let tail = span_width(CRUMB_TAIL);
    if g > limit || l > limit || sep > limit || rt > limit || tail > limit {
        return None;
    }
    if g + l + sep + rt + tail + 2 > limit {
        return None;
    }
    Some(breadcrumb_fit(left, right, area_width))
}

/// The breadcrumb's right part on the targets screen: the position of the cursor
/// among `count` targets, or `empty`; marked when the list is replayed.
pub open spec fn position_text(selected: usize, count: usize, is_virtual: bool) -> Seq<char> {
    let pos = if count == 0 {
        "empty"@
    } else {
        digits((selected + 1) as nat) + "/"@ + digits(count as nat)
    };
    if is_virtual {
        "virtual \u{b7} "@ + pos
    } else {
        pos
    }
}

/// The breadcrumb's right part on the targets screen.
pub fn target_position(selected: usize, count: usize, is_virtual: bool) -> (r: String)
    requires
        selected < usize::MAX,
    ensures
        r@ == position_text(selected, count, is_virtual),
{
    let mut v: Vec<char> = Vec::new();
    if is_virtual {
        push_text(&mut v, "virtual \u{b7} ");
    }
    if count == 0 {
        push_text(&mut v, "empty");
    } else {
        let mut a = digit_chars((selected + 1) as u64);
        v.append(&mut a);
        push_text(&mut v, "/");
        let mut b = digit_chars(count as u64);
        v.append(&mut b);
    }
    assert(v@ =~= position_text(selected, count, is_virtual));
    string_from_chars(v.as_slice())
}

/// The badge after a target's name: its overlay count, short when narrow.
pub open spec fn badge_text(total: usize, narrow: bool) -> Seq<char> {
    if narrow {
        "  \u{d7}"@ + digits(total as nat)
    } else {
        "   ("@ + digits(total as nat) + " overlay"@ + (if total == 1 {
            Seq::empty()
        } else {
            "s"@
        }) + ")"@
    }
}

/// The badge after a target's name.
pub fn target_badge(total: usize, narrow: bool) -> (r: String)
    ensures
        r@ == badge_text(total, narrow),
{
    let mut v: Vec<char> = Vec::new();
    let mut d = digit_chars(total as u64);
    if narrow {
        push_text(&mut v, "  \u{d7}");
        v.append(&mut d);
    } else {
        push_text(&mut v, "   (");
        v.append(&mut d);
        push_text(&mut v, " overlay");
        if total != 1 {
            push_text(&mut v, "s");
        }
        push_text(&mut v, ")");
    }
    assert(v@ =~= badge_text(total, narrow));
    string_from_chars(v.as_slice())
}

/// A section of the detail list.
#[derive(Clone, Copy, Debug, PartialEq, Eq, Structural)]
pub enum Section {
    Enabled,
    Disabled,
    Broken,
}

/// One line of the detail list.
#[derive(Clone, Copy, Debug, PartialEq, Eq, Structural)]
pub enum DetailLine {
    Blank,
    /// The header of a section.
    Header(Section),
    /// The switchable overlay row with this index.
    Overlay(usize),
    /// The broken overlay with this index.
    BrokenOverlay(usize),
    /// The note that the target has no overlays.
    NoOverlays,
}

/// The lines `start..end` that a section takes, its header first.
#[derive(Clone, Copy, Debug, PartialEq, Eq, Structural)]
pub struct SectionRange {
    pub section: Section,
    pub start: usize,
    pub end: usize,
}

/// The detail list laid out: its lines, its sections, the scroll that shows the
/// selected row, and the section whose header sticks to the top, if any.
#[derive(Debug)]
pub struct DetailLayout {
    pub lines: Vec<DetailLine>,
    pub sections: Vec<SectionRange>,
    pub selected_line: Option<usize>,
    pub scroll: usize,
    pub sticky: Option<Section>,
}

/// The rows of overlays `from..from + n`.
pub open spec fn overlay_rows(from: nat, n: nat) -> Seq<DetailLine> {
    Seq::new(n, |j: int| DetailLine::Overlay((from + j) as usize))
}

/// The rows of broken overlays `0..n`.
pub open spec fn broken_rows(n: nat) -> Seq<DetailLine> {
    Seq::new(n, |j: int| DetailLine::BrokenOverlay(j as usize))
}

/// `lines` and `sections` with a section of `rows` added: a blank line before it
/// unless it comes first, its header, a blank line, the rows. No rows, no section.
pub open spec fn add_section(
    lines: Seq<DetailLine>,
    sections: Seq<SectionRange>,
    section: Section,
    rows: Seq<DetailLine>,
) -> (Seq<DetailLine>, Seq<SectionRange>) {
    if rows.len() == 0 {
        (lines, sections)
    } else {
        let lead = if lines.len() > 0 {
            lines.push(DetailLine::Blank)
        } else {
            lines
        };
        let all = lead + seq![DetailLine::Header(section), DetailLine::Blank] + rows;
        (
            all,
            sections.push(
                SectionRange { section, start: lead.len() as usize, end: all.len() as usize },
            ),
        )
    }
}

/// The lines and sections of a detail list with `e` enabled, `d` disabled and `b`
/// broken overlays; with none at all, a note says so.
pub open spec fn detail_plan(e: nat, d: nat, b: nat) -> (Seq<DetailLine>, Seq<SectionRange>) {
    let s0 = add_section(Seq::empty(), Seq::empty(), Section::Enabled, overlay_rows(0, e));
    let s1 = add_section(s0.0, s0.1, Section::Disabled, overlay_rows(e, d));
    let s2 = add_section(s1.0, s1.1, Section::Broken, broken_rows(b));
    if e + d == 0 && b == 0 {
        (s2.0.push(DetailLine::NoOverlays), s2.1)
    } else {
        s2
    }
}

/// The line of overlay row `sel`, when there is such a row.
pub open spec fn selected_line_of(e: nat, d: nat, sel: nat) -> Option<int> {
    if sel < e {
        Some(2 + sel as int)
    } else if sel < e + d {
        Some((if e > 0 {
            e + 3int
        } else {
            0int
        }) + 2 + (sel - e))
    } else {
        None
    }
}

/// Every switchable row has a line of its own, and the selected line is the
/// selected row's: with `e` enabled and `d` disabled rows, row `sel` has a line
/// exactly when `sel < e + d`, and that line of the list shows row `sel`.
pub proof fn lemma_selected_line_shows_row(e: nat, d: nat, b: nat, sel: nat)
    requires
        e + d <= usize::MAX,
    ensures
        selected_line_of(e, d, sel) is Some <==> sel < e + d,
        sel < e + d ==> {
            let l = selected_line_of(e, d, sel)->0;
            &&& 0 <= l < detail_plan(e, d, b).0.len()
            &&& detail_plan(e, d, b).0[l] == DetailLine::Overlay(sel as usize)
        },
{
    let s0 = add_section(Seq::empty(), Seq::empty(), Section::Enabled, overlay_rows(0, e));
    let s1 = add_section(s0.0, s0.1, Section::Disabled, overlay_rows(e, d));
    let s2 = add_section(s1.0, s1.1, Section::Broken, broken_rows(b));
    if sel < e {
        let l = 2 + sel as int;
        assert(s0.0[l] == DetailLine::Overlay(sel as usize));
        assert(s1.0.len() >= s0.0.len());
        assert(s1.0[l] == s0.0[l]);
        assert(s2.0[l] == s1.0[l]);
    } else if sel < e + d {
        let l = (if e > 0 { e + 3int } else { 0int }) + 2 + (sel - e);
        assert(s1.0[l] == DetailLine::Overlay(sel as usize));
        assert(s2.0[l] == s1.0[l]);
    }
}

/// The scroll of a view of `h` lines once it follows `target` into sight.
pub open spec fn follow(scroll: int, target: Option<int>, h: int) -> int {
    match target {
        Some(t) => if h <= 0 {
            scroll
        } else if t < scroll {
            t
        } else if t >= scroll + h {
            t - (h - 1)
        } else {
            scroll
        },
        None => scroll,
    }
}

/// The first section whose lines strictly hold `scroll` past its header line.
pub open spec fn section_at(sections: Seq<SectionRange>, scroll: int) -> Option<int>
    decreases sections.len(),
{
    if sections.len() == 0 {
        None
    } else if sections[0].start < scroll < sections[0].end {
        Some(0)
    } else {
        match section_at(sections.drop_first(), scroll) {
            Some(i) => Some(i + 1),
            None => None,
        }
    }
}

proof fn lemma_section_at_range(sections: Seq<SectionRange>, scroll: int)
    ensures
        section_at(sections, scroll) matches Some(i) ==> 0 <= i < sections.len(),
    decreases sections.len(),
{
    if sections.len() > 0 {
        lemma_section_at_range(sections.drop_first(), scroll);
    }
}

/// The scroll and sticky section of the detail list: the scroll first follows the
/// selected line; when it then sits inside a section, that section's header sticks
/// to the top, the view loses a line, and the scroll follows again.
pub open spec fn detail_scroll_plan(
    sections: Seq<SectionRange>,
    selected: Option<int>,
    scroll: int,
    view_h: int,
) -> (int, Option<Section>) {
    let s1 = follow(scroll, selected, view_h);
    match section_at(sections, s1) {
        None => (s1, None),
        Some(i) => {
            let s2 = follow(s1, selected, if view_h > 0 { view_h - 1 } else { 0 });
            let fin = match section_at(sections, s2) {
                Some(j) => j,
                None => i,
            };
            (s2, Some(sections[fin].section))
        },
    }
}

/// Following a line keeps it in sight: in a view of `h > 0` lines it sits within
/// the view once the scroll has followed it.
pub proof fn lemma_follow_shows_line(scroll: int, line: int, h: int)
    requires
        h > 0,
    ensures
        follow(scroll, Some(line), h) <= line < follow(scroll, Some(line), h) + h,
{
}

/// The detail list always shows the selected row: in a view of more than one line,
/// the row sits below the scroll and within the lines left under a sticky header.
pub proof fn lemma_detail_shows_selection(
    sections: Seq<SectionRange>,
    line: int,
    scroll: int,
    view_h: int,
)
    requires
        view_h > 1,
    ensures
        ({
            let (s, sticky) = detail_scroll_plan(sections, Some(line), scroll, view_h);
            s <= line < s + (if sticky is Some {
                view_h - 1
            } else {
                view_h
            })
        }),
{
    lemma_follow_shows_line(scroll, line, view_h);
    let s1 = follow(scroll, Some(line), view_h);
    lemma_follow_shows_line(s1, line, view_h - 1);
    lemma_section_at_range(sections, s1);
}

/// Appends a section of `rows` to `lines` and `sections`.
fn push_section(
    lines: &mut Vec<DetailLine>,
    sections: &mut Vec<SectionRange>,
    section: Section,
    rows: Vec<DetailLine>,
)
    requires
        old(lines)@.len() + rows@.len() + 3 <= usize::MAX,
    ensures
        (final(lines)@, final(sections)@) == add_section(old(lines)@, old(sections)@, section, rows@),
{
    if rows.len() == 0 {
        return;
    }
    if lines.len() > 0 {
        lines.push(DetailLine::Blank);
    }
    let start = lines.len();
    lines.push(DetailLine::Header(section));
    lines.push(DetailLine::Blank);
    let mut rows = rows;
    let ghost r = rows@;
    lines.append(&mut rows);
    sections.push(SectionRange { section, start, end: lines.len() });
    proof {
        let lead = if old(lines)@.len() > 0 {
            old(lines)@.push(DetailLine::Blank)
        } else {
            old(lines)@
        };
        assert(lines@ =~= lead + seq![DetailLine::Header(section), DetailLine::Blank] + r);
    }
}

/// The rows of overlays `from..from + n`, made.
fn make_overlay_rows(from: usize, n: usize) -> (r: Vec<DetailLine>)
    requires
        from + n <= usize::MAX,
    ensures
        r@ == overlay_rows(from as nat, n as nat),
{
    let mut r: Vec<DetailLine> = Vec::new();
    for j in 0..n
        invariant
            from + n <= usize::MAX,
            r@ == overlay_rows(from as nat, j as nat),
    {
        r.push(DetailLine::Overlay(from + j));
        assert(r@ =~= overlay_rows(from as nat, (j + 1) as nat));
    }
    r
}

/// The rows of broken overlays `0..n`, made.
fn make_broken_rows(n: usize) -> (r: Vec<DetailLine>)
    ensures
        r@ == broken_rows(n as nat),
{
    let mut r: Vec<DetailLine> = Vec::new();
    for j in 0..n
        invariant
            r@ == broken_rows(j as nat),
    {
        r.push(DetailLine::BrokenOverlay(j));
        assert(r@ =~= broken_rows((j + 1) as nat));
    }
    r
}

/// The scroll of a view of `h` lines, following `target`.
fn follow_exec(scroll: usize, target: Option<usize>, h: usize) -> (r: usize)
    ensures
        r == follow(scroll as int, match target {
            Some(t) => Some(t as int),
            None => None,
        }, h as int),
{
    match target {
        Some(t) => if h == 0 {
            scroll
        } else if t < scroll {
            t
        } else if t - scroll >= h {
            t - (h - 1)
        } else {
            scroll
        },
        None => scroll,
    }
}

/// The first section holding `scroll` past its header line.
fn find_section(sections: &Vec<SectionRange>, scroll: usize) -> (r: Option<usize>)
    ensures
        match r {
            Some(i) => section_at(sections@, scroll as int) == Some(i as int),
            None => section_at(sections@, scroll as int) is None,
        },
{
    let n = sections.len();
    let mut i: usize = 0;
    assert(sections@.skip(0) =~= sections@);
    while i < n
        invariant
            n == sections@.len(),
            i <= n,
            section_at(sections@, scroll as int) == match section_at(sections@.skip(i as int), scroll as int) {
                Some(k) => Some(k + i),
                None => None,
            },
        decreases n - i,
    {
        let sec = sections[i];
        assert(sections@.skip(i as int)[0] == sec);
        assert(sections@.skip(i as int).drop_first() =~= sections@.skip(i + 1));
        if sec.start < scroll && scroll < sec.end {
            return Some(i);
        }
        i = i + 1;
    }
    None
}

/// Lays out the detail list of a target with `enabled`, `disabled` and `broken`
/// overlays, with overlay row `selected` under the cursor, in a view of `view_h`
/// lines scrolled to `scroll`.
pub fn detail_layout(
    enabled: usize,
    disabled: usize,
    broken: usize,
    selected: usize,
    scroll: usize,
    view_h: usize,
) -> (r: DetailLayout)
    requires
        enabled + disabled + broken + 20 <= usize::MAX,
    ensures
        (r.lines@, r.sections@) == detail_plan(enabled as nat, disabled as nat, broken as nat),
        match r.selected_line {
            Some(l) => selected_line_of(enabled as nat, disabled as nat, selected as nat) == Some(l as int),
            None => selected_line_of(enabled as nat, disabled as nat, selected as nat) is None,
        },
        (r.scroll as int, r.sticky) == detail_scroll_plan(
            r.sections@,
            selected_line_of(enabled as nat, disabled as nat, selected as nat),
            scroll as int,
            view_h as int,
        ),
{
    let mut lines: Vec<DetailLine> = Vec::new();
    let mut sections: Vec<SectionRange> = Vec::new();
    push_section(&mut lines, &mut sections, Section::Enabled, make_overlay_rows(0, enabled));
    push_section(&mut lines, &mut sections, Section::Disabled, make_overlay_rows(enabled, disabled));
    push_section(&mut lines, &mut sections, Section::Broken, make_broken_rows(broken));
    if enabled + disabled == 0 && broken == 0 {
        lines.push(DetailLine::NoOverlays);
    }
    let selected_line = if selected < enabled {
        Some(2 + selected)
    } else if selected - enabled < disabled {
        Some((if enabled > 0 {
            enabled + 3
        } else {
            0
        }) + 2 + (selected - enabled))
    } else {
        None
    };
    let s1 = follow_exec(scroll, selected_line, view_h);
    proof {
        lemma_section_at_range(sections@, s1 as int);
    }
    let (final_scroll, sticky) = match find_section(&sections, s1) {
        None => (s1, None),
        Some(i) => {
            let h2 = if view_h > 0 {
                view_h - 1
            } else {
                0
            };
            let s2 = follow_exec(s1, selected_line, h2);
            proof {
                lemma_section_at_range(sections@, s2 as int);
            }
            let fin = match find_section(&sections, s2) {
                Some(j) => j,
                None => i,
            };
            (s2, Some(sections[fin].section))
        },
    };
    DetailLayout { lines, sections, selected_line, scroll: final_scroll, sticky }
}

impl App {
    /// How many overlays of the selected target are enabled, disabled and broken.
    pub open spec fn section_counts(&self) -> (nat, nat, nat) {
        match self.current_lists() {
            Some(l) => (l.enabled.len(), l.disabled.len(), l.broken.len()),
            None => (0, 0, 0),
        }
    }

    /// The detail list of the selected target in a view of `view_h` lines, laid out
    /// from its section sizes, the overlay cursor and the detail scroll; `None`
    /// when the sections are too large to count lines in a `usize`.
    pub fn detail_view(&self, view_h: usize) -> (r: Option<DetailLayout>)
        ensures
            r is Some <==> self.section_counts().0 + self.section_counts().1 + self.section_counts().2 + 20
                <= usize::MAX,
            r matches Some(d) ==> {
                let (e, dis, b) = self.section_counts();
                &&& (d.lines@, d.sections@) == detail_plan(e, dis, b)
                &&& match d.selected_line {
                    Some(l) => selected_line_of(e, dis, self.selected_overlay as nat) == Some(l as int),
                    None => selected_line_of(e, dis, self.selected_overlay as nat) is None,
                }
                &&& (d.scroll as int, d.sticky) == detail_scroll_plan(
                    d.sections@,
                    selected_line_of(e, dis, self.selected_overlay as nat),
                    self.detail_scroll as int,
                    view_h as int,
                )
            },
    {
        let (e, dis, b) = match self.current_target() {
            Some(t) => (t.enabled.len(), t.disabled.len(), t.broken.len()),
            None => (0, 0, 0),
        };
        if e > usize::MAX - 20 || dis > usize::MAX - 20 - e || b > usize::MAX - 20 - e - dis {
            return None;
        }
        Some(detail_layout(e, dis, b, self.selected_overlay, self.detail_scroll as usize, view_h))
    }
}

} // verus!
