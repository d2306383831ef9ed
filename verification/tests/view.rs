//! What the screens show.

use aovr::app::App;
use aovr::parsers::{TargetOverlays, Targets};
use aovr::keys::{about, detail_wide, hint, reference, targets_narrow, Hint};
use aovr::view::{
    breadcrumb_fit_checked, content_len, pad_key, detail_layout, footer_layout, half_page, list_viewport_height, target_badge,
    target_position, truncate_str, DetailLine, Section,
};

#[test]
fn content_len_matches_built_content() {
    assert_eq!(content_len(false), 30);
    assert_eq!(content_len(true), 36);
    assert!(!reference().is_empty());
}

#[test]
fn half_page_moves_at_least_one_row() {
    assert_eq!(half_page(0), 1);
    assert_eq!(half_page(3), 1);
    assert_eq!(half_page(20), 10);
}

#[test]
fn viewport_leaves_the_frame_out() {
    assert_eq!(list_viewport_height(Some(30)), 21);
    assert_eq!(list_viewport_height(Some(4)), 0);
    assert_eq!(list_viewport_height(None), 10);
}

#[test]
fn truncation_marks_the_cut() {
    assert_eq!(truncate_str("abcdef", 10), "abcdef");
    assert_eq!(truncate_str("abcdef", 4), "abc\u{2026}");
    assert_eq!(truncate_str("abcdef", 1), "\u{2026}");
    assert_eq!(truncate_str("abcdef", 0), "");
}

#[test]
fn footer_fits_hints_in_order() {
    let hints: Vec<Hint> = vec![hint("q", "quit"), hint("a", "about")];
    // "q" + " quit   " takes 9 columns, "a" + " about   " 10.
    assert_eq!(footer_layout("", &hints, 20), (None, 1));
    assert_eq!(footer_layout("", &hints, 21), (None, 2));
    let (msg, n) = footer_layout("a rather long status message here", &hints, 30);
    assert_eq!(msg.unwrap(), "a rather lo\u{2026}");
    assert_eq!(n, 0);
}

#[test]
fn breadcrumb_texts() {
    assert_eq!(target_position(0, 0, false), "empty");
    assert_eq!(target_position(2, 31, false), "3/31");
    assert_eq!(target_position(0, 5, true), "virtual \u{b7} 1/5");
    assert_eq!(target_badge(1, false), "   (1 overlay)");
    assert_eq!(target_badge(7, false), "   (7 overlays)");
    assert_eq!(target_badge(7, true), "  \u{d7}7");
}

#[test]
fn breadcrumb_fits_by_display_width() {
    // " \u{258e} ab" takes 5 columns, " \u{f01d9} xy  " 7, and 2 stay spare.
    assert_eq!(breadcrumb_fit_checked("ab", "xy", 80), Some((true, 7)));
    assert_eq!(breadcrumb_fit_checked("ab", "xy", 14), Some((true, 7)));
    assert_eq!(breadcrumb_fit_checked("ab", "xy", 13), Some((false, 7)));
    // A wide character takes two columns.
    assert_eq!(breadcrumb_fit_checked("ab", "\u{4e2d}", 80), Some((true, 7)));
    let huge = "x".repeat(70_000);
    assert_eq!(breadcrumb_fit_checked("ab", &huge, 80), None);
}

#[test]
fn reference_keys_fill_their_column() {
    assert_eq!(pad_key("q", true), format!("{:<14}", "q"));
    assert_eq!(pad_key("q", false).chars().count(), 18);
    assert_eq!(pad_key("\u{2191} / \u{2193}", true), "\u{2191} / \u{2193}         ");
    let long = "a very long key name here";
    assert_eq!(pad_key(long, false), long);
}

#[test]
fn hint_tables_in_order() {
    let t = targets_narrow();
    assert_eq!((t[0].key, t[0].desc), ("j/k", "move"));
    assert_eq!((t[3].key, t[3].desc), ("q", "quit"));
    assert!(t.iter().all(|h| h.key != "/"));
    assert_eq!(detail_wide()[2].desc, "apply+back");
    assert_eq!(reference()[7].key, "wheel");
    assert_eq!(about()[2].key, "a / Esc");
    assert_eq!(reference()[9].desc, "quit AOVR");
}

#[test]
fn detail_layout_sections_and_scroll() {
    let layout = detail_layout(2, 1, 1, 2, 0, 20);
    assert_eq!(
        layout.lines,
        vec![
            DetailLine::Header(Section::Enabled),
            DetailLine::Blank,
            DetailLine::Overlay(0),
            DetailLine::Overlay(1),
            DetailLine::Blank,
            DetailLine::Header(Section::Disabled),
            DetailLine::Blank,
            DetailLine::Overlay(2),
            DetailLine::Blank,
            DetailLine::Header(Section::Broken),
            DetailLine::Blank,
            DetailLine::BrokenOverlay(0),
        ]
    );
    assert_eq!(layout.selected_line, Some(7));
    assert_eq!(layout.scroll, 0);
    assert_eq!(layout.sticky, None);

    // A view of three lines follows the row down to the disabled header.
    let layout = detail_layout(2, 1, 1, 2, 0, 3);
    assert_eq!(layout.scroll, 5);
    assert_eq!(layout.sticky, None);

    // Two lines: the scroll lands inside the section, its header sticks, and the
    // one line left follows the row.
    let layout = detail_layout(2, 1, 1, 2, 0, 2);
    assert_eq!(layout.scroll, 7);
    assert_eq!(layout.sticky, Some(Section::Disabled));

    let empty = detail_layout(0, 0, 0, 0, 0, 5);
    assert_eq!(empty.lines, vec![DetailLine::NoOverlays]);
    assert_eq!(empty.selected_line, None);
}

#[test]
fn detail_view_of_the_selected_target() {
    let s = |v: &[&str]| v.iter().map(|x| x.to_string()).collect::<Vec<String>>();
    let mut t = Targets::new();
    t.insert(
        "com.acme.a".to_string(),
        TargetOverlays { enabled: s(&["e1", "e2"]), disabled: s(&["d1", "d2"]), broken: s(&["b1"]) },
    );
    let mut app = App::with_targets(t);
    app.selected_overlay = 2;
    let d = app.detail_view(20).unwrap();
    assert_eq!(d.selected_line, Some(7));
    assert_eq!(d.lines.len(), 13);
    assert_eq!(d.scroll, 0);
}
