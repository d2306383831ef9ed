//! The manager's state and the user's actions on it.

use aovr::app::{App, Screen};
use aovr::parsers::{TargetOverlays, Targets};
use aovr::shell::{Backend, SetStep, ListStep};

fn strings(v: &[&str]) -> Vec<String> {
    v.iter().map(|s| s.to_string()).collect()
}

fn fixture_targets() -> Targets {
    let enabled = TargetOverlays {
        enabled: strings(&["a.enabled1", "a.enabled2"]),
        disabled: strings(&["a.disabled1", "a.disabled2"]),
        broken: strings(&["a.broken1"]),
    };

    let second = TargetOverlays {
        disabled: strings(&["b.disabled1"]),
        ..TargetOverlays::new()
    };

    let mut targets = Targets::new();
    targets.insert("com.acme.a".to_string(), enabled);
    targets.insert("com.acme.b".to_string(), second);
    targets
}

#[test]
fn refresh_order_sorts_and_clamps_selection() {
    let mut app = App::with_targets(fixture_targets());
    assert_eq!(app.target_order, ["com.acme.a", "com.acme.b"]);

    app.selected_target = 99;
    app.selected_overlay = 99;
    app.refresh_order();
    assert_eq!(app.selected_target, 1);
    assert_eq!(app.selected_overlay, 0);
}

#[test]
fn actionable_overlays_excludes_broken() {
    let app = App::with_targets(fixture_targets());
    let rows = app.actionable_overlays();
    assert_eq!(rows.len(), 4, "broken overlays must not be toggleable");
    assert!(app.broken_overlays() == ["a.broken1"]);
}

#[test]
fn selected_overlay_line_matches_rendered_layout() {
    let app = App::with_targets(fixture_targets());

    assert_eq!(app.selected_overlay, 0);
    assert_eq!(app.selected_overlay_line(), 1, "first row sits below the section header");

    let mut app = App::with_targets(fixture_targets());
    app.selected_overlay = 2;
    assert_eq!(
        app.selected_overlay_line(),
        5,
        "header + 2 enabled rows + blank + disabled header"
    );
}

#[test]
fn clamp_detail_scroll_follows_selection() {
    let mut app = App::with_targets(fixture_targets());
    app.selected_overlay = 2;

    app.clamp_detail_scroll(3);
    assert_eq!(app.detail_scroll, 3, "line 5 is last visible (5 + 1 - 3)");

    app.clamp_detail_scroll(10);
    assert_eq!(app.detail_scroll, 3, "line 5 already visible");

    app.selected_overlay = 0;
    app.clamp_detail_scroll(10);
    assert_eq!(app.detail_scroll, 1, "scrolls back to the selected line");
}

#[test]
fn load_failure_status_persists() {
    let mut app = App::empty();
    app.set_persistent_status("Load failed: boom".to_string());
    app.tick(0);
    app.tick(10_000);
    assert_eq!(app.status, "Load failed: boom");

    app.set_status("transient".to_string());
    app.tick(20_000);
    assert_eq!(app.status, "transient");
    app.status_expires_at = Some(20_000 - 1_000);
    app.tick(20_000);
    assert!(app.status.is_empty());
}

#[test]
fn transient_status_lasts_three_seconds() {
    let mut app = App::empty();
    app.set_status("hello".to_string());
    app.tick(1_000);
    assert_eq!(app.status_expires_at, Some(4_000));
    app.tick(3_999);
    assert_eq!(app.status, "hello");
    app.tick(4_000);
    assert!(app.status.is_empty());
    assert_eq!(app.status_expires_at, None);
}

#[test]
fn target_jumps_clamp_and_reset_overlay_cursor() {
    let mut app = App::with_targets(fixture_targets());
    app.selected_overlay = 1;

    app.select_target_last();
    assert_eq!(app.selected_target, 1);
    assert_eq!(app.selected_overlay, 0, "overlay cursor must reset");

    app.select_target_first();
    app.page_target_down(50);
    assert_eq!(app.selected_target, 1, "oversized page clamps to the end");

    app.page_target_up(50);
    assert_eq!(app.selected_target, 0, "page-up saturates at the top");

    let mut empty = App::empty();
    empty.select_target_last();
    empty.page_target_down(5);
    assert_eq!(empty.selected_target, 0, "empty list stays at 0");
}

#[test]
fn overlay_jumps_clamp_to_actionable_rows() {
    let mut app = App::with_targets(fixture_targets());

    app.select_overlay_last();
    assert_eq!(app.selected_overlay, 3, "4 actionable rows, 0-based");

    app.page_overlay_down(50);
    assert_eq!(app.selected_overlay, 3, "never past the last row");

    app.page_overlay_up(50);
    assert_eq!(app.selected_overlay, 0);

    app.selected_overlay = 99;
    app.move_overlay_down();
    assert_eq!(app.selected_overlay, 3, "stale cursor is reeled back in");
}

#[test]
fn reload_counts_targets_and_failure_persists() {
    let mut app = App::empty();
    app.reload(Ok(fixture_targets()));
    assert_eq!(app.status, "\u{2713} Loaded 2 targets");
    assert!(!app.status_persistent);
    assert_eq!(app.target_order, ["com.acme.a", "com.acme.b"]);

    let mut one = Targets::new();
    one.insert("only".to_string(), TargetOverlays::new());
    app.reload(Ok(one));
    assert_eq!(app.status, "\u{2713} Loaded 1 target");

    app.reload(Err("boom".to_string()));
    assert_eq!(app.status, "Load failed: boom");
    assert!(app.status_persistent);
    assert_eq!(app.target_order, ["only"]);
}

#[test]
fn load_keeps_the_backend_on_failure() {
    let app = App::load(Backend::Su("su".to_string()), Err("denied".to_string()));
    assert!(!app.is_virtual());
    assert!(app.targets.is_empty());
    assert_eq!(app.status, "Load failed: denied");
    assert!(app.status_persistent);
}

/// Runs a switch of the selected overlay against the app's own (virtual) backend.
fn toggle(app: &mut App) {
    let Some(t) = app.apply_selected_overlay() else { return };
    let result = match app.backend.set_overlay(t.enable, &t.overlay) {
        SetStep::Done(r) => r,
        other => panic!("unexpected step {other:?}"),
    };
    if app.toggle_done(&t, result) {
        let listing = match app.backend.list() {
            ListStep::Ready(r) => r,
            other => panic!("unexpected step {other:?}"),
        };
        app.after_toggle_reload(t, listing);
    }
}

#[test]
fn toggling_keeps_focus_on_the_switched_overlay() {
    let mut app = App::with_targets(fixture_targets());
    app.enter_detail();
    app.selected_overlay = 1;
    toggle(&mut app);
    assert_eq!(app.status, "\u{25cb} Disabled a.enabled2");
    let rows = app.actionable_overlays();
    assert_eq!(rows[app.selected_overlay].name, "a.enabled2");
    assert!(!rows[app.selected_overlay].enabled);

    toggle(&mut app);
    assert_eq!(app.status, "\u{2713} Enabled a.enabled2");
    let rows = app.actionable_overlays();
    assert_eq!(rows[app.selected_overlay].name, "a.enabled2");
    assert!(rows[app.selected_overlay].enabled);
}

#[test]
fn toggling_with_no_row_says_so() {
    let mut app = App::with_targets(fixture_targets());
    app.selected_overlay = 9;
    assert!(app.apply_selected_overlay().is_none());
    assert_eq!(app.status, "No overlay selected.");

    let mut empty = App::empty();
    assert!(empty.apply_selected_overlay().is_none());
    assert!(empty.status.is_empty());
}

#[test]
fn failed_toggle_shows_the_error() {
    let mut app = App::with_targets(fixture_targets());
    let t = app.apply_selected_overlay().unwrap();
    assert!(!app.toggle_done(&t, Err("nope".to_string())));
    assert_eq!(app.status, "Error: nope");
}

#[test]
fn failed_reload_after_toggle_persists() {
    let mut app = App::with_targets(fixture_targets());
    let t = app.apply_selected_overlay().unwrap();
    app.after_toggle_reload(t, Err("gone".to_string()));
    assert_eq!(app.status, "Reload failed: gone");
    assert!(app.status_persistent);
}

#[test]
fn screens_and_about_scrolling() {
    let mut app = App::with_targets(fixture_targets());
    app.enter_detail();
    assert_eq!(app.screen, Screen::Detail);
    app.enter_about();
    assert_eq!(app.screen, Screen::About);
    app.scroll_about_down(2);
    app.scroll_about_down(2);
    app.scroll_about_down(2);
    assert_eq!(app.about_scroll, 2);
    app.scroll_about_up();
    assert_eq!(app.about_scroll, 1);
    app.scroll_about_page_down(10, 5);
    assert_eq!(app.about_scroll, 5);
    app.scroll_about_page_up(3);
    assert_eq!(app.about_scroll, 2);
    app.scroll_about_to_top();
    assert_eq!(app.about_scroll, 0);
    app.back_from_about();
    assert_eq!(app.screen, Screen::Targets);
}

#[test]
fn keep_focus_reload_follows_the_target() {
    let mut app = App::with_targets(fixture_targets());
    let mut more = fixture_targets();
    more.insert("com.acme.0".to_string(), TargetOverlays::new());
    app.reload_keep_focus(Ok(more), Some("com.acme.b".to_string()), Some("b.disabled1".to_string()))
        .unwrap();
    assert_eq!(app.current_target_name(), Some("com.acme.b"));
    assert_eq!(app.selected_target, 2);
    assert_eq!(app.selected_overlay, 0);
    assert!(app.reload_keep_focus(Err("x".to_string()), None, None).is_err());
    assert_eq!(app.selected_target, 2);
}
