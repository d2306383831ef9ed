//! Keys and mouse wheel turns, and what they do to the manager.

use aovr::app::{App, Screen};
use aovr::events::{command_for_key, command_for_mouse, Action, Command, KeyCode, KeyInput, MouseInput};
use aovr::parsers::{TargetOverlays, Targets};

fn strings(v: &[&str]) -> Vec<String> {
    v.iter().map(|s| s.to_string()).collect()
}

fn two_targets() -> Targets {
    let first = TargetOverlays {
        enabled: strings(&["a.on1", "a.on2"]),
        disabled: strings(&["a.off1", "a.off2"]),
        broken: strings(&["a.bad"]),
    };
    let second = TargetOverlays { disabled: strings(&["b.off1"]), ..TargetOverlays::new() };
    let mut t = Targets::new();
    t.insert("com.acme.a".to_string(), first);
    t.insert("com.acme.b".to_string(), second);
    t
}

fn press(code: KeyCode) -> KeyInput {
    KeyInput { code, ctrl: false, press: true }
}

fn ctrl(c: char) -> KeyInput {
    KeyInput { code: KeyCode::Char(c), ctrl: true, press: true }
}

#[test]
fn key_map_per_screen() {
    assert_eq!(command_for_key(Screen::Targets, press(KeyCode::Char('q'))), Command::Quit);
    assert_eq!(command_for_key(Screen::Targets, press(KeyCode::Char('r'))), Command::Reload);
    assert_eq!(command_for_key(Screen::Targets, press(KeyCode::Char(' '))), Command::EnterDetail);
    assert_eq!(command_for_key(Screen::Targets, ctrl('d')), Command::TargetHalfDown);
    assert_eq!(command_for_key(Screen::Targets, press(KeyCode::Char('d'))), Command::Nothing);
    assert_eq!(command_for_key(Screen::Detail, press(KeyCode::Char(' '))), Command::Toggle);
    assert_eq!(command_for_key(Screen::Detail, press(KeyCode::Enter)), Command::ToggleAndBack);
    assert_eq!(command_for_key(Screen::Detail, press(KeyCode::Esc)), Command::BackToTargets);
    assert_eq!(command_for_key(Screen::About, press(KeyCode::End)), Command::AboutDown);
    assert_eq!(command_for_key(Screen::About, press(KeyCode::Right)), Command::BackFromAbout);
    let release = KeyInput { code: KeyCode::Char('q'), ctrl: false, press: false };
    assert_eq!(command_for_key(Screen::Targets, release), Command::Nothing);
    assert_eq!(command_for_mouse(Screen::Detail, MouseInput::ScrollDown), Command::OverlayDown);
    assert_eq!(command_for_mouse(Screen::About, MouseInput::ScrollUp), Command::AboutUp);
    assert_eq!(command_for_mouse(Screen::Targets, MouseInput::Other), Command::Nothing);
}

#[test]
fn keys_move_the_cursors_within_range() {
    let mut app = App::with_targets(two_targets());
    assert_eq!(app.handle_key(press(KeyCode::Char('j')), 10, 10), Action::Continue);
    assert_eq!(app.selected_target, 1);
    app.handle_key(press(KeyCode::PageDown), 10, 10);
    assert_eq!(app.selected_target, 1, "paging stops at the last target");
    app.handle_key(press(KeyCode::Char('g')), 10, 10);
    assert_eq!(app.selected_target, 0);

    app.handle_key(press(KeyCode::Enter), 10, 10);
    assert_eq!(app.screen, Screen::Detail);
    app.handle_key(press(KeyCode::Char('G')), 10, 10);
    assert_eq!(app.selected_overlay, 3);
    app.handle_key(press(KeyCode::Down), 10, 10);
    assert_eq!(app.selected_overlay, 3, "never past the last switchable row");
    app.handle_mouse(MouseInput::ScrollUp, 10, 10);
    assert_eq!(app.selected_overlay, 2);
}

#[test]
fn detail_scroll_follows_the_cursor() {
    let mut app = App::with_targets(two_targets());
    app.handle_key(press(KeyCode::Enter), 3, 10);
    app.handle_key(press(KeyCode::Char('G')), 3, 10);
    // The last row (disabled, second) stands on line 6; a view of 3 lines ends there.
    assert_eq!(app.detail_scroll, 4);
    app.handle_key(press(KeyCode::Home), 3, 10);
    assert_eq!(app.detail_scroll, 1);
}

#[test]
fn commands_that_need_outside_work_say_so() {
    let mut app = App::with_targets(two_targets());
    assert_eq!(app.handle_key(press(KeyCode::Char('r')), 10, 10), Action::Reload);
    app.handle_key(press(KeyCode::Enter), 10, 10);
    assert_eq!(app.handle_key(press(KeyCode::Char(' ')), 10, 10), Action::Toggle);
    assert_eq!(app.screen, Screen::Detail);
    assert_eq!(app.handle_key(press(KeyCode::Enter), 10, 10), Action::Toggle);
    assert_eq!(app.screen, Screen::Targets);
    assert_eq!(app.handle_key(press(KeyCode::Char('q')), 10, 10), Action::Quit);
}

#[test]
fn about_screen_scrolls_within_its_content() {
    let mut app = App::with_targets(two_targets());
    app.handle_key(press(KeyCode::Char('a')), 10, 10);
    assert_eq!(app.screen, Screen::About);
    // 36 lines in virtual mode, a view of 10: at most 26 lines down.
    app.handle_key(press(KeyCode::PageDown), 10, 10);
    app.handle_key(press(KeyCode::PageDown), 10, 10);
    app.handle_key(press(KeyCode::PageDown), 10, 10);
    assert_eq!(app.about_scroll, 26);
    app.handle_key(press(KeyCode::Down), 10, 10);
    assert_eq!(app.about_scroll, 26);
    app.handle_key(ctrl('u'), 10, 10);
    assert_eq!(app.about_scroll, 21);
    app.handle_key(press(KeyCode::Esc), 10, 10);
    assert_eq!(app.screen, Screen::Targets);
}

#[test]
fn quit_works_in_any_state() {
    let mut app = App::with_targets(two_targets());
    app.handle_key(press(KeyCode::Enter), 10, 10);
    app.selected_overlay = usize::MAX;
    assert_eq!(app.handle_key(press(KeyCode::Down), 10, 10), Action::Continue);
    assert_eq!(app.selected_overlay, usize::MAX, "a move without room is ignored");
    assert_eq!(app.handle_key(press(KeyCode::Char('q')), 10, 10), Action::Quit);
    assert_eq!(app.screen, Screen::Detail);
    assert_eq!(app.handle_key(press(KeyCode::Esc), 10, 10), Action::Continue);
    assert_eq!(app.screen, Screen::Targets);
}

#[test]
fn overlay_moves_need_room_only_where_they_land() {
    let names: Vec<String> = (0..70_000).map(|i| format!("big.o{i}")).collect();
    let big = TargetOverlays { disabled: names, ..TargetOverlays::new() };
    let mut t = Targets::new();
    t.insert("com.acme.big".to_string(), big);
    let mut app = App::with_targets(t);
    app.handle_key(press(KeyCode::Enter), 10, 10);
    app.handle_key(press(KeyCode::Down), 10, 10);
    assert_eq!(app.selected_overlay, 1, "the last row's line does not stop a short move");
    app.handle_key(press(KeyCode::End), 10, 10);
    assert_eq!(app.selected_overlay, 1, "a row whose line is past the u16 range is not reached");
    app.handle_key(press(KeyCode::End), 0, 10);
    assert_eq!(app.selected_overlay, 69_999, "with no lines shown there is nothing to scroll");
}
