//! What each key press and mouse wheel turn does: the key map, and the change of
//! state (and the outside work asked for) that each command makes.

use vstd::prelude::*;
use crate::app::{overlay_after_page_down, overlay_line, target_after_page_down, App, Screen};
use crate::view::{content_len, half_page, HEAD_LINES, TIPS_LINES, VIRTUAL_LINES};
use crate::keys::REFERENCE_LEN;

verus! {

/// A key, as far as the manager tells keys apart.
#[derive(Clone, Copy, Debug, PartialEq, Eq, Structural)]
pub enum KeyCode {
    Char(char),
    Up,
    Down,
    Left,
    Right,
    Home,
    End,
    PageUp,
    PageDown,
    Enter,
    Esc,
    Backspace,
    Delete,
    Other,
}

/// A key event: the key, whether Control was held, and whether it is a press
/// (rather than a release or a repeat).
#[derive(Clone, Copy, Debug, PartialEq, Eq, Structural)]
pub struct KeyInput {
    pub code: KeyCode,
    pub ctrl: bool,
    pub press: bool,
}

/// A mouse event, as far as the manager tells them apart.
#[derive(Clone, Copy, Debug, PartialEq, Eq, Structural)]
pub enum MouseInput {
    ScrollUp,
    ScrollDown,
    Other,
}

/// What a key asks of the manager.
#[derive(Clone, Copy, Debug, PartialEq, Eq, Structural)]
pub enum Command {
    Nothing,
    Quit,
    Reload,
    Toggle,
    ToggleAndBack,
    EnterAbout,
    EnterDetail,
    BackToTargets,
    BackFromAbout,
    TargetUp,
    TargetDown,
    TargetFirst,
    TargetLast,
    TargetPageUp,
    TargetPageDown,
    TargetHalfUp,
    TargetHalfDown,
    OverlayUp,
    OverlayDown,
    OverlayFirst,
    OverlayLast,
    OverlayPageUp,
    OverlayPageDown,
    OverlayHalfUp,
    OverlayHalfDown,
    AboutUp,
    AboutDown,
    AboutTop,
    AboutPageUp,
    AboutPageDown,
    AboutHalfUp,
    AboutHalfDown,
}

/// The outside work a command leaves to the caller.
#[derive(Clone, Copy, Debug, PartialEq, Eq, Structural)]
pub enum Action {
    /// Nothing more to do.
    Continue,
    /// Leave the program.
    Quit,
    /// List the overlays again and hand the listing to `App::reload`.
    Reload,
    /// Switch the selected overlay (`App::apply_selected_overlay` and what follows).
    Toggle,
}

/// The key map: the command of `key` on `screen`.
pub open spec fn key_command(screen: Screen, key: KeyInput) -> Command {
    if !key.press {
        Command::Nothing
    } else {
        match screen {
            Screen::Targets => match key.code {
                KeyCode::Char('q') => Command::Quit,
                KeyCode::Char('a') => Command::EnterAbout,
                KeyCode::Char('r') => Command::Reload,
                KeyCode::Up | KeyCode::Char('k') => Command::TargetUp,
                KeyCode::Down | KeyCode::Char('j') => Command::TargetDown,
                KeyCode::Home | KeyCode::Char('g') => Command::TargetFirst,
                KeyCode::End | KeyCode::Char('G') => Command::TargetLast,
                KeyCode::PageUp => Command::TargetPageUp,
                KeyCode::PageDown => Command::TargetPageDown,
                KeyCode::Char('u') if key.ctrl => Command::TargetHalfUp,
                KeyCode::Char('d') if key.ctrl => Command::TargetHalfDown,
                KeyCode::Enter | KeyCode::Char(' ') | KeyCode::Char('l') | KeyCode::Right => Command::EnterDetail,
                _ => Command::Nothing,
            },
            Screen::Detail => match key.code {
                KeyCode::Char('q') => Command::Quit,
                KeyCode::Char('a') => Command::EnterAbout,
                KeyCode::Esc | KeyCode::Left | KeyCode::Char('h') => Command::BackToTargets,
                KeyCode::Up | KeyCode::Char('k') => Command::OverlayUp,
                KeyCode::Down | KeyCode::Char('j') => Command::OverlayDown,
                KeyCode::Home | KeyCode::Char('g') => Command::OverlayFirst,
                KeyCode::End | KeyCode::Char('G') => Command::OverlayLast,
                KeyCode::PageUp => Command::OverlayPageUp,
                KeyCode::PageDown => Command::OverlayPageDown,
                KeyCode::Char('u') if key.ctrl => Command::OverlayHalfUp,
                KeyCode::Char('d') if key.ctrl => Command::OverlayHalfDown,
                KeyCode::Char(' ') => Command::Toggle,
                KeyCode::Enter | KeyCode::Char('l') | KeyCode::Right => Command::ToggleAndBack,
                _ => Command::Nothing,
            },
            Screen::About => match key.code {
                KeyCode::Char('q') => Command::Quit,
                KeyCode::Char('a') | KeyCode::Esc | KeyCode::Enter | KeyCode::Char('h')
                | KeyCode::Char('l') | KeyCode::Left | KeyCode::Right => Command::BackFromAbout,
                KeyCode::Up | KeyCode::Char('k') => Command::AboutUp,
                KeyCode::Down | KeyCode::Char('j') => Command::AboutDown,
                KeyCode::Home | KeyCode::Char('g') => Command::AboutTop,
                KeyCode::End | KeyCode::Char('G') => Command::AboutDown,
                KeyCode::PageUp => Command::AboutPageUp,
                KeyCode::PageDown => Command::AboutPageDown,
                KeyCode::Char('u') if key.ctrl => Command::AboutHalfUp,
                KeyCode::Char('d') if key.ctrl => Command::AboutHalfDown,
                _ => Command::Nothing,
            },
        }
    }
}

/// The command of `key` on `screen`.
pub fn command_for_key(screen: Screen, key: KeyInput) -> (c: Command)
    ensures
        c == key_command(screen, key),
{
    if !key.press {
        return Command::Nothing;
    }
    match screen {
        Screen::Targets => match key.code {
            KeyCode::Char('q') => Command::Quit,
            KeyCode::Char('a') => Command::EnterAbout,
            KeyCode::Char('r') => Command::Reload,
            KeyCode::Up | KeyCode::Char('k') => Command::TargetUp,
            KeyCode::Down | KeyCode::Char('j') => Command::TargetDown,
            KeyCode::Home | KeyCode::Char('g') => Command::TargetFirst,
            KeyCode::End | KeyCode::Char('G') => Command::TargetLast,
            KeyCode::PageUp => Command::TargetPageUp,
            KeyCode::PageDown => Command::TargetPageDown,
            KeyCode::Char('u') if key.ctrl => Command::TargetHalfUp,
            KeyCode::Char('d') if key.ctrl => Command::TargetHalfDown,
            KeyCode::Enter | KeyCode::Char(' ') | KeyCode::Char('l') | KeyCode::Right => Command::EnterDetail,
            _ => Command::Nothing,
        },
        Screen::Detail => match key.code {
            KeyCode::Char('q') => Command::Quit,
            KeyCode::Char('a') => Command::EnterAbout,
            KeyCode::Esc | KeyCode::Left | KeyCode::Char('h') => Command::BackToTargets,
            KeyCode::Up | KeyCode::Char('k') => Command::OverlayUp,
            KeyCode::Down | KeyCode::Char('j') => Command::OverlayDown,
            KeyCode::Home | KeyCode::Char('g') => Command::OverlayFirst,
            KeyCode::End | KeyCode::Char('G') => Command::OverlayLast,
            KeyCode::PageUp => Command::OverlayPageUp,
            KeyCode::PageDown => Command::OverlayPageDown,
            KeyCode::Char('u') if key.ctrl => Command::OverlayHalfUp,
            KeyCode::Char('d') if key.ctrl => Command::OverlayHalfDown,
            KeyCode::Char(' ') => Command::Toggle,
            KeyCode::Enter | KeyCode::Char('l') | KeyCode::Right => Command::ToggleAndBack,
            _ => Command::Nothing,
        },
        Screen::About => match key.code {
            KeyCode::Char('q') => Command::Quit,
            KeyCode::Char('a') | KeyCode::Esc | KeyCode::Enter | KeyCode::Char('h')
            | KeyCode::Char('l') | KeyCode::Left | KeyCode::Right => Command::BackFromAbout,
            KeyCode::Up | KeyCode::Char('k') => Command::AboutUp,
            KeyCode::Down | KeyCode::Char('j') => Command::AboutDown,
            KeyCode::Home | KeyCode::Char('g') => Command::AboutTop,
            KeyCode::End | KeyCode::Char('G') => Command::AboutDown,
            KeyCode::PageUp => Command::AboutPageUp,
            KeyCode::PageDown => Command::AboutPageDown,
            KeyCode::Char('u') if key.ctrl => Command::AboutHalfUp,
            KeyCode::Char('d') if key.ctrl => Command::AboutHalfDown,
            _ => Command::Nothing,
        },
    }
}

/// The mouse map: the wheel moves the cursor (or scrolls the about screen).
pub open spec fn mouse_command(screen: Screen, mouse: MouseInput) -> Command {
    match mouse {
        MouseInput::ScrollUp => match screen {
            Screen::Targets => Command::TargetUp,
            Screen::Detail => Command::OverlayUp,
            Screen::About => Command::AboutUp,
        },
        MouseInput::ScrollDown => match screen {
            Screen::Targets => Command::TargetDown,
            Screen::Detail => Command::OverlayDown,
            Screen::About => Command::AboutDown,
        },
        MouseInput::Other => Command::Nothing,
    }
}

/// The command of a mouse event on `screen`.
pub fn command_for_mouse(screen: Screen, mouse: MouseInput) -> (c: Command)
    ensures
        c == mouse_command(screen, mouse),
{
    match mouse {
        MouseInput::ScrollUp => match screen {
            Screen::Targets => Command::TargetUp,
            Screen::Detail => Command::OverlayUp,
            Screen::About => Command::AboutUp,
        },
        MouseInput::ScrollDown => match screen {
            Screen::Targets => Command::TargetDown,
            Screen::Detail => Command::OverlayDown,
            Screen::About => Command::AboutDown,
        },
        MouseInput::Other => Command::Nothing,
    }
}

/// The outside work that `c` leaves to the caller.
pub open spec fn action_of(c: Command) -> Action {
    match c {
        Command::Quit => Action::Quit,
        Command::Reload => Action::Reload,
        Command::Toggle | Command::ToggleAndBack => Action::Toggle,
        _ => Action::Continue,
    }
}

/// Half of `h`, at least one.
pub open spec fn half(h: u16) -> u16 {
    if h / 2 > 1 {
        (h / 2) as u16
    } else {
        1
    }
}

/// The detail scroll once it follows line `line` in a view of `h` lines.
pub open spec fn scroll_following(line: int, s: int, h: int) -> int {
    if h == 0 {
        s
    } else {
        let pushed = if line >= s + h {
            line + 1 - h
        } else {
            s
        };
        if line < pushed {
            line
        } else {
            pushed
        }
    }
}

/// `b` is `a` with the overlay cursor at `sel` and the detail scroll following it
/// in a view of `h` lines.
pub open spec fn overlay_moved(a: App, b: App, sel: usize, h: u16) -> bool {
    b == App {
        selected_overlay: sel,
        detail_scroll: scroll_following(
            overlay_line(sel as int, a.enabled_count() as int),
            a.detail_scroll as int,
            h as int,
        ) as u16,
        ..a
    }
}

/// `b` is `a` with the target cursor at `sel`, the overlay cursor and detail
/// scroll back at the start.
pub open spec fn target_moved(a: App, b: App, sel: usize) -> bool {
    b == App { selected_target: sel, selected_overlay: 0, detail_scroll: 0, ..a }
}

/// The about scroll after paging down by `amount`, stopping at `max`.
pub open spec fn about_paged_down(at: u16, amount: u16, max: u16) -> u16 {
    if at + amount < max {
        (at + amount) as u16
    } else {
        max
    }
}

/// The about scroll after paging up by `amount`, stopping at the top.
pub open spec fn about_paged_up(at: u16, amount: u16) -> u16 {
    if at > amount {
        (at - amount) as u16
    } else {
        0
    }
}

/// `a` turns into `b` under command `c`, with lists of `list_h` rows and an about
/// view of `about_h` rows; the about screen scrolls no further than its content
/// past one view.
pub open spec fn performed(a: App, b: App, c: Command, list_h: u16, about_h: u16) -> bool {
    let about_max: u16 = if HEAD_LINES + REFERENCE_LEN + TIPS_LINES + (if a.backend is Virtual {
        VIRTUAL_LINES
    } else {
        0
    }) >= about_h {
        (HEAD_LINES + REFERENCE_LEN + TIPS_LINES + (if a.backend is Virtual {
            VIRTUAL_LINES
        } else {
            0
        }) - about_h) as u16
    } else {
        0
    };
    let o = a.selected_overlay;
    let last = a.last_overlay();
    let t = a.selected_target;
    let n = a.target_order@.len();
    match c {
        Command::Nothing | Command::Quit | Command::Reload | Command::Toggle => b == a,
        Command::ToggleAndBack => b == App { screen: Screen::Targets, ..a },
        Command::EnterAbout => b == App { about_scroll: 0, screen: Screen::About, ..a },
        Command::EnterDetail => {
            &&& b.status@ == Seq::<char>::empty()
            &&& b == App {
                screen: Screen::Detail,
                detail_scroll: 0,
                selected_overlay: if o <= last {
                    o
                } else {
                    0
                },
                status: b.status,
                status_persistent: false,
                status_expires_at: None,
                ..a
            }
        },
        Command::BackToTargets => {
            &&& b.status@ == Seq::<char>::empty()
            &&& b == App {
                screen: Screen::Targets,
                status: b.status,
                status_persistent: false,
                status_expires_at: None,
                ..a
            }
        },
        Command::BackFromAbout => b == App { screen: a.about_prev, ..a },
        Command::TargetUp => target_moved(a, b, if t > 0 { (t - 1) as usize } else { 0 }),
        Command::TargetDown => target_moved(a, b, target_after_page_down(t, 1, n)),
        Command::TargetFirst => target_moved(a, b, 0),
        Command::TargetLast => target_moved(a, b, if n > 0 { (n - 1) as usize } else { 0 }),
        Command::TargetPageUp => target_moved(a, b, if t > list_h { (t - list_h) as usize } else { 0 }),
        Command::TargetPageDown => target_moved(a, b, target_after_page_down(t, list_h as int, n)),
        Command::TargetHalfUp => target_moved(
            a,
            b,
            if t > half(list_h) {
                (t - half(list_h)) as usize
            } else {
                0
            },
        ),
        Command::TargetHalfDown => target_moved(a, b, target_after_page_down(t, half(list_h) as int, n)),
        Command::OverlayUp | Command::OverlayDown | Command::OverlayFirst | Command::OverlayLast
        | Command::OverlayPageUp | Command::OverlayPageDown | Command::OverlayHalfUp
        | Command::OverlayHalfDown => overlay_moved(a, b, overlay_dest(a, c, list_h), list_h),
        Command::AboutUp => b == App { about_scroll: about_paged_up(a.about_scroll, 1), ..a },
        Command::AboutDown => b == App {
            about_scroll: if a.about_scroll < about_max {
                (a.about_scroll + 1) as u16
            } else {
                a.about_scroll
            },
            ..a
        },
        Command::AboutTop => b == App { about_scroll: 0, ..a },
        Command::AboutPageUp => b == App { about_scroll: about_paged_up(a.about_scroll, about_h), ..a },
        Command::AboutPageDown => b == App {
            about_scroll: about_paged_down(a.about_scroll, about_h, about_max),
            ..a
        },
        Command::AboutHalfUp => b == App { about_scroll: about_paged_up(a.about_scroll, half(about_h)), ..a },
        Command::AboutHalfDown => b == App {
            about_scroll: about_paged_down(a.about_scroll, half(about_h), about_max),
            ..a
        },
    }
}

/// Every command keeps both cursors in range: a cursor inside its list (or at 0
/// on an empty list) stays so, whatever key or wheel turn comes.
pub proof fn lemma_commands_keep_selection(a: App, b: App, c: Command, list_h: u16, about_h: u16)
    requires
        a.selection_in_range(),
        performed(a, b, c, list_h, about_h),
    ensures
        b.selection_in_range(),
{
    assert(b.targets == a.targets && b.target_order == a.target_order);
    if b.selected_target == a.selected_target {
        assert(b.current_lists() == a.current_lists());
        assert(b.last_overlay() == a.last_overlay());
    }
}

/// `q` quits on every screen and in every state: it is always carried out, asks
/// the caller to quit, and leaves the manager as it was.
pub proof fn lemma_q_quits_anywhere(a: App, b: App, ctrl: bool, list_h: u16, about_h: u16)
    ensures
        key_command(a.screen, KeyInput { code: KeyCode::Char('q'), ctrl, press: true }) == Command::Quit,
        room_for(a, Command::Quit, list_h, about_h),
        action_of(Command::Quit) == Action::Quit,
        performed(a, b, Command::Quit, list_h, about_h) <==> b == a,
{
}

/// The arrow keys and `k`/`j` move the cursor of the screen on show, up and down:
/// on the targets screen the target cursor steps up (stopping at the first) or
/// down (stopping at the last); on the detail screen the overlay cursor does the
/// same over the switchable rows; on the about screen the scroll goes up by one
/// (stopping at the top) or down by at most one. (A downward step is stated for a
/// cursor below the top of its integer type, the only place a move can start.)
pub proof fn lemma_arrow_keys_move(
    a: App,
    b: App,
    up: bool,
    vim: bool,
    ctrl: bool,
    list_h: u16,
    about_h: u16,
)
    requires
        performed(
            a,
            b,
            key_command(
                a.screen,
                (KeyInput {
                    code: if up {
                        if vim {
                            KeyCode::Char('k')
                        } else {
                            KeyCode::Up
                        }
                    } else {
                        if vim {
                            KeyCode::Char('j')
                        } else {
                            KeyCode::Down
                        }
                    },
                    ctrl,
                    press: true,
                }),
            ),
            list_h,
            about_h,
        ),
    ensures
        b.screen == a.screen,
        a.screen == Screen::Targets && up ==> b.selected_target == (if a.selected_target > 0 {
            a.selected_target - 1
        } else {
            0
        }),
        a.screen == Screen::Targets && !up && a.selected_target < usize::MAX ==> b.selected_target == (if a.target_order@.len() == 0 {
            a.selected_target as int
        } else if a.selected_target + 1 < a.target_order@.len() {
            a.selected_target + 1
        } else {
            a.target_order@.len() - 1
        }),
        a.screen == Screen::Detail && up ==> b.selected_overlay == (if a.selected_overlay > 0 {
            a.selected_overlay - 1
        } else {
            0
        }),
        a.screen == Screen::Detail && !up && a.selected_overlay < usize::MAX ==> b.selected_overlay == (if a.selected_overlay + 1
            < a.actionable_count() {
            a.selected_overlay + 1
        } else if a.actionable_count() > 0 {
            a.actionable_count() - 1
        } else {
            0
        }),
        a.screen == Screen::About && up ==> b.about_scroll == (if a.about_scroll > 0 {
            a.about_scroll - 1
        } else {
            0
        }),
        a.screen == Screen::About && !up ==> a.about_scroll <= b.about_scroll <= a.about_scroll + 1,
{
}

/// The rest of the key reference, screen by screen: a key that is not a press
/// does nothing; on the targets screen Home/`g` and End/`G` jump to the first and
/// last target, PgUp and PgDn page by the list's height, Enter, Space, `l` and
/// Right open the detail screen, `a` opens the about screen at its top, and `r`
/// asks for a reload; on the detail screen Esc, Left and `h` go back to the
/// targets, Space asks for a switch and stays, Enter, `l` and Right ask for a
/// switch and go back, and Home/`g` and End/`G` jump to the first and last
/// switchable row; on the about screen `a`, Esc, Enter, `h`, `l`, Left and Right
/// go back to the screen it was opened from.
pub proof fn lemma_screen_keys(a: App, b: App, key: KeyInput, list_h: u16, about_h: u16)
    requires
        performed(a, b, key_command(a.screen, key), list_h, about_h),
    ensures
        !key.press ==> b == a && action_of(key_command(a.screen, key)) == Action::Continue,
        key.press && a.screen == Screen::Targets ==> {
            let c = key.code;
            let n = a.target_order@.len();
            let t = a.selected_target;
            &&& (c == KeyCode::Home || c == KeyCode::Char('g')) ==> b.selected_target == 0
            &&& (c == KeyCode::End || c == KeyCode::Char('G')) ==> b.selected_target == (if n > 0 {
                n - 1
            } else {
                0
            })
            &&& c == KeyCode::PageUp ==> b.selected_target == (if t > list_h {
                t - list_h
            } else {
                0
            })
            &&& c == KeyCode::PageDown && n > 0 && t + list_h <= usize::MAX ==> b.selected_target == (if t
                + list_h < n - 1 {
                t + list_h
            } else {
                n - 1
            })
            &&& (c == KeyCode::Enter || c == KeyCode::Char(' ') || c == KeyCode::Char('l') || c
                == KeyCode::Right) ==> b.screen == Screen::Detail
            &&& c == KeyCode::Char('a') ==> b.screen == Screen::About && b.about_scroll == 0
            &&& c == KeyCode::Char('r') ==> b == a && action_of(key_command(a.screen, key)) == Action::Reload
        },
        key.press && a.screen == Screen::Detail ==> {
            let c = key.code;
            let cnt = a.actionable_count();
            &&& (c == KeyCode::Esc || c == KeyCode::Left || c == KeyCode::Char('h')) ==> b.screen
                == Screen::Targets && b.selected_target == a.selected_target
            &&& c == KeyCode::Char(' ') ==> b == a && action_of(key_command(a.screen, key)) == Action::Toggle
            &&& (c == KeyCode::Enter || c == KeyCode::Char('l') || c == KeyCode::Right) ==> b.screen
                == Screen::Targets && action_of(key_command(a.screen, key)) == Action::Toggle
            &&& (c == KeyCode::Home || c == KeyCode::Char('g')) ==> b.selected_overlay == 0
            &&& (c == KeyCode::End || c == KeyCode::Char('G')) && cnt <= usize::MAX ==> b.selected_overlay == (if cnt > 0 {
                cnt - 1
            } else {
                0
            })
        },
        key.press && a.screen == Screen::About ==> {
            let c = key.code;
            &&& (c == KeyCode::Char('a') || c == KeyCode::Esc || c == KeyCode::Enter || c == KeyCode::Char(
                'h',
            ) || c == KeyCode::Char('l') || c == KeyCode::Left || c == KeyCode::Right) ==> b.screen
                == a.about_prev
            &&& (c == KeyCode::Home || c == KeyCode::Char('g')) ==> b.about_scroll == 0
        },
{
    assert(a.target_order@.len() == a.target_order.len());
}

/// A cursor move is refused only where its arithmetic would overflow: commands
/// that move no cursor, and moves up, to the first or to the last, always have
/// room; a downward move has room whenever its step fits the cursor's integer
/// type (for the overlay cursor, with every row's line scrollable to when the list
/// shows lines); nothing is refused on an empty target list.
pub proof fn lemma_room_short_of_overflow(a: App, c: Command, list_h: u16, about_h: u16)
    ensures
        (c is Nothing || c is Quit || c is Reload || c is Toggle || c is ToggleAndBack || c is EnterAbout
            || c is EnterDetail || c is BackToTargets || c is BackFromAbout) ==> room_for(a, c, list_h, about_h),
        (c is TargetUp || c is TargetFirst || c is TargetLast || c is TargetPageUp || c is TargetHalfUp)
            ==> room_for(a, c, list_h, about_h),
        (c is TargetDown || c is TargetPageDown || c is TargetHalfDown) && (a.target_order@.len() == 0
            || a.selected_target + list_h + 1 <= usize::MAX) ==> room_for(a, c, list_h, about_h),
        c is TargetDown && a.selected_target < usize::MAX ==> room_for(a, c, list_h, about_h),
        c is TargetPageDown && a.selected_target + list_h <= usize::MAX ==> room_for(a, c, list_h, about_h),
        (c is AboutUp || c is AboutDown || c is AboutTop || c is AboutPageUp || c is AboutHalfUp) ==> room_for(
            a,
            c,
            list_h,
            about_h,
        ),
        c is AboutPageDown && a.about_scroll + about_h <= u16::MAX ==> room_for(a, c, list_h, about_h),
        c is AboutHalfDown && a.about_scroll + about_h / 2 + 1 <= u16::MAX ==> room_for(a, c, list_h, about_h),
        (c is OverlayUp || c is OverlayDown || c is OverlayFirst || c is OverlayLast || c is OverlayPageUp
            || c is OverlayPageDown || c is OverlayHalfUp || c is OverlayHalfDown)
            && a.selected_overlay + list_h + 1 <= usize::MAX && (list_h == 0 || (overlay_line(
            a.selected_overlay as int,
            a.enabled_count() as int,
        ) < u16::MAX && overlay_line(a.last_overlay() as int, a.enabled_count() as int) < u16::MAX))
            ==> room_for(a, c, list_h, about_h),
{
    let e = a.enabled_count() as int;
    assert forall|x: int, y: int| 0 <= x <= y implies overlay_line(x, e) <= overlay_line(y, e) by {}
    if is_overlay_move(c) {
        let d = overlay_dest(a, c, list_h);
        assert(d <= a.selected_overlay || d <= a.last_overlay());
    }
}

/// `c` moves the target cursor.
pub open spec fn is_target_move(c: Command) -> bool {
    c is TargetUp || c is TargetDown || c is TargetFirst || c is TargetLast || c is TargetPageUp
        || c is TargetPageDown || c is TargetHalfUp || c is TargetHalfDown
}

/// `c` moves the overlay cursor.
pub open spec fn is_overlay_move(c: Command) -> bool {
    c is OverlayUp || c is OverlayDown || c is OverlayFirst || c is OverlayLast || c is OverlayPageUp
        || c is OverlayPageDown || c is OverlayHalfUp || c is OverlayHalfDown
}

/// `c` scrolls the about screen.
pub open spec fn is_about_move(c: Command) -> bool {
    c is AboutUp || c is AboutDown || c is AboutTop || c is AboutPageUp || c is AboutPageDown
        || c is AboutHalfUp || c is AboutHalfDown
}

/// Where overlay command `c` takes the overlay cursor, with lists of `list_h` rows.
pub open spec fn overlay_dest(a: App, c: Command, list_h: u16) -> usize {
    let o = a.selected_overlay;
    let last = a.last_overlay();
    match c {
        Command::OverlayUp => if o > 0 {
            (o - 1) as usize
        } else {
            0
        },
        Command::OverlayDown => overlay_after_page_down(o, 1, last),
        Command::OverlayFirst => 0,
        Command::OverlayLast => last as usize,
        Command::OverlayPageUp => if o > list_h {
            (o - list_h) as usize
        } else {
            0
        },
        Command::OverlayPageDown => overlay_after_page_down(o, list_h as int, last),
        Command::OverlayHalfUp => if o > half(list_h) {
            (o - half(list_h)) as usize
        } else {
            0
        },
        Command::OverlayHalfDown => overlay_after_page_down(o, half(list_h) as int, last),
        _ => o,
    }
}

/// How far a downward command `c` moves its cursor before it is clamped (0 for
/// every other command), with lists of `list_h` rows and an about view of `about_h`.
pub open spec fn down_step(c: Command, list_h: u16, about_h: u16) -> int {
    match c {
        Command::TargetDown | Command::OverlayDown => 1,
        Command::TargetPageDown | Command::OverlayPageDown => list_h as int,
        Command::TargetHalfDown | Command::OverlayHalfDown => half(list_h) as int,
        Command::AboutPageDown => about_h as int,
        Command::AboutHalfDown => half(about_h) as int,
        _ => 0,
    }
}

/// Command `c` stays within the integer types it computes in: a downward move of a
/// cursor adds its step without overflow (the target cursor only when there are
/// targets, since nothing is added on an empty list), and an overlay move lands on
/// a row whose line in the detail list can be scrolled to (when the list shows
/// any line). Commands that move no cursor always have room.
pub open spec fn room_for(a: App, c: Command, list_h: u16, about_h: u16) -> bool {
    if is_target_move(c) {
        a.target_order@.len() > 0 ==> a.selected_target + down_step(c, list_h, about_h) <= usize::MAX
    } else if is_overlay_move(c) {
        &&& a.selected_overlay + down_step(c, list_h, about_h) <= usize::MAX
        &&& list_h > 0 ==> overlay_line(overlay_dest(a, c, list_h) as int, a.enabled_count() as int) < u16::MAX
    } else if is_about_move(c) {
        a.about_scroll + down_step(c, list_h, about_h) <= u16::MAX
    } else {
        true
    }
}

impl App {
    /// The line of overlay row `sel` in the detail list, if it fits in a `u16`
    /// with a line to spare.
    fn line_fits(&self, sel: usize) -> (b: bool)
        ensures
            b == (overlay_line(sel as int, self.enabled_count() as int) < u16::MAX),
    {
        let enabled = match self.current_target() {
            Some(t) => t.enabled.len(),
            None => 0,
        };
        if sel >= 65535 || (sel >= enabled && enabled >= 65535) {
            return false;
        }
        let line: usize = if sel < enabled {
            1 + sel
        } else if enabled > 0 {
            enabled + 3 + (sel - enabled)
        } else {
            1 + sel
        };
        line < 65535
    }

    /// Where overlay command `c` takes the overlay cursor, computed; `None` when
    /// the step overflows.
    fn overlay_target(&self, c: Command, list_h: u16) -> (r: Option<usize>)
        requires
            is_overlay_move(c),
        ensures
            r is Some <==> self.selected_overlay + down_step(c, list_h, 0) <= usize::MAX,
            r matches Some(d) ==> d == overlay_dest(*self, c, list_h),
    {
        let o = self.selected_overlay;
        let n = self.actionable_overlays().len();
        let last = if n > 0 {
            n - 1
        } else {
            0
        };
        let h = half_page(list_h) as usize;
        let lh = list_h as usize;
        match c {
            Command::OverlayUp => Some(if o > 0 {
                o - 1
            } else {
                0
            }),
            Command::OverlayFirst => Some(0),
            Command::OverlayLast => Some(last),
            Command::OverlayPageUp => Some(if o > lh {
                o - lh
            } else {
                0
            }),
            Command::OverlayHalfUp => Some(if o > h {
                o - h
            } else {
                0
            }),
            _ => {
                let step: usize = match c {
                    Command::OverlayDown => 1,
                    Command::OverlayPageDown => lh,
                    _ => h,
                };
                if o > usize::MAX - step {
                    None
                } else {
                    let want = o + step;
                    Some(if want < last {
                        want
                    } else {
                        last
                    })
                }
            },
        }
    }

    /// Whether command `c` has room to be carried out (see `room_for`).
    pub fn has_room(&self, c: Command, list_h: u16, about_h: u16) -> (b: bool)
        ensures
            b == room_for(*self, c, list_h, about_h),
    {
        let h = half_page(list_h) as usize;
        match c {
            Command::TargetDown | Command::TargetPageDown | Command::TargetHalfDown => {
                let step: usize = match c {
                    Command::TargetDown => 1,
                    Command::TargetPageDown => list_h as usize,
                    _ => h,
                };
                self.target_order.len() == 0 || self.selected_target <= usize::MAX - step
            },
            Command::OverlayUp | Command::OverlayDown | Command::OverlayFirst
            | Command::OverlayLast | Command::OverlayPageUp | Command::OverlayPageDown
            | Command::OverlayHalfUp | Command::OverlayHalfDown => {
                match self.overlay_target(c, list_h) {
                    None => false,
                    Some(d) => list_h == 0 || self.line_fits(d),
                }
            },
            Command::AboutPageDown => (self.about_scroll as u32) + (about_h as u32) <= 65535,
            Command::AboutHalfDown => (self.about_scroll as u32) + (half_page(about_h) as u32) <= 65535,
            _ => true,
        }
    }

    /// Carries out command `c` (lists of `list_h` rows, an about view of `about_h`
    /// rows) and says what outside work is left.
    pub fn perform(&mut self, c: Command, list_h: u16, about_h: u16) -> (r: Action)
        requires
            room_for(*old(self), c, list_h, about_h),
        ensures
            r == action_of(c),
            performed(*old(self), *final(self), c, list_h, about_h),
    {
        match c {
            Command::Nothing | Command::Toggle => {},
            Command::Quit => return Action::Quit,
            Command::Reload => return Action::Reload,
            Command::ToggleAndBack => {
                self.screen = Screen::Targets;
            },
            Command::EnterAbout => self.enter_about(),
            Command::EnterDetail => self.enter_detail(),
            Command::BackToTargets => {
                self.clear_status();
                self.screen = Screen::Targets;
            },
            Command::BackFromAbout => self.back_from_about(),
            Command::TargetUp | Command::TargetDown | Command::TargetFirst | Command::TargetLast
            | Command::TargetPageUp | Command::TargetPageDown | Command::TargetHalfUp
            | Command::TargetHalfDown => self.move_target_by(c, list_h),
            Command::OverlayUp | Command::OverlayDown | Command::OverlayFirst
            | Command::OverlayLast | Command::OverlayPageUp | Command::OverlayPageDown
            | Command::OverlayHalfUp | Command::OverlayHalfDown => self.move_overlay_by(
                c,
                list_h,
            ),
            _ => self.scroll_about_by(c, about_h),
        }
        match c {
            Command::Toggle | Command::ToggleAndBack => Action::Toggle,
            _ => Action::Continue,
        }
    }

    /// Carries out a command that moves the target cursor.
    fn move_target_by(&mut self, c: Command, list_h: u16)
        requires
            room_for(*old(self), c, list_h, 0),
            c is TargetUp || c is TargetDown || c is TargetFirst || c is TargetLast
                || c is TargetPageUp || c is TargetPageDown || c is TargetHalfUp
                || c is TargetHalfDown,
        ensures
            performed(*old(self), *final(self), c, list_h, 0),
    {
        match c {
            Command::TargetUp => self.move_target_up(),
            Command::TargetDown => self.move_target_down(),
            Command::TargetFirst => self.select_target_first(),
            Command::TargetLast => self.select_target_last(),
            Command::TargetPageUp => self.page_target_up(list_h),
            Command::TargetPageDown => self.page_target_down(list_h),
            Command::TargetHalfUp => self.page_target_up(half_page(list_h)),
            _ => self.page_target_down(half_page(list_h)),
        }
    }

    /// Carries out a command that moves the overlay cursor, the detail scroll
    /// following it in a view of `list_h` lines.
    #[verifier::rlimit(40)]
    fn move_overlay_by(&mut self, c: Command, list_h: u16)
        requires
            room_for(*old(self), c, list_h, 0),
            c is OverlayUp || c is OverlayDown || c is OverlayFirst || c is OverlayLast
                || c is OverlayPageUp || c is OverlayPageDown || c is OverlayHalfUp
                || c is OverlayHalfDown,
        ensures
            performed(*old(self), *final(self), c, list_h, 0),
    {
        match c {
            Command::OverlayUp => self.move_overlay_up(),
            Command::OverlayDown => self.move_overlay_down(),
            Command::OverlayFirst => self.select_overlay_first(),
            Command::OverlayLast => self.select_overlay_last(),
            Command::OverlayPageUp => self.page_overlay_up(list_h),
            Command::OverlayPageDown => self.page_overlay_down(list_h),
            Command::OverlayHalfUp => self.page_overlay_up(half_page(list_h)),
            _ => self.page_overlay_down(half_page(list_h)),
        }
        self.clamp_detail_scroll(list_h);
    }

    /// Carries out a command that scrolls the about screen.
    fn scroll_about_by(&mut self, c: Command, about_h: u16)
        requires
            room_for(*old(self), c, 0, about_h),
            c is AboutUp || c is AboutDown || c is AboutTop || c is AboutPageUp
                || c is AboutPageDown || c is AboutHalfUp || c is AboutHalfDown,
        ensures
            performed(*old(self), *final(self), c, 0, about_h),
    {
        let about_max = content_len(self.is_virtual()).saturating_sub(about_h);
        match c {
            Command::AboutUp => self.scroll_about_up(),
            Command::AboutDown => self.scroll_about_down(about_max),
            Command::AboutTop => self.scroll_about_to_top(),
            Command::AboutPageUp => self.scroll_about_page_up(about_h),
            Command::AboutPageDown => self.scroll_about_page_down(about_h, about_max),
            Command::AboutHalfUp => self.scroll_about_page_up(half_page(about_h)),
            _ => self.scroll_about_page_down(half_page(about_h), about_max),
        }
    }

    /// Handles a key event: looks up its command and carries it out. A move that
    /// would overflow an integer type (see `room_for`) is ignored; every other
    /// command, quitting among them, is carried out in any state.
    pub fn handle_key(&mut self, key: KeyInput, list_h: u16, about_h: u16) -> (r: Action)
        ensures
            room_for(*old(self), key_command(old(self).screen, key), list_h, about_h) ==> {
                &&& r == action_of(key_command(old(self).screen, key))
                &&& performed(*old(self), *final(self), key_command(old(self).screen, key), list_h, about_h)
            },
            !room_for(*old(self), key_command(old(self).screen, key), list_h, about_h) ==> {
                &&& r == Action::Continue
                &&& *final(self) == *old(self)
            },
    {
        let c = command_for_key(self.screen, key);
        if !self.has_room(c, list_h, about_h) {
            return Action::Continue;
        }
        self.perform(c, list_h, about_h)
    }

    /// Handles a mouse event: looks up its command and carries it out; a move
    /// that would overflow an integer type (see `room_for`) is ignored.
    pub fn handle_mouse(&mut self, mouse: MouseInput, list_h: u16, about_h: u16) -> (r: Action)
        ensures
            room_for(*old(self), mouse_command(old(self).screen, mouse), list_h, about_h) ==> {
                &&& r == action_of(mouse_command(old(self).screen, mouse))
                &&& performed(*old(self), *final(self), mouse_command(old(self).screen, mouse), list_h, about_h)
            },
            !room_for(*old(self), mouse_command(old(self).screen, mouse), list_h, about_h) ==> {
                &&& r == Action::Continue
                &&& *final(self) == *old(self)
            },
    {
        let c = command_for_mouse(self.screen, mouse);
        if !self.has_room(c, list_h, about_h) {
            return Action::Continue;
        }
        self.perform(c, list_h, about_h)
    }
}

} // verus!
