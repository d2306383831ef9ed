//! The state of the overlay manager and what each user action does to it.

use vstd::prelude::*;
use crate::parsers::{opt_text, strictly_ascending, texts, OverlayLists, TargetOverlays, Targets};
use crate::shell::{first_index, Backend, VirtualStore};
use crate::text::{digit_chars, digits, push_text, string_from_chars};

verus! {

/// Rows that the frame takes outside the list body.
pub const CHROME_ROWS: u16 = 5;

/// The screen on show.
#[derive(Clone, Copy, Debug, PartialEq, Eq, Structural)]
pub enum Screen {
    Targets,
    Detail,
    About,
}

/// One overlay that can be switched, with its state.
#[derive(Debug)]
pub struct OverlayRow {
    pub name: String,
    pub enabled: bool,
}

/// A switch that the user asked for: `overlay` of `target` to be `enable`d.
#[derive(Debug)]
pub struct OverlayToggle {
    pub target: String,
    pub overlay: String,
    pub enable: bool,
}

/// The whole state of the manager.
#[derive(Debug)]
pub struct App {
    pub screen: Screen,
    pub backend: Backend,
    pub targets: Targets,
    pub target_order: Vec<String>,
    pub selected_target: usize,
    pub selected_overlay: usize,
    pub about_prev: Screen,
    pub status: String,
    /// Shown until replaced instead of expiring after a few seconds.
    pub status_persistent: bool,
    /// When a transient status expires, in milliseconds of the caller's clock.
    pub status_expires_at: Option<u64>,
    pub detail_scroll: u16,
    pub about_scroll: u16,
}

/// How long a transient status stays, in milliseconds.
pub const STATUS_LIFETIME_MS: u64 = 3000;

impl App {
    /// The target order lists the targets' names in ascending order.
    pub open spec fn order_matches(&self) -> bool {
        texts(self.target_order@) == self.targets.key_seq()
    }

    /// The overlays of the selected target, when a target is selected.
    pub open spec fn current_lists(&self) -> Option<OverlayLists> {
        if self.selected_target < self.target_order@.len() && self.targets.view().contains_key(
            self.target_order@[self.selected_target as int]@,
        ) {
            Some(self.targets.view()[self.target_order@[self.selected_target as int]@])
        } else {
            None
        }
    }

    /// How many overlays of the selected target can be switched.
    pub open spec fn actionable_count(&self) -> nat {
        match self.current_lists() {
            Some(l) => l.enabled.len() + l.disabled.len(),
            None => 0,
        }
    }

    /// The last place the overlay cursor may take.
    pub open spec fn last_overlay(&self) -> nat {
        if self.actionable_count() > 0 {
            (self.actionable_count() - 1) as nat
        } else {
            0
        }
    }

    /// With the order in step with the targets, the switchable count is the
    /// selected target's.
    pub proof fn lemma_count_at(&self)
        requires
            self.order_matches(),
        ensures
            self.actionable_count() == switchable_at(self.targets, self.selected_target as int),
    {
        if self.selected_target < self.target_order@.len() {
            assert(texts(self.target_order@)[self.selected_target as int] == self.target_order@[self.selected_target as int]@);
        }
    }

    /// Both cursors point into their lists (or rest at 0 on an empty list).
    pub open spec fn selection_in_range(&self) -> bool {
        &&& self.target_order@.len() == 0 ==> self.selected_target == 0
        &&& self.target_order@.len() > 0 ==> self.selected_target < self.target_order@.len()
        &&& self.selected_overlay <= self.last_overlay()
    }

    /// A manager with no targets, on the targets screen, replaying an empty list.
    pub fn empty() -> (r: App)
        ensures
            r.screen == Screen::Targets,
            r.about_prev == Screen::Targets,
            r.backend matches Backend::Virtual(store) && store.is_loaded() && store.file_path() is None
                && store.targets().view() == Map::<Seq<char>, OverlayLists>::empty(),
            r.targets.view() == Map::<Seq<char>, OverlayLists>::empty(),
            r.targets.key_seq().len() == 0,
            r.target_order@.len() == 0,
            r.selected_target == 0,
            r.selected_overlay == 0,
            r.status@ == Seq::<char>::empty(),
            !r.status_persistent,
            r.status_expires_at is None,
            r.detail_scroll == 0,
            r.about_scroll == 0,
            r.order_matches(),
            r.selection_in_range(),
    {
        let r = App {
            screen: Screen::Targets,
            backend: Backend::Virtual(VirtualStore::new(Targets::new())),
            targets: Targets::new(),
            target_order: Vec::new(),
            selected_target: 0,
            selected_overlay: 0,
            about_prev: Screen::Targets,
            status: String::new(),
            status_persistent: false,
            status_expires_at: None,
            detail_scroll: 0,
            about_scroll: 0,
        };
        assert(texts(r.target_order@) =~= r.targets.key_seq());
        r
    }

    /// Shows `message` until it expires.
    pub fn set_status(&mut self, message: String)
        ensures
            *final(self) == (App {
                status: message,
                status_persistent: false,
                status_expires_at: None,
                ..*old(self)
            }),
    {
        self.status = message;
        self.status_persistent = false;
        self.status_expires_at = None;
    }

    /// Shows `message` until another replaces it.
    pub fn set_persistent_status(&mut self, message: String)
        ensures
            *final(self) == (App {
                status: message,
                status_persistent: true,
                status_expires_at: None,
                ..*old(self)
            }),
    {
        self.status = message;
        self.status_persistent = true;
        self.status_expires_at = None;
    }

    /// Clears the status line.
    pub fn clear_status(&mut self)
        ensures
            final(self).status@ == Seq::<char>::empty(),
            *final(self) == (App {
                status: final(self).status,
                status_persistent: false,
                status_expires_at: None,
                ..*old(self)
            }),
    {
        self.status = String::new();
        self.status_persistent = false;
        self.status_expires_at = None;
    }

    /// The name of the selected target, if any.
    pub fn current_target_name(&self) -> (r: Option<&str>)
        ensures
            r is Some == (self.selected_target < self.target_order@.len()),
            r is Some ==> r->0@ == self.target_order@[self.selected_target as int]@,
    {
        if self.selected_target < self.target_order.len() {
            Some(self.target_order[self.selected_target].as_str())
        } else {
            None
        }
    }

    /// The overlays of the selected target, if any.
    pub fn current_target(&self) -> (r: Option<&TargetOverlays>)
        ensures
            r is Some == self.current_lists() is Some,
            r is Some ==> r->0@ == self.current_lists()->0,
    {
        match self.current_target_name() {
            Some(name) => self.targets.get(name),
            None => None,
        }
    }

    /// The overlays of the selected target that can be switched: the enabled ones,
    /// then the disabled ones. Broken overlays are never among them.
    pub fn actionable_overlays(&self) -> (rows: Vec<OverlayRow>)
        ensures
            rows@.len() == self.actionable_count(),
            self.current_lists() matches Some(l) ==> forall|i: int|
                0 <= i < rows@.len() ==> (#[trigger] rows@[i]).enabled == (i < l.enabled.len())
                    && rows@[i].name@ == (if i < l.enabled.len() {
                    l.enabled[i]
                } else {
                    l.disabled[i - l.enabled.len()]
                }),
    {
        let target = match self.current_target() {
            Some(t) => t,
            None => return Vec::new(),
        };
        let ghost l = self.current_lists()->0;
        let mut rows: Vec<OverlayRow> = Vec::new();
        let ne = target.enabled.len();
        for i in 0..ne
            invariant
                ne == l.enabled.len(),
                l == target@,
                rows@.len() == i,
                forall|j: int|
                    0 <= j < i ==> (#[trigger] rows@[j]).enabled && rows@[j].name@ == l.enabled[j],
        {
            rows.push(OverlayRow { name: target.enabled[i].clone(), enabled: true });
        }
        let nd = target.disabled.len();
        for i in 0..nd
            invariant
                ne == l.enabled.len(),
                nd == l.disabled.len(),
                l == target@,
                rows@.len() == ne + i,
                forall|j: int|
                    0 <= j < ne ==> (#[trigger] rows@[j]).enabled && rows@[j].name@ == l.enabled[j],
                forall|j: int|
                    ne <= j < ne + i ==> !(#[trigger] rows@[j]).enabled && rows@[j].name@
                        == l.disabled[j - ne],
        {
            rows.push(OverlayRow { name: target.disabled[i].clone(), enabled: false });
        }
        rows
    }

    /// The broken overlays of the selected target.
    pub fn broken_overlays(&self) -> (r: Vec<String>)
        ensures
            match self.current_lists() {
                Some(l) => texts(r@) == l.broken,
                None => r@.len() == 0,
            },
    {
        match self.current_target() {
            Some(t) => crate::parsers::copy_strings(&t.broken),
            None => Vec::new(),
        }
    }

    /// How many overlays of the selected target can be switched.
    fn count_actionable(&self) -> (n: usize)
        ensures
            n == self.actionable_count(),
    {
        self.actionable_overlays().len()
    }

    /// The last place the overlay cursor may take, computed.
    fn last_overlay_index(&self) -> (n: usize)
        ensures
            n == self.last_overlay(),
    {
        let c = self.count_actionable();
        if c > 0 {
            c - 1
        } else {
            0
        }
    }

    /// Lists the targets' names in ascending order and pulls both cursors back into
    /// range: the target cursor to the last target, the overlay cursor to the last
    /// switchable overlay of the target it lands on.
    pub fn refresh_order(&mut self)
        ensures
            final(self).order_matches(),
            strictly_ascending(texts(final(self).target_order@)),
            final(self).selection_in_range(),
            final(self).selected_target == clamp_index(
                old(self).selected_target,
                old(self).targets.key_seq().len(),
            ),
            final(self).selected_overlay == refreshed_overlay(
                old(self).targets,
                old(self).selected_target,
                old(self).selected_overlay,
            ),
            *final(self) == (App {
                target_order: final(self).target_order,
                selected_target: final(self).selected_target,
                selected_overlay: final(self).selected_overlay,
                ..*old(self)
            }),
    {
        self.target_order = self.targets.keys();
        let n = self.target_order.len();
        if n == 0 {
            self.selected_target = 0;
            self.selected_overlay = 0;
            return;
        }
        if self.selected_target >= n {
            self.selected_target = n - 1;
        }
        proof {
            self.lemma_count_at();
        }
        let max = self.last_overlay_index();
        if self.selected_overlay > max {
            self.selected_overlay = max;
        }
    }

    /// Opens the detail screen of the selected target; an overlay cursor beyond the
    /// target's overlays goes back to the first one.
    pub fn enter_detail(&mut self)
        ensures
            old(self).selection_in_range() ==> final(self).selection_in_range(),
            final(self).screen == Screen::Detail,
            final(self).detail_scroll == 0,
            final(self).status@ == Seq::<char>::empty(),
            !final(self).status_persistent,
            final(self).status_expires_at is None,
            final(self).selected_overlay == (if old(self).selected_overlay <= old(self).last_overlay() {
                old(self).selected_overlay
            } else {
                0
            }),
            *final(self) == (App {
                screen: Screen::Detail,
                detail_scroll: 0,
                selected_overlay: final(self).selected_overlay,
                status: final(self).status,
                status_persistent: false,
                status_expires_at: None,
                ..*old(self)
            }),
    {
        let max = self.last_overlay_index();
        if self.selected_overlay > max {
            self.selected_overlay = 0;
        }
        self.detail_scroll = 0;
        self.clear_status();
        self.screen = Screen::Detail;
    }

    /// Leaves the about screen for the screen it was opened from.
    pub fn back_from_about(&mut self)
        ensures
            *final(self) == (App { screen: old(self).about_prev, ..*old(self) }),
    {
        self.screen = self.about_prev;
    }

    /// Moves the target cursor up by one.
    pub fn move_target_up(&mut self)
        ensures
            old(self).selection_in_range() ==> final(self).selection_in_range(),
            *final(self) == (App {
                selected_target: if old(self).selected_target > 0 {
                    (old(self).selected_target - 1) as usize
                } else {
                    0
                },
                selected_overlay: 0,
                detail_scroll: 0,
                ..*old(self)
            }),
    {
        self.page_target_up(1);
    }

    /// Moves the target cursor down by one, stopping at the last target.
    pub fn move_target_down(&mut self)
        requires
            old(self).target_order@.len() > 0 ==> old(self).selected_target < usize::MAX,
        ensures
            old(self).selection_in_range() ==> final(self).selection_in_range(),
            *final(self) == (App {
                selected_target: target_after_page_down(
                    old(self).selected_target,
                    1,
                    old(self).target_order@.len(),
                ),
                selected_overlay: 0,
                detail_scroll: 0,
                ..*old(self)
            }),
    {
        self.page_target_down(1);
    }

    /// Moves the target cursor up by `page`, stopping at the first target.
    pub fn page_target_up(&mut self, page: u16)
        ensures
            old(self).selection_in_range() ==> final(self).selection_in_range(),
            *final(self) == (App {
                selected_target: if old(self).selected_target > page {
                    (old(self).selected_target - page) as usize
                } else {
                    0
                },
                selected_overlay: 0,
                detail_scroll: 0,
                ..*old(self)
            }),
    {
        let page = page as usize;
        self.selected_target = if self.selected_target > page {
            self.selected_target - page
        } else {
            0
        };
        self.after_target_jump();
    }

    /// Moves the target cursor down by `page`, stopping at the last target.
    pub fn page_target_down(&mut self, page: u16)
        requires
            old(self).target_order@.len() > 0 ==> old(self).selected_target + page <= usize::MAX,
        ensures
            old(self).selection_in_range() ==> final(self).selection_in_range(),
            *final(self) == (App {
                selected_target: target_after_page_down(
                    old(self).selected_target,
                    page as int,
                    old(self).target_order@.len(),
                ),
                selected_overlay: 0,
                detail_scroll: 0,
                ..*old(self)
            }),
    {
        let n = self.target_order.len();
        if n > 0 {
            let want = self.selected_target + page as usize;
            self.selected_target = if want < n - 1 {
                want
            } else {
                n - 1
            };
        }
        self.after_target_jump();
    }

    /// Selects the first target.
    pub fn select_target_first(&mut self)
        ensures
            old(self).selection_in_range() ==> final(self).selection_in_range(),
            *final(self) == (App {
                selected_target: 0,
                selected_overlay: 0,
                detail_scroll: 0,
                ..*old(self)
            }),
    {
        self.selected_target = 0;
        self.after_target_jump();
    }

    /// Selects the last target (the first place when there is none).
    pub fn select_target_last(&mut self)
        ensures
            old(self).selection_in_range() ==> final(self).selection_in_range(),
            *final(self) == (App {
                selected_target: if old(self).target_order@.len() > 0 {
                    (old(self).target_order@.len() - 1) as usize
                } else {
                    0
                },
                selected_overlay: 0,
                detail_scroll: 0,
                ..*old(self)
            }),
    {
        let n = self.target_order.len();
        self.selected_target = if n > 0 {
            n - 1
        } else {
            0
        };
        self.after_target_jump();
    }

    /// The overlay cursor and the detail scroll belong to the previous target.
    fn after_target_jump(&mut self)
        ensures
            *final(self) == (App { selected_overlay: 0, detail_scroll: 0, ..*old(self) }),
    {
        self.selected_overlay = 0;
        self.detail_scroll = 0;
    }

    /// Moves the overlay cursor up by one.
    pub fn move_overlay_up(&mut self)
        ensures
            old(self).selection_in_range() ==> final(self).selection_in_range(),
            *final(self) == (App {
                selected_overlay: if old(self).selected_overlay > 0 {
                    (old(self).selected_overlay - 1) as usize
                } else {
                    0
                },
                ..*old(self)
            }),
    {
        self.page_overlay_up(1);
    }

    /// Moves the overlay cursor down by one, stopping at the last switchable overlay.
    pub fn move_overlay_down(&mut self)
        requires
            old(self).selected_overlay < usize::MAX,
        ensures
            old(self).selection_in_range() ==> final(self).selection_in_range(),
            *final(self) == (App {
                selected_overlay: overlay_after_page_down(
                    old(self).selected_overlay,
                    1,
                    old(self).last_overlay(),
                ),
                ..*old(self)
            }),
    {
        self.page_overlay_down(1);
    }

    /// Moves the overlay cursor up by `page`, stopping at the first overlay.
    pub fn page_overlay_up(&mut self, page: u16)
        ensures
            old(self).selection_in_range() ==> final(self).selection_in_range(),
            *final(self) == (App {
                selected_overlay: if old(self).selected_overlay > page {
                    (old(self).selected_overlay - page) as usize
                } else {
                    0
                },
                ..*old(self)
            }),
    {
        let page = page as usize;
        self.selected_overlay = if self.selected_overlay > page {
            self.selected_overlay - page
        } else {
            0
        };
    }

    /// Moves the overlay cursor down by `page`, stopping at the last switchable overlay.
    pub fn page_overlay_down(&mut self, page: u16)
        requires
            old(self).selected_overlay + page <= usize::MAX,
        ensures
            old(self).selection_in_range() ==> final(self).selection_in_range(),
            *final(self) == (App {
                selected_overlay: overlay_after_page_down(
                    old(self).selected_overlay,
                    page as int,
                    old(self).last_overlay(),
                ),
                ..*old(self)
            }),
    {
        let max = self.last_overlay_index();
        let want = self.selected_overlay + page as usize;
        self.selected_overlay = if want < max {
            want
        } else {
            max
        };
    }

    /// Selects the first overlay.
    pub fn select_overlay_first(&mut self)
        ensures
            old(self).selection_in_range() ==> final(self).selection_in_range(),
            *final(self) == (App { selected_overlay: 0, ..*old(self) }),
    {
        self.selected_overlay = 0;
    }

    /// The names of the switchable overlays of the selected target, in row order.
    pub open spec fn actionable_names(&self) -> Seq<Seq<char>> {
        match self.current_lists() {
            Some(l) => l.enabled + l.disabled,
            None => Seq::empty(),
        }
    }

    /// Takes in a listing from the backend: on success the targets are replaced,
    /// put in order and counted in the status; on failure the status keeps the
    /// reason until replaced.
    pub fn reload(&mut self, listing: Result<Targets, String>)
        ensures
            match listing {
                Ok(t) => {
                    &&& final(self).targets == t
                    &&& final(self).order_matches()
                    &&& final(self).selection_in_range()
                    &&& final(self).selected_target == clamp_index(
                        old(self).selected_target,
                        t.key_seq().len(),
                    )
                    &&& final(self).selected_overlay == refreshed_overlay(
                        t,
                        old(self).selected_target,
                        old(self).selected_overlay,
                    )
                    &&& final(self).status@ == loaded_text(t.key_seq().len())
                    &&& *final(self) == (App {
                        targets: t,
                        target_order: final(self).target_order,
                        selected_target: final(self).selected_target,
                        selected_overlay: final(self).selected_overlay,
                        status: final(self).status,
                        status_persistent: false,
                        status_expires_at: None,
                        ..*old(self)
                    })
                },
                Err(e) => {
                    &&& final(self).status@ == "Load failed: "@ + e@
                    &&& *final(self) == (App {
                        status: final(self).status,
                        status_persistent: true,
                        status_expires_at: None,
                        ..*old(self)
                    })
                },
            },
    {
        match listing {
            Ok(targets) => {
                self.targets = targets;
                self.refresh_order();
                let count = self.target_order.len();
                let mut msg: Vec<char> = Vec::new();
                push_text(&mut msg, "\u{2713} Loaded ");
                let mut d = digit_chars(count as u64);
                msg.append(&mut d);
                push_text(&mut msg, " target");
                if count != 1 {
                    push_text(&mut msg, "s");
                }
                assert(msg@ =~= loaded_text(count as nat));
                self.set_status(string_from_chars(msg.as_slice()));
            },
            Err(err) => {
                let mut msg: Vec<char> = Vec::new();
                push_text(&mut msg, "Load failed: ");
                push_text(&mut msg, err.as_str());
                self.set_persistent_status(string_from_chars(msg.as_slice()));
            },
        }
    }

    /// A manager on the listing `targets` from `backend`.
    fn with_backend(targets: Targets, backend: Backend) -> (r: App)
        ensures
            r.targets == targets,
            r.backend == backend,
            r.order_matches(),
            r.selection_in_range(),
            r.selected_target == 0,
            r.selected_overlay == 0,
            r.screen == Screen::Targets,
            r.about_prev == Screen::Targets,
            r.status@ == Seq::<char>::empty(),
            !r.status_persistent,
            r.status_expires_at is None,
            r.detail_scroll == 0,
            r.about_scroll == 0,
    {
        let mut app = App::empty();
        app.targets = targets;
        app.backend = backend;
        app.refresh_order();
        app
    }

    /// Starts the manager on what listing `backend` gave. On failure the chosen
    /// backend is kept, so that a refresh retries the same source, and the status
    /// keeps the reason.
    pub fn load(backend: Backend, listing: Result<Targets, String>) -> (r: App)
        ensures
            r.backend == backend,
            r.order_matches(),
            r.selection_in_range(),
            r.selected_target == 0,
            r.selected_overlay == 0,
            r.screen == Screen::Targets,
            r.detail_scroll == 0,
            r.about_scroll == 0,
            r.status_expires_at is None,
            match listing {
                Ok(t) => {
                    &&& r.targets == t
                    &&& r.status@ == Seq::<char>::empty()
                    &&& !r.status_persistent
                },
                Err(e) => {
                    &&& r.targets.view() == Map::<Seq<char>, OverlayLists>::empty()
                    &&& r.status@ == "Load failed: "@ + e@
                    &&& r.status_persistent
                },
            },
    {
        match listing {
            Ok(targets) => App::with_backend(targets, backend),
            Err(err) => {
                let mut app = App::with_backend(Targets::new(), backend);
                let mut msg: Vec<char> = Vec::new();
                push_text(&mut msg, "Load failed: ");
                push_text(&mut msg, err.as_str());
                app.set_persistent_status(string_from_chars(msg.as_slice()));
                app
            },
        }
    }

    /// A manager on `targets`, replaying them in memory.
    pub fn with_targets(targets: Targets) -> (r: App)
        ensures
            r.targets == targets,
            r.backend matches Backend::Virtual(store) && store.targets().view() == targets.view()
                && store.is_loaded(),
            r.order_matches(),
            r.selection_in_range(),
            r.selected_target == 0,
            r.selected_overlay == 0,
            r.screen == Screen::Targets,
            r.status@ == Seq::<char>::empty(),
            r.detail_scroll == 0,
    {
        let replay = targets.duplicate();
        App::with_backend(targets, Backend::Virtual(VirtualStore::new(replay)))
    }

    /// Whether the overlays are replayed rather than read from a device.
    pub fn is_virtual(&self) -> (b: bool)
        ensures
            b == (self.backend is Virtual),
    {
        self.backend.is_virtual()
    }

    /// The switch that the selected overlay row asks for: the opposite of its state.
    /// With no target selected there is none; with no row under the cursor there is
    /// none either, and the status says so.
    pub fn apply_selected_overlay(&mut self) -> (r: Option<OverlayToggle>)
        ensures
            old(self).selected_target >= old(self).target_order@.len() ==> r is None && *final(self)
                == *old(self),
            old(self).selected_target < old(self).target_order@.len() && old(self).selected_overlay
                >= old(self).actionable_count() ==> r is None && final(self).status@
                == "No overlay selected."@ && *final(self) == (App {
                status: final(self).status,
                status_persistent: false,
                status_expires_at: None,
                ..*old(self)
            }),
            old(self).selected_target < old(self).target_order@.len() && old(self).selected_overlay
                < old(self).actionable_count() ==> {
                &&& *final(self) == *old(self)
                &&& r matches Some(t)
                &&& t.target@ == old(self).target_order@[old(self).selected_target as int]@
                &&& t.overlay@ == old(self).actionable_names()[old(self).selected_overlay as int]
                &&& t.enable == (old(self).selected_overlay >= old(self).current_lists()->0.enabled.len())
            },
    {
        let target = match self.current_target_name() {
            Some(n) => n.to_owned(),
            None => return None,
        };
        let rows = self.actionable_overlays();
        if self.selected_overlay >= rows.len() {
            self.set_status("No overlay selected.".to_owned());
            return None;
        }
        let row = &rows[self.selected_overlay];
        let ghost l = self.current_lists()->0;
        proof {
            let i = self.selected_overlay as int;
            if i < l.enabled.len() {
                assert((l.enabled + l.disabled)[i] == l.enabled[i]);
            } else {
                assert((l.enabled + l.disabled)[i] == l.disabled[i - l.enabled.len()]);
            }
        }
        Some(OverlayToggle { target, overlay: row.name.clone(), enable: !row.enabled })
    }

    /// Takes in how the switch `toggle` went. A failure shows in the status; a
    /// success too, and then the listing should be reloaded (the result says so).
    pub fn toggle_done(&mut self, toggle: &OverlayToggle, result: Result<(), String>) -> (reload: bool)
        ensures
            reload == result is Ok,
            final(self).status@ == (match result {
                Ok(_) => switched_text(toggle.enable, toggle.overlay@),
                Err(e) => "Error: "@ + e@,
            }),
            *final(self) == (App {
                status: final(self).status,
                status_persistent: false,
                status_expires_at: None,
                ..*old(self)
            }),
    {
        match result {
            Err(e) => {
                let mut msg: Vec<char> = Vec::new();
                push_text(&mut msg, "Error: ");
                push_text(&mut msg, e.as_str());
                self.set_status(string_from_chars(msg.as_slice()));
                false
            },
            Ok(()) => {
                let mut msg: Vec<char> = Vec::new();
                if toggle.enable {
                    push_text(&mut msg, "\u{2713} Enabled ");
                } else {
                    push_text(&mut msg, "\u{25cb} Disabled ");
                }
                push_text(&mut msg, toggle.overlay.as_str());
                self.set_status(string_from_chars(msg.as_slice()));
                true
            },
        }
    }

    /// Takes in a listing and keeps the focus on target `keep_target` and overlay
    /// `keep_overlay` where they are still listed. A failed listing changes nothing.
    pub fn reload_keep_focus(
        &mut self,
        listing: Result<Targets, String>,
        keep_target: Option<String>,
        keep_overlay: Option<String>,
    ) -> (r: Result<(), String>)
        ensures
            match listing {
                Err(e) => {
                    &&& r matches Err(e2) && e2 == e
                    &&& *final(self) == *old(self)
                },
                Ok(t) => {
                    let sel = kept_target(t, opt_text(keep_target), old(self).selected_target);
                    &&& r is Ok
                    &&& final(self).targets == t
                    &&& final(self).order_matches()
                    &&& final(self).selected_target == sel
                    &&& (keep_target is Some && t.key_seq().contains(keep_target->0@))
                        ==> final(self).target_order@[sel as int]@ == keep_target->0@
                    &&& final(self).selected_overlay == kept_overlay(
                        final(self).actionable_names(),
                        opt_text(keep_overlay),
                        refreshed_overlay(t, old(self).selected_target, old(self).selected_overlay),
                    )
                    &&& *final(self) == (App {
                        targets: t,
                        target_order: final(self).target_order,
                        selected_target: sel,
                        selected_overlay: final(self).selected_overlay,
                        ..*old(self)
                    })
                },
            },
    {
        let targets = match listing {
            Ok(t) => t,
            Err(e) => return Err(e),
        };
        self.targets = targets;
        self.refresh_order();
        if let Some(k) = &keep_target {
            let p = find_text(&self.target_order, k);
            proof {
                crate::shell::lemma_first_index(texts(self.target_order@), k@);
            }
            if p < self.target_order.len() {
                self.selected_target = p;
            }
        }
        if let Some(o) = &keep_overlay {
            let rows = self.actionable_overlays();
            let ghost names = self.actionable_names();
            proof {
                crate::shell::lemma_first_index(names, o@);
                if let Some(l) = self.current_lists() {
                    assert forall|j: int| 0 <= j < rows@.len() implies #[trigger] rows@[j].name@ == names[j] by {
                        if j < l.enabled.len() {
                            assert(names[j] == l.enabled[j]);
                        } else {
                            assert(names[j] == l.disabled[j - l.enabled.len()]);
                        }
                    }
                }
            }
            let mut i: usize = 0;
            while i < rows.len() && !(rows[i].name == *o)
                invariant
                    i <= rows@.len(),
                    rows@.len() == names.len(),
                    forall|j: int| 0 <= j < rows@.len() ==> #[trigger] rows@[j].name@ == names[j],
                    forall|j: int| 0 <= j < i ==> names[j] != o@,
                decreases rows@.len() - i,
            {
                i = i + 1;
            }
            if i < rows.len() {
                assert(names[i as int] == o@);
                self.selected_overlay = i;
            } else {
                assert(!names.contains(o@));
            }
        }
        Ok(())
    }

    /// Reloads after a successful switch, keeping the focus on the switched overlay;
    /// a failed listing shows in the status until replaced.
    pub fn after_toggle_reload(&mut self, toggle: OverlayToggle, listing: Result<Targets, String>)
        ensures
            match listing {
                Err(e) => {
                    &&& final(self).status@ == "Reload failed: "@ + e@
                    &&& *final(self) == (App {
                        status: final(self).status,
                        status_persistent: true,
                        status_expires_at: None,
                        ..*old(self)
                    })
                },
                Ok(t) => {
                    let sel = kept_target(t, Some(toggle.target@), old(self).selected_target);
                    &&& final(self).targets == t
                    &&& final(self).order_matches()
                    &&& final(self).selected_target == sel
                    &&& final(self).selected_overlay == kept_overlay(
                        final(self).actionable_names(),
                        Some(toggle.overlay@),
                        refreshed_overlay(t, old(self).selected_target, old(self).selected_overlay),
                    )
                    &&& *final(self) == (App {
                        targets: t,
                        target_order: final(self).target_order,
                        selected_target: sel,
                        selected_overlay: final(self).selected_overlay,
                        ..*old(self)
                    })
                },
            },
    {
        if let Err(e) = self.reload_keep_focus(listing, Some(toggle.target), Some(toggle.overlay)) {
            let mut msg: Vec<char> = Vec::new();
            push_text(&mut msg, "Reload failed: ");
            push_text(&mut msg, e.as_str());
            self.set_persistent_status(string_from_chars(msg.as_slice()));
        }
    }

    /// How many overlays of the selected target are enabled.
    pub open spec fn enabled_count(&self) -> nat {
        match self.current_lists() {
            Some(l) => l.enabled.len(),
            None => 0,
        }
    }

    /// The line of the detail list on which the selected overlay row stands.
    pub fn selected_overlay_line(&self) -> (line: u16)
        requires
            overlay_line(self.selected_overlay as int, self.enabled_count() as int) <= u16::MAX,
        ensures
            line == overlay_line(self.selected_overlay as int, self.enabled_count() as int),
    {
        let enabled = match self.current_target() {
            Some(t) => t.enabled.len(),
            None => 0,
        };
        let sel = self.selected_overlay;
        let line: usize = if sel < enabled {
            1 + sel
        } else if enabled > 0 {
            enabled + 3 + (sel - enabled)
        } else {
            1 + sel
        };
        line as u16
    }

    /// Scrolls the detail list just enough that the selected row shows in a view of
    /// `viewport_height` lines; a view of no lines leaves the scroll as it is.
    pub fn clamp_detail_scroll(&mut self, viewport_height: u16)
        requires
            viewport_height > 0 ==> overlay_line(old(self).selected_overlay as int, old(self).enabled_count() as int)
                < u16::MAX,
        ensures
            ({
                let line = overlay_line(old(self).selected_overlay as int, old(self).enabled_count() as int);
                let s = old(self).detail_scroll as int;
                let h = viewport_height as int;
                let pushed = if line >= s + h { line + 1 - h } else { s };
                let scroll = if viewport_height == 0 {
                    s
                } else if line < pushed {
                    line
                } else {
                    pushed
                };
                final(self).detail_scroll == scroll
            }),
            viewport_height > 0 ==> final(self).detail_scroll <= overlay_line(
                old(self).selected_overlay as int,
                old(self).enabled_count() as int,
            ) < final(self).detail_scroll + viewport_height,
            *final(self) == (App { detail_scroll: final(self).detail_scroll, ..*old(self) }),
    {
        if viewport_height == 0 {
            return;
        }
        let line = self.selected_overlay_line();
        if line >= self.detail_scroll.saturating_add(viewport_height) {
            self.detail_scroll = line + 1 - viewport_height;
        }
        if line < self.detail_scroll {
            self.detail_scroll = line;
        }
    }

    /// Lets time pass to `now` (milliseconds): a transient status gets its expiry on
    /// the first tick and is cleared once that time has come; a persistent or empty
    /// status never expires.
    pub fn tick(&mut self, now: u64)
        requires
            old(self).status@.len() > 0 && !old(self).status_persistent && old(self).status_expires_at is None
                ==> now <= u64::MAX - STATUS_LIFETIME_MS,
        ensures
            old(self).status@.len() == 0 || old(self).status_persistent ==> *final(self) == (App {
                status_expires_at: None,
                ..*old(self)
            }),
            old(self).status@.len() > 0 && !old(self).status_persistent ==> match old(
                self,
            ).status_expires_at {
                Some(t) => if now >= t {
                    &&& final(self).status@ == Seq::<char>::empty()
                    &&& *final(self) == (App {
                        status: final(self).status,
                        status_expires_at: None,
                        ..*old(self)
                    })
                } else {
                    *final(self) == *old(self)
                },
                None => *final(self) == (App {
                    status_expires_at: Some((now + STATUS_LIFETIME_MS) as u64),
                    ..*old(self)
                }),
            },
    {
        if self.status.as_str().is_empty() || self.status_persistent {
            self.status_expires_at = None;
        } else {
            match self.status_expires_at {
                Some(expires_at) => {
                    if now >= expires_at {
                        self.status = String::new();
                        self.status_expires_at = None;
                    }
                },
                None => {
                    self.status_expires_at = Some(now + STATUS_LIFETIME_MS);
                },
            }
        }
    }

    /// Opens the about screen at its top.
    pub fn enter_about(&mut self)
        ensures
            *final(self) == (App { about_scroll: 0, screen: Screen::About, ..*old(self) }),
    {
        self.about_scroll = 0;
        self.screen = Screen::About;
    }

    /// Scrolls the about screen up by a line, stopping at the top.
    pub fn scroll_about_up(&mut self)
        ensures
            *final(self) == (App {
                about_scroll: if old(self).about_scroll > 0 {
                    (old(self).about_scroll - 1) as u16
                } else {
                    0
                },
                ..*old(self)
            }),
    {
        self.about_scroll = self.about_scroll.saturating_sub(1);
    }

    /// Scrolls the about screen to its top.
    pub fn scroll_about_to_top(&mut self)
        ensures
            *final(self) == (App { about_scroll: 0, ..*old(self) }),
    {
        self.about_scroll = 0;
    }

    /// Scrolls the about screen down by a line while it is above `max_scroll`.
    pub fn scroll_about_down(&mut self, max_scroll: u16)
        ensures
            *final(self) == (App {
                about_scroll: if old(self).about_scroll < max_scroll {
                    (old(self).about_scroll + 1) as u16
                } else {
                    old(self).about_scroll
                },
                ..*old(self)
            }),
    {
        if self.about_scroll < max_scroll {
            self.about_scroll = self.about_scroll.saturating_add(1);
        }
    }

    /// Scrolls the about screen up by `amount`, stopping at the top.
    pub fn scroll_about_page_up(&mut self, amount: u16)
        ensures
            *final(self) == (App {
                about_scroll: if old(self).about_scroll > amount {
                    (old(self).about_scroll - amount) as u16
                } else {
                    0
                },
                ..*old(self)
            }),
    {
        self.about_scroll = self.about_scroll.saturating_sub(amount);
    }

    /// Scrolls the about screen down by `amount`, stopping at `max_scroll`.
    pub fn scroll_about_page_down(&mut self, amount: u16, max_scroll: u16)
        requires
            old(self).about_scroll + amount <= u16::MAX,
        ensures
            *final(self) == (App {
                about_scroll: if old(self).about_scroll + amount < max_scroll {
                    (old(self).about_scroll + amount) as u16
                } else {
                    max_scroll
                },
                ..*old(self)
            }),
    {
        let want = self.about_scroll + amount;
        self.about_scroll = if want < max_scroll {
            want
        } else {
            max_scroll
        };
    }

    /// Selects the last switchable overlay.
    pub fn select_overlay_last(&mut self)
        ensures
            old(self).selection_in_range() ==> final(self).selection_in_range(),
            *final(self) == (App { selected_overlay: old(self).last_overlay() as usize, ..*old(self) }),
    {
        self.selected_overlay = self.last_overlay_index();
    }
}

/// The first place of `x` among the strings of `v`, or `v.len()` when absent.
fn find_text(v: &Vec<String>, x: &String) -> (r: usize)
    ensures
        r == first_index(texts(v@), x@),
{
    proof {
        crate::shell::lemma_first_index(texts(v@), x@);
    }
    let n = v.len();
    let mut i: usize = 0;
    while i < n
        invariant
            n == v@.len(),
            i <= n,
            forall|j: int| 0 <= j < i ==> texts(v@)[j] != x@,
            0 <= first_index(texts(v@), x@) <= n,
            texts(v@).contains(x@) <==> first_index(texts(v@), x@) < n,
            first_index(texts(v@), x@) < n ==> texts(v@)[first_index(texts(v@), x@)] == x@,
            forall|j: int| 0 <= j < first_index(texts(v@), x@) ==> texts(v@)[j] != x@,
        decreases n - i,
    {
        if v[i] == *x {
            assert(texts(v@)[i as int] == x@);
            return i;
        }
        i = i + 1;
    }
    n
}

/// The target cursor after a reload into `t` that keeps the focus on target `keep`
/// where it is still listed, and otherwise pulls the cursor `old_sel` into range.
pub open spec fn kept_target(t: Targets, keep: Option<Seq<char>>, old_sel: usize) -> usize {
    if keep matches Some(k) && t.key_seq().contains(k) {
        first_index(t.key_seq(), keep->0) as usize
    } else {
        clamp_index(old_sel, t.key_seq().len())
    }
}

/// The overlay cursor after a reload that keeps the focus on overlay `keep` where
/// it is among the switchable `names`, and otherwise stays at `fallback`.
pub open spec fn kept_overlay(names: Seq<Seq<char>>, keep: Option<Seq<char>>, fallback: usize) -> usize {
    if keep matches Some(o) && names.contains(o) {
        first_index(names, keep->0) as usize
    } else {
        fallback
    }
}

/// The status after a listing of `n` targets loaded.
pub open spec fn loaded_text(n: nat) -> Seq<char> {
    "\u{2713} Loaded "@ + digits(n) + " target"@ + (if n == 1 {
        Seq::empty()
    } else {
        "s"@
    })
}

/// The place of the line of overlay row `sel` in the detail list, where `enabled`
/// rows come first: one header line, the enabled rows, a blank line and the
/// header of the disabled rows (whose lines begin after those).
pub open spec fn overlay_line(sel: int, enabled: int) -> int {
    if sel < enabled {
        1 + sel
    } else if enabled > 0 {
        enabled + 3 + (sel - enabled)
    } else {
        1 + sel
    }
}

/// The status after switching `name` on (or off).
pub open spec fn switched_text(enable: bool, name: Seq<char>) -> Seq<char> {
    if enable {
        "\u{2713} Enabled "@ + name
    } else {
        "\u{25cb} Disabled "@ + name
    }
}

/// A cursor `i` pulled back into a list of `n` entries (to 0 when it is empty).
pub open spec fn clamp_index(i: usize, n: nat) -> usize {
    if n == 0 {
        0
    } else if i < n {
        i
    } else {
        (n - 1) as usize
    }
}

/// How many overlays of the `i`-th target of `t` can be switched.
pub open spec fn switchable_at(t: Targets, i: int) -> nat {
    if 0 <= i < t.key_seq().len() && t.view().contains_key(t.key_seq()[i]) {
        t.view()[t.key_seq()[i]].enabled.len() + t.view()[t.key_seq()[i]].disabled.len()
    } else {
        0
    }
}

/// An overlay cursor `o` pulled back onto the last of `count` switchable overlays.
pub open spec fn clamp_overlay(o: usize, count: nat) -> usize {
    if count > 0 && o > count - 1 {
        (count - 1) as usize
    } else if count == 0 && o > 0 {
        0
    } else {
        o
    }
}

/// The overlay cursor once the cursors are pulled back into the targets `t`.
pub open spec fn refreshed_overlay(t: Targets, sel_target: usize, sel_overlay: usize) -> usize {
    if t.key_seq().len() == 0 {
        0
    } else {
        clamp_overlay(sel_overlay, switchable_at(t, clamp_index(sel_target, t.key_seq().len()) as int))
    }
}

/// The target cursor after paging down by `page` from `at` over `n` targets.
pub open spec fn target_after_page_down(at: usize, page: int, n: nat) -> usize {
    if n == 0 {
        at
    } else if at + page < n - 1 {
        (at + page) as usize
    } else {
        (n - 1) as usize
    }
}

/// The overlay cursor after paging down by `page` from `at`, `last` being the last place.
pub open spec fn overlay_after_page_down(at: usize, page: int, last: nat) -> usize {
    if at + page < last {
        (at + page) as usize
    } else {
        last as usize
    }
}

} // verus!
