//! Reading `cmd overlay list` output into overlays grouped by target package.

use vstd::prelude::*;
use crate::text::{
    chars_lt, chars_of, compare_chars, lemma_chars_lt_irreflexive, lemma_chars_lt_total,
    lemma_chars_lt_transitive, significant_line_bounds, significant_lines, string_of_range, trim,
    trim_bounds, decode_lossy, utf8_lossy,
};

verus! {

/// Whether an overlay is enabled, disabled, or broken (cannot be toggled).
#[derive(Clone, Copy, Debug, PartialEq, Eq, Structural)]
pub enum OverlayState {
    Enabled,
    Disabled,
    Broken,
}

/// The overlay names of one target, by state, as plain character sequences.
#[verifier::ext_equal]
pub struct OverlayLists {
    pub enabled: Seq<Seq<char>>,
    pub disabled: Seq<Seq<char>>,
    pub broken: Seq<Seq<char>>,
}

impl OverlayLists {
    /// No overlays at all.
    pub open spec fn empty() -> OverlayLists {
        OverlayLists { enabled: Seq::empty(), disabled: Seq::empty(), broken: Seq::empty() }
    }

    /// These lists with `name` appended to the list of `state`.
    pub open spec fn with(self, state: OverlayState, name: Seq<char>) -> OverlayLists {
        match state {
            OverlayState::Enabled => OverlayLists { enabled: self.enabled.push(name), ..self },
            OverlayState::Disabled => OverlayLists { disabled: self.disabled.push(name), ..self },
            OverlayState::Broken => OverlayLists { broken: self.broken.push(name), ..self },
        }
    }

    /// How many overlays the three lists hold together.
    pub open spec fn total(self) -> nat {
        self.enabled.len() + self.disabled.len() + self.broken.len()
    }
}

/// The text of each string of `v`.
pub open spec fn texts(v: Seq<String>) -> Seq<Seq<char>> {
    v.map_values(|s: String| s@)
}

/// The overlays of one target package, by state.
#[derive(Debug)]
pub struct TargetOverlays {
    pub enabled: Vec<String>,
    pub disabled: Vec<String>,
    pub broken: Vec<String>,
}

impl View for TargetOverlays {
    type V = OverlayLists;

    open spec fn view(&self) -> OverlayLists {
        OverlayLists {
            enabled: texts(self.enabled@),
            disabled: texts(self.disabled@),
            broken: texts(self.broken@),
        }
    }
}

/// A copy of `v`, string for string.
pub fn copy_strings(v: &Vec<String>) -> (r: Vec<String>)
    ensures
        r@ == v@,
{
    let mut r: Vec<String> = Vec::new();
    for i in 0..v.len()
        invariant
            r@ == v@.take(i as int),
    {
        r.push(v[i].clone());
        assert(v@.take(i + 1) =~= v@.take(i as int).push(v@[i as int]));
    }
    assert(v@.take(v@.len() as int) =~= v@);
    r
}

impl TargetOverlays {
    /// A target with no overlays.
    pub fn new() -> (r: TargetOverlays)
        ensures
            r@ == OverlayLists::empty(),
    {
        let r = TargetOverlays { enabled: Vec::new(), disabled: Vec::new(), broken: Vec::new() };
        assert(r@ =~= OverlayLists::empty());
        r
    }

    /// The number of overlays of the target, whatever their state.
    pub fn total(&self) -> (n: usize)
        requires
            self.enabled@.len() + self.disabled@.len() + self.broken@.len() <= usize::MAX,
        ensures
            n == self@.total(),
    {
        self.enabled.len() + self.disabled.len() + self.broken.len()
    }

    /// An equal copy of the lists.
    pub fn duplicate(&self) -> (r: TargetOverlays)
        ensures
            r.enabled@ == self.enabled@,
            r.disabled@ == self.disabled@,
            r.broken@ == self.broken@,
            r@ == self@,
    {
        TargetOverlays {
            enabled: copy_strings(&self.enabled),
            disabled: copy_strings(&self.disabled),
            broken: copy_strings(&self.broken),
        }
    }

    /// Appends `name` to the list of `state`.
    pub fn add(&mut self, state: OverlayState, name: String)
        ensures
            final(self)@ == old(self)@.with(state, name@),
    {
        match state {
            OverlayState::Enabled => self.enabled.push(name),
            OverlayState::Disabled => self.disabled.push(name),
            OverlayState::Broken => self.broken.push(name),
        }
        proof {
            assert(texts(self.enabled@) =~= texts(old(self).enabled@) + (if state
                == OverlayState::Enabled {
                seq![name@]
            } else {
                Seq::empty()
            }));
            assert(texts(self.disabled@) =~= texts(old(self).disabled@) + (if state
                == OverlayState::Disabled {
                seq![name@]
            } else {
                Seq::empty()
            }));
            assert(texts(self.broken@) =~= texts(old(self).broken@) + (if state
                == OverlayState::Broken {
                seq![name@]
            } else {
                Seq::empty()
            }));
            assert(self@ =~= old(self)@.with(state, name@));
        }
    }
}

/// One target package and its overlays.
#[derive(Debug)]
pub struct TargetEntry {
    pub name: String,
    pub overlays: TargetOverlays,
}

/// Overlays grouped by target package name, kept in ascending name order.
#[derive(Debug)]
pub struct Targets {
    entries: Vec<TargetEntry>,
}

/// Whether the names in `s` ascend strictly.
pub open spec fn strictly_ascending(s: Seq<Seq<char>>) -> bool {
    forall|i: int, j: int| 0 <= i < j < s.len() ==> chars_lt(#[trigger] s[i], #[trigger] s[j])
}

/// In a strictly ascending sequence, each name sits at one place only.
pub proof fn lemma_ascending_index(s: Seq<Seq<char>>, i: int)
    requires
        strictly_ascending(s),
        0 <= i < s.len(),
    ensures
        s.contains(s[i]),
        s.index_of(s[i]) == i,
        s.no_duplicates(),
{
    assert forall|a: int, b: int| 0 <= a < s.len() && 0 <= b < s.len() && a != b implies s[a]
        != s[b] by {
        if a < b {
            lemma_chars_lt_irreflexive(s[a]);
        } else {
            lemma_chars_lt_irreflexive(s[b]);
        }
    }
    assert(s.contains(s[i]));
}

impl Targets {
    /// The target names, in the order in which they are kept.
    pub closed spec fn key_seq(&self) -> Seq<Seq<char>> {
        self.entries@.map_values(|e: TargetEntry| e.name@)
    }

    /// The overlays of each target, in the order of `key_seq`.
    pub closed spec fn value_seq(&self) -> Seq<OverlayLists> {
        self.entries@.map_values(|e: TargetEntry| e.overlays@)
    }

    #[verifier::type_invariant]
    closed spec fn ascending(&self) -> bool {
        strictly_ascending(self.key_seq())
    }

    /// The targets as a map from package name to overlays.
    pub closed spec fn view(&self) -> Map<Seq<char>, OverlayLists> {
        Map::new(
            |k: Seq<char>| self.key_seq().contains(k),
            |k: Seq<char>| self.value_seq()[self.key_seq().index_of(k)],
        )
    }

    /// The names ascend, the map holds exactly them, and each maps to its overlays.
    pub proof fn lemma_keys(&self)
        requires
            strictly_ascending(self.key_seq()),
        ensures
            strictly_ascending(self.key_seq()),
            self.key_seq().no_duplicates(),
            self.key_seq().len() == self.value_seq().len(),
            self.view().dom() == self.key_seq().to_set(),
            forall|i: int|
                0 <= i < self.key_seq().len() ==> #[trigger] self.view()[self.key_seq()[i]]
                    == self.value_seq()[i],
    {
        if self.key_seq().len() > 0 {
            lemma_ascending_index(self.key_seq(), 0);
        }
        assert forall|i: int| 0 <= i < self.key_seq().len() implies #[trigger] self.view()[self.key_seq()[i]]
            == self.value_seq()[i] by {
            lemma_ascending_index(self.key_seq(), i);
        }
        assert(self.view().dom() =~= self.key_seq().to_set());
    }

    /// No targets.
    pub fn new() -> (r: Targets)
        ensures
            r.view() == Map::<Seq<char>, OverlayLists>::empty(),
            r.key_seq() == Seq::<Seq<char>>::empty(),
    {
        let r = Targets { entries: Vec::new() };
        assert(r.key_seq() =~= Seq::<Seq<char>>::empty());
        assert(r.view() =~= Map::<Seq<char>, OverlayLists>::empty());
        r
    }

    /// The number of targets.
    pub fn len(&self) -> (n: usize)
        ensures
            n == self.key_seq().len(),
    {
        self.entries.len()
    }

    /// Whether there are no targets.
    pub fn is_empty(&self) -> (b: bool)
        ensures
            b == (self.key_seq().len() == 0),
    {
        self.entries.len() == 0
    }

    /// Where `key` is, or where it would go: every name before the place comes
    /// before `key`; at the place stands `key` itself when `found`, else a name after it.
    fn locate(&self, key: &Vec<char>) -> (r: (usize, bool))
        ensures
            r.0 <= self.key_seq().len(),
            forall|i: int| 0 <= i < r.0 ==> chars_lt(#[trigger] self.key_seq()[i], key@),
            r.1 ==> r.0 < self.key_seq().len() && self.key_seq()[r.0 as int] == key@,
            !r.1 ==> r.0 < self.key_seq().len() ==> chars_lt(key@, self.key_seq()[r.0 as int]),
            !r.1 ==> !self.key_seq().contains(key@),
    {
        proof {
            use_type_invariant(self);
        }
        let n = self.entries.len();
        let mut p: usize = 0;
        while p < n
            invariant
                n == self.key_seq().len() == self.entries@.len(),
                p <= n,
                strictly_ascending(self.key_seq()),
                forall|i: int| 0 <= i < p ==> chars_lt(#[trigger] self.key_seq()[i], key@),
            decreases n - p,
        {
            let name = chars_of(self.entries[p].name.as_str());
            let c = compare_chars(&name, key);
            assert(name@ == self.key_seq()[p as int]);
            if c == 0 {
                return (p, true);
            }
            if c == 1 {
                assert forall|j: int| 0 <= j < n implies self.key_seq()[j] != key@ by {
                    if j < p {
                        lemma_chars_lt_irreflexive(key@);
                    } else if j > p {
                        lemma_chars_lt_transitive(key@, self.key_seq()[p as int], self.key_seq()[j]);
                        lemma_chars_lt_irreflexive(key@);
                    } else {
                        lemma_chars_lt_irreflexive(key@);
                    }
                }
                return (p, false);
            }
            p = p + 1;
        }
        assert forall|j: int| 0 <= j < n implies self.key_seq()[j] != key@ by {
            lemma_chars_lt_irreflexive(key@);
        }
        (p, false)
    }

    /// The overlays of `name`, if it is a target.
    pub fn get(&self, name: &str) -> (r: Option<&TargetOverlays>)
        ensures
            r is Some == self.view().contains_key(name@),
            r is Some ==> r->0@ == self.view()[name@],
    {
        proof {
            use_type_invariant(self);
            self.lemma_keys();
        }
        let key = chars_of(name);
        let (p, found) = self.locate(&key);
        if found {
            assert(self.value_seq()[p as int] == self.entries@[p as int].overlays@);
            Some(&self.entries[p].overlays)
        } else {
            None
        }
    }

    /// The names of the targets, in ascending order.
    pub fn keys(&self) -> (r: Vec<String>)
        ensures
            texts(r@) == self.key_seq(),
            strictly_ascending(texts(r@)),
    {
        proof {
            use_type_invariant(self);
        }
        let mut r: Vec<String> = Vec::new();
        for i in 0..self.entries.len()
            invariant
                texts(r@) == self.key_seq().take(i as int),
                self.key_seq().len() == self.entries@.len(),
        {
            r.push(self.entries[i].name.clone());
            assert(self.key_seq().take(i + 1) =~= self.key_seq().take(i as int).push(
                self.key_seq()[i as int],
            ));
            assert(texts(r@) =~= self.key_seq().take(i + 1));
        }
        assert(self.key_seq().take(self.entries@.len() as int) =~= self.key_seq());
        r
    }

    /// The place of `name`, which is added with no overlays when it is not a target yet.
    pub fn slot(&mut self, name: String) -> (idx: usize)
        ensures
            idx < final(self).key_seq().len(),
            final(self).key_seq()[idx as int] == name@,
            final(self).view() == (if old(self).view().contains_key(name@) {
                old(self).view()
            } else {
                old(self).view().insert(name@, OverlayLists::empty())
            }),
    {
        proof {
            use_type_invariant(&*self);
            self.lemma_keys();
        }
        let key = chars_of(name.as_str());
        let (p, found) = self.locate(&key);
        if found {
            return p;
        }
        let ghost old_keys = self.key_seq();
        let ghost old_vals = self.value_seq();
        let ghost old_view = self.view();
        let overlays = TargetOverlays::new();
        let ghost new_keys = old_keys.insert(p as int, name@);
        assert forall|j: int| p < j < new_keys.len() implies chars_lt(name@, #[trigger] new_keys[j])
            by {
            if j - 1 > p {
                lemma_chars_lt_transitive(name@, old_keys[p as int], old_keys[j - 1]);
            }
        }
        assert forall|i: int, j: int| 0 <= i < j < new_keys.len() implies chars_lt(
            #[trigger] new_keys[i],
            #[trigger] new_keys[j],
        ) by {
            if i < p && j > p {
                assert(chars_lt(name@, new_keys[j]));
                lemma_chars_lt_transitive(new_keys[i], name@, new_keys[j]);
            }
        }
        let mut entries: Vec<TargetEntry> = Vec::new();
        std::mem::swap(&mut entries, &mut self.entries);
        entries.insert(p, TargetEntry { name, overlays });
        assert(entries@.map_values(|e: TargetEntry| e.name@) =~= new_keys);
        self.entries = entries;
        proof {
            assert(self.key_seq() =~= new_keys);
            assert(self.value_seq() =~= old_vals.insert(p as int, OverlayLists::empty()));
            self.lemma_keys();
            assert forall|k: Seq<char>| #[trigger] self.view().contains_key(k) == old_view.insert(
                name@,
                OverlayLists::empty(),
            ).contains_key(k) by {
                if old_keys.contains(k) {
                    let i = old_keys.index_of(k);
                    if i < p {
                        assert(new_keys[i] == k);
                    } else {
                        assert(new_keys[i + 1] == k);
                    }
                }
                if self.key_seq().contains(k) && k != name@ {
                    let i = self.key_seq().index_of(k);
                    if i < p {
                        assert(old_keys[i] == k);
                    } else {
                        assert(old_keys[i - 1] == k);
                    }
                }
                assert(new_keys[p as int] == name@);
            }
            assert forall|k: Seq<char>| #[trigger] self.view().contains_key(k) implies self.view()[k]
                == old_view.insert(name@, OverlayLists::empty())[k] by {
                let i = self.key_seq().index_of(k);
                assert(self.view()[self.key_seq()[i]] == self.value_seq()[i]);
                if i < p {
                    assert(old_keys[i] == k);
                    assert(old_view[old_keys[i]] == old_vals[i]);
                } else if i > p {
                    assert(old_keys[i - 1] == k);
                    assert(old_view[old_keys[i - 1]] == old_vals[i - 1]);
                }
            }
            assert(self.view() =~= old_view.insert(name@, OverlayLists::empty()));
        }
        p
    }

    /// Appends overlay `name` in `state` to the target at place `idx`.
    pub fn add_overlay(&mut self, idx: usize, state: OverlayState, name: String)
        requires
            idx < old(self).key_seq().len(),
        ensures
            final(self).key_seq() == old(self).key_seq(),
            final(self).view() == old(self).view().insert(
                old(self).key_seq()[idx as int],
                old(self).view()[old(self).key_seq()[idx as int]].with(state, name@),
            ),
    {
        proof {
            use_type_invariant(&*self);
            self.lemma_keys();
        }
        let ghost old_keys = self.key_seq();
        let ghost old_vals = self.value_seq();
        let ghost old_view = self.view();
        let mut entries: Vec<TargetEntry> = Vec::new();
        std::mem::swap(&mut entries, &mut self.entries);
        entries[idx].overlays.add(state, name);
        assert(entries@.map_values(|e: TargetEntry| e.name@) =~= old_keys);
        self.entries = entries;
        proof {
            assert(self.key_seq() =~= old_keys);
            assert(self.value_seq() =~= old_vals.update(idx as int, old_vals[idx as int].with(state, name@)));
            self.lemma_keys();
            let key = old_keys[idx as int];
            assert forall|k: Seq<char>| #[trigger] self.view().contains_key(k) implies self.view()[k]
                == old_view.insert(key, old_view[key].with(state, name@))[k] by {
                let i = self.key_seq().index_of(k);
                assert(self.view()[self.key_seq()[i]] == self.value_seq()[i]);
                assert(old_view[old_keys[i]] == old_vals[i]);
            }
            assert(self.view() =~= old_view.insert(key, old_view[key].with(state, name@)));
        }
    }

    /// Sets the overlays of target `name`, adding the target when it is new.
    pub fn insert(&mut self, name: String, overlays: TargetOverlays)
        ensures
            final(self).view() == old(self).view().insert(name@, overlays@),
    {
        let ghost name_v = name@;
        let idx = self.slot(name);
        proof {
            use_type_invariant(&*self);
            self.lemma_keys();
        }
        let ghost mid_keys = self.key_seq();
        let ghost mid_vals = self.value_seq();
        let ghost mid_view = self.view();
        let mut entries: Vec<TargetEntry> = Vec::new();
        std::mem::swap(&mut entries, &mut self.entries);
        entries[idx].overlays = overlays;
        assert(entries@.map_values(|e: TargetEntry| e.name@) =~= mid_keys);
        self.entries = entries;
        proof {
            assert(self.key_seq() =~= mid_keys);
            assert(self.value_seq() =~= mid_vals.update(idx as int, overlays@));
            self.lemma_keys();
            assert forall|k: Seq<char>| #[trigger] self.view().contains_key(k) implies self.view()[k]
                == mid_view.insert(name_v, overlays@)[k] by {
                let i = self.key_seq().index_of(k);
                assert(self.view()[self.key_seq()[i]] == self.value_seq()[i]);
                assert(mid_view[mid_keys[i]] == mid_vals[i]);
            }
            assert(self.view() =~= mid_view.insert(name_v, overlays@));
            assert(self.view() =~= old(self).view().insert(name_v, overlays@));
        }
    }

    /// Replaces the overlays of the target at place `idx`.
    pub fn replace_at(&mut self, idx: usize, overlays: TargetOverlays)
        requires
            idx < old(self).key_seq().len(),
        ensures
            final(self).key_seq() == old(self).key_seq(),
            final(self).value_seq() == old(self).value_seq().update(idx as int, overlays@),
            final(self).view() == old(self).view().insert(old(self).key_seq()[idx as int], overlays@),
    {
        proof {
            use_type_invariant(&*self);
            self.lemma_keys();
        }
        let ghost old_keys = self.key_seq();
        let ghost old_vals = self.value_seq();
        let ghost old_view = self.view();
        let ghost ov = overlays@;
        let mut entries: Vec<TargetEntry> = Vec::new();
        std::mem::swap(&mut entries, &mut self.entries);
        entries[idx].overlays = overlays;
        assert(entries@.map_values(|e: TargetEntry| e.name@) =~= old_keys);
        self.entries = entries;
        proof {
            assert(self.key_seq() =~= old_keys);
            assert(self.value_seq() =~= old_vals.update(idx as int, ov));
            self.lemma_keys();
            let key = old_keys[idx as int];
            assert forall|k: Seq<char>| #[trigger] self.view().contains_key(k) implies self.view()[k]
                == old_view.insert(key, ov)[k] by {
                let i = self.key_seq().index_of(k);
                assert(self.view()[self.key_seq()[i]] == self.value_seq()[i]);
                assert(old_view[old_keys[i]] == old_vals[i]);
            }
            assert(self.view() =~= old_view.insert(key, ov));
        }
    }

    /// An equal copy of the targets.
    pub fn duplicate(&self) -> (r: Targets)
        ensures
            r.key_seq() == self.key_seq(),
            r.value_seq() == self.value_seq(),
            r.view() == self.view(),
    {
        proof {
            use_type_invariant(self);
        }
        let mut entries: Vec<TargetEntry> = Vec::new();
        let n = self.entries.len();
        let mut i: usize = 0;
        while i < n
            invariant
                n == self.entries@.len(),
                i <= n,
                entries@.len() == i,
                forall|j: int| #![trigger entries@[j]] 0 <= j < i ==> entries@[j].name@ == self.key_seq()[j]
                    && entries@[j].overlays@ == self.value_seq()[j],
                self.key_seq().len() == n,
                self.value_seq().len() == n,
            decreases n - i,
        {
            let e = &self.entries[i];
            let name = e.name.clone();
            assert(name@ == self.key_seq()[i as int]);
            assert(e.overlays@ == self.value_seq()[i as int]);
            let o = e.overlays.duplicate();
            entries.push(TargetEntry { name, overlays: o });
            i = i + 1;
        }
        assert(entries@.map_values(|e: TargetEntry| e.name@) =~= self.key_seq());
        let r = Targets { entries };
        assert(r.key_seq() =~= self.key_seq());
        assert(r.value_seq() =~= self.value_seq());
        assert(r.view() =~= self.view());
        r
    }

    /// There are as many overlay lists as names.
    pub proof fn lemma_value_len(&self)
        ensures
            self.value_seq().len() == self.key_seq().len(),
    {
    }

    /// The `i`-th target in ascending name order, with its overlays.
    pub fn entry(&self, i: usize) -> (r: &TargetEntry)
        requires
            i < self.key_seq().len(),
        ensures
            r.name@ == self.key_seq()[i as int],
            r.overlays@ == self.value_seq()[i as int],
    {
        &self.entries[i]
    }
}

/// The bucket for overlay lines printed before any target header
/// (`cmd overlay list <pkg>` omits the header).
pub const UNGROUPED_TARGET: &'static str = "(ungrouped)";

/// The state that the first three characters of `line` announce, if any.
pub open spec fn prefix_state(line: Seq<char>) -> Option<OverlayState> {
    if line.len() >= 3 && line[0] == '[' && line[1] == 'x' && line[2] == ']' {
        Some(OverlayState::Enabled)
    } else if line.len() >= 3 && line[0] == '[' && line[1] == ' ' && line[2] == ']' {
        Some(OverlayState::Disabled)
    } else if line.len() >= 3 && line[0] == '-' && line[1] == '-' && line[2] == '-' {
        Some(OverlayState::Broken)
    } else {
        None
    }
}

/// The state and overlay name of a status line: `[x]`, `[ ]` or `---`, then a
/// name that is not blank once trimmed.
pub open spec fn status_of(line: Seq<char>) -> Option<(OverlayState, Seq<char>)> {
    match prefix_state(line) {
        Some(state) => if trim(line.skip(3)).len() > 0 {
            Some((state, trim(line.skip(3))))
        } else {
            None
        },
        None => None,
    }
}

/// An ASCII letter or digit, `.` or `_`.
pub open spec fn is_package_char(c: char) -> bool {
    ||| ('a' as int) <= (c as int) <= ('z' as int)
    ||| ('A' as int) <= (c as int) <= ('Z' as int)
    ||| ('0' as int) <= (c as int) <= ('9' as int)
    ||| c == '.'
    ||| c == '_'
}

/// A plausible Android package name: not empty, made of package characters only.
/// No dot is required: the `android` framework package has none.
pub open spec fn is_package_name(s: Seq<char>) -> bool {
    s.len() > 0 && forall|i: int| 0 <= i < s.len() ==> is_package_char(#[trigger] s[i])
}

/// Line `i` opens a group: a package name directly followed by a status line.
pub open spec fn starts_group(lines: Seq<Seq<char>>, i: int) -> bool {
    &&& status_of(lines[i]) is None
    &&& is_package_name(lines[i])
    &&& i + 1 < lines.len()
    &&& status_of(lines[i + 1]) is Some
}

/// The target key that an overlay line goes to while `current` is the open group.
pub open spec fn group_key(current: Option<Seq<char>>) -> Seq<char> {
    match current {
        Some(k) => k,
        None => UNGROUPED_TARGET@,
    }
}

/// The targets gathered from the first `n` lines, and the group open after them.
/// A status line adds its overlay to the open group (the ungrouped bucket when none
/// is open); a line that starts a group opens it; every other line is dropped.
pub open spec fn gather(lines: Seq<Seq<char>>, n: nat) -> (Map<Seq<char>, OverlayLists>, Option<
    Seq<char>,
>)
    decreases n,
{
    if n == 0 || n > lines.len() {
        (Map::empty(), None)
    } else {
        let (m, current) = gather(lines, (n - 1) as nat);
        let i = n - 1;
        match status_of(lines[i]) {
            Some((state, name)) => {
                let key = group_key(current);
                let lists = if m.contains_key(key) {
                    m[key]
                } else {
                    OverlayLists::empty()
                };
                (m.insert(key, lists.with(state, name)), current)
            },
            None => if starts_group(lines, i) {
                (
                    if m.contains_key(lines[i]) {
                        m
                    } else {
                        m.insert(lines[i], OverlayLists::empty())
                    },
                    Some(lines[i]),
                )
            } else {
                (m, current)
            },
        }
    }
}

/// The targets that a listing made of `lines` describes.
pub open spec fn targets_of_lines(lines: Seq<Seq<char>>) -> Map<Seq<char>, OverlayLists> {
    gather(lines, lines.len()).0
}

/// The targets that the output `bytes` of `cmd overlay list` describes.
pub open spec fn targets_of_output(bytes: Seq<u8>) -> Map<Seq<char>, OverlayLists> {
    targets_of_lines(significant_lines(utf8_lossy(bytes)))
}

/// The state and name bounds of the status line `v[lo..hi]`, if it is one.
fn status_prefix(v: &Vec<char>, lo: usize, hi: usize) -> (r: Option<(OverlayState, usize, usize)>)
    requires
        lo <= hi <= v@.len(),
    ensures
        match r {
            Some((state, a, b)) => lo <= a <= b <= hi && status_of(
                v@.subrange(lo as int, hi as int),
            ) == Some((state, v@.subrange(a as int, b as int))),
            None => status_of(v@.subrange(lo as int, hi as int)) is None,
        },
{
    let ghost line = v@.subrange(lo as int, hi as int);
    if hi - lo < 3 {
        return None;
    }
    let (c0, c1, c2) = (v[lo], v[lo + 1], v[lo + 2]);
    assert(line[0] == c0 && line[1] == c1 && line[2] == c2);
    let state = if c0 == '[' && c1 == 'x' && c2 == ']' {
        OverlayState::Enabled
    } else if c0 == '[' && c1 == ' ' && c2 == ']' {
        OverlayState::Disabled
    } else if c0 == '-' && c1 == '-' && c2 == '-' {
        OverlayState::Broken
    } else {
        return None;
    };
    let (a, b) = trim_bounds(v, lo + 3, hi);
    assert(line.skip(3) =~= v@.subrange(lo + 3, hi as int));
    if a < b {
        Some((state, a, b))
    } else {
        None
    }
}

/// Whether `v[lo..hi]` is a plausible package name.
fn package_name_at(v: &Vec<char>, lo: usize, hi: usize) -> (b: bool)
    requires
        lo <= hi <= v@.len(),
    ensures
        b == is_package_name(v@.subrange(lo as int, hi as int)),
{
    if lo == hi {
        return false;
    }
    let mut i = lo;
    while i < hi
        invariant
            lo <= i <= hi <= v@.len(),
            forall|j: int| lo <= j < i ==> is_package_char(#[trigger] v@[j]),
        decreases hi - i,
    {
        let c = v[i];
        let ok = ('a' <= c && c <= 'z') || ('A' <= c && c <= 'Z') || ('0' <= c && c <= '9') || c
            == '.' || c == '_';
        if !ok {
            assert(v@.subrange(lo as int, hi as int)[i - lo] == c);
            return false;
        }
        i = i + 1;
    }
    assert forall|j: int| 0 <= j < hi - lo implies is_package_char(
        #[trigger] v@.subrange(lo as int, hi as int)[j],
    ) by {
        assert(v@.subrange(lo as int, hi as int)[j] == v@[lo + j]);
    }
    true
}

/// The text of an optional string.
pub open spec fn opt_text(o: Option<String>) -> Option<Seq<char>> {
    match o {
        Some(s) => Some(s@),
        None => None,
    }
}

/// Parses `cmd overlay list` output into targets grouped by package. A bare line
/// starts a group only when a status line follows it (AOSP's `runList()` grammar),
/// which keeps words of usage text from becoming targets.
pub fn parse_overlays(bytes: &[u8]) -> (r: Targets)
    ensures
        r.view() == targets_of_output(bytes@),
{
    let chars = decode_lossy(bytes);
    let bounds = significant_line_bounds(&chars);
    let ghost lines = significant_lines(chars@);
    let mut targets = Targets::new();
    let mut current: Option<String> = None;
    let n = bounds.len();
    for k in 0..n
        invariant
            n == bounds@.len() == lines.len(),
            lines == significant_lines(chars@),
            forall|j: int| 0 <= j < n ==> #[trigger] bounds@[j].0 <= bounds@[j].1 <= chars@.len(),
            forall|j: int|
                0 <= j < n ==> chars@.subrange(bounds@[j].0 as int, bounds@[j].1 as int)
                    == #[trigger] lines[j],
            (targets.view(), opt_text(current)) == gather(lines, k as nat),
    {
        let (lo, hi) = bounds[k];
        assert(bounds@[k as int].0 <= bounds@[k as int].1);
        assert(chars@.subrange(lo as int, hi as int) == lines[k as int]);
        match status_prefix(&chars, lo, hi) {
            Some((state, a, b)) => {
                let key = match &current {
                    Some(c) => c.clone(),
                    None => UNGROUPED_TARGET.to_owned(),
                };
                assert(key@ == group_key(opt_text(current)));
                let ghost before = targets.view();
                let idx = targets.slot(key);
                let name = string_of_range(&chars, a, b);
                targets.add_overlay(idx, state, name);
            },
            None => {
                let mut opens = false;
                if k + 1 < n && package_name_at(&chars, lo, hi) {
                    let (lo2, hi2) = bounds[k + 1];
                    assert(bounds@[k + 1].0 <= bounds@[k + 1].1);
                    assert(chars@.subrange(lo2 as int, hi2 as int) == lines[k + 1]);
                    opens = status_prefix(&chars, lo2, hi2).is_some();
                }
                if opens {
                    let name = string_of_range(&chars, lo, hi);
                    current = Some(name.clone());
                    targets.slot(name);
                }
            },
        }
    }
    targets
}

/// Every overlay name in `l` is non-empty.
pub open spec fn names_nonblank(l: OverlayLists) -> bool {
    &&& forall|i: int| 0 <= i < l.enabled.len() ==> #[trigger] l.enabled[i].len() > 0
    &&& forall|i: int| 0 <= i < l.disabled.len() ==> #[trigger] l.disabled[i].len() > 0
    &&& forall|i: int| 0 <= i < l.broken.len() ==> #[trigger] l.broken[i].len() > 0
}

/// `k` is the ungrouped bucket, or a line of `lines` before line `n` that starts a group.
pub open spec fn is_group_name(lines: Seq<Seq<char>>, n: nat, k: Seq<char>) -> bool {
    k == UNGROUPED_TARGET@ || exists|i: int| 0 <= i < n && #[trigger] lines[i] == k && starts_group(lines, i)
}

/// Targets come only from group headers or from the ungrouped bucket, so warnings,
/// tool errors and usage text never become targets; every overlay name is non-empty.
pub proof fn lemma_gather_shape(lines: Seq<Seq<char>>, n: nat)
    requires
        n <= lines.len(),
    ensures
        forall|k: Seq<char>| #[trigger] gather(lines, n).0.contains_key(k) ==> is_group_name(lines, n, k),
        forall|k: Seq<char>| #[trigger] gather(lines, n).0.contains_key(k) ==> names_nonblank(gather(lines, n).0[k]),
        gather(lines, n).1 matches Some(c) ==> is_group_name(lines, n, c),
    decreases n,
{
    if n > 0 {
        lemma_gather_shape(lines, (n - 1) as nat);
        let (m, current) = gather(lines, (n - 1) as nat);
        let i = n - 1;
        assert forall|k: Seq<char>| is_group_name(lines, (n - 1) as nat, k) implies is_group_name(lines, n, k) by {
            if k != UNGROUPED_TARGET@ {
                let j = choose|j: int| 0 <= j < n - 1 && #[trigger] lines[j] == k && starts_group(lines, j);
                assert(lines[j] == k);
            }
        }
        match status_of(lines[i]) {
            Some((state, name)) => {
                let key = group_key(current);
                assert(is_group_name(lines, n, key));
                let lists = if m.contains_key(key) { m[key] } else { OverlayLists::empty() };
                assert(names_nonblank(lists.with(state, name)));
            },
            None => {
                if starts_group(lines, i) {
                    assert(lines[i] == lines[i]);
                    assert(is_group_name(lines, n, lines[i]));
                }
            },
        }
    }
}

/// Every target that a listing yields is a group header or the ungrouped bucket,
/// and no overlay name is empty.
pub proof fn lemma_parsed_targets_shape(bytes: Seq<u8>)
    ensures
        forall|k: Seq<char>| #[trigger] targets_of_output(bytes).contains_key(k) ==> k == UNGROUPED_TARGET@
            || is_package_name(k),
        forall|k: Seq<char>| #[trigger] targets_of_output(bytes).contains_key(k) ==> names_nonblank(
            targets_of_output(bytes)[k],
        ),
{
    let lines = significant_lines(utf8_lossy(bytes));
    lemma_gather_shape(lines, lines.len());
    assert forall|k: Seq<char>| #[trigger] targets_of_output(bytes).contains_key(k) implies k
        == UNGROUPED_TARGET@ || is_package_name(k) by {
        if k != UNGROUPED_TARGET@ {
            let j = choose|j: int| 0 <= j < lines.len() && #[trigger] lines[j] == k && starts_group(lines, j);
            assert(starts_group(lines, j));
        }
    }
}

/// The names of the lines before line `n` that start a group.
pub open spec fn header_keys(lines: Seq<Seq<char>>, n: nat) -> Set<Seq<char>> {
    Set::new(|k: Seq<char>| exists|i: int| 0 <= i < n && #[trigger] lines[i] == k && starts_group(lines, i))
}

/// Some status line before line `n` comes before every line that starts a group.
pub open spec fn orphan_before(lines: Seq<Seq<char>>, n: nat) -> bool {
    exists|j: int|
        0 <= j < n && #[trigger] status_of(lines[j]) is Some && forall|i: int| 0 <= i < j ==> !starts_group(lines, i)
}

/// The group open before line `n`: the last line before it that starts a group.
pub open spec fn open_before(lines: Seq<Seq<char>>, n: nat) -> Option<Seq<char>>
    decreases n,
{
    if n == 0 {
        None
    } else if starts_group(lines, n - 1) {
        Some(lines[n - 1])
    } else {
        open_before(lines, (n - 1) as nat)
    }
}

/// The names of the status lines before line `n` that announce `state` while
/// target `k` is the group they go to, in the order of the lines.
pub open spec fn picked(lines: Seq<Seq<char>>, n: nat, k: Seq<char>, state: OverlayState) -> Seq<Seq<char>>
    decreases n,
{
    if n == 0 {
        Seq::empty()
    } else {
        let p = picked(lines, (n - 1) as nat, k, state);
        match status_of(lines[n - 1]) {
            Some((s, name)) => if s == state && group_key(open_before(lines, (n - 1) as nat)) == k {
                p.push(name)
            } else {
                p
            },
            None => p,
        }
    }
}

/// The overlays that the lines before line `n` give target `k`.
pub open spec fn lists_of(lines: Seq<Seq<char>>, n: nat, k: Seq<char>) -> OverlayLists {
    OverlayLists {
        enabled: picked(lines, n, k, OverlayState::Enabled),
        disabled: picked(lines, n, k, OverlayState::Disabled),
        broken: picked(lines, n, k, OverlayState::Broken),
    }
}

/// The overlays of `k` in `m`, none when it is not a target.
pub open spec fn lists_in(m: Map<Seq<char>, OverlayLists>, k: Seq<char>) -> OverlayLists {
    if m.contains_key(k) {
        m[k]
    } else {
        OverlayLists::empty()
    }
}

/// The targets that `keys` lists, bucket first, from the header names and the
/// ungrouped bucket when some overlay came before every header.
pub open spec fn expected_keys(lines: Seq<Seq<char>>, n: nat) -> Set<Seq<char>> {
    if orphan_before(lines, n) {
        header_keys(lines, n).insert(UNGROUPED_TARGET@)
    } else {
        header_keys(lines, n)
    }
}

/// No group is open before line `n` exactly when no line before it starts one.
proof fn lemma_open_before_none(lines: Seq<Seq<char>>, n: nat)
    ensures
        open_before(lines, n) is None <==> forall|i: int| 0 <= i < n ==> !starts_group(lines, i),
    decreases n,
{
    if n > 0 {
        lemma_open_before_none(lines, (n - 1) as nat);
    }
}

/// The headers before line `n`, from those before line `n - 1`.
proof fn lemma_header_step(lines: Seq<Seq<char>>, n: nat)
    requires
        n > 0,
    ensures
        header_keys(lines, n) == (if starts_group(lines, n - 1) {
            header_keys(lines, (n - 1) as nat).insert(lines[n - 1])
        } else {
            header_keys(lines, (n - 1) as nat)
        }),
{
    let i = n - 1;
    let pn = (n - 1) as nat;
    if starts_group(lines, i) {
        assert forall|k: Seq<char>| header_keys(lines, pn).insert(lines[i]).contains(k) implies header_keys(
            lines,
            n,
        ).contains(k) by {
            if k == lines[i] {
                assert(lines[i] == k);
            } else {
                let j = choose|j: int| 0 <= j < pn && #[trigger] lines[j] == k && starts_group(lines, j);
                assert(lines[j] == k);
            }
        }
        assert forall|k: Seq<char>| header_keys(lines, n).contains(k) implies header_keys(lines, pn).insert(
            lines[i],
        ).contains(k) by {
            let j = choose|j: int| 0 <= j < n && #[trigger] lines[j] == k && starts_group(lines, j);
            if j != i {
                assert(lines[j] == k);
            }
        }
        assert(header_keys(lines, n) =~= header_keys(lines, pn).insert(lines[i]));
    } else {
        assert forall|k: Seq<char>| header_keys(lines, n).contains(k) implies header_keys(lines, pn).contains(k) by {
            let j = choose|j: int| 0 <= j < n && #[trigger] lines[j] == k && starts_group(lines, j);
            assert(j != i);
            assert(lines[j] == k);
        }
        assert forall|k: Seq<char>| header_keys(lines, pn).contains(k) implies header_keys(lines, n).contains(k) by {
            let j = choose|j: int| 0 <= j < pn && #[trigger] lines[j] == k && starts_group(lines, j);
            assert(lines[j] == k);
        }
        assert(header_keys(lines, n) =~= header_keys(lines, pn));
    }
}

/// Whether a status line came before every header, from line `n - 1` on.
proof fn lemma_orphan_step(lines: Seq<Seq<char>>, n: nat)
    requires
        n > 0,
    ensures
        orphan_before(lines, n) == (orphan_before(lines, (n - 1) as nat) || (status_of(lines[n - 1]) is Some
            && open_before(lines, (n - 1) as nat) is None)),
{
    let i = n - 1;
    let pn = (n - 1) as nat;
    lemma_open_before_none(lines, pn);
    if orphan_before(lines, n) {
        let j = choose|j: int|
            0 <= j < n && #[trigger] status_of(lines[j]) is Some && forall|a: int| 0 <= a < j ==> !starts_group(lines, a);
        if j < i {
            assert(orphan_before(lines, pn));
        }
    }
    if orphan_before(lines, pn) {
        let j = choose|j: int|
            0 <= j < pn && #[trigger] status_of(lines[j]) is Some && forall|a: int| 0 <= a < j ==> !starts_group(lines, a);
        assert(status_of(lines[j]) is Some);
    }
    if status_of(lines[i]) is Some && open_before(lines, pn) is None {
        assert(status_of(lines[i]) is Some);
    }
}

/// The lists that the lines before line `n` give target `k`, from line `n - 1` on.
proof fn lemma_lists_step(lines: Seq<Seq<char>>, n: nat, k: Seq<char>)
    requires
        n > 0,
    ensures
        lists_of(lines, n, k) == (match status_of(lines[n - 1]) {
            Some((state, name)) => if group_key(open_before(lines, (n - 1) as nat)) == k {
                lists_of(lines, (n - 1) as nat, k).with(state, name)
            } else {
                lists_of(lines, (n - 1) as nat, k)
            },
            None => lists_of(lines, (n - 1) as nat, k),
        }),
{
    assert(lists_of(lines, n, k) =~= (match status_of(lines[n - 1]) {
        Some((state, name)) => if group_key(open_before(lines, (n - 1) as nat)) == k {
            lists_of(lines, (n - 1) as nat, k).with(state, name)
        } else {
            lists_of(lines, (n - 1) as nat, k)
        },
        None => lists_of(lines, (n - 1) as nat, k),
    }));
}

/// Gathering the first `n` lines: the open group is the last header so far; the
/// targets are exactly the headers, with the ungrouped bucket when a status line
/// came before every header; and each target's lists hold, in line order, the
/// names of the status lines that went to it, by state.
pub proof fn lemma_gather_exact(lines: Seq<Seq<char>>, n: nat)
    requires
        n <= lines.len(),
    ensures
        gather(lines, n).1 == open_before(lines, n),
        gather(lines, n).0.dom() == expected_keys(lines, n),
        forall|k: Seq<char>| #[trigger] lists_in(gather(lines, n).0, k) == lists_of(lines, n, k),
    decreases n,
{
    if n == 0 {
        assert(header_keys(lines, 0) =~= Set::<Seq<char>>::empty());
        assert(gather(lines, 0).0.dom() =~= expected_keys(lines, 0));
        assert forall|k: Seq<char>| #[trigger] lists_in(gather(lines, n).0, k) == lists_of(lines, n, k) by {
            assert(lists_of(lines, 0, k) =~= OverlayLists::empty());
        }
    } else {
        let i = (n - 1) as int;
        let pn = (n - 1) as nat;
        lemma_gather_exact(lines, pn);
        lemma_header_step(lines, n);
        lemma_orphan_step(lines, n);
        lemma_open_before_header(lines, pn);
        let m = gather(lines, pn).0;
        let m2 = gather(lines, n).0;
        assert forall|k: Seq<char>| #[trigger] lists_in(m2, k) == lists_of(lines, n, k) by {
            lemma_lists_step(lines, n, k);
            assert(lists_in(m, k) == lists_of(lines, pn, k));
        }
        assert(m2.dom() =~= expected_keys(lines, n));
    }
}

/// The open group is one of the headers before it.
proof fn lemma_open_before_header(lines: Seq<Seq<char>>, n: nat)
    requires
        n <= lines.len(),
    ensures
        open_before(lines, n) matches Some(c) ==> header_keys(lines, n).contains(c),
    decreases n,
{
    if n > 0 {
        lemma_open_before_header(lines, (n - 1) as nat);
        if starts_group(lines, n - 1) {
            assert(lines[n - 1] == lines[n - 1]);
        } else if open_before(lines, n) is Some {
            let c = open_before(lines, n)->0;
            let j = choose|j: int| 0 <= j < n - 1 && #[trigger] lines[j] == c && starts_group(lines, j);
            assert(lines[j] == c);
        }
    }
}

/// The targets of a listing are exactly its group headers (package-name lines
/// directly followed by a status line), with the ungrouped bucket when a status
/// line comes before every header; each target's lists hold, in line order, the
/// names of the status lines that went to it (to the last header above them, or to
/// the bucket), by state.
pub proof fn lemma_parsed_targets_exact(bytes: Seq<u8>)
    ensures
        targets_of_output(bytes).dom() == expected_keys(
            significant_lines(utf8_lossy(bytes)),
            significant_lines(utf8_lossy(bytes)).len(),
        ),
        forall|k: Seq<char>|
            #[trigger] lists_in(targets_of_output(bytes), k) == lists_of(
                significant_lines(utf8_lossy(bytes)),
                significant_lines(utf8_lossy(bytes)).len(),
                k,
            ),
{
    let lines = significant_lines(utf8_lossy(bytes));
    lemma_gather_exact(lines, lines.len());
}

/// How many of the first `n` lines are status lines.
pub open spec fn status_count(lines: Seq<Seq<char>>, n: nat) -> nat
    decreases n,
{
    if n == 0 {
        0
    } else {
        status_count(lines, (n - 1) as nat) + (if status_of(lines[n - 1]) is Some {
            1nat
        } else {
            0nat
        })
    }
}

/// The target that status line `j` goes to.
pub open spec fn owner(lines: Seq<Seq<char>>, j: nat) -> Seq<char> {
    group_key(open_before(lines, j))
}

/// How many of the first `n` lines are status lines going to a target of `s`.
pub open spec fn owned_count(lines: Seq<Seq<char>>, n: nat, s: Set<Seq<char>>) -> nat
    decreases n,
{
    if n == 0 {
        0
    } else {
        owned_count(lines, (n - 1) as nat, s) + (if status_of(lines[n - 1]) is Some && s.contains(
            owner(lines, (n - 1) as nat),
        ) {
            1nat
        } else {
            0nat
        })
    }
}

/// The overlays, all states together, that `m` holds for the targets `keys`.
pub open spec fn sum_totals(m: Map<Seq<char>, OverlayLists>, keys: Seq<Seq<char>>) -> nat
    decreases keys.len(),
{
    if keys.len() == 0 {
        0
    } else {
        lists_in(m, keys[0]).total() + sum_totals(m, keys.drop_first())
    }
}

/// The overlays that the first `n` lines give the targets `keys`.
spec fn lines_sum(lines: Seq<Seq<char>>, n: nat, keys: Seq<Seq<char>>) -> nat
    decreases keys.len(),
{
    if keys.len() == 0 {
        0
    } else {
        lists_of(lines, n, keys[0]).total() + lines_sum(lines, n, keys.drop_first())
    }
}

proof fn lemma_lines_sum_step(lines: Seq<Seq<char>>, n: nat, keys: Seq<Seq<char>>)
    requires
        n > 0,
        keys.no_duplicates(),
    ensures
        lines_sum(lines, n, keys) == lines_sum(lines, (n - 1) as nat, keys) + (if status_of(lines[n - 1]) is Some
            && keys.contains(owner(lines, (n - 1) as nat)) {
            1nat
        } else {
            0nat
        }),
    decreases keys.len(),
{
    if keys.len() > 0 {
        let rest = keys.drop_first();
        assert(rest.no_duplicates()) by {
            assert forall|a: int, b: int| 0 <= a < rest.len() && 0 <= b < rest.len() && a != b implies rest[a]
                != rest[b] by {
                assert(rest[a] == keys[a + 1] && rest[b] == keys[b + 1]);
            }
        }
        lemma_lines_sum_step(lines, n, rest);
        lemma_lists_step(lines, n, keys[0]);
        let o = owner(lines, (n - 1) as nat);
        assert(keys.contains(o) == (keys[0] == o || rest.contains(o))) by {
            if keys.contains(o) {
                let j = choose|j: int| 0 <= j < keys.len() && keys[j] == o;
                if j > 0 {
                    assert(rest[j - 1] == o);
                }
            }
            if rest.contains(o) {
                let j = choose|j: int| 0 <= j < rest.len() && rest[j] == o;
                assert(keys[j + 1] == o);
            }
        }
        if keys[0] == o && rest.contains(o) {
            let j = choose|j: int| 0 <= j < rest.len() && rest[j] == o;
            assert(keys[j + 1] == keys[0]);
        }
    }
}

proof fn lemma_lines_sum_empty(lines: Seq<Seq<char>>, keys: Seq<Seq<char>>)
    ensures
        lines_sum(lines, 0, keys) == 0,
    decreases keys.len(),
{
    if keys.len() > 0 {
        lemma_lines_sum_empty(lines, keys.drop_first());
    }
}

proof fn lemma_lines_sum_owned(lines: Seq<Seq<char>>, n: nat, keys: Seq<Seq<char>>)
    requires
        keys.no_duplicates(),
    ensures
        lines_sum(lines, n, keys) == owned_count(lines, n, keys.to_set()),
    decreases n,
{
    if n == 0 {
        lemma_lines_sum_empty(lines, keys);
    } else {
        lemma_lines_sum_owned(lines, (n - 1) as nat, keys);
        lemma_lines_sum_step(lines, n, keys);
        let o = owner(lines, (n - 1) as nat);
        assert(keys.to_set().contains(o) == keys.contains(o));
    }
}

proof fn lemma_owned_all(lines: Seq<Seq<char>>, n: nat, s: Set<Seq<char>>)
    requires
        forall|j: nat| j < n && #[trigger] status_of(lines[j as int]) is Some ==> s.contains(owner(lines, j)),
    ensures
        owned_count(lines, n, s) == status_count(lines, n),
    decreases n,
{
    if n > 0 {
        lemma_owned_all(lines, (n - 1) as nat, s);
        let j = (n - 1) as nat;
        if status_of(lines[j as int]) is Some {
            assert(s.contains(owner(lines, j)));
        }
    }
}

/// Every status line goes to one of the targets.
proof fn lemma_owner_listed(lines: Seq<Seq<char>>, j: nat, n: nat)
    requires
        j < n <= lines.len(),
        status_of(lines[j as int]) is Some,
    ensures
        expected_keys(lines, n).contains(owner(lines, j)),
{
    lemma_open_before_none(lines, j);
    lemma_open_before_header(lines, j);
    match open_before(lines, j) {
        Some(c) => {
            let h = choose|i: int| 0 <= i < j && #[trigger] lines[i] == c && starts_group(lines, i);
            assert(lines[h] == c);
            assert(header_keys(lines, n).contains(c));
        },
        None => {
            assert(status_of(lines[j as int]) is Some);
            assert(orphan_before(lines, n));
        },
    }
}

/// No status line of a listing is dropped or counted twice: over the targets,
/// each once, the overlays add up to the number of status lines.
pub proof fn lemma_parsed_totals(bytes: Seq<u8>, keys: Seq<Seq<char>>)
    requires
        keys.no_duplicates(),
        keys.to_set() == targets_of_output(bytes).dom(),
    ensures
        sum_totals(targets_of_output(bytes), keys) == status_count(
            significant_lines(utf8_lossy(bytes)),
            significant_lines(utf8_lossy(bytes)).len(),
        ),
{
    let lines = significant_lines(utf8_lossy(bytes));
    let n = lines.len();
    let m = targets_of_output(bytes);
    lemma_gather_exact(lines, n);
    lemma_sum_totals_lines(m, lines, n, keys);
    lemma_lines_sum_owned(lines, n, keys);
    assert forall|j: nat| j < n && #[trigger] status_of(lines[j as int]) is Some implies keys.to_set().contains(
        owner(lines, j),
    ) by {
        lemma_owner_listed(lines, j, n);
    }
    lemma_owned_all(lines, n, keys.to_set());
}

proof fn lemma_sum_totals_lines(
    m: Map<Seq<char>, OverlayLists>,
    lines: Seq<Seq<char>>,
    n: nat,
    keys: Seq<Seq<char>>,
)
    requires
        forall|k: Seq<char>| #[trigger] lists_in(m, k) == lists_of(lines, n, k),
    ensures
        sum_totals(m, keys) == lines_sum(lines, n, keys),
    decreases keys.len(),
{
    if keys.len() > 0 {
        lemma_sum_totals_lines(m, lines, n, keys.drop_first());
        assert(lists_in(m, keys[0]) == lists_of(lines, n, keys[0]));
    }
}

/// The list of `l` that holds overlays in `state`.
pub open spec fn list_of_state(l: OverlayLists, state: OverlayState) -> Seq<Seq<char>> {
    match state {
        OverlayState::Enabled => l.enabled,
        OverlayState::Disabled => l.disabled,
        OverlayState::Broken => l.broken,
    }
}

/// An ASCII letter or digit, `.` or `_`, spelled out by character code.
pub open spec fn ascii_ident_char(c: char) -> bool {
    ||| 48 <= (c as int) <= 57
    ||| 65 <= (c as int) <= 90
    ||| 97 <= (c as int) <= 122
    ||| (c as int) == 46
    ||| (c as int) == 95
}

/// A package name is exactly a non-empty run of ASCII letters, digits, `.` and `_`.
pub proof fn lemma_package_name_chars(s: Seq<char>)
    ensures
        is_package_name(s) <==> (s.len() > 0 && forall|i: int| 0 <= i < s.len() ==> ascii_ident_char(#[trigger] s[i])),
{
    assert forall|c: char| is_package_char(c) <==> ascii_ident_char(c) by {
        assert(('a' as int) == 97 && ('z' as int) == 122 && ('A' as int) == 65 && ('Z' as int) == 90);
        assert(('0' as int) == 48 && ('9' as int) == 57 && ('.' as int) == 46 && ('_' as int) == 95);
    }
    if s.len() > 0 && forall|i: int| 0 <= i < s.len() ==> ascii_ident_char(#[trigger] s[i]) {
        assert forall|i: int| 0 <= i < s.len() implies is_package_char(#[trigger] s[i]) by {
            assert(ascii_ident_char(s[i]));
        }
    }
    if is_package_name(s) {
        assert forall|i: int| 0 <= i < s.len() implies ascii_ident_char(#[trigger] s[i]) by {
            assert(is_package_char(s[i]));
        }
    }
}

/// A name picked before line `m` is still picked before any later line.
proof fn lemma_picked_grows(lines: Seq<Seq<char>>, m: nat, n: nat, k: Seq<char>, state: OverlayState, x: Seq<char>)
    requires
        m <= n,
        picked(lines, m, k, state).contains(x),
    ensures
        picked(lines, n, k, state).contains(x),
    decreases n,
{
    if n > m {
        lemma_picked_grows(lines, m, (n - 1) as nat, k, state, x);
        let p = picked(lines, (n - 1) as nat, k, state);
        let j = choose|j: int| 0 <= j < p.len() && p[j] == x;
        match status_of(lines[n - 1]) {
            Some((st, name)) => {
                if st == state && group_key(open_before(lines, (n - 1) as nat)) == k {
                    assert(p.push(name)[j] == x);
                }
            },
            None => {},
        }
    }
}

/// A line of ASCII letters, digits, `.` and `_` directly followed by a status line
/// opens a target of that name, and the overlay of that status line lands in the
/// target's list for its state.
pub proof fn lemma_package_header_opens_target(lines: Seq<Seq<char>>, i: int)
    requires
        0 <= i,
        i + 1 < lines.len(),
        lines[i].len() > 0,
        forall|j: int| 0 <= j < lines[i].len() ==> ascii_ident_char(#[trigger] lines[i][j]),
        status_of(lines[i + 1]) is Some,
    ensures
        targets_of_lines(lines).contains_key(lines[i]),
        status_of(lines[i + 1]) matches Some((st, name)) ==> list_of_state(
            targets_of_lines(lines)[lines[i]],
            st,
        ).contains(name),
{
    let h = lines[i];
    let n = lines.len();
    lemma_package_name_chars(h);
    assert(ascii_ident_char(h[0]));
    assert(prefix_state(h) is None);
    assert(starts_group(lines, i));
    lemma_gather_exact(lines, n);
    assert(header_keys(lines, n).contains(h)) by {
        assert(lines[i] == h);
    }
    assert(gather(lines, n).0.dom().contains(h));
    let (st, name) = status_of(lines[i + 1])->0;
    assert(open_before(lines, (i + 1) as nat) == Some(h));
    let p1 = picked(lines, (i + 1) as nat, h, st);
    assert(picked(lines, (i + 2) as nat, h, st) == p1.push(name));
    assert(p1.push(name)[p1.len() as int] == name);
    lemma_picked_grows(lines, (i + 2) as nat, n, h, st, name);
    assert(lists_in(gather(lines, n).0, h) == lists_of(lines, n, h));
    assert(list_of_state(lists_of(lines, n, h), st) == picked(lines, n, h, st));
}

/// A status line is `[x]`, `[ ]` or `---` followed by a name that is not blank:
/// `[x]` announces an enabled overlay, `[ ]` a disabled one and `---` a broken one,
/// and the name is what follows the marker, trimmed; any other line is no status line.
pub proof fn lemma_status_markers(line: Seq<char>)
    ensures
        line.len() >= 3 && line[0] == '[' && line[1] == 'x' && line[2] == ']' && trim(line.skip(3)).len() > 0
            ==> status_of(line) == Some((OverlayState::Enabled, trim(line.skip(3)))),
        line.len() >= 3 && line[0] == '[' && line[1] == ' ' && line[2] == ']' && trim(line.skip(3)).len() > 0
            ==> status_of(line) == Some((OverlayState::Disabled, trim(line.skip(3)))),
        line.len() >= 3 && line[0] == '-' && line[1] == '-' && line[2] == '-' && trim(line.skip(3)).len() > 0
            ==> status_of(line) == Some((OverlayState::Broken, trim(line.skip(3)))),
        status_of(line) is Some ==> line.len() >= 3 && trim(line.skip(3)).len() > 0 && ((line[0] == '['
            && line[2] == ']' && (line[1] == 'x' || line[1] == ' ')) || (line[0] == '-' && line[1] == '-'
            && line[2] == '-')),
{
}

} // verus!
