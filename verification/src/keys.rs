//! The key hints that the footers and the about screen show.

use vstd::prelude::*;

verus! {

/// A key and what it does.
#[derive(Clone, Copy, Debug)]
pub struct Hint {
    pub key: &'static str,
    pub desc: &'static str,
}

/// The hint for `key` doing `desc`.
pub fn hint(key: &'static str, desc: &'static str) -> (h: Hint)
    ensures
        h.key == key,
        h.desc == desc,
{
    Hint { key, desc }
}

/// A hint as its two texts: the key and what it does.
pub open spec fn hint_text(h: Hint) -> (Seq<char>, Seq<char>) {
    (h.key@, h.desc@)
}

/// The texts of a table of hints, in order.
pub open spec fn table_text(v: Seq<Hint>) -> Seq<(Seq<char>, Seq<char>)> {
    v.map_values(|h: Hint| hint_text(h))
}

/// The footer hints of the targets screen on a narrow terminal.
pub fn targets_narrow() -> (v: Vec<Hint>)
    ensures
        table_text(v@) == seq![
            ("j/k"@, "move"@),
            ("r"@, "refresh"@),
            ("\u{23ce}"@, "open"@),
            ("q"@, "quit"@),
        ],
{
    vec![
        hint("j/k", "move"),
        hint("r", "refresh"),
        hint("\u{23ce}", "open"),
        hint("q", "quit"),
    ]
}

/// The footer hints of the targets screen on a wide terminal.
pub fn targets_wide() -> (v: Vec<Hint>)
    ensures
        table_text(v@) == seq![
            ("j/k"@, "move"@),
            ("\u{23ce}"@, "open"@),
            ("r"@, "refresh"@),
            ("a"@, "about"@),
            ("q"@, "quit"@),
        ],
{
    vec![
        hint("j/k", "move"),
        hint("\u{23ce}", "open"),
        hint("r", "refresh"),
        hint("a", "about"),
        hint("q", "quit"),
    ]
}

/// The footer hints of the detail screen on a narrow terminal.
pub fn detail_narrow() -> (v: Vec<Hint>)
    ensures
        table_text(v@) == seq![
            ("j/k"@, "move"@),
            ("Spc"@, "toggle"@),
            ("Esc"@, "back"@),
        ],
{
    vec![hint("j/k", "move"), hint("Spc", "toggle"), hint("Esc", "back")]
}

/// The footer hints of the detail screen on a wide terminal.
pub fn detail_wide() -> (v: Vec<Hint>)
    ensures
        table_text(v@) == seq![
            ("j/k"@, "move"@),
            ("Spc"@, "toggle"@),
            ("\u{23ce}"@, "apply+back"@),
            ("Esc"@, "back"@),
            ("q"@, "quit"@),
        ],
{
    vec![
        hint("j/k", "move"),
        hint("Spc", "toggle"),
        hint("\u{23ce}", "apply+back"),
        hint("Esc", "back"),
        hint("q", "quit"),
    ]
}

/// The footer hints of the about screen.
pub fn about() -> (v: Vec<Hint>)
    ensures
        table_text(v@) == seq![
            ("j/k"@, "scroll"@),
            ("g/G"@, "top/bottom"@),
            ("a / Esc"@, "back"@),
            ("q"@, "quit"@),
        ],
{
    vec![hint("j/k", "scroll"), hint("g/G", "top/bottom"), hint("a / Esc", "back"), hint("q", "quit")]
}

/// The footer hints of an empty list.
pub fn empty() -> (v: Vec<Hint>)
    ensures
        table_text(v@) == seq![("q"@, "quit"@)],
{
    vec![hint("q", "quit")]
}

/// How many rows the keyboard reference has.
pub const REFERENCE_LEN: u16 = 10;

/// The keyboard reference of the about screen.
pub fn reference() -> (v: Vec<Hint>)
    ensures
        v@.len() == REFERENCE_LEN,
        table_text(v@) == seq![
            ("j / k  \u{2191} / \u{2193}"@, "move cursor / scroll"@),
            ("g / G"@, "jump to first / last  (Home / End)"@),
            ("PgUp / PgDn"@, "page up / down  (Ctrl-u / Ctrl-d: half)"@),
            ("h / l  \u{2190} / \u{2192}"@, "go back / open"@),
            ("Space"@, "toggle overlay state"@),
            ("Enter"@, "open detail / apply changes"@),
            ("r"@, "refresh overlay list"@),
            ("wheel"@, "move cursor / scroll (mouse)"@),
            ("Esc / a"@, "go back"@),
            ("q"@, "quit AOVR"@),
        ],
{
    vec![
        hint("j / k  \u{2191} / \u{2193}", "move cursor / scroll"),
        hint("g / G", "jump to first / last  (Home / End)"),
        hint("PgUp / PgDn", "page up / down  (Ctrl-u / Ctrl-d: half)"),
        hint("h / l  \u{2190} / \u{2192}", "go back / open"),
        hint("Space", "toggle overlay state"),
        hint("Enter", "open detail / apply changes"),
        hint("r", "refresh overlay list"),
        hint("wheel", "move cursor / scroll (mouse)"),
        hint("Esc / a", "go back"),
        hint("q", "quit AOVR"),
    ]
}

} // verus!
