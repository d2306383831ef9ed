//! The decisions around `cmd overlay` run through `su -c` on a device, and the
//! in-memory replay of a recorded list ("virtual mode") on hosts that are not Android.

use vstd::prelude::*;
use crate::parsers::{
    parse_overlays, strictly_ascending, targets_of_output, texts, OverlayLists, TargetOverlays, Targets,
};
use crate::text::{
    chars_of, contains_in_range, contains_run, decode_lossy, int_chars, int_text, piece_bounds,
    push_range, push_text, split_newlines, string_from_chars, trim, trim_bounds, utf8_lossy,
};

verus! {

/// What a finished command left behind.
#[derive(Debug)]
pub struct CommandOutput {
    /// The exit code; `None` when a signal ended the command.
    pub exit_code: Option<i32>,
    pub stdout: Vec<u8>,
    pub stderr: Vec<u8>,
}

/// `cmd` prints one of these on binder failure, even when it exits 0, so the exit
/// status alone does not tell failure apart.
pub open spec fn has_failure_marker(line: Seq<char>) -> bool {
    contains_run(line, "Failure calling service"@) || contains_run(line, "Can't find service"@)
}

/// Which lines a search over command output looks for.
#[derive(Clone, Copy, PartialEq, Eq, Structural)]
pub enum LineTest {
    /// A line that carries a binder-failure marker.
    FailureMarker,
    /// A line that is not blank.
    NotBlank,
}

/// Whether the trimmed `line` is one that `test` looks for.
pub open spec fn passes(test: LineTest, line: Seq<char>) -> bool {
    match test {
        LineTest::FailureMarker => has_failure_marker(line),
        LineTest::NotBlank => line.len() > 0,
    }
}

/// The first of `pieces`, trimmed, that `test` looks for.
pub open spec fn first_passing(test: LineTest, pieces: Seq<Seq<char>>) -> Option<Seq<char>>
    decreases pieces.len(),
{
    if pieces.len() == 0 {
        None
    } else if passes(test, trim(pieces[0])) {
        Some(trim(pieces[0]))
    } else {
        first_passing(test, pieces.drop_first())
    }
}

proof fn lemma_first_passing_concat(test: LineTest, a: Seq<Seq<char>>, b: Seq<Seq<char>>)
    ensures
        first_passing(test, a + b) == (if first_passing(test, a) is Some {
            first_passing(test, a)
        } else {
            first_passing(test, b)
        }),
    decreases a.len(),
{
    if a.len() == 0 {
        assert(a + b =~= b);
    } else {
        assert((a + b).drop_first() =~= a.drop_first() + b);
        lemma_first_passing_concat(test, a.drop_first(), b);
    }
}

/// How an exit status reads in a message.
pub open spec fn exit_desc(code: Option<i32>) -> Seq<char> {
    match code {
        Some(c) => "exit code "@ + int_text(c as int),
        None => "killed by signal"@,
    }
}

/// The error message for a finished `cmd` run that failed by its exit status or
/// printed its binder-failure signature (which can happen on exit 0), if it failed.
pub open spec fn failure_text(code: Option<i32>, out: Seq<u8>, err: Seq<u8>) -> Option<Seq<char>> {
    let so = utf8_lossy(out);
    let se = utf8_lossy(err);
    let lines = split_newlines(so) + split_newlines(se);
    match first_passing(LineTest::FailureMarker, lines) {
        Some(line) => Some(line),
        None => if code != Some(0i32) {
            let detail = match first_passing(LineTest::NotBlank, lines) {
                Some(l) => l,
                None => "no output"@,
            };
            Some(exit_desc(code) + ": "@ + detail)
        } else if trim(so).len() == 0 && first_passing(LineTest::NotBlank, split_newlines(se)) is Some {
            Some("no output on stdout: "@ + first_passing(LineTest::NotBlank, split_newlines(se))->0)
        } else {
            None
        },
    }
}

/// What counts as a failed run: a binder-failure line anywhere is the failure;
/// without one, a non-zero or missing exit status is a failure; a run that exits 0
/// and prints something on stdout succeeded, whatever stderr holds; and a run that
/// exits 0 with a blank stdout failed exactly when stderr has a non-blank line.
pub proof fn lemma_failure_cases(code: Option<i32>, out: Seq<u8>, err: Seq<u8>)
    ensures
        ({
            let so = utf8_lossy(out);
            let se = utf8_lossy(err);
            let marker = first_passing(LineTest::FailureMarker, split_newlines(so) + split_newlines(se));
            &&& marker is Some ==> failure_text(code, out, err) == marker
            &&& marker is None && code != Some(0i32) ==> failure_text(code, out, err) is Some
            &&& marker is None && code == Some(0i32) && trim(so).len() > 0 ==> failure_text(code, out, err) is None
            &&& marker is None && code == Some(0i32) && trim(so).len() == 0 ==> (failure_text(code, out, err) is Some
                <==> first_passing(LineTest::NotBlank, split_newlines(se)) is Some)
        }),
{
}

/// The bounds of the first line of `v`, trimmed, that `test` looks for.
fn find_line(v: &Vec<char>, test: LineTest) -> (r: Option<(usize, usize)>)
    ensures
        match r {
            Some((a, b)) => a <= b <= v@.len() && first_passing(test, split_newlines(v@)) == Some(
                v@.subrange(a as int, b as int),
            ),
            None => first_passing(test, split_newlines(v@)) is None,
        },
{
    let bounds = piece_bounds(v);
    let ghost pieces = split_newlines(v@);
    let m1 = chars_of("Failure calling service");
    let m2 = chars_of("Can't find service");
    assert(pieces.skip(0) =~= pieces);
    for k in 0..bounds.len()
        invariant
            bounds@.len() == pieces.len(),
            pieces == split_newlines(v@),
            m1@ == "Failure calling service"@,
            m2@ == "Can't find service"@,
            forall|j: int| #![trigger bounds@[j]] 0 <= j < bounds@.len() ==> bounds@[j].0 <= bounds@[j].1 <= v@.len(),
            forall|j: int|
                0 <= j < bounds@.len() ==> v@.subrange(bounds@[j].0 as int, bounds@[j].1 as int)
                    == #[trigger] pieces[j],
            first_passing(test, pieces) == first_passing(test, pieces.skip(k as int)),
    {
        let (lo, hi) = bounds[k];
        assert(bounds@[k as int].0 <= bounds@[k as int].1 <= v@.len());
        assert(v@.subrange(lo as int, hi as int) == pieces[k as int]);
        let (a, b) = trim_bounds(v, lo, hi);
        assert(pieces.skip(k as int)[0] == pieces[k as int]);
        assert(pieces.skip(k as int).drop_first() =~= pieces.skip(k + 1));
        let ok = match test {
            LineTest::FailureMarker => contains_in_range(v, a, b, &m1) || contains_in_range(v, a, b, &m2),
            LineTest::NotBlank => a < b,
        };
        if ok {
            return Some((a, b));
        }
    }
    assert(pieces.skip(pieces.len() as int) =~= Seq::<Seq<char>>::empty());
    None
}

/// The error message for a finished `cmd` run, if it failed: its binder-failure
/// line, else the exit status with the first line printed, else stderr noise
/// when stdout is silent.
pub fn command_failure(output: &CommandOutput) -> (r: Option<String>)
    ensures
        match r {
            Some(s) => failure_text(output.exit_code, output.stdout@, output.stderr@) == Some(s@),
            None => failure_text(output.exit_code, output.stdout@, output.stderr@) is None,
        },
{
    let so = decode_lossy(output.stdout.as_slice());
    let se = decode_lossy(output.stderr.as_slice());
    let ghost lines = split_newlines(so@) + split_newlines(se@);
    proof {
        lemma_first_passing_concat(LineTest::FailureMarker, split_newlines(so@), split_newlines(se@));
        lemma_first_passing_concat(LineTest::NotBlank, split_newlines(so@), split_newlines(se@));
    }
    let marker = match find_line(&so, LineTest::FailureMarker) {
        Some((a, b)) => Some((true, a, b)),
        None => match find_line(&se, LineTest::FailureMarker) {
            Some((a, b)) => Some((false, a, b)),
            None => None,
        },
    };
    if let Some((in_out, a, b)) = marker {
        let mut msg: Vec<char> = Vec::new();
        if in_out {
            push_range(&mut msg, &so, a, b);
        } else {
            push_range(&mut msg, &se, a, b);
        }
        assert(msg@ =~= first_passing(LineTest::FailureMarker, lines)->0);
        return Some(string_from_chars(msg.as_slice()));
    }
    let success = match output.exit_code {
        Some(c) => c == 0,
        None => false,
    };
    if !success {
        let mut msg: Vec<char> = Vec::new();
        match output.exit_code {
            Some(c) => {
                push_text(&mut msg, "exit code ");
                let mut digits = int_chars(c as i64);
                msg.append(&mut digits);
            },
            None => push_text(&mut msg, "killed by signal"),
        }
        assert(msg@ =~= exit_desc(output.exit_code));
        push_text(&mut msg, ": ");
        match find_line(&so, LineTest::NotBlank) {
            Some((a, b)) => push_range(&mut msg, &so, a, b),
            None => match find_line(&se, LineTest::NotBlank) {
                Some((a, b)) => push_range(&mut msg, &se, a, b),
                None => push_text(&mut msg, "no output"),
            },
        }
        assert(msg@ =~= failure_text(output.exit_code, output.stdout@, output.stderr@)->0);
        return Some(string_from_chars(msg.as_slice()));
    }
    let (sa, sb) = trim_bounds(&so, 0, so.len());
    assert(so@.subrange(0, so@.len() as int) =~= so@);
    if sa == sb {
        if let Some((a, b)) = find_line(&se, LineTest::NotBlank) {
            let mut msg: Vec<char> = Vec::new();
            push_text(&mut msg, "no output on stdout: ");
            push_range(&mut msg, &se, a, b);
            return Some(string_from_chars(msg.as_slice()));
        }
    }
    None
}

/// The characters that `sh` takes literally outside quotes, in an overlay name.
pub open spec fn is_shell_safe_char(c: char) -> bool {
    ||| ('a' as int) <= (c as int) <= ('z' as int)
    ||| ('A' as int) <= (c as int) <= ('Z' as int)
    ||| ('0' as int) <= (c as int) <= ('9' as int)
    ||| c == '.'
    ||| c == '_'
    ||| c == ':'
    ||| c == '-'
}

/// `s` needs no quoting.
pub open spec fn is_shell_safe(s: Seq<char>) -> bool {
    s.len() > 0 && forall|i: int| 0 <= i < s.len() ==> is_shell_safe_char(#[trigger] s[i])
}

/// How one character is written inside single quotes: a quote closes the quoting,
/// is escaped, and the quoting opens again.
pub open spec fn quoted_char(c: char) -> Seq<char> {
    if c == '\'' {
        seq!['\'', '\\', '\'', '\'']
    } else {
        seq![c]
    }
}

/// The body of a single-quoted word for `s`.
pub open spec fn quote_body(s: Seq<char>) -> Seq<char>
    decreases s.len(),
{
    if s.len() == 0 {
        Seq::empty()
    } else {
        quote_body(s.drop_last()) + quoted_char(s.last())
    }
}

/// `s` as a word for `sh`: unchanged when safe, else single-quoted.
pub open spec fn shell_word(s: Seq<char>) -> Seq<char> {
    if is_shell_safe(s) {
        s
    } else {
        seq!['\''] + quote_body(s) + seq!['\'']
    }
}

/// Quotes `value` for `sh -c`, leaving plain identifiers as they are.
pub fn shell_quote(value: &str) -> (r: String)
    ensures
        r@ == shell_word(value@),
{
    let v = chars_of(value);
    let n = v.len();
    let mut safe = n > 0;
    let mut i: usize = 0;
    while i < n
        invariant
            n == v@.len(),
            i <= n,
            safe == (n > 0 && forall|j: int| 0 <= j < i ==> is_shell_safe_char(#[trigger] v@[j])),
        decreases n - i,
    {
        let c = v[i];
        let ok = ('a' <= c && c <= 'z') || ('A' <= c && c <= 'Z') || ('0' <= c && c <= '9') || c
            == '.' || c == '_' || c == ':' || c == '-';
        if !ok {
            safe = false;
        }
        i = i + 1;
    }
    if safe {
        return string_from_chars(v.as_slice());
    }
    let mut w: Vec<char> = Vec::new();
    w.push('\'');
    let mut k: usize = 0;
    while k < n
        invariant
            n == v@.len(),
            k <= n,
            w@ == seq!['\''] + quote_body(v@.take(k as int)),
        decreases n - k,
    {
        let c = v[k];
        assert(v@.take(k + 1).drop_last() =~= v@.take(k as int));
        assert(v@.take(k + 1).last() == c);
        if c == '\'' {
            w.push('\'');
            w.push('\\');
            w.push('\'');
            w.push('\'');
        } else {
            w.push(c);
        }
        assert(w@ =~= seq!['\''] + quote_body(v@.take(k + 1)));
        k = k + 1;
    }
    w.push('\'');
    assert(v@.take(n as int) =~= v@);
    assert(w@ =~= seq!['\''] + quote_body(v@) + seq!['\'']);
    string_from_chars(w.as_slice())
}

/// The text that `sh` makes of a word read outside quotes; the word is made of
/// literal characters, backslash escapes and single-quoted runs.
pub open spec fn sh_unquoted(w: Seq<char>) -> Seq<char>
    decreases w.len(), 1int,
{
    if w.len() == 0 {
        Seq::empty()
    } else if w[0] == '\'' {
        sh_quoted(w.drop_first())
    } else if w[0] == '\\' && w.len() >= 2 {
        seq![w[1]] + sh_unquoted(w.skip(2))
    } else {
        seq![w[0]] + sh_unquoted(w.drop_first())
    }
}

/// The text that `sh` makes of a word read inside single quotes, up to the closing
/// quote and on after it.
pub open spec fn sh_quoted(w: Seq<char>) -> Seq<char>
    decreases w.len(), 0int,
{
    if w.len() == 0 {
        Seq::empty()
    } else if w[0] == '\'' {
        sh_unquoted(w.drop_first())
    } else {
        seq![w[0]] + sh_quoted(w.drop_first())
    }
}

proof fn lemma_sh_reads_safe(s: Seq<char>)
    requires
        forall|i: int| 0 <= i < s.len() ==> is_shell_safe_char(#[trigger] s[i]),
    ensures
        sh_unquoted(s) == s,
    decreases s.len(),
{
    if s.len() > 0 {
        assert(is_shell_safe_char(s[0]));
        assert forall|i: int| 0 <= i < s.drop_first().len() implies is_shell_safe_char(
            #[trigger] s.drop_first()[i],
        ) by {
            assert(s.drop_first()[i] == s[i + 1]);
        }
        lemma_sh_reads_safe(s.drop_first());
        assert(s =~= seq![s[0]] + s.drop_first());
    }
}

proof fn lemma_sh_reads_body(s: Seq<char>, rest: Seq<char>)
    ensures
        sh_quoted(quote_body(s) + rest) == s + sh_quoted(rest),
    decreases s.len(),
{
    if s.len() == 0 {
        assert(quote_body(s) + rest =~= rest);
        assert(s + sh_quoted(rest) =~= sh_quoted(rest));
    } else {
        let p = s.drop_last();
        let c = s.last();
        assert(quote_body(s) + rest =~= quote_body(p) + (quoted_char(c) + rest));
        lemma_sh_reads_body(p, quoted_char(c) + rest);
        let w = quoted_char(c) + rest;
        if c == '\'' {
            assert(w.drop_first() =~= seq!['\\', '\'', '\''] + rest);
            let u = w.drop_first();
            assert(u.skip(2) =~= seq!['\''] + rest);
            assert((seq!['\''] + rest).drop_first() =~= rest);
            assert(sh_quoted(w) == sh_unquoted(u));
            assert(sh_unquoted(u) == seq!['\''] + sh_unquoted(u.skip(2)));
            assert(sh_unquoted(u.skip(2)) == sh_quoted(rest));
        } else {
            assert(w.drop_first() =~= rest);
        }
        assert(sh_quoted(w) =~= seq![c] + sh_quoted(rest));
        assert(s =~= p.push(c));
        assert(p + (seq![c] + sh_quoted(rest)) =~= s + sh_quoted(rest));
    }
}

/// Quoting is faithful: `sh` reads the quoted word back as the very same text.
pub proof fn lemma_shell_word_reads_back(s: Seq<char>)
    ensures
        sh_unquoted(shell_word(s)) == s,
{
    if is_shell_safe(s) {
        lemma_sh_reads_safe(s);
    } else {
        let w = seq!['\''] + quote_body(s) + seq!['\''];
        assert(w.drop_first() =~= quote_body(s) + seq!['\'']);
        lemma_sh_reads_body(s, seq!['\'']);
        assert(seq!['\''].drop_first() =~= Seq::<char>::empty());
        assert(sh_quoted(seq!['\'']) == sh_unquoted(Seq::<char>::empty()));
        assert(s + Seq::<char>::empty() =~= s);
    }
}

/// The place of the first occurrence of `x` in `s`, or `s.len()` when there is none.
pub open spec fn first_index(s: Seq<Seq<char>>, x: Seq<char>) -> int
    decreases s.len(),
{
    if s.len() == 0 {
        0
    } else if s[0] == x {
        0
    } else {
        1 + first_index(s.drop_first(), x)
    }
}

pub proof fn lemma_first_index(s: Seq<Seq<char>>, x: Seq<char>)
    ensures
        0 <= first_index(s, x) <= s.len(),
        s.contains(x) <==> first_index(s, x) < s.len(),
        first_index(s, x) < s.len() ==> s[first_index(s, x)] == x,
        forall|j: int| 0 <= j < first_index(s, x) ==> s[j] != x,
    decreases s.len(),
{
    if s.len() > 0 && s[0] != x {
        lemma_first_index(s.drop_first(), x);
        assert forall|j: int| 0 <= j < first_index(s, x) implies s[j] != x by {
            if j > 0 {
                assert(s[j] == s.drop_first()[j - 1]);
            }
        }
        if s.contains(x) {
            let k = choose|k: int| 0 <= k < s.len() && s[k] == x;
            assert(s.drop_first()[k - 1] == x);
        }
        if first_index(s, x) < s.len() {
            assert(s.contains(x));
        }
    } else if s.len() > 0 {
        assert(s.contains(x));
    }
}

/// Whether `x` is among the overlays of `l`, in any state.
pub open spec fn holds(l: OverlayLists, x: Seq<char>) -> bool {
    l.enabled.contains(x) || l.disabled.contains(x) || l.broken.contains(x)
}

/// Target `i` is the first of `vals` that holds `x`.
pub open spec fn first_holder(vals: Seq<OverlayLists>, x: Seq<char>, i: int) -> bool {
    &&& 0 <= i < vals.len()
    &&& holds(vals[i], x)
    &&& forall|j: int| 0 <= j < i ==> !holds(#[trigger] vals[j], x)
}

/// `l` after `x` is switched on (or off): its first occurrence leaves the other
/// list for the end of the requested one; nothing changes when it is there already.
pub open spec fn toggled(l: OverlayLists, enable: bool, x: Seq<char>) -> OverlayLists {
    if enable {
        if l.disabled.contains(x) {
            OverlayLists {
                enabled: l.enabled.push(x),
                disabled: l.disabled.remove(first_index(l.disabled, x)),
                broken: l.broken,
            }
        } else {
            l
        }
    } else {
        if l.enabled.contains(x) {
            OverlayLists {
                enabled: l.enabled.remove(first_index(l.enabled, x)),
                disabled: l.disabled.push(x),
                broken: l.broken,
            }
        } else {
            l
        }
    }
}

/// The message of a failed result, if it failed.
pub open spec fn error_text(r: Result<(), String>) -> Option<Seq<char>> {
    match r {
        Ok(_) => None,
        Err(m) => Some(m@),
    }
}

/// The outcome of switching `x` on (or off) in the overlay lists `vals` of the
/// targets: the error message, if any, and the lists afterwards. The first target
/// that holds `x` decides; a broken `x` is refused, and so is an unknown one.
pub open spec fn switch_outcome(vals: Seq<OverlayLists>, enable: bool, x: Seq<char>) -> (Option<
    Seq<char>,
>, Seq<OverlayLists>) {
    if exists|i: int| first_holder(vals, x, i) {
        let i = choose|i: int| first_holder(vals, x, i);
        if vals[i].broken.contains(x) {
            (Some(x + " is broken; refusing to toggle"@), vals)
        } else {
            (None, vals.update(i, toggled(vals[i], enable, x)))
        }
    } else {
        (Some(x + " not found in virtual target list"@), vals)
    }
}

/// A switch in memory keeps every overlay: each target holds as many overlays as
/// before, a refused switch changes nothing, and after a successful one `x` is in
/// the requested list of the first target that holds it.
pub proof fn lemma_switch_keeps_overlays(vals: Seq<OverlayLists>, enable: bool, x: Seq<char>)
    ensures
        switch_outcome(vals, enable, x).1.len() == vals.len(),
        forall|i: int|
            0 <= i < vals.len() ==> (#[trigger] switch_outcome(vals, enable, x).1[i]).total()
                == vals[i].total(),
        switch_outcome(vals, enable, x).0 is Some ==> switch_outcome(vals, enable, x).1 == vals,
        switch_outcome(vals, enable, x).0 is None ==> exists|i: int|
            first_holder(vals, x, i) && (if enable {
                (#[trigger] switch_outcome(vals, enable, x).1[i]).enabled.contains(x)
            } else {
                switch_outcome(vals, enable, x).1[i].disabled.contains(x)
            }),
{
    if exists|i: int| first_holder(vals, x, i) {
        let i = choose|i: int| first_holder(vals, x, i);
        let l = vals[i];
        if !l.broken.contains(x) {
            lemma_first_index(l.disabled, x);
            lemma_first_index(l.enabled, x);
            let t = toggled(l, enable, x);
            assert(t.total() == l.total());
            let after = vals.update(i, t);
            assert forall|j: int| 0 <= j < vals.len() implies (#[trigger] after[j]).total()
                == vals[j].total() by {
            }
            if enable {
                if l.disabled.contains(x) {
                    assert(t.enabled[t.enabled.len() - 1] == x);
                }
                assert(after[i].enabled.contains(x));
            } else {
                if l.enabled.contains(x) {
                    assert(t.disabled[t.disabled.len() - 1] == x);
                }
                assert(after[i].disabled.contains(x));
            }
        }
    }
}

/// What a listing gives back after a switch in memory: the same targets, each
/// with as many overlays as before; after a successful switch, `x` is in the
/// requested list of a target that held it before.
pub proof fn lemma_listing_after_switch(before: Targets, after: Targets, enable: bool, x: Seq<char>)
    requires
        strictly_ascending(before.key_seq()),
        after.key_seq() == before.key_seq(),
        switch_outcome(before.value_seq(), enable, x).1 == after.value_seq(),
    ensures
        after.view().dom() == before.view().dom(),
        forall|k: Seq<char>| #[trigger] after.view().contains_key(k) ==> after.view()[k].total()
            == before.view()[k].total(),
        switch_outcome(before.value_seq(), enable, x).0 is Some ==> after.view() == before.view(),
        switch_outcome(before.value_seq(), enable, x).0 is None ==> exists|k: Seq<char>|
            #[trigger] before.view().contains_key(k) && holds(before.view()[k], x) && (if enable {
                after.view()[k].enabled.contains(x)
            } else {
                after.view()[k].disabled.contains(x)
            }),
{
    let vals = before.value_seq();
    lemma_switch_keeps_overlays(vals, enable, x);
    before.lemma_keys();
    after.lemma_keys();
    let keys = before.key_seq();
    assert forall|k: Seq<char>| #[trigger] after.view().contains_key(k) implies after.view()[k].total()
        == before.view()[k].total() by {
        assert(keys.to_set().contains(k));
        let i = choose|i: int| 0 <= i < keys.len() && keys[i] == k;
        assert(after.view()[keys[i]] == after.value_seq()[i]);
        assert(before.view()[keys[i]] == vals[i]);
    }
    if switch_outcome(vals, enable, x).0 is Some {
        assert(after.view() =~= before.view());
    } else {
        let i = choose|i: int|
            first_holder(vals, x, i) && (if enable {
                (#[trigger] switch_outcome(vals, enable, x).1[i]).enabled.contains(x)
            } else {
                switch_outcome(vals, enable, x).1[i].disabled.contains(x)
            });
        let k = keys[i];
        assert(before.view()[k] == vals[i]);
        assert(after.view()[k] == after.value_seq()[i]);
        assert(before.view().contains_key(k));
    }
}

/// Where the lines of a recorded list come from.
#[derive(Debug)]
pub enum VirtualSource {
    /// The capture that ships with the program.
    Bundled,
    /// A capture file, read on the first listing.
    File(String),
}

/// A replayed overlay list; toggles change it in memory only.
#[derive(Debug)]
pub struct VirtualStore {
    source: VirtualSource,
    targets: Targets,
    loaded: bool,
}

/// What listing the overlays takes next.
#[derive(Debug)]
pub enum ListStep {
    /// The listing, or why there is none.
    Ready(Result<Targets, String>),
    /// The capture file at this path has to be read first.
    ReadFile(String),
    /// `bin -c script` has to run; its output holds the listing.
    RunShell { bin: String, script: String },
}

/// Where a search for an overlay in the targets ended.
enum Found {
    Missing,
    Broken(usize),
    At(usize),
}

/// Whether `x` is one of `v`, and where it first is.
fn find_name(v: &Vec<String>, x: &String) -> (r: usize)
    ensures
        r == first_index(texts(v@), x@),
{
    proof {
        lemma_first_index(texts(v@), x@);
    }
    let n = v.len();
    let mut i: usize = 0;
    while i < n
        invariant
            n == v@.len(),
            i <= n,
            forall|j: int| 0 <= j < i ==> texts(v@)[j] != x@,
            0 <= first_index(texts(v@), x@) <= n,
            texts(v@).contains(x@) <==> first_index(texts(v@), x@) < n,
            first_index(texts(v@), x@) < n ==> texts(v@)[first_index(texts(v@), x@)] == x@,
            forall|j: int| 0 <= j < first_index(texts(v@), x@) ==> texts(v@)[j] != x@,
        decreases n - i,
    {
        if v[i] == *x {
            assert(texts(v@)[i as int] == x@);
            return i;
        }
        i = i + 1;
    }
    n
}

/// Whether `x` is one of `v`.
fn has_name(v: &Vec<String>, x: &String) -> (b: bool)
    ensures
        b == texts(v@).contains(x@),
{
    proof {
        lemma_first_index(texts(v@), x@);
    }
    find_name(v, x) < v.len()
}

/// The first target that holds `name`, and whether it holds it as broken.
fn locate_overlay(targets: &Targets, name: &String) -> (r: Found)
    ensures
        match r {
            Found::Missing => !exists|i: int| first_holder(targets.value_seq(), name@, i),
            Found::Broken(i) => first_holder(targets.value_seq(), name@, i as int)
                && targets.value_seq()[i as int].broken.contains(name@) && i < targets.key_seq().len(),
            Found::At(i) => first_holder(targets.value_seq(), name@, i as int)
                && !targets.value_seq()[i as int].broken.contains(name@) && i < targets.key_seq().len(),
        },
{
    let ghost vals = targets.value_seq();
    let ghost x = name@;
    assert(x == name@);
    proof {
        targets.lemma_value_len();
    }
    let n = targets.len();
    let mut i: usize = 0;
    while i < n
        invariant
            n == vals.len() == targets.key_seq().len(),
            vals == targets.value_seq(),
            x == name@,
            i <= n,
            forall|j: int| 0 <= j < i ==> !holds(#[trigger] vals[j], x),
        decreases n - i,
    {
        let e = targets.entry(i);
        let o = &e.overlays;
        let in_broken = has_name(&o.broken, name);
        let in_enabled = has_name(&o.enabled, name);
        let in_disabled = has_name(&o.disabled, name);
        assert(vals[i as int] == o@);
        assert(vals[i as int].broken == texts(o.broken@));
        assert(vals[i as int].enabled == texts(o.enabled@));
        assert(vals[i as int].disabled == texts(o.disabled@));
        assert(in_broken == vals[i as int].broken.contains(x));
        assert(in_enabled == vals[i as int].enabled.contains(x));
        assert(in_disabled == vals[i as int].disabled.contains(x));
        assert(holds(vals[i as int], x) == (in_broken || in_enabled || in_disabled));
        if in_broken {
            assert(first_holder(vals, x, i as int));
            return Found::Broken(i);
        }
        if in_enabled || in_disabled {
            assert(first_holder(vals, x, i as int));
            return Found::At(i);
        }
        i = i + 1;
    }
    assert forall|k: int| !first_holder(vals, x, k) by {
        if 0 <= k < n {
            assert(!holds(vals[k], x));
        }
    }
    Found::Missing
}

impl VirtualStore {
    /// Whether the list has been read.
    pub closed spec fn is_loaded(&self) -> bool {
        self.loaded
    }

    /// The capture file, when the list comes from one.
    pub closed spec fn file_path(&self) -> Option<Seq<char>> {
        match self.source {
            VirtualSource::File(p) => Some(p@),
            VirtualSource::Bundled => None,
        }
    }

    /// The replayed targets.
    pub closed spec fn targets(&self) -> Targets {
        self.targets
    }

    /// A store that replays `targets`.
    pub fn new(targets: Targets) -> (r: VirtualStore)
        ensures
            r.is_loaded(),
            r.file_path() is None,
            r.targets() == targets,
    {
        VirtualStore { source: VirtualSource::Bundled, targets, loaded: true }
    }

    /// A store that replays the bundled capture `capture` of `cmd overlay list`.
    pub fn bundled(capture: &[u8]) -> (r: VirtualStore)
        ensures
            r.is_loaded(),
            r.file_path() is None,
            r.targets().view() == targets_of_output(capture@),
    {
        VirtualStore { source: VirtualSource::Bundled, targets: parse_overlays(capture), loaded: true }
    }

    /// A store that reads the capture at `path` on its first listing; a failed read
    /// leaves it unread, so that a retry reads again, as a device load would.
    pub fn file(path: String) -> (r: VirtualStore)
        ensures
            !r.is_loaded(),
            r.file_path() == Some(path@),
            r.targets().view() == Map::<Seq<char>, OverlayLists>::empty(),
    {
        VirtualStore { source: VirtualSource::File(path), targets: Targets::new(), loaded: false }
    }

    /// The targets, or the file to read before they can be listed.
    pub fn list(&mut self) -> (r: ListStep)
        ensures
            final(self).file_path() == old(self).file_path(),
            final(self).targets() == old(self).targets(),
            (!old(self).is_loaded() && old(self).file_path() is Some) ==> (r matches ListStep::ReadFile(
                p,
            ) && p@ == old(self).file_path()->0 && final(self).is_loaded() == old(self).is_loaded()),
            (old(self).is_loaded() || old(self).file_path() is None) ==> (r matches ListStep::Ready(Ok(t))
                && t.view() == old(self).targets().view() && t.key_seq() == old(self).targets().key_seq()
                && t.value_seq() == old(self).targets().value_seq() && final(self).is_loaded()),
    {
        if !self.loaded {
            if let VirtualSource::File(path) = &self.source {
                return ListStep::ReadFile(path.clone());
            }
            self.loaded = true;
        }
        ListStep::Ready(Ok(self.targets.duplicate()))
    }

    /// Takes in what reading the capture file gave: its bytes, or the reason the
    /// read failed. On success the file's targets are replayed from then on.
    pub fn file_read(&mut self, read: Result<Vec<u8>, String>) -> (r: Result<Targets, String>)
        ensures
            final(self).file_path() == old(self).file_path(),
            match read {
                Ok(bytes) => {
                    &&& final(self).is_loaded()
                    &&& final(self).targets().view() == targets_of_output(bytes@)
                    &&& r matches Ok(t) && t.view() == targets_of_output(bytes@)
                },
                Err(e) => {
                    &&& final(self).is_loaded() == old(self).is_loaded()
                    &&& final(self).targets() == old(self).targets()
                    &&& r matches Err(m) && m@ == "virtual target list '"@ + (match old(
                        self,
                    ).file_path() {
                        Some(p) => p,
                        None => Seq::empty(),
                    }) + "': "@ + e@
                },
            },
    {
        match read {
            Ok(bytes) => {
                self.targets = parse_overlays(bytes.as_slice());
                self.loaded = true;
                Ok(self.targets.duplicate())
            },
            Err(e) => {
                let mut msg: Vec<char> = Vec::new();
                push_text(&mut msg, "virtual target list '");
                if let VirtualSource::File(path) = &self.source {
                    push_text(&mut msg, path.as_str());
                }
                push_text(&mut msg, "': ");
                push_text(&mut msg, e.as_str());
                proof {
                    assert(msg@ =~= "virtual target list '"@ + (match self.file_path() {
                        Some(p) => p,
                        None => Seq::empty(),
                    }) + "': "@ + e@);
                }
                Err(string_from_chars(msg.as_slice()))
            },
        }
    }

    /// Switches overlay `overlay` on (or off) in the first target, in ascending name
    /// order, that holds it; a broken overlay is refused, and an unknown one too.
    pub fn set_overlay(&mut self, enabled: bool, overlay: &str) -> (r: Result<(), String>)
        ensures
            final(self).is_loaded() == old(self).is_loaded(),
            final(self).file_path() == old(self).file_path(),
            final(self).targets().key_seq() == old(self).targets().key_seq(),
            switch_outcome(old(self).targets().value_seq(), enabled, overlay@) == (
                error_text(r),
                final(self).targets().value_seq(),
            ),
    {
        let name = overlay.to_owned();
        let ghost vals = self.targets.value_seq();
        let ghost x = overlay@;
        let found = locate_overlay(&self.targets, &name);
        proof {
            self.targets.lemma_value_len();
            assert forall|a: int, b: int| first_holder(vals, x, a) && first_holder(vals, x, b) implies a
                == b by {
                if a < b {
                    assert(!holds(vals[a], x));
                } else if b < a {
                    assert(!holds(vals[b], x));
                }
            }
        }
        match found {
            Found::Missing => {
                let mut msg = chars_of(overlay);
                push_text(&mut msg, " not found in virtual target list");
                assert(!exists|i: int| first_holder(vals, x, i));
                assert(msg@ == x + " not found in virtual target list"@);
                Err(string_from_chars(msg.as_slice()))
            },
            Found::Broken(b) => {
                let mut msg = chars_of(overlay);
                push_text(&mut msg, " is broken; refusing to toggle");
                assert(msg@ == x + " is broken; refusing to toggle"@);
                assert((choose|i: int| first_holder(vals, x, i)) == b);
                Err(string_from_chars(msg.as_slice()))
            },
            Found::At(idx) => {
                let mut o = self.targets.entry(idx).overlays.duplicate();
                let ghost before = o@;
                proof {
                    lemma_first_index(texts(o.disabled@), x);
                    lemma_first_index(texts(o.enabled@), x);
                }
                if enabled {
                    let p = find_name(&o.disabled, &name);
                    if p < o.disabled.len() {
                        let moved = o.disabled.remove(p);
                        o.enabled.push(moved);
                        assert(texts(o.disabled@) =~= before.disabled.remove(p as int));
                        assert(texts(o.enabled@) =~= before.enabled.push(x));
                    }
                } else {
                    let p = find_name(&o.enabled, &name);
                    if p < o.enabled.len() {
                        let moved = o.enabled.remove(p);
                        o.disabled.push(moved);
                        assert(texts(o.enabled@) =~= before.enabled.remove(p as int));
                        assert(texts(o.disabled@) =~= before.disabled.push(x));
                    }
                }
                assert(o@ =~= toggled(before, enabled, x));
                assert((choose|i: int| first_holder(vals, x, i)) == idx);
                self.targets.replace_at(idx, o);
                Ok(())
            },
        }
    }
}

/// The listing that a finished `cmd overlay list` run gives, or its failure message.
pub fn targets_from_output(output: &CommandOutput) -> (r: Result<Targets, String>)
    ensures
        match failure_text(output.exit_code, output.stdout@, output.stderr@) {
            Some(m) => r matches Err(e) && e@ == m,
            None => r matches Ok(t) && t.view() == targets_of_output(output.stdout@),
        },
{
    match command_failure(output) {
        Some(msg) => Err(msg),
        None => Ok(parse_overlays(output.stdout.as_slice())),
    }
}

/// The environment variable that names the root helper.
pub const SU_ENV_VAR: &'static str = "AOVR_SU";

/// The environment variable that names a capture to replay.
pub const TARGETS_FILE_ENV: &'static str = "AOVR_TARGETS_FILE";

/// The root helper used before running `cmd overlay`, by platform.
pub fn default_su(android: bool) -> (r: &'static str)
    ensures
        r@ == (if android {
            "/system/bin/su"@
        } else {
            "su"@
        }),
{
    if android {
        "/system/bin/su"
    } else {
        "su"
    }
}

/// Where the overlays come from.
#[derive(Debug)]
pub enum Backend {
    /// A real device: `su -c "cmd overlay …"` through the given root helper.
    Su(String),
    /// A replayed list; toggles stay in memory.
    Virtual(VirtualStore),
}

/// What switching an overlay takes next.
#[derive(Debug)]
pub enum SetStep {
    /// The switch is done, or why it failed.
    Done(Result<(), String>),
    /// `bin -c script` has to run; `action` names the switch in messages.
    RunShell { bin: String, script: String, action: String },
}

/// The text of an optional value that counts only when it is not empty.
pub open spec fn nonempty_text(o: Option<String>) -> Option<Seq<char>> {
    match o {
        Some(s) => if s@.len() > 0 {
            Some(s@)
        } else {
            None
        },
        None => None,
    }
}

impl Backend {
    /// Picks the backend from the environment values. Priority: a capture file
    /// (`AOVR_TARGETS_FILE`), then `su` when `AOVR_SU` is set or on Android, then the
    /// bundled capture `bundled`. Empty values count as unset.
    pub fn from_env_impl(
        targets_file: Option<String>,
        su: Option<String>,
        android: bool,
        bundled: &[u8],
    ) -> (r: Backend)
        ensures
            nonempty_text(targets_file) matches Some(p) ==> (r matches Backend::Virtual(store)
                && store.file_path() == Some(p) && !store.is_loaded()),
            nonempty_text(targets_file) is None && (android || nonempty_text(su) is Some) ==> (
            r matches Backend::Su(bin) && bin@ == (match nonempty_text(su) {
                Some(s) => s,
                None => default_su_text(android),
            })),
            nonempty_text(targets_file) is None && !android && nonempty_text(su) is None ==> (
            r matches Backend::Virtual(store) && store.is_loaded() && store.file_path() is None
                && store.targets().view() == targets_of_output(bundled@)),
    {
        if let Some(path) = targets_file {
            if !path.as_str().is_empty() {
                return Backend::Virtual(VirtualStore::file(path));
            }
        }
        let su = match su {
            Some(s) => if !s.as_str().is_empty() {
                Some(s)
            } else {
                None
            },
            None => None,
        };
        if android || su.is_some() {
            return match su {
                Some(s) => Backend::Su(s),
                None => Backend::Su(default_su(android).to_owned()),
            };
        }
        Backend::Virtual(VirtualStore::bundled(bundled))
    }

    /// Whether the overlays are replayed rather than read from a device.
    pub fn is_virtual(&self) -> (b: bool)
        ensures
            b == (self is Virtual),
    {
        match self {
            Backend::Virtual(_) => true,
            Backend::Su(_) => false,
        }
    }

    /// The next step of listing the overlays: a shell run on a device, or the
    /// replayed list (or the capture file to read first).
    pub fn list(&mut self) -> (r: ListStep)
        ensures
            match *old(self) {
                Backend::Su(bin) => {
                    &&& *final(self) == *old(self)
                    &&& r matches ListStep::RunShell { bin: b, script }
                    &&& b@ == bin@
                    &&& script@ == "cmd overlay list"@
                },
                Backend::Virtual(store) => {
                    &&& *final(self) matches Backend::Virtual(s2)
                    &&& s2.file_path() == store.file_path()
                    &&& s2.targets() == store.targets()
                    &&& (!store.is_loaded() && store.file_path() is Some) ==> {
                        &&& r matches ListStep::ReadFile(p)
                        &&& p@ == store.file_path()->0
                        &&& s2.is_loaded() == store.is_loaded()
                    }
                    &&& (store.is_loaded() || store.file_path() is None) ==> {
                        &&& r matches ListStep::Ready(Ok(t))
                        &&& t.view() == store.targets().view()
                        &&& s2.is_loaded()
                    }
                },
            },
    {
        match self {
            Backend::Su(bin) => {
                let script = "cmd overlay list".to_owned();
                ListStep::RunShell { bin: bin.clone(), script }
            },
            Backend::Virtual(store) => store.list(),
        }
    }

    /// The next step of switching overlay `overlay` on (or off): a shell run on a
    /// device, or the in-memory switch in virtual mode.
    pub fn set_overlay(&mut self, enabled: bool, overlay: &str) -> (r: SetStep)
        ensures
            match *old(self) {
                Backend::Su(bin) => {
                    &&& *final(self) == *old(self)
                    &&& r matches SetStep::RunShell { bin: b, script, action }
                    &&& b@ == bin@
                    &&& action@ == action_text(enabled)
                    &&& script@ == "cmd overlay "@ + action_text(enabled) + " "@ + shell_word(overlay@)
                },
                Backend::Virtual(store) => {
                    &&& *final(self) matches Backend::Virtual(s2)
                    &&& r matches SetStep::Done(res)
                    &&& s2.targets().key_seq() == store.targets().key_seq()
                    &&& s2.is_loaded() == store.is_loaded()
                    &&& s2.file_path() == store.file_path()
                    &&& switch_outcome(store.targets().value_seq(), enabled, overlay@) == (
                        error_text(res),
                        s2.targets().value_seq(),
                    )
                },
            },
    {
        match self {
            Backend::Su(bin) => {
                let mut script: Vec<char> = Vec::new();
                push_text(&mut script, "cmd overlay ");
                let action = if enabled {
                    "enable"
                } else {
                    "disable"
                };
                push_text(&mut script, action);
                push_text(&mut script, " ");
                let quoted = shell_quote(overlay);
                push_text(&mut script, quoted.as_str());
                SetStep::RunShell {
                    bin: bin.clone(),
                    script: string_from_chars(script.as_slice()),
                    action: action.to_owned(),
                }
            },
            Backend::Virtual(store) => SetStep::Done(store.set_overlay(enabled, overlay)),
        }
    }
}

/// The root helper's default, as text.
pub open spec fn default_su_text(android: bool) -> Seq<char> {
    if android {
        "/system/bin/su"@
    } else {
        "su"@
    }
}

/// The verb of a switch.
pub open spec fn action_text(enabled: bool) -> Seq<char> {
    if enabled {
        "enable"@
    } else {
        "disable"@
    }
}

/// The outcome of a finished `cmd overlay <action>` run: a failure is reported as
/// `<action> failed: <message>`.
pub fn set_overlay_result(action: &str, output: &CommandOutput) -> (r: Result<(), String>)
    ensures
        match failure_text(output.exit_code, output.stdout@, output.stderr@) {
            Some(m) => r matches Err(e) && e@ == action@ + " failed: "@ + m,
            None => r is Ok,
        },
{
    match command_failure(output) {
        Some(msg) => {
            let mut v = chars_of(action);
            push_text(&mut v, " failed: ");
            push_text(&mut v, msg.as_str());
            Err(string_from_chars(v.as_slice()))
        },
        None => Ok(()),
    }
}

/// The message for a root helper `bin` that could not be started: a missing helper
/// gets advice, any other failure its `detail`.
pub fn launch_error(bin: &str, not_found: bool, detail: &str) -> (r: String)
    ensures
        r@ == (if not_found {
            "root helper '"@ + bin@
                + "' not found \u{2014} AOVR needs a rooted device (Magisk/KernelSU), or set $AOVR_SU"@
        } else {
            "failed to run '"@ + bin@ + "': "@ + detail@
        }),
{
    let mut v: Vec<char> = Vec::new();
    if not_found {
        push_text(&mut v, "root helper '");
        push_text(&mut v, bin);
        push_text(&mut v, "' not found \u{2014} AOVR needs a rooted device (Magisk/KernelSU), or set $AOVR_SU");
    } else {
        push_text(&mut v, "failed to run '");
        push_text(&mut v, bin);
        push_text(&mut v, "': ");
        push_text(&mut v, detail);
    }
    string_from_chars(v.as_slice())
}

} // verus!
