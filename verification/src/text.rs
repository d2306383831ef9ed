//! Character-level helpers shared by the parser, the shell layer and the views.

use vstd::prelude::*;

verus! {

/// The characters of `s`, in order.
pub fn chars_of(s: &str) -> (v: Vec<char>)
    ensures
        v@ == s@,
{
    let mut v: Vec<char> = Vec::new();
    for c in it: s.chars()
        invariant
            v@ == it.seq().take(it.index() as int),
            it.seq() == s@,
    {
        v.push(c);
    }
    v
}

/// Unicode `White_Space`, the set that `char::is_whitespace` tests.
pub open spec fn is_ws(c: char) -> bool {
    let u = c as u32;
    ||| 0x09 <= u <= 0x0D
    ||| u == 0x20
    ||| u == 0x85
    ||| u == 0xA0
    ||| u == 0x1680
    ||| 0x2000 <= u <= 0x200A
    ||| u == 0x2028
    ||| u == 0x2029
    ||| u == 0x202F
    ||| u == 0x205F
    ||| u == 0x3000
}

/// Whether `c` is white space in the sense of `char::is_whitespace`.
pub fn is_whitespace(c: char) -> (b: bool)
    ensures
        b == is_ws(c),
{
    let u = c as u32;
    (0x09 <= u && u <= 0x0D) || u == 0x20 || u == 0x85 || u == 0xA0 || u == 0x1680 || (0x2000
        <= u && u <= 0x200A) || u == 0x2028 || u == 0x2029 || u == 0x202F || u == 0x205F || u
        == 0x3000
}

/// `s` without its leading white space.
pub open spec fn trim_start(s: Seq<char>) -> Seq<char>
    decreases s.len(),
{
    if s.len() > 0 && is_ws(s[0]) {
        trim_start(s.drop_first())
    } else {
        s
    }
}

/// `s` without its trailing white space.
pub open spec fn trim_end(s: Seq<char>) -> Seq<char>
    decreases s.len(),
{
    if s.len() > 0 && is_ws(s.last()) {
        trim_end(s.drop_last())
    } else {
        s
    }
}

/// `s` without leading and trailing white space, as `str::trim` gives it.
pub open spec fn trim(s: Seq<char>) -> Seq<char> {
    trim_end(trim_start(s))
}

/// The bounds of `v[lo..hi]` once white space is trimmed from both ends.
pub fn trim_bounds(v: &Vec<char>, lo: usize, hi: usize) -> (r: (usize, usize))
    requires
        lo <= hi <= v@.len(),
    ensures
        lo <= r.0 <= r.1 <= hi,
        v@.subrange(r.0 as int, r.1 as int) == trim(v@.subrange(lo as int, hi as int)),
{
    let mut a = lo;
    while a < hi && is_whitespace(v[a])
        invariant
            lo <= a <= hi <= v@.len(),
            trim_start(v@.subrange(lo as int, hi as int)) == trim_start(
                v@.subrange(a as int, hi as int),
            ),
        decreases hi - a,
    {
        assert(v@.subrange(a as int, hi as int).drop_first() =~= v@.subrange(
            a + 1,
            hi as int,
        ));
        a = a + 1;
    }
    let mut b = hi;
    while b > a && is_whitespace(v[b - 1])
        invariant
            lo <= a <= b <= hi <= v@.len(),
            trim_end(v@.subrange(a as int, hi as int)) == trim_end(v@.subrange(a as int, b as int)),
        decreases b - a,
    {
        assert(v@.subrange(a as int, b as int).drop_last() =~= v@.subrange(a as int, b - 1));
        b = b - 1;
    }
    (a, b)
}

/// The pieces of `s` between line feeds, the last piece included even when empty.
pub open spec fn split_newlines(s: Seq<char>) -> Seq<Seq<char>>
    decreases s.len(),
{
    if s.len() == 0 {
        seq![Seq::empty()]
    } else {
        let prev = split_newlines(s.drop_last());
        if s.last() == '\n' {
            prev.push(Seq::empty())
        } else {
            prev.update(prev.len() - 1, prev.last().push(s.last()))
        }
    }
}

/// The trimmed pieces that are not empty, in order.
pub open spec fn nonblank_trimmed(pieces: Seq<Seq<char>>) -> Seq<Seq<char>>
    decreases pieces.len(),
{
    if pieces.len() == 0 {
        Seq::empty()
    } else {
        let prev = nonblank_trimmed(pieces.drop_last());
        let t = trim(pieces.last());
        if t.len() > 0 {
            prev.push(t)
        } else {
            prev
        }
    }
}

/// The lines of `s` as `str::lines` yields them, each trimmed, blank ones left out.
pub open spec fn significant_lines(s: Seq<char>) -> Seq<Seq<char>> {
    nonblank_trimmed(split_newlines(s))
}

proof fn lemma_split_nonempty(s: Seq<char>)
    ensures
        split_newlines(s).len() >= 1,
    decreases s.len(),
{
    if s.len() > 0 {
        lemma_split_nonempty(s.drop_last());
    }
}

/// The bounds in `v` of each significant line of `v`.
pub fn significant_line_bounds(v: &Vec<char>) -> (r: Vec<(usize, usize)>)
    ensures
        r@.len() == significant_lines(v@).len(),
        forall|k: int| 0 <= k < r@.len() ==> #[trigger] r@[k].0 <= r@[k].1 <= v@.len(),
        forall|k: int|
            0 <= k < r@.len() ==> v@.subrange(r@[k].0 as int, r@[k].1 as int)
                == #[trigger] significant_lines(v@)[k],
{
    let mut r: Vec<(usize, usize)> = Vec::new();
    let mut start: usize = 0;
    let mut i: usize = 0;
    let n = v.len();
    let ghost mut done: Seq<Seq<char>> = Seq::empty();
    while i < n
        invariant
            n == v@.len(),
            start <= i <= n,
            split_newlines(v@.take(i as int)).len() >= 1,
            split_newlines(v@.take(i as int)).last() == v@.subrange(start as int, i as int),
            done == nonblank_trimmed(split_newlines(v@.take(i as int)).drop_last()),
            r@.len() == done.len(),
            forall|k: int| 0 <= k < r@.len() ==> #[trigger] r@[k].0 <= r@[k].1 <= n,
            forall|k: int|
                0 <= k < r@.len() ==> v@.subrange(r@[k].0 as int, r@[k].1 as int)
                    == #[trigger] done[k],
        decreases n - i,
    {
        let ghost prev = split_newlines(v@.take(i as int));
        assert(v@.take(i + 1).drop_last() =~= v@.take(i as int));
        assert(v@.take(i + 1).last() == v@[i as int]);
        if v[i] == '\n' {
            let (a, b) = trim_bounds(v, start, i);
            assert(split_newlines(v@.take(i + 1)) == prev.push(Seq::empty()));
            assert(prev.push(Seq::<char>::empty()).drop_last() =~= prev);
            assert(prev =~= prev.drop_last().push(prev.last()));
            let ghost old_r = r@;
            let ghost old_done = done;
            assert(nonblank_trimmed(prev) == (if trim(prev.last()).len() > 0 {
                old_done.push(trim(prev.last()))
            } else {
                old_done
            }));
            if a < b {
                r.push((a, b));
                proof {
                    done = old_done.push(trim(prev.last()));
                }
                assert forall|k: int| 0 <= k < r@.len() implies #[trigger] r@[k].0 <= r@[k].1
                    <= n by {
                    if k < old_r.len() {
                        assert(r@[k] == old_r[k]);
                    }
                }
                assert forall|k: int| 0 <= k < r@.len() implies v@.subrange(r@[k].0 as int, r@[k].1 as int) == #[trigger] done[k] by {
                    if k < old_r.len() {
                        assert(r@[k] == old_r[k]);
                        assert(done[k] == old_done[k]);
                    } else {
                        assert(r@[k] == (a, b));
                    }
                }
            } else {
                assert(v@.subrange(a as int, b as int).len() == 0);
            }
            assert(split_newlines(v@.take(i + 1)).drop_last() == prev);
            start = i + 1;
            assert(v@.subrange(start as int, i + 1) =~= Seq::<char>::empty());
        } else {
            let ghost next = prev.update(prev.len() - 1, prev.last().push(v@[i as int]));
            assert(split_newlines(v@.take(i + 1)) == next);
            assert(next.drop_last() =~= prev.drop_last());
            assert(v@.subrange(start as int, i + 1) =~= prev.last().push(v@[i as int]));
        }
        i = i + 1;
    }
    let ghost all = split_newlines(v@.take(n as int));
    assert(v@.take(n as int) =~= v@);
    assert(all =~= all.drop_last().push(all.last()));
    let (a, b) = trim_bounds(v, start, n);
    assert(all.last() == v@.subrange(start as int, n as int));
    let ghost old_r = r@;
    assert(significant_lines(v@) == (if trim(all.last()).len() > 0 {
        done.push(trim(all.last()))
    } else {
        done
    }));
    if a < b {
        r.push((a, b));
        assert forall|k: int| 0 <= k < r@.len() implies v@.subrange(r@[k].0 as int, r@[k].1 as int) == #[trigger] significant_lines(
            v@,
        )[k] by {
            if k < old_r.len() {
                assert(r@[k] == old_r[k]);
                assert(significant_lines(v@)[k] == done[k]);
            } else {
                assert(r@[k] == (a, b));
            }
        }
    } else {
        assert(v@.subrange(a as int, b as int).len() == 0);
        assert forall|k: int| 0 <= k < r@.len() implies v@.subrange(r@[k].0 as int, r@[k].1 as int) == #[trigger] significant_lines(
            v@,
        )[k] by {
            assert(significant_lines(v@)[k] == done[k]);
        }
    }
    r
}

/// Strict lexicographic order on character sequences, by code point; for text
/// it is the order in which `String`'s `Ord` sorts, since UTF-8 keeps code point order.
pub open spec fn chars_lt(a: Seq<char>, b: Seq<char>) -> bool
    decreases a.len(),
{
    if a.len() == 0 {
        b.len() > 0
    } else if b.len() == 0 {
        false
    } else if a[0] != b[0] {
        (a[0] as int) < (b[0] as int)
    } else {
        chars_lt(a.drop_first(), b.drop_first())
    }
}

/// No sequence comes before itself.
pub proof fn lemma_chars_lt_irreflexive(a: Seq<char>)
    ensures
        !chars_lt(a, a),
    decreases a.len(),
{
    if a.len() > 0 {
        lemma_chars_lt_irreflexive(a.drop_first());
    }
}

/// Of two different sequences, exactly one comes first.
pub proof fn lemma_chars_lt_total(a: Seq<char>, b: Seq<char>)
    ensures
        a != b ==> (chars_lt(a, b) || chars_lt(b, a)),
        !(chars_lt(a, b) && chars_lt(b, a)),
    decreases a.len(),
{
    if a.len() > 0 && b.len() > 0 && a[0] == b[0] {
        lemma_chars_lt_total(a.drop_first(), b.drop_first());
        if a.drop_first() == b.drop_first() {
            assert(a =~= seq![a[0]] + a.drop_first());
            assert(b =~= seq![b[0]] + b.drop_first());
        }
    } else if a.len() == 0 && b.len() == 0 {
        assert(a =~= b);
    }
}

/// The order is transitive.
pub proof fn lemma_chars_lt_transitive(a: Seq<char>, b: Seq<char>, c: Seq<char>)
    requires
        chars_lt(a, b),
        chars_lt(b, c),
    ensures
        chars_lt(a, c),
    decreases a.len(),
{
    if a.len() > 0 && b.len() > 0 && c.len() > 0 && a[0] == b[0] && b[0] == c[0] {
        lemma_chars_lt_transitive(a.drop_first(), b.drop_first(), c.drop_first());
    }
}

/// Where `a` stands against `b`: `-1` before, `0` equal, `1` after.
pub fn compare_chars(a: &Vec<char>, b: &Vec<char>) -> (r: i8)
    ensures
        (r == -1) == chars_lt(a@, b@),
        (r == 0) == (a@ == b@),
        (r == 1) == chars_lt(b@, a@),
        -1 <= r <= 1,
{
    proof {
        lemma_chars_lt_total(a@, b@);
        lemma_chars_lt_irreflexive(a@);
    }
    let mut i: usize = 0;
    assert(a@.skip(0) =~= a@);
    assert(b@.skip(0) =~= b@);
    while i < a.len() && i < b.len()
        invariant
            i <= a@.len(),
            i <= b@.len(),
            a@.take(i as int) == b@.take(i as int),
            chars_lt(a@, b@) == chars_lt(a@.skip(i as int), b@.skip(i as int)),
            chars_lt(b@, a@) == chars_lt(b@.skip(i as int), a@.skip(i as int)),
        decreases a@.len() - i,
    {
        assert(a@.skip(i as int)[0] == a@[i as int]);
        assert(b@.skip(i as int)[0] == b@[i as int]);
        if a[i] != b[i] {
            if a[i] < b[i] {
                return -1;
            } else {
                return 1;
            }
        }
        assert(a@.skip(i as int).drop_first() =~= a@.skip(i + 1));
        assert(b@.skip(i as int).drop_first() =~= b@.skip(i + 1));
        assert(a@.take(i + 1) =~= a@.take(i as int).push(a@[i as int]));
        assert(b@.take(i + 1) =~= b@.take(i as int).push(b@[i as int]));
        i = i + 1;
    }
    if i < b.len() {
        -1
    } else if i < a.len() {
        1
    } else {
        assert(a@ =~= a@.take(i as int));
        assert(b@ =~= b@.take(i as int));
        0
    }
}

/// `String::push`: appends `c` to `s`.
#[verifier::external_body]
fn push_char(s: &mut String, c: char)
    ensures
        final(s)@ == old(s)@.push(c),
{
    s.push(c);
}

/// The string made of the characters of `v`, in order.
pub fn string_from_chars(v: &[char]) -> (s: String)
    ensures
        s@ == v@,
{
    let mut s = String::new();
    for i in 0..v.len()
        invariant
            s@ == v@.take(i as int),
    {
        push_char(&mut s, v[i]);
        assert(v@.take(i + 1) =~= v@.take(i as int).push(v@[i as int]));
    }
    assert(v@.take(v@.len() as int) =~= v@);
    s
}

/// The string made of the characters `v[lo..hi]`.
pub fn string_of_range(v: &Vec<char>, lo: usize, hi: usize) -> (s: String)
    requires
        lo <= hi <= v@.len(),
    ensures
        s@ == v@.subrange(lo as int, hi as int),
{
    let mut part: Vec<char> = Vec::new();
    for i in lo..hi
        invariant
            lo <= hi <= v@.len(),
            part@ == v@.subrange(lo as int, i as int),
    {
        part.push(v[i]);
        assert(v@.subrange(lo as int, i + 1) =~= v@.subrange(lo as int, i as int).push(v@[i as int]));
    }
    string_from_chars(part.as_slice())
}

/// The text of `bytes` as `String::from_utf8_lossy` decodes it.
pub uninterp spec fn utf8_lossy(bytes: Seq<u8>) -> Seq<char>;

/// `String::from_utf8_lossy`, made an owned string: the contract names the result
/// and says nothing of how invalid sequences are replaced.
#[verifier::external_body]
fn lossy_string(bytes: &[u8]) -> (s: String)
    ensures
        s@ == utf8_lossy(bytes@),
{
    String::from_utf8_lossy(bytes).into_owned()
}

/// The characters of `bytes` decoded as UTF-8, each invalid sequence replaced.
pub fn decode_lossy(bytes: &[u8]) -> (v: Vec<char>)
    ensures
        v@ == utf8_lossy(bytes@),
{
    let s = lossy_string(bytes);
    chars_of(s.as_str())
}

/// `needle` occurs in `hay` as a contiguous run.
pub open spec fn contains_run(hay: Seq<char>, needle: Seq<char>) -> bool {
    exists|i: int| 0 <= i && i + needle.len() <= hay.len() && #[trigger] hay.subrange(i, i + needle.len()) == needle
}

/// Whether `needle` occurs in `hay[lo..hi]`.
pub fn contains_in_range(hay: &Vec<char>, lo: usize, hi: usize, needle: &Vec<char>) -> (b: bool)
    requires
        lo <= hi <= hay@.len(),
    ensures
        b == contains_run(hay@.subrange(lo as int, hi as int), needle@),
{
    let ghost h = hay@.subrange(lo as int, hi as int);
    let m = needle.len();
    if m > hi - lo {
        return false;
    }
    if m == 0 {
        assert(h.subrange(0int, 0int + needle@.len()) =~= needle@);
        return true;
    }
    let mut i: usize = lo;
    while i <= hi - m
        invariant
            lo <= i,
            m == needle@.len(),
            m <= hi - lo,
            i <= hi - m + 1,
            hi <= hay@.len(),
            h == hay@.subrange(lo as int, hi as int),
            forall|j: int| 0 <= j < i - lo ==> #[trigger] h.subrange(j, j + m) != needle@,
        decreases hi - i,
    {
        let mut k: usize = 0;
        let mut same = true;
        assert(hay@.subrange(i as int, i as int) =~= needle@.take(0));
        while k < m
            invariant
                k <= m,
                m == needle@.len(),
                i + m <= hi <= hay@.len(),
                same == (hay@.subrange(i as int, i + k) == needle@.take(k as int)),
            decreases m - k,
        {
            if hay[i + k] != needle[k] {
                assert(hay@.subrange(i as int, i + k + 1)[k as int] != needle@.take(k + 1)[k as int]);
                same = false;
            } else if same {
                assert(hay@.subrange(i as int, i + k + 1) =~= needle@.take(k + 1));
            }
            if !same {
                assert(hay@.subrange(i as int, i + k + 1) != needle@.take(k + 1) ) by {
                    if hay@.subrange(i as int, i + k + 1) == needle@.take(k + 1) {
                        assert(hay@.subrange(i as int, i + k) =~= hay@.subrange(i as int, i + k + 1).take(k as int));
                        assert(needle@.take(k as int) =~= needle@.take(k + 1).take(k as int));
                    }
                }
            }
            k = k + 1;
        }
        assert(needle@.take(m as int) =~= needle@);
        assert(h.subrange(i - lo, i - lo + m) =~= hay@.subrange(i as int, i + m));
        if same {
            return true;
        }
        i = i + 1;
    }
    assert forall|j: int| 0 <= j && j + m <= h.len() implies #[trigger] h.subrange(j, j + m) != needle@ by {
    }
    false
}

/// The decimal digits of `n`.
pub open spec fn digits(n: nat) -> Seq<char>
    decreases n,
{
    if n < 10 {
        seq![digit_char((n % 10) as nat)]
    } else {
        digits(n / 10).push(digit_char((n % 10) as nat))
    }
}

/// The character of the decimal digit `d`.
pub open spec fn digit_char(d: nat) -> char {
    if d == 0 { '0' } else if d == 1 { '1' } else if d == 2 { '2' } else if d == 3 { '3' }
    else if d == 4 { '4' } else if d == 5 { '5' } else if d == 6 { '6' } else if d == 7 { '7' }
    else if d == 8 { '8' } else { '9' }
}

/// `n` in decimal, with a leading `-` when negative, as `Display` writes integers.
pub open spec fn int_text(n: int) -> Seq<char> {
    if n < 0 {
        seq!['-'] + digits((-n) as nat)
    } else {
        digits(n as nat)
    }
}

fn digit_of(d: u64) -> (c: char)
    requires
        d < 10,
    ensures
        c == digit_char(d as nat),
{
    if d == 0 { '0' } else if d == 1 { '1' } else if d == 2 { '2' } else if d == 3 { '3' }
    else if d == 4 { '4' } else if d == 5 { '5' } else if d == 6 { '6' } else if d == 7 { '7' }
    else if d == 8 { '8' } else { '9' }
}

/// The decimal digits of `n`, as characters.
pub fn digit_chars(n: u64) -> (v: Vec<char>)
    ensures
        v@ == digits(n as nat),
{
    let mut acc: Vec<char> = Vec::new();
    let mut rem = n;
    assert(digits(n as nat) =~= digits(n as nat) + acc@);
    loop
        invariant
            digits(n as nat) == digits(rem as nat) + acc@,
        decreases rem,
    {
        let d = rem % 10;
        let c = digit_of(d);
        let ghost old_acc = acc@;
        acc.insert(0, c);
        assert(acc@ =~= seq![c] + old_acc);
        if rem < 10 {
            assert(digits(rem as nat) == seq![c]);
            assert(digits(n as nat) =~= acc@);
            return acc;
        }
        assert(digits(rem as nat) == digits((rem / 10) as nat).push(c));
        assert(digits((rem / 10) as nat).push(c) + old_acc =~= digits((rem / 10) as nat) + acc@);
        rem = rem / 10;
    }
}

/// `n` in decimal, with a leading `-` when negative.
pub fn int_chars(n: i64) -> (v: Vec<char>)
    requires
        n > i64::MIN,
    ensures
        v@ == int_text(n as int),
{
    if n < 0 {
        let mut v: Vec<char> = Vec::new();
        v.push('-');
        let mut d = digit_chars((-n) as u64);
        let ghost dv = d@;
        v.append(&mut d);
        assert(v@ =~= seq!['-'] + dv);
        v
    } else {
        digit_chars(n as u64)
    }
}

/// The bounds in `v` of each piece of `v` between line feeds.
pub fn piece_bounds(v: &Vec<char>) -> (r: Vec<(usize, usize)>)
    ensures
        r@.len() == split_newlines(v@).len(),
        forall|k: int| 0 <= k < r@.len() ==> #[trigger] r@[k].0 <= r@[k].1 <= v@.len(),
        forall|k: int|
            0 <= k < r@.len() ==> v@.subrange(r@[k].0 as int, r@[k].1 as int)
                == #[trigger] split_newlines(v@)[k],
{
    let mut r: Vec<(usize, usize)> = Vec::new();
    let mut start: usize = 0;
    let mut i: usize = 0;
    let n = v.len();
    while i < n
        invariant
            n == v@.len(),
            start <= i <= n,
            r@.len() + 1 == split_newlines(v@.take(i as int)).len(),
            split_newlines(v@.take(i as int)).last() == v@.subrange(start as int, i as int),
            forall|k: int| 0 <= k < r@.len() ==> #[trigger] r@[k].0 <= r@[k].1 <= n,
            forall|k: int|
                0 <= k < r@.len() ==> v@.subrange(r@[k].0 as int, r@[k].1 as int)
                    == #[trigger] split_newlines(v@.take(i as int))[k],
        decreases n - i,
    {
        let ghost prev = split_newlines(v@.take(i as int));
        assert(v@.take(i + 1).drop_last() =~= v@.take(i as int));
        assert(v@.take(i + 1).last() == v@[i as int]);
        if v[i] == '\n' {
            assert(split_newlines(v@.take(i + 1)) == prev.push(Seq::empty()));
            let ghost old_r = r@;
            r.push((start, i));
            assert forall|k: int| 0 <= k < r@.len() implies #[trigger] r@[k].0 <= r@[k].1 <= n by {
                if k < old_r.len() {
                    assert(r@[k] == old_r[k]);
                }
            }
            assert forall|k: int| 0 <= k < r@.len() implies v@.subrange(r@[k].0 as int, r@[k].1 as int)
                == #[trigger] split_newlines(v@.take(i + 1))[k] by {
                if k < old_r.len() {
                    assert(r@[k] == old_r[k]);
                    assert(split_newlines(v@.take(i + 1))[k] == prev[k]);
                } else {
                    assert(split_newlines(v@.take(i + 1))[k] == prev.last());
                }
            }
            start = i + 1;
            assert(v@.subrange(start as int, i + 1) =~= Seq::<char>::empty());
        } else {
            let ghost next = prev.update(prev.len() - 1, prev.last().push(v@[i as int]));
            assert(split_newlines(v@.take(i + 1)) == next);
            assert(v@.subrange(start as int, i + 1) =~= prev.last().push(v@[i as int]));
            assert forall|k: int| 0 <= k < r@.len() implies v@.subrange(r@[k].0 as int, r@[k].1 as int)
                == #[trigger] split_newlines(v@.take(i + 1))[k] by {
                assert(next[k] == prev[k]);
            }
        }
        i = i + 1;
    }
    assert(v@.take(n as int) =~= v@);
    let ghost all = split_newlines(v@);
    let ghost old_r = r@;
    r.push((start, n));
    assert forall|k: int| 0 <= k < r@.len() implies #[trigger] r@[k].0 <= r@[k].1 <= v@.len() by {
        if k < old_r.len() {
            assert(r@[k] == old_r[k]);
        }
    }
    assert forall|k: int| 0 <= k < r@.len() implies v@.subrange(r@[k].0 as int, r@[k].1 as int)
        == #[trigger] split_newlines(v@)[k] by {
        if k < old_r.len() {
            assert(r@[k] == old_r[k]);
        }
    }
    r
}

/// Appends the characters of `s` to `v`.
pub fn push_text(v: &mut Vec<char>, s: &str)
    ensures
        final(v)@ == old(v)@ + s@,
{
    let mut c = chars_of(s);
    v.append(&mut c);
}

/// Appends the characters `src[lo..hi]` to `v`.
pub fn push_range(v: &mut Vec<char>, src: &Vec<char>, lo: usize, hi: usize)
    requires
        lo <= hi <= src@.len(),
    ensures
        final(v)@ == old(v)@ + src@.subrange(lo as int, hi as int),
{
    for i in lo..hi
        invariant
            lo <= hi <= src@.len(),
            v@ == old(v)@ + src@.subrange(lo as int, i as int),
    {
        v.push(src[i]);
        assert(src@.subrange(lo as int, i + 1) =~= src@.subrange(lo as int, i as int).push(src@[i as int]));
        assert(v@ =~= old(v)@ + src@.subrange(lo as int, i + 1));
    }
}

} // verus!
