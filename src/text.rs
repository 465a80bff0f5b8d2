//! Character-level text operations: every function works on `Vec<char>` and
//! is specified over `Seq<char>`.
use vstd::prelude::*;

verus! {

/// Relies on `String::push`: it appends the one character to the string.
pub assume_specification[ String::push ](s: &mut String, ch: char)
    ensures
        final(s)@ == old(s)@.push(ch),
;

/// `p` occurs in `s` starting at index `i`.
pub open spec fn occurs_at(s: Seq<char>, p: Seq<char>, i: int) -> bool {
    0 <= i && i + p.len() <= s.len() && s.subrange(i, i + p.len()) == p
}

/// `p` occurs somewhere in `s`.
pub open spec fn contains(s: Seq<char>, p: Seq<char>) -> bool {
    exists|i: int| occurs_at(s, p, i)
}

pub open spec fn starts_with(s: Seq<char>, p: Seq<char>) -> bool {
    occurs_at(s, p, 0)
}

pub open spec fn ends_with(s: Seq<char>, p: Seq<char>) -> bool {
    occurs_at(s, p, s.len() - p.len())
}

/// The empty pattern matches before every character and at the end.
pub open spec fn replaced_empty(s: Seq<char>, t: Seq<char>) -> Seq<char>
    decreases s.len(),
{
    if s.len() == 0 {
        t
    } else {
        t + seq![s[0]] + replaced_empty(s.drop_first(), t)
    }
}

/// `s` with every non-overlapping occurrence of `p`, scanned from the left,
/// replaced by `t`.
pub open spec fn replaced(s: Seq<char>, p: Seq<char>, t: Seq<char>) -> Seq<char>
    decreases s.len(),
{
    if p.len() == 0 {
        replaced_empty(s, t)
    } else if s.len() == 0 {
        s
    } else if starts_with(s, p) {
        t + replaced(s.skip(p.len() as int), p, t)
    } else {
        seq![s[0]] + replaced(s.drop_first(), p, t)
    }
}

/// A character with the Unicode `White_Space` property.
pub open spec fn is_ws(c: char) -> bool {
    ('\u{9}' <= c && c <= '\u{d}') || c == ' ' || c == '\u{85}' || c == '\u{a0}' || c
        == '\u{1680}' || ('\u{2000}' <= c && c <= '\u{200a}') || c == '\u{2028}' || c
        == '\u{2029}' || c == '\u{202f}' || c == '\u{205f}' || c == '\u{3000}'
}

pub open spec fn trim_start(s: Seq<char>) -> Seq<char>
    decreases s.len(),
{
    if s.len() > 0 && is_ws(s[0]) {
        trim_start(s.drop_first())
    } else {
        s
    }
}

pub open spec fn trim_end(s: Seq<char>) -> Seq<char>
    decreases s.len(),
{
    if s.len() > 0 && is_ws(s.last()) {
        trim_end(s.drop_last())
    } else {
        s
    }
}

/// `s` without leading and trailing white space.
pub open spec fn trimmed(s: Seq<char>) -> Seq<char> {
    trim_end(trim_start(s))
}

/// The characters of `s`, one per element.
pub fn chars_of(s: &str) -> (r: Vec<char>)
    ensures
        r@ == s@,
{
    let mut v: Vec<char> = Vec::new();
    for c in it: s.chars()
        invariant
            v@ == it.seq().take(it.index() as int),
    {
        v.push(c);
    }
    v
}

/// A `String` holding the characters of `v`.
pub fn string_of(v: &Vec<char>) -> (r: String)
    ensures
        r@ == v@,
{
    let mut s = String::new();
    let mut i: usize = 0;
    while i < v.len()
        invariant
            i <= v.len(),
            s@ == v@.take(i as int),
        decreases v.len() - i,
    {
        s.push(v[i]);
        i += 1;
        assert(v@.take(i as int) == v@.take((i - 1) as int).push(v@[i - 1]));
    }
    assert(v@.take(v.len() as int) == v@);
    s
}

/// Appends the characters of `t` to `out`.
pub fn push_all(out: &mut Vec<char>, t: &Vec<char>)
    ensures
        final(out)@ == old(out)@ + t@,
{
    let mut i: usize = 0;
    while i < t.len()
        invariant
            i <= t.len(),
            out@ == old(out)@ + t@.take(i as int),
        decreases t.len() - i,
    {
        out.push(t[i]);
        i += 1;
        assert(t@.take(i as int) == t@.take((i - 1) as int).push(t@[i - 1]));
    }
    assert(t@.take(t.len() as int) == t@);
}

/// A copy of `v`.
pub fn copy_chars(v: &Vec<char>) -> (r: Vec<char>)
    ensures
        r@ == v@,
{
    let mut r: Vec<char> = Vec::new();
    push_all(&mut r, v);
    r
}

/// Whether `p` occurs in `s` at index `i`.
pub fn matches_at(s: &Vec<char>, p: &Vec<char>, i: usize) -> (b: bool)
    ensures
        b == occurs_at(s@, p@, i as int),
{
    if i > s.len() || p.len() > s.len() - i {
        return false;
    }
    let mut j: usize = 0;
    while j < p.len()
        invariant
            j <= p.len(),
            i + p.len() <= s.len(),
            forall|k: int| 0 <= k < j ==> s@[i + k] == p@[k],
        decreases p.len() - j,
    {
        if s[i + j] != p[j] {
            assert(s@.subrange(i as int, i + p.len())[j as int] != p@[j as int]);
            return false;
        }
        j += 1;
    }
    assert(s@.subrange(i as int, i + p.len()) =~= p@);
    true
}

pub fn chars_eq(a: &Vec<char>, b: &Vec<char>) -> (r: bool)
    ensures
        r == (a@ == b@),
{
    if a.len() != b.len() {
        return false;
    }
    let r = matches_at(a, b, 0);
    proof {
        if r {
            assert(a@.subrange(0, a@.len() as int) =~= a@);
        } else {
            assert(a@.subrange(0, b@.len() as int) =~= a@);
        }
    }
    r
}

/// Whether `p` occurs anywhere in `s`.
pub fn contains_chars(s: &Vec<char>, p: &Vec<char>) -> (r: bool)
    ensures
        r == contains(s@, p@),
{
    let mut i: usize = 0;
    while i < s.len()
        invariant
            i <= s.len(),
            forall|k: int| 0 <= k < i ==> !occurs_at(s@, p@, k),
        decreases s.len() - i,
    {
        if matches_at(s, p, i) {
            return true;
        }
        i += 1;
    }
    if matches_at(s, p, i) {
        return true;
    }
    assert forall|k: int| !occurs_at(s@, p@, k) by {
        if 0 <= k && k + p.len() <= s.len() {
            assert(k <= i);
        }
    }
    false
}

pub fn is_ws_char(c: char) -> (r: bool)
    ensures
        r == is_ws(c),
{
    ('\u{9}' <= c && c <= '\u{d}') || c == ' ' || c == '\u{85}' || c == '\u{a0}' || c
        == '\u{1680}' || ('\u{2000}' <= c && c <= '\u{200a}') || c == '\u{2028}' || c
        == '\u{2029}' || c == '\u{202f}' || c == '\u{205f}' || c == '\u{3000}'
}

proof fn lemma_trim_start_skip(s: Seq<char>, i: int)
    requires
        0 <= i <= s.len(),
        forall|k: int| 0 <= k < i ==> is_ws(s[k]),
    ensures
        trim_start(s) == trim_start(s.skip(i)),
    decreases i,
{
    if i > 0 {
        assert(s.drop_first().skip(i - 1) == s.skip(i));
        lemma_trim_start_skip(s.drop_first(), i - 1);
    } else {
        assert(s.skip(0) == s);
    }
}

proof fn lemma_trim_end_take(s: Seq<char>, j: int)
    requires
        0 <= j <= s.len(),
        forall|k: int| j <= k < s.len() ==> is_ws(s[k]),
    ensures
        trim_end(s) == trim_end(s.take(j)),
    decreases s.len() - j,
{
    if j < s.len() {
        assert(s.drop_last().take(j) == s.take(j));
        lemma_trim_end_take(s.drop_last(), j);
    } else {
        assert(s.take(j) == s);
    }
}

/// `s` without leading and trailing white space.
pub fn trim_chars(s: &Vec<char>) -> (r: Vec<char>)
    ensures
        r@ == trimmed(s@),
{
    let mut i: usize = 0;
    while i < s.len() && is_ws_char(s[i])
        invariant
            i <= s.len(),
            forall|k: int| 0 <= k < i ==> is_ws(s@[k]),
        decreases s.len() - i,
    {
        i += 1;
    }
    proof {
        lemma_trim_start_skip(s@, i as int);
    }
    let ghost t = s@.skip(i as int);
    let mut j: usize = s.len();
    while j > i && is_ws_char(s[j - 1])
        invariant
            i <= j <= s.len(),
            t == s@.skip(i as int),
            forall|k: int| j - i <= k < t.len() ==> is_ws(t[k]),
        decreases j,
    {
        j -= 1;
    }
    proof {
        lemma_trim_end_take(t, j - i);
        let u = t.take(j - i);
        if u.len() > 0 {
            assert(!is_ws(u.last()));
        }
        if t.len() > 0 && u.len() == 0 {
        }
        assert(trim_start(s@) == t);
        if i < s.len() {
            assert(!is_ws(t[0]));
        }
    }
    let mut r: Vec<char> = Vec::new();
    let mut k: usize = i;
    while k < j
        invariant
            i <= k <= j <= s.len(),
            r@ == s@.subrange(i as int, k as int),
        decreases j - k,
    {
        r.push(s[k]);
        k += 1;
        assert(s@.subrange(i as int, k as int) == s@.subrange(i as int, k - 1).push(s@[k - 1]));
    }
    proof {
        assert(r@ == t.take(j - i));
        let u = t.take(j - i);
        if u.len() > 0 {
            assert(trim_end(u) == u);
        } else {
            assert(trim_end(u) == u);
        }
    }
    r
}

proof fn lemma_replaced_empty_step(s: Seq<char>, t: Seq<char>, i: int)
    requires
        0 <= i < s.len(),
    ensures
        replaced_empty(s.skip(i), t) == t + seq![s[i]] + replaced_empty(s.skip(i + 1), t),
{
    assert(s.skip(i).drop_first() == s.skip(i + 1));
}

proof fn lemma_replaced_step(s: Seq<char>, p: Seq<char>, t: Seq<char>, i: int)
    requires
        0 <= i < s.len(),
        p.len() > 0,
    ensures
        occurs_at(s, p, i) ==> replaced(s.skip(i), p, t) == t + replaced(
            s.skip(i + p.len()),
            p,
            t,
        ),
        !occurs_at(s, p, i) ==> replaced(s.skip(i), p, t) == seq![s[i]] + replaced(
            s.skip(i + 1),
            p,
            t,
        ),
{
    let x = s.skip(i);
    assert(x.drop_first() == s.skip(i + 1));
    if i + p.len() <= s.len() {
        assert(x.skip(p.len() as int) == s.skip(i + p.len()));
        assert(x.subrange(0, p.len() as int) == s.subrange(i, i + p.len()));
    }
}

/// `s` with every occurrence of `p` replaced by `t`, as `str::replace` does.
pub fn replace_chars(s: &Vec<char>, p: &Vec<char>, t: &Vec<char>) -> (r: Vec<char>)
    ensures
        r@ == replaced(s@, p@, t@),
{
    let mut out: Vec<char> = Vec::new();
    let mut i: usize = 0;
    assert(s@.skip(0) == s@);
    if p.len() == 0 {
        while i < s.len()
            invariant
                i <= s.len(),
                out@ + replaced_empty(s@.skip(i as int), t@) == replaced_empty(s@, t@),
            decreases s.len() - i,
        {
            proof {
                lemma_replaced_empty_step(s@, t@, i as int);
            }
            push_all(&mut out, t);
            out.push(s[i]);
            i += 1;
        }
        assert(s@.skip(i as int).len() == 0);
        assert(s@.skip(0) == s@);
        push_all(&mut out, t);
        return out;
    }
    assert(s@.skip(0) == s@);
    while i < s.len()
        invariant
            i <= s.len(),
            p@.len() > 0,
            out@ + replaced(s@.skip(i as int), p@, t@) == replaced(s@, p@, t@),
        decreases s.len() - i,
    {
        proof {
            lemma_replaced_step(s@, p@, t@, i as int);
        }
        if matches_at(s, p, i) {
            push_all(&mut out, t);
            i += p.len();
        } else {
            out.push(s[i]);
            i += 1;
        }
    }
    assert(s@.skip(i as int).len() == 0);
    out
}

/// `prev`, then a newline and `add`; just `add` when `prev` is empty.
pub open spec fn joined_line(prev: Seq<char>, add: Seq<char>) -> Seq<char> {
    if prev.len() == 0 {
        add
    } else {
        prev + seq!['\n'] + add
    }
}

} // verus!
