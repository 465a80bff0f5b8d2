//! The line-oriented parser of the resource format.
use vstd::prelude::*;
use crate::entry::{Entry, EntryView, pair_view, pairs_view};
use crate::text::{chars_of, ends_with, joined_line, push_all, string_of, trim_chars, trimmed};

verus! {

pub open spec fn is_key_start(c: char) -> bool {
    c == '.' || c == '_' || ('a' <= c && c <= 'z') || ('A' <= c && c <= 'Z')
}

pub open spec fn is_key_rest(c: char) -> bool {
    c == '_' || ('a' <= c && c <= 'z') || ('A' <= c && c <= 'Z') || ('0' <= c && c <= '9')
}

/// The end of the run of key characters of `s` that starts at `i`.
pub open spec fn key_end(s: Seq<char>, i: int) -> int
    decreases s.len() - i,
{
    if 0 <= i < s.len() && is_key_rest(s[i]) {
        key_end(s, i + 1)
    } else {
        i
    }
}

pub open spec fn separator() -> Seq<char> {
    seq![' ', '=', ' ']
}

/// A line of the form `key = value`: the key starts with `.`, `_` or a letter
/// and goes on with `_`, letters and digits; the value is the rest of the line.
pub open spec fn kv_split(s: Seq<char>) -> Option<(Seq<char>, Seq<char>)> {
    let k = key_end(s, 1);
    if s.len() > 0 && is_key_start(s[0]) && s.subrange(k, s.len() as int).len() >= 3
        && s.subrange(k, k + 3) == separator() {
        Some((s.take(k), s.skip(k + 3)))
    } else {
        None
    }
}

pub fn is_key_start_char(c: char) -> (r: bool)
    ensures
        r == is_key_start(c),
{
    c == '.' || c == '_' || ('a' <= c && c <= 'z') || ('A' <= c && c <= 'Z')
}

pub fn is_key_rest_char(c: char) -> (r: bool)
    ensures
        r == is_key_rest(c),
{
    c == '_' || ('a' <= c && c <= 'z') || ('A' <= c && c <= 'Z') || ('0' <= c && c <= '9')
}

/// Splits a `key = value` line into its key and its value.
pub fn check_kv(s: &Vec<char>) -> (r: Option<(Vec<char>, Vec<char>)>)
    ensures
        r matches Some(p) ==> kv_split(s@) == Some((p.0@, p.1@)) && p.0@.len() >= 1,
        r is None ==> kv_split(s@) is None,
{
    if s.len() == 0 || !is_key_start_char(s[0]) {
        return None;
    }
    let mut k: usize = 1;
    while k < s.len() && is_key_rest_char(s[k])
        invariant
            1 <= k <= s.len(),
            key_end(s@, 1) == key_end(s@, k as int),
        decreases s.len() - k,
    {
        k += 1;
    }
    if s.len() - k < 3 || s[k] != ' ' || s[k + 1] != '=' || s[k + 2] != ' ' {
        proof {
            if s.len() - k >= 3 {
                assert(s@.subrange(k as int, k + 3)[0] == s@[k as int]);
                assert(s@.subrange(k as int, k + 3)[1] == s@[k + 1]);
                assert(s@.subrange(k as int, k + 3)[2] == s@[k + 2]);
            }
        }
        return None;
    }
    assert(s@.subrange(k as int, k + 3) =~= separator());
    let mut key: Vec<char> = Vec::new();
    let mut i: usize = 0;
    while i < k
        invariant
            k <= s.len(),
            i <= k,
            key@ == s@.take(i as int),
        decreases k - i,
    {
        key.push(s[i]);
        i += 1;
        assert(s@.take(i as int) == s@.take(i - 1).push(s@[i - 1]));
    }
    let mut value: Vec<char> = Vec::new();
    let mut j: usize = k + 3;
    while j < s.len()
        invariant
            k + 3 <= j <= s.len(),
            value@ == s@.subrange(k + 3, j as int),
        decreases s.len() - j,
    {
        value.push(s[j]);
        j += 1;
        assert(s@.subrange(k + 3, j as int) == s@.subrange(k + 3, j - 1).push(s@[j - 1]));
    }
    assert(value@ == s@.skip(k + 3));
    Some((key, value))
}

/// `s` without its trailing `=` characters.
pub open spec fn trim_end_eq(s: Seq<char>) -> Seq<char>
    decreases s.len(),
{
    if s.len() > 0 && s.last() == '=' {
        trim_end_eq(s.drop_last())
    } else {
        s
    }
}

fn trim_end_eq_chars(s: &Vec<char>) -> (r: Vec<char>)
    ensures
        r@ == trim_end_eq(s@),
{
    let mut j: usize = s.len();
    assert(s@.take(j as int) == s@);
    while j > 0 && s[j - 1] == '='
        invariant
            j <= s.len(),
            trim_end_eq(s@) == trim_end_eq(s@.take(j as int)),
        decreases j,
    {
        assert(s@.take(j as int).drop_last() == s@.take(j - 1));
        j -= 1;
    }
    let mut r: Vec<char> = Vec::new();
    let mut i: usize = 0;
    while i < j
        invariant
            j <= s.len(),
            i <= j,
            r@ == s@.take(i as int),
        decreases j - i,
    {
        r.push(s[i]);
        i += 1;
        assert(s@.take(i as int) == s@.take(i - 1).push(s@[i - 1]));
    }
    r
}

/// The duplicate top-level slug that stopped a parse.
#[derive(Debug, Clone, PartialEq, Eq)]
pub struct ParseError {
    pub slug: String,
}

/// The running state of the parser.
#[derive(Debug, Clone)]
pub struct Parser {
    pub entries: Vec<Entry>,
    pub childs: Vec<(String, String)>,
    pub cur_key: String,
    pub cur_val: String,
    pub parent_key: String,
    pub parent_val: String,
}

pub struct ParserView {
    pub entries: Seq<EntryView>,
    pub childs: Seq<(Seq<char>, Seq<char>)>,
    pub cur_key: Seq<char>,
    pub cur_val: Seq<char>,
    pub parent_key: Seq<char>,
    pub parent_val: Seq<char>,
}

pub open spec fn entries_view(v: Seq<Entry>) -> Seq<EntryView> {
    v.map_values(|e: Entry| e@)
}

pub open spec fn lines_view(v: Seq<String>) -> Seq<Seq<char>> {
    v.map_values(|s: String| s@)
}

impl View for Parser {
    type V = ParserView;

    open spec fn view(&self) -> ParserView {
        ParserView {
            entries: entries_view(self.entries@),
            childs: pairs_view(self.childs@),
            cur_key: self.cur_key@,
            cur_val: self.cur_val@,
            parent_key: self.parent_key@,
            parent_val: self.parent_val@,
        }
    }
}

/// The state with nothing pending and the given finished entries.
pub open spec fn idle(entries: Seq<EntryView>) -> ParserView {
    ParserView {
        entries,
        childs: Seq::empty(),
        cur_key: Seq::empty(),
        cur_val: Seq::empty(),
        parent_key: Seq::empty(),
        parent_val: Seq::empty(),
    }
}

/// The open child, if any, moved to the pending children.
pub open spec fn flush_child(st: ParserView) -> ParserView {
    if st.cur_key.len() > 0 {
        ParserView { childs: st.childs.push((st.cur_key, st.cur_val)), ..st }
    } else {
        st
    }
}

pub open spec fn has_slug(entries: Seq<EntryView>, slug: Seq<char>) -> bool {
    exists|i: int| 0 <= i < entries.len() && entries[i].slug == slug
}

/// Closes the entry being built. On a duplicate slug the state is kept and
/// the slug is the error.
pub open spec fn finalize(st: ParserView) -> (ParserView, Option<Seq<char>>) {
    if st.parent_key.len() == 0 {
        (st, None)
    } else if has_slug(st.entries, st.parent_key) {
        (st, Some(st.parent_key))
    } else {
        let f = flush_child(st);
        (
            idle(
                st.entries.push(
                    EntryView { slug: st.parent_key, value: st.parent_val, childs: f.childs },
                ),
            ),
            None,
        )
    }
}

/// One line of input.
pub open spec fn step(st: ParserView, line: Seq<char>) -> (ParserView, Option<Seq<char>>) {
    let strip = trimmed(line);
    match kv_split(strip) {
        Some((k, v)) => {
            if k[0] == '.' {
                (ParserView { cur_key: k, cur_val: v, ..flush_child(st) }, None)
            } else {
                let (f, e) = finalize(st);
                if e is Some {
                    (f, e)
                } else {
                    (ParserView { parent_key: k, parent_val: v, ..f }, None)
                }
            }
        },
        None => {
            if strip.len() == 0 {
                finalize(st)
            } else if ends_with(strip, seq!['=']) {
                let key = trimmed(trim_end_eq(strip));
                if st.parent_key.len() == 0 {
                    (ParserView { parent_key: key, ..st }, None)
                } else {
                    (ParserView { cur_key: key, ..st }, None)
                }
            } else if st.cur_key.len() == 0 {
                (ParserView { parent_val: joined_line(st.parent_val, strip), ..st }, None)
            } else {
                (ParserView { cur_val: joined_line(st.cur_val, strip), ..st }, None)
            }
        },
    }
}

/// All lines, then the closing of the last entry; stops at the first error.
pub open spec fn run(st: ParserView, lines: Seq<Seq<char>>) -> (ParserView, Option<Seq<char>>)
    decreases lines.len(),
{
    if lines.len() == 0 {
        finalize(st)
    } else {
        let (s2, e) = step(st, lines[0]);
        if e is Some {
            (s2, e)
        } else {
            run(s2, lines.drop_first())
        }
    }
}

/// The entries that parsing `lines` from the start yields, or the first
/// duplicate slug.
pub open spec fn parse_entries(lines: Seq<Seq<char>>) -> Result<Seq<EntryView>, Seq<char>> {
    let (st, e) = run(idle(Seq::empty()), lines);
    match e {
        Some(slug) => Err(slug),
        None => Ok(st.entries),
    }
}

pub open spec fn outcome_matches(r: Result<(), ParseError>, e: Option<Seq<char>>) -> bool {
    match r {
        Ok(()) => e is None,
        Err(err) => e == Some(err.slug@),
    }
}

fn clear_string(s: &mut String)
    ensures
        final(s)@ == Seq::<char>::empty(),
{
    *s = String::new();
}

impl Parser {
    pub fn new() -> (r: Self)
        ensures
            r@ == idle(Seq::empty()),
    {
        let r = Parser {
            entries: Vec::new(),
            childs: Vec::new(),
            cur_key: String::new(),
            cur_val: String::new(),
            parent_key: String::new(),
            parent_val: String::new(),
        };
        assert(r@.entries =~= Seq::<EntryView>::empty());
        assert(r@.childs =~= Seq::<(Seq<char>, Seq<char>)>::empty());
        r
    }

    fn add_child(&mut self)
        ensures
            final(self)@ == flush_child(old(self)@),
    {
        if self.cur_key.as_str().unicode_len() != 0 {
            self.childs.push((self.cur_key.clone(), self.cur_val.clone()));
            assert(self@.childs =~= old(self)@.childs.push((old(self)@.cur_key, old(self)@.cur_val)));
        }
    }

    fn has_entry(&self, slug: &String) -> (r: bool)
        ensures
            r == has_slug(self@.entries, slug@),
    {
        let mut i: usize = 0;
        while i < self.entries.len()
            invariant
                i <= self.entries.len(),
                forall|k: int| 0 <= k < i ==> self@.entries[k].slug != slug@,
            decreases self.entries.len() - i,
        {
            if self.entries[i].slug == *slug {
                assert(self@.entries[i as int].slug == slug@);
                return true;
            }
            i += 1;
        }
        false
    }

    /// Closes the entry being built and appends it to `entries`; a slug that
    /// is already there is refused and the state is left as it was.
    pub fn add_entry(&mut self) -> (r: Result<(), ParseError>)
        ensures
            final(self)@ == finalize(old(self)@).0,
            outcome_matches(r, finalize(old(self)@).1),
    {
        if self.parent_key.as_str().unicode_len() == 0 {
            return Ok(());
        }
        if self.has_entry(&self.parent_key) {
            return Err(ParseError { slug: self.parent_key.clone() });
        }
        self.add_child();
        let mut entry = Entry::new(self.parent_key.clone(), self.parent_val.clone());
        let mut i: usize = 0;
        while i < self.childs.len()
            invariant
                i <= self.childs.len(),
                entry@.slug == self@.parent_key,
                entry@.value == self@.parent_val,
                entry@.childs == self@.childs.take(i as int),
            decreases self.childs.len() - i,
        {
            entry.add_child(self.childs[i].0.clone(), self.childs[i].1.clone());
            i += 1;
            assert(self@.childs.take(i as int) =~= self@.childs.take(i - 1).push(
                self@.childs[i - 1],
            ));
        }
        assert(self@.childs.take(i as int) == self@.childs);
        let ghost before = self@;
        self.entries.push(entry);
        clear_string(&mut self.parent_key);
        clear_string(&mut self.parent_val);
        clear_string(&mut self.cur_key);
        clear_string(&mut self.cur_val);
        self.childs = Vec::new();
        assert(self@.entries =~= before.entries.push(entry@));
        assert(self@.childs =~= Seq::<(Seq<char>, Seq<char>)>::empty());
        Ok(())
    }

    fn step_line(&mut self, line: &String) -> (r: Result<(), ParseError>)
        ensures
            final(self)@ == step(old(self)@, line@).0,
            outcome_matches(r, step(old(self)@, line@).1),
    {
        let strip = trim_chars(&chars_of(line.as_str()));
        match check_kv(&strip) {
            Some((k, v)) => {
                if k[0] == '.' {
                    self.add_child();
                    self.cur_key = string_of(&k);
                    self.cur_val = string_of(&v);
                    Ok(())
                } else {
                    let r = self.add_entry();
                    if r.is_err() {
                        return r;
                    }
                    self.parent_key = string_of(&k);
                    self.parent_val = string_of(&v);
                    Ok(())
                }
            },
            None => {
                if strip.len() == 0 {
                    self.add_entry()
                } else if strip[strip.len() - 1] == '=' {
                    assert(ends_with(strip@, seq!['=']) ) by {
                        assert(strip@.subrange(strip.len() - 1, strip.len() as int) =~= seq!['=']);
                    }
                    let key = trim_chars(&trim_end_eq_chars(&strip));
                    if self.parent_key.as_str().unicode_len() == 0 {
                        self.parent_key = string_of(&key);
                    } else {
                        self.cur_key = string_of(&key);
                    }
                    Ok(())
                } else {
                    assert(!ends_with(strip@, seq!['='])) by {
                        if ends_with(strip@, seq!['=']) {
                            assert(strip@.subrange(strip.len() - 1, strip.len() as int)[0]
                                == strip@[strip.len() - 1]);
                        }
                    }
                    if self.cur_key.as_str().unicode_len() == 0 {
                        self.parent_val = append_chars(&self.parent_val, &strip);
                    } else {
                        self.cur_val = append_chars(&self.cur_val, &strip);
                    }
                    Ok(())
                }
            },
        }
    }

    /// Feeds every line to the parser, then closes the last entry. Stops at
    /// the first top-level slug that was seen before.
    pub fn parse_lines(&mut self, lines: Vec<String>) -> (r: Result<(), ParseError>)
        ensures
            final(self)@ == run(old(self)@, lines_view(lines@)).0,
            outcome_matches(r, run(old(self)@, lines_view(lines@)).1),
    {
        let ghost lv = lines_view(lines@);
        let mut i: usize = 0;
        assert(lv.skip(0) == lv);
        while i < lines.len()
            invariant
                i <= lines.len(),
                lv == lines_view(lines@),
                run(old(self)@, lv) == run(self@, lv.skip(i as int)),
            decreases lines.len() - i,
        {
            assert(lv.skip(i as int)[0] == lines@[i as int]@);
            assert(lv.skip(i as int).drop_first() == lv.skip(i + 1));
            let r = self.step_line(&lines[i]);
            if r.is_err() {
                return r;
            }
            i += 1;
        }
        assert(lv.skip(i as int).len() == 0);
        self.add_entry()
    }
}

/// `prev`, then a newline and `add`; just `add` when `prev` is empty.
pub fn append_to_string(prev: &str, add: &str) -> (r: String)
    ensures
        r@ == joined_line(prev@, add@),
{
    let p = chars_of(prev);
    let a = chars_of(add);
    let mut out = p;
    if out.len() != 0 {
        out.push('\n');
    }
    push_all(&mut out, &a);
    string_of(&out)
}

fn append_chars(prev: &String, add: &Vec<char>) -> (r: String)
    ensures
        r@ == joined_line(prev@, add@),
{
    let mut out = chars_of(prev.as_str());
    if out.len() != 0 {
        out.push('\n');
    }
    push_all(&mut out, add);
    string_of(&out)
}

} // verus!
