//! A message definition of the resource file: a slug, its text and its
//! attribute children, with the lookup of a slug inside one entry.
use vstd::prelude::*;
use crate::text::{chars_eq, chars_of, push_all, replace_chars, replaced, string_of, trim_chars, trimmed};

verus! {

/// One message definition: a slug, its text, and the ordered
/// `(child slug, child text)` pairs that follow it.
#[derive(Debug, Clone)]
pub struct Entry {
    pub slug: String,
    pub value: String,
    pub childs: Vec<(String, String)>,
}

pub struct EntryView {
    pub slug: Seq<char>,
    pub value: Seq<char>,
    pub childs: Seq<(Seq<char>, Seq<char>)>,
}

pub open spec fn pair_view(p: (String, String)) -> (Seq<char>, Seq<char>) {
    (p.0@, p.1@)
}

pub open spec fn pairs_view(v: Seq<(String, String)>) -> Seq<(Seq<char>, Seq<char>)> {
    v.map_values(|p: (String, String)| pair_view(p))
}

impl View for Entry {
    type V = EntryView;

    open spec fn view(&self) -> EntryView {
        EntryView { slug: self.slug@, value: self.value@, childs: pairs_view(self.childs@) }
    }
}

/// The text after the first `_` of `s`; empty when `s` has none.
pub open spec fn strip_first_segment(s: Seq<char>) -> Seq<char>
    decreases s.len(),
{
    if s.len() == 0 {
        s
    } else if s[0] == '_' {
        s.drop_first()
    } else {
        strip_first_segment(s.drop_first())
    }
}

pub open spec fn dotted(s: Seq<char>) -> Seq<char> {
    seq!['.'] + s
}

/// Whether a child keyed `k` answers a lookup of `slug`.
pub open spec fn child_matches(k: Seq<char>, slug: Seq<char>) -> bool {
    k == slug || k == dotted(slug) || k == strip_first_segment(slug) || k == dotted(
        strip_first_segment(slug),
    )
}

/// The resource format writes a literal `{` as `{"{"}`.
pub open spec fn open_brace_escape() -> Seq<char> {
    seq!['{', '"', '{', '"', '}']
}

/// The resource format writes a literal `}` as `{"}"}`.
pub open spec fn close_brace_escape() -> Seq<char> {
    seq!['{', '"', '}', '"', '}']
}

/// Raw resource text as a quoted string literal: brace escapes undone,
/// surrounding white space removed, inner double quotes escaped.
pub open spec fn literal_of(v: Seq<char>) -> Seq<char> {
    let u = replaced(replaced(v, open_brace_escape(), seq!['{']), close_brace_escape(), seq!['}']);
    seq!['"'] + replaced(trimmed(u), seq!['"'], seq!['\\', '"']) + seq!['"']
}

/// The first child of `childs` that answers `slug`, as a literal.
pub open spec fn child_value(childs: Seq<(Seq<char>, Seq<char>)>, slug: Seq<char>) -> Option<
    Seq<char>,
>
    decreases childs.len(),
{
    if childs.len() == 0 {
        None
    } else if child_matches(childs[0].0, slug) {
        Some(literal_of(childs[0].1))
    } else {
        child_value(childs.drop_first(), slug)
    }
}

/// What a lookup of `slug` in entry `e` yields: its own text on an exact
/// match, else the first matching child.
pub open spec fn entry_value(e: EntryView, slug: Seq<char>) -> Option<Seq<char>> {
    if slug == e.slug {
        Some(literal_of(e.value))
    } else {
        child_value(e.childs, slug)
    }
}

/// The quoted literal for raw resource text.
pub fn format_literal(v: &Vec<char>) -> (r: Vec<char>)
    ensures
        r@ == literal_of(v@),
{
    let open_esc = vec!['{', '"', '{', '"', '}'];
    let close_esc = vec!['{', '"', '}', '"', '}'];
    let open_b = vec!['{'];
    let close_b = vec!['}'];
    let quote = vec!['"'];
    let esc_quote = vec!['\\', '"'];
    assert(open_esc@ =~= open_brace_escape());
    assert(close_esc@ =~= close_brace_escape());
    assert(open_b@ =~= seq!['{']);
    assert(close_b@ =~= seq!['}']);
    assert(quote@ =~= seq!['"']);
    assert(esc_quote@ =~= seq!['\\', '"']);
    let a = replace_chars(v, &open_esc, &open_b);
    let b = replace_chars(&a, &close_esc, &close_b);
    let c = trim_chars(&b);
    let d = replace_chars(&c, &quote, &esc_quote);
    let mut r: Vec<char> = vec!['"'];
    push_all(&mut r, &d);
    r.push('"');
    assert(r@ =~= seq!['"'] + d@ + seq!['"']);
    r
}

pub fn strip_segment(s: &Vec<char>) -> (r: Vec<char>)
    ensures
        r@ == strip_first_segment(s@),
{
    let mut i: usize = 0;
    assert(s@.skip(0) == s@);
    while i < s.len() && s[i] != '_'
        invariant
            i <= s.len(),
            strip_first_segment(s@) == strip_first_segment(s@.skip(i as int)),
        decreases s.len() - i,
    {
        assert(s@.skip(i as int).drop_first() == s@.skip(i + 1));
        i += 1;
    }
    let mut r: Vec<char> = Vec::new();
    if i == s.len() {
        assert(s@.skip(i as int).len() == 0);
        return r;
    }
    let mut k: usize = i + 1;
    while k < s.len()
        invariant
            i < s.len(),
            i + 1 <= k <= s.len(),
            r@ == s@.subrange(i + 1, k as int),
        decreases s.len() - k,
    {
        r.push(s[k]);
        k += 1;
        assert(s@.subrange(i + 1, k as int) == s@.subrange(i + 1, k - 1).push(s@[k - 1]));
    }
    assert(s@.skip(i as int).drop_first() == s@.subrange(i + 1, s.len() as int));
    r
}

impl Entry {
    pub fn new(slug: String, value: String) -> (r: Self)
        ensures
            r@.slug == slug@,
            r@.value == value@,
            r@.childs.len() == 0,
    {
        let r = Self { slug, value, childs: Vec::new() };
        assert(r@.childs =~= Seq::<(Seq<char>, Seq<char>)>::empty());
        r
    }

    pub fn add_child(&mut self, slug: String, value: String)
        ensures
            final(self)@.slug == old(self)@.slug,
            final(self)@.value == old(self)@.value,
            final(self)@.childs == old(self)@.childs.push((slug@, value@)),
    {
        self.childs.push((slug, value));
        assert(self@.childs =~= old(self)@.childs.push((slug@, value@)));
    }

    /// The literal that `slug` resolves to within this entry, if any.
    pub fn get_value_from_slug(&self, slug: &str) -> (r: Option<String>)
        ensures
            r matches Some(v) ==> entry_value(self@, slug@) == Some(v@),
            r is None ==> entry_value(self@, slug@) is None,
    {
        let key = chars_of(slug);
        let own = chars_of(self.slug.as_str());
        if chars_eq(&key, &own) {
            let v = chars_of(self.value.as_str());
            return Some(string_of(&format_literal(&v)));
        }
        let stripped = strip_segment(&key);
        let mut dot_key: Vec<char> = vec!['.'];
        push_all(&mut dot_key, &key);
        let mut dot_stripped: Vec<char> = vec!['.'];
        push_all(&mut dot_stripped, &stripped);
        let mut i: usize = 0;
        assert(self@.childs.skip(0) == self@.childs);
        while i < self.childs.len()
            invariant
                i <= self.childs.len(),
                key@ == slug@,
                key@ != self@.slug,
                stripped@ == strip_first_segment(slug@),
                dot_key@ == dotted(slug@),
                dot_stripped@ == dotted(stripped@),
                child_value(self@.childs, slug@) == child_value(
                    self@.childs.skip(i as int),
                    slug@,
                ),
            decreases self.childs.len() - i,
        {
            let k = chars_of(self.childs[i].0.as_str());
            assert(self@.childs[i as int] == pair_view(self.childs@[i as int]));
            assert(self@.childs.skip(i as int).drop_first() == self@.childs.skip(i + 1));
            if chars_eq(&k, &key) || chars_eq(&k, &dot_key) || chars_eq(&k, &stripped) || chars_eq(
                &k,
                &dot_stripped,
            ) {
                let v = chars_of(self.childs[i].1.as_str());
                return Some(string_of(&format_literal(&v)));
            }
            i += 1;
        }
        None
    }
}

} // verus!
