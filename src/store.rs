//! The resolution store: the parsed entries with their `{name}` references
//! filled in, plus the synthetic root entry that gathers every top-level slug.
use vstd::prelude::*;
use crate::entry::{Entry, EntryView, pair_view, pairs_view};
use crate::parser::entries_view;
use crate::text::{chars_of, push_all, string_of};

verus! {

/// The slug of the synthetic root entry.
pub open spec fn root_slug() -> Seq<char> {
    seq!['*', 'r', 'o', 'o', 't', '*']
}

/// The last entry of `store` whose slug is `slug`: a later entry shadows an
/// earlier one with the same slug.
pub open spec fn lookup_entry(store: Seq<EntryView>, slug: Seq<char>) -> Option<EntryView>
    decreases store.len(),
{
    if store.len() == 0 {
        None
    } else if store.last().slug == slug {
        Some(store.last())
    } else {
        lookup_entry(store.drop_last(), slug)
    }
}

/// The index of the first `}` or `{` in `s` after position 0, or `s.len()`.
pub open spec fn brace_end(s: Seq<char>, i: int) -> int
    decreases s.len() - i,
{
    if i < 1 || i >= s.len() {
        if i < 1 { 1 } else { i }
    } else if s[i] == '{' || s[i] == '}' {
        i
    } else {
        brace_end(s, i + 1)
    }
}

/// The name of a `{name}` reference at the start of `s`: a non-empty run of
/// characters other than braces, closed by `}`.
pub open spec fn leading_reference(s: Seq<char>) -> Option<Seq<char>> {
    let j = brace_end(s, 1);
    if s.len() > 0 && s[0] == '{' && j < s.len() && s[j] == '}' && j > 1 {
        Some(s.subrange(1, j))
    } else {
        None
    }
}

/// `s` with each `{name}` whose name is the slug of an entry of `entries`
/// replaced by that entry's text, in one left-to-right pass.
pub open spec fn substituted(s: Seq<char>, entries: Seq<EntryView>) -> Seq<char>
    decreases s.len(),
{
    if s.len() == 0 {
        s
    } else {
        match leading_reference(s) {
            Some(name) => match lookup_entry(entries, name) {
                Some(e) => e.value + substituted(s.skip(name.len() + 2int), entries),
                None => seq![s[0]] + substituted(s.drop_first(), entries),
            },
            None => seq![s[0]] + substituted(s.drop_first(), entries),
        }
    }
}

pub open spec fn fixed_pair(p: (Seq<char>, Seq<char>), entries: Seq<EntryView>) -> (
    Seq<char>,
    Seq<char>,
) {
    (p.0, substituted(p.1, entries))
}

/// An entry with references filled in, in its text and in its children.
pub open spec fn fixed_entry(e: EntryView, entries: Seq<EntryView>) -> EntryView {
    EntryView {
        slug: e.slug,
        value: substituted(e.value, entries),
        childs: e.childs.map_values(|p: (Seq<char>, Seq<char>)| fixed_pair(p, entries)),
    }
}

/// The root entry: empty text, one child per entry, keyed by its slug.
pub open spec fn root_entry(entries: Seq<EntryView>) -> EntryView {
    EntryView {
        slug: root_slug(),
        value: Seq::empty(),
        childs: entries.map_values(|e: EntryView| (e.slug, e.value)),
    }
}

/// What a store holds after `entries` are added to it.
pub open spec fn store_with(store: Seq<EntryView>, entries: Seq<EntryView>) -> Seq<EntryView> {
    store + entries.map_values(|e: EntryView| fixed_entry(e, entries)).push(
        fixed_entry(root_entry(entries), entries),
    )
}

/// The index of the entry that `lookup_entry` finds.
pub fn find_entry(store: &Vec<Entry>, slug: &Vec<char>) -> (r: Option<usize>)
    ensures
        r matches Some(i) ==> i < store.len() && lookup_entry(entries_view(store@), slug@) == Some(
            store@[i as int]@,
        ),
        r is None ==> lookup_entry(entries_view(store@), slug@) is None,
{
    let ghost sv = entries_view(store@);
    let mut i: usize = store.len();
    assert(sv.take(i as int) == sv);
    while i > 0
        invariant
            i <= store.len(),
            sv == entries_view(store@),
            lookup_entry(sv, slug@) == lookup_entry(sv.take(i as int), slug@),
        decreases i,
    {
        let s = chars_of(store[i - 1].slug.as_str());
        assert(sv.take(i as int).last() == store@[i - 1]@);
        assert(sv.take(i as int).drop_last() == sv.take(i - 1));
        if crate::text::chars_eq(&s, slug) {
            return Some(i - 1);
        }
        i -= 1;
    }
    None
}

/// Scans `s` from `i` for the first brace after `i`.
fn find_brace_end(s: &Vec<char>, i: usize) -> (r: usize)
    requires
        1 <= i <= s.len(),
    ensures
        r as int == brace_end(s@, i as int),
{
    let mut j: usize = i;
    while j < s.len() && s[j] != '{' && s[j] != '}'
        invariant
            1 <= i <= j <= s.len(),
            brace_end(s@, i as int) == brace_end(s@, j as int),
        decreases s.len() - j,
    {
        assert(brace_end(s@, j as int) == brace_end(s@, j + 1));
        j += 1;
    }
    j
}

proof fn lemma_substituted_step(s: Seq<char>, entries: Seq<EntryView>, i: int)
    requires
        0 <= i < s.len(),
    ensures
        substituted(s.skip(i), entries) == (match leading_reference(s.skip(i)) {
            Some(name) => match lookup_entry(entries, name) {
                Some(e) => e.value + substituted(s.skip(i + name.len() + 2), entries),
                None => seq![s[i]] + substituted(s.skip(i + 1), entries),
            },
            None => seq![s[i]] + substituted(s.skip(i + 1), entries),
        }),
{
    let x = s.skip(i);
    assert(x.drop_first() == s.skip(i + 1));
    match leading_reference(x) {
        Some(name) => {
            if name.len() + 2 <= x.len() {
                assert(x.skip(name.len() + 2int) == s.skip(i + name.len() + 2));
            }
        },
        None => {},
    }
}

proof fn lemma_brace_end_shift(s: Seq<char>, i: int, j: int)
    requires
        0 <= i < s.len(),
        1 <= j <= s.len() - i,
    ensures
        brace_end(s.skip(i), j) == brace_end(s, i + j) - i,
    decreases s.len() - i - j,
{
    if j < s.len() - i && !(s[i + j] == '{' || s[i + j] == '}') {
        lemma_brace_end_shift(s, i, j + 1);
    }
}

/// `s` with its `{name}` references to entries of `entries` filled in.
pub fn substitute(s: &Vec<char>, entries: &Vec<Entry>) -> (r: Vec<char>)
    ensures
        r@ == substituted(s@, entries_view(entries@)),
{
    let ghost ev = entries_view(entries@);
    let mut out: Vec<char> = Vec::new();
    let mut i: usize = 0;
    assert(s@.skip(0) == s@);
    while i < s.len()
        invariant
            i <= s.len(),
            ev == entries_view(entries@),
            out@ + substituted(s@.skip(i as int), ev) == substituted(s@, ev),
        decreases s.len() - i,
    {
        proof {
            lemma_substituted_step(s@, ev, i as int);
        }
        let ghost x = s@.skip(i as int);
        let mut done = false;
        if s[i] == '{' && i + 1 < s.len() {
            let j = find_brace_end(s, i + 1);
            proof {
                lemma_brace_end_shift(s@, i as int, 1);
            }
            if j < s.len() && s[j] == '}' && j > i + 1 {
                let mut name: Vec<char> = Vec::new();
                let mut k: usize = i + 1;
                while k < j
                    invariant
                        i + 1 <= k <= j < s.len(),
                        name@ == s@.subrange(i + 1, k as int),
                    decreases j - k,
                {
                    name.push(s[k]);
                    k += 1;
                    assert(s@.subrange(i + 1, k as int) == s@.subrange(i + 1, k - 1).push(
                        s@[k - 1],
                    ));
                }
                assert(x.subrange(1, j - i) == name@);
                assert(leading_reference(x) == Some(name@));
                match find_entry(entries, &name) {
                    Some(e) => {
                        let v = chars_of(entries[e].value.as_str());
                        push_all(&mut out, &v);
                        i = j + 1;
                        done = true;
                    },
                    None => {},
                }
            } else {
                assert(leading_reference(x) is None);
            }
        } else {
            assert(leading_reference(x) is None) by {
                if s[i as int] == '{' {
                    assert(x.len() == 1);
                    assert(brace_end(x, 1) == 1);
                }
            }
        }
        if !done {
            out.push(s[i]);
            i += 1;
        }
    }
    assert(s@.skip(i as int).len() == 0);
    out
}

fn fix_string(s: &String, entries: &Vec<Entry>) -> (r: String)
    ensures
        r@ == substituted(s@, entries_view(entries@)),
{
    string_of(&substitute(&chars_of(s.as_str()), entries))
}

/// `e` with references to `entries` filled in.
pub fn fix_entry(e: &Entry, entries: &Vec<Entry>) -> (r: Entry)
    ensures
        r@ == fixed_entry(e@, entries_view(entries@)),
{
    let ghost ev = entries_view(entries@);
    let mut r = Entry::new(e.slug.clone(), fix_string(&e.value, entries));
    let mut i: usize = 0;
    while i < e.childs.len()
        invariant
            i <= e.childs.len(),
            ev == entries_view(entries@),
            r@.slug == e@.slug,
            r@.value == substituted(e@.value, ev),
            r@.childs == e@.childs.take(i as int).map_values(
                |p: (Seq<char>, Seq<char>)| fixed_pair(p, ev),
            ),
        decreases e.childs.len() - i,
    {
        let k = e.childs[i].0.clone();
        let v = fix_string(&e.childs[i].1, entries);
        r.add_child(k, v);
        i += 1;
        assert(e@.childs[i - 1] == pair_view(e.childs@[i - 1]));
        assert(e@.childs.take(i as int).map_values(|p: (Seq<char>, Seq<char>)| fixed_pair(p, ev))
            =~= e@.childs.take(i - 1).map_values(
            |p: (Seq<char>, Seq<char>)| fixed_pair(p, ev),
        ).push(fixed_pair(e@.childs[i - 1], ev)));
    }
    assert(e@.childs.take(i as int) == e@.childs);
    r
}

/// The root entry of `entries`, before references are filled in.
pub fn make_root(entries: &Vec<Entry>) -> (r: Entry)
    ensures
        r@ == root_entry(entries_view(entries@)),
{
    let ghost ev = entries_view(entries@);
    let mut r = Entry::new(string_of(&vec!['*', 'r', 'o', 'o', 't', '*']), String::new());
    assert(r@.slug =~= root_slug());
    let mut i: usize = 0;
    while i < entries.len()
        invariant
            i <= entries.len(),
            ev == entries_view(entries@),
            r@.slug == root_slug(),
            r@.value == Seq::<char>::empty(),
            r@.childs == ev.take(i as int).map_values(|e: EntryView| (e.slug, e.value)),
        decreases entries.len() - i,
    {
        r.add_child(entries[i].slug.clone(), entries[i].value.clone());
        i += 1;
        assert(ev.take(i as int).map_values(|e: EntryView| (e.slug, e.value)) =~= ev.take(
            i - 1,
        ).map_values(|e: EntryView| (e.slug, e.value)).push((ev[i - 1].slug, ev[i - 1].value)));
    }
    assert(ev.take(i as int) == ev);
    r
}

/// Adds `entries`, references filled in, and their root entry to `store`.
pub fn extend_store(store: &mut Vec<Entry>, entries: &Vec<Entry>)
    ensures
        entries_view(final(store)@) == store_with(entries_view(old(store)@), entries_view(entries@)),
{
    let ghost ev = entries_view(entries@);
    let ghost base = entries_view(store@);
    let mut i: usize = 0;
    while i < entries.len()
        invariant
            i <= entries.len(),
            ev == entries_view(entries@),
            entries_view(store@) == base + ev.take(i as int).map_values(
                |e: EntryView| fixed_entry(e, ev),
            ),
        decreases entries.len() - i,
    {
        let f = fix_entry(&entries[i], entries);
        let ghost before = store@;
        store.push(f);
        i += 1;
        assert(entries_view(store@) =~= entries_view(before).push(f@));
        assert(ev.take(i as int).map_values(|e: EntryView| fixed_entry(e, ev)) =~= ev.take(
            i - 1,
        ).map_values(|e: EntryView| fixed_entry(e, ev)).push(fixed_entry(ev[i - 1], ev)));
    }
    assert(ev.take(i as int) == ev);
    let root = make_root(entries);
    let f = fix_entry(&root, entries);
    let ghost before = store@;
    store.push(f);
    assert(entries_view(store@) =~= entries_view(before).push(f@));
}

} // verus!
