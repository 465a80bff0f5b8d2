//! Writing entries back in the resource format.
use vstd::prelude::*;
use crate::entry::{Entry, EntryView, pair_view};
use crate::parser::{entries_view, lines_view};
use crate::text::{chars_of, push_all, string_of};

verus! {

/// `key = value`.
pub open spec fn kv_line(k: Seq<char>, v: Seq<char>) -> Seq<char> {
    k + seq![' ', '=', ' '] + v
}

/// The lines of one entry: its own line, one line per child, a blank line.
pub open spec fn entry_lines(e: EntryView) -> Seq<Seq<char>> {
    seq![kv_line(e.slug, e.value)] + e.childs.map_values(
        |c: (Seq<char>, Seq<char>)| kv_line(c.0, c.1),
    ) + seq![Seq::<char>::empty()]
}

/// The lines of all entries, in order.
pub open spec fn serialized(es: Seq<EntryView>) -> Seq<Seq<char>>
    decreases es.len(),
{
    if es.len() == 0 {
        Seq::empty()
    } else {
        serialized(es.drop_last()) + entry_lines(es.last())
    }
}

fn kv_string(k: &String, v: &String) -> (r: String)
    ensures
        r@ == kv_line(k@, v@),
{
    let mut out = chars_of(k.as_str());
    out.push(' ');
    out.push('=');
    out.push(' ');
    push_all(&mut out, &chars_of(v.as_str()));
    assert(out@ =~= kv_line(k@, v@));
    string_of(&out)
}

/// The resource text of `entries`, one line per element.
pub fn serialize_entries(entries: &Vec<Entry>) -> (r: Vec<String>)
    ensures
        lines_view(r@) == serialized(entries_view(entries@)),
{
    let ghost ev = entries_view(entries@);
    let mut out: Vec<String> = Vec::new();
    let mut i: usize = 0;
    assert(ev.take(0) =~= Seq::<EntryView>::empty());
    assert(lines_view(out@) =~= Seq::<Seq<char>>::empty());
    while i < entries.len()
        invariant
            i <= entries.len(),
            ev == entries_view(entries@),
            lines_view(out@) == serialized(ev.take(i as int)),
        decreases entries.len() - i,
    {
        let e = &entries[i];
        let ghost base = lines_view(out@);
        let ghost cl = e@.childs.map_values(|c: (Seq<char>, Seq<char>)| kv_line(c.0, c.1));
        out.push(kv_string(&e.slug, &e.value));
        let mut j: usize = 0;
        assert(lines_view(out@) =~= base + seq![kv_line(e@.slug, e@.value)] + cl.take(0));
        while j < e.childs.len()
            invariant
                j <= e.childs.len(),
                cl == e@.childs.map_values(|c: (Seq<char>, Seq<char>)| kv_line(c.0, c.1)),
                lines_view(out@) == base + seq![kv_line(e@.slug, e@.value)] + cl.take(j as int),
            decreases e.childs.len() - j,
        {
            assert(e@.childs[j as int] == pair_view(e.childs@[j as int]));
            let ghost before = out@;
            out.push(kv_string(&e.childs[j].0, &e.childs[j].1));
            assert(lines_view(out@) =~= lines_view(before).push(cl[j as int]));
            assert(cl.take(j + 1) =~= cl.take(j as int).push(cl[j as int]));
            j += 1;
        }
        assert(cl.take(j as int) =~= cl);
        let ghost before = out@;
        out.push(String::new());
        assert(lines_view(out@) =~= lines_view(before).push(Seq::<char>::empty()));
        assert(ev.take(i + 1).drop_last() =~= ev.take(i as int));
        assert(ev.take(i + 1).last() == e@);
        assert(lines_view(out@) =~= serialized(ev.take(i as int)) + entry_lines(e@));
        i += 1;
    }
    assert(ev.take(i as int) =~= ev);
    out
}

} // verus!
