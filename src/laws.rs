//! Properties that hold across the parser, the resolver and the rewriter.
use vstd::prelude::*;
use crate::entry::{EntryView, entry_value};
use crate::parser::{
    finalize, flush_child, has_slug, idle, is_key_rest, is_key_start, key_end, kv_split, parse_entries, run,
    separator, step, ParserView,
};
use crate::serialize::{entry_lines, kv_line, serialized};
use crate::text::{is_ws, trim_end, trim_start, trimmed};
use crate::store::{lookup_entry, root_slug};
use crate::text::{contains, occurs_at, replaced, replaced_empty, starts_with};
use crate::visitor::{
    apply_label, apply_labels, apply_outputs, generated, insert_desc, label_pairs, lookup_key, outputs, owner_of,
    placeholder, resolve, resolved_labels, rewritten, root_value, sort_desc, LabelView, RecordView, VisitorView,
};
use crate::rewrite::{attr_replaced, parens};

verus! {

/// No two entries share a slug.
pub open spec fn unique_slugs(es: Seq<EntryView>) -> bool {
    forall|i: int, j: int| 0 <= i < j < es.len() ==> es[i].slug != es[j].slug
}

proof fn lemma_finalize_unique(st: ParserView)
    requires
        unique_slugs(st.entries),
    ensures
        unique_slugs(finalize(st).0.entries),
        finalize(st).1 matches Some(s) ==> has_slug(st.entries, s) && finalize(st).0 == st,
{
    if st.parent_key.len() > 0 && !has_slug(st.entries, st.parent_key) {
        let es = finalize(st).0.entries;
        assert forall|i: int, j: int| 0 <= i < j < es.len() implies es[i].slug != es[j].slug by {
            if j == es.len() - 1 {
                assert(es[j].slug == st.parent_key);
                assert(es[i] == st.entries[i]);
            }
        }
    }
}

proof fn lemma_step_unique(st: ParserView, line: Seq<char>)
    requires
        unique_slugs(st.entries),
    ensures
        unique_slugs(step(st, line).0.entries),
        step(st, line).1 matches Some(s) ==> has_slug(step(st, line).0.entries, s),
{
    lemma_finalize_unique(st);
}

proof fn lemma_run_unique(st: ParserView, lines: Seq<Seq<char>>)
    requires
        unique_slugs(st.entries),
    ensures
        unique_slugs(run(st, lines).0.entries),
        run(st, lines).1 matches Some(s) ==> has_slug(run(st, lines).0.entries, s),
    decreases lines.len(),
{
    if lines.len() == 0 {
        lemma_finalize_unique(st);
    } else {
        lemma_step_unique(st, lines[0]);
        let (s2, e) = step(st, lines[0]);
        if e is None {
            lemma_run_unique(s2, lines.drop_first());
        }
    }
}

/// Duplicate detection: a parse that succeeds yields entries with distinct
/// slugs, and a parse that fails names a slug that an earlier entry already
/// has.
pub proof fn parse_rejects_duplicates(lines: Seq<Seq<char>>)
    ensures
        parse_entries(lines) matches Ok(es) ==> unique_slugs(es),
        parse_entries(lines) matches Err(s) ==> has_slug(run(idle(Seq::empty()), lines).0.entries, s),
{
    lemma_run_unique(idle(Seq::empty()), lines);
}

/// Resolution is a function of the records, the store, the record and the
/// slug: equal inputs resolve to equal literals.
pub proof fn resolution_is_deterministic(
    a: VisitorView,
    b: VisitorView,
    ra: RecordView,
    rb: RecordView,
    slug: Seq<char>,
)
    requires
        a.errors == b.errors,
        a.fluent_source == b.fluent_source,
        ra == rb,
    ensures
        resolve(a.errors, a.fluent_source, ra, slug) == resolve(b.errors, b.fluent_source, rb, slug),
{
}

/// Fallback order: where the owning entry does not answer `slug` and the
/// root entry does, resolution yields the root entry's literal.
pub proof fn resolution_falls_back_to_root(
    records: Seq<RecordView>,
    store: Seq<EntryView>,
    r: RecordView,
    slug: Seq<char>,
)
    requires
        owner_of(records, store, r) matches Some(e) ==> entry_value(e, slug) is None,
    ensures
        resolve(records, store, r, slug) == root_value(store, slug),
        root_value(store, slug) is Some ==> resolve(records, store, r, slug) is Some,
{
}

proof fn lemma_replaced_absent(s: Seq<char>, p: Seq<char>, t: Seq<char>)
    requires
        p.len() > 0,
        !contains(s, p),
    ensures
        replaced(s, p, t) == s,
    decreases s.len(),
{
    if s.len() > 0 {
        assert(!starts_with(s, p)) by {
            if starts_with(s, p) {
                assert(occurs_at(s, p, 0));
            }
        }
        assert(!contains(s.drop_first(), p)) by {
            if contains(s.drop_first(), p) {
                let i = choose|i: int| occurs_at(s.drop_first(), p, i);
                assert(s.subrange(i + 1, i + 1 + p.len()) =~= s.drop_first().subrange(i, i + p.len()));
                assert(occurs_at(s, p, i + 1));
            }
        }
        lemma_replaced_absent(s.drop_first(), p, t);
        assert(s =~= seq![s[0]] + s.drop_first());
    }
}

proof fn lemma_replaced_empty_same(s: Seq<char>)
    ensures
        replaced_empty(s, Seq::empty()) == s,
    decreases s.len(),
{
    if s.len() > 0 {
        lemma_replaced_empty_same(s.drop_first());
        assert(s =~= Seq::<char>::empty() + seq![s[0]] + s.drop_first());
    }
}

proof fn lemma_replaced_same(s: Seq<char>, p: Seq<char>)
    ensures
        replaced(s, p, p) == s,
    decreases s.len(),
{
    if p.len() == 0 {
        assert(p =~= Seq::<char>::empty());
        lemma_replaced_empty_same(s);
    } else if s.len() > 0 {
        if starts_with(s, p) {
            lemma_replaced_same(s.skip(p.len() as int), p);
            assert(s =~= p + s.skip(p.len() as int));
        } else {
            lemma_replaced_same(s.drop_first(), p);
            assert(s =~= seq![s[0]] + s.drop_first());
        }
    }
}

/// A replacement whose pattern does not occur, or that puts a text in its
/// own place, leaves the text as it is.
pub open spec fn inert(text: Seq<char>, o: (Seq<char>, Seq<char>)) -> bool {
    o.0 == o.1 || (o.0.len() > 0 && !contains(text, o.0))
}

proof fn lemma_apply_outputs_inert(text: Seq<char>, outs: Seq<(Seq<char>, Seq<char>)>)
    requires
        forall|i: int| 0 <= i < outs.len() ==> inert(text, #[trigger] outs[i]),
    ensures
        apply_outputs(text, outs) == text,
    decreases outs.len(),
{
    if outs.len() > 0 {
        let o = outs.last();
        assert(inert(text, outs[outs.len() - 1]));
        lemma_apply_outputs_inert(text, outs.drop_last());
        if o.0 == o.1 {
            lemma_replaced_same(text, o.0);
        } else {
            lemma_replaced_absent(text, o.0, o.1);
        }
    }
}

proof fn lemma_outputs_members(records: Seq<RecordView>, store: Seq<EntryView>, n: int, k: int)
    requires
        0 <= n <= records.len(),
        0 <= k < outputs(records, store, n).len(),
    ensures
        exists|i: int| 0 <= i < n && owner_of(records, store, records[i]) is Some
            && outputs(records, store, n)[k] == (records[i].source, rewritten(records, store, records[i])),
    decreases n,
{
    let prev = outputs(records, store, n - 1);
    if k < prev.len() {
        lemma_outputs_members(records, store, n - 1, k);
        let i = choose|i: int| 0 <= i < n - 1 && owner_of(records, store, records[i]) is Some
            && outputs(records, store, n - 1)[k] == (records[i].source, rewritten(records, store, records[i]));
        assert(outputs(records, store, n)[k] == prev[k]);
    } else {
        assert(outputs(records, store, n)[k] == (records[n - 1].source, rewritten(records, store, records[n - 1])));
    }
}

/// Idempotent rewriting: once the text holds no declaration text that a
/// record would still change, rewriting it again changes nothing.
pub proof fn rewriting_is_idempotent(v: VisitorView)
    requires
        forall|i: int| 0 <= i < v.errors.len() && owner_of(v.errors, v.fluent_source, #[trigger] v.errors[i]) is Some
            ==> inert(v.file_source_code, (v.errors[i].source, rewritten(v.errors, v.fluent_source, v.errors[i]))),
    ensures
        generated(v) == v.file_source_code,
{
    let outs = outputs(v.errors, v.fluent_source, v.errors.len() as int);
    assert forall|k: int| 0 <= k < outs.len() implies inert(v.file_source_code, #[trigger] outs[k]) by {
        lemma_outputs_members(v.errors, v.fluent_source, v.errors.len() as int, k);
    }
    lemma_apply_outputs_inert(v.file_source_code, outs);
}

/// A key of the resource format: `.`, `_` or a letter, then `_`, letters
/// and digits.
pub open spec fn key_ok(k: Seq<char>) -> bool {
    k.len() > 0 && is_key_start(k[0]) && forall|i: int| 1 <= i < k.len() ==> is_key_rest(k[i])
}

/// A value that a `key = value` line carries unchanged: not empty, not
/// ending in white space.
pub open spec fn value_ok(v: Seq<char>) -> bool {
    v.len() > 0 && !is_ws(v.last())
}

/// An entry that the resource format writes and reads back as it is: a
/// top-level slug, children keyed `.name`.
pub open spec fn entry_ok(e: EntryView) -> bool {
    &&& key_ok(e.slug) && e.slug[0] != '.'
    &&& value_ok(e.value)
    &&& forall|j: int| 0 <= j < e.childs.len() ==> key_ok(#[trigger] e.childs[j].0) && e.childs[j].0[0] == '.' && value_ok(e.childs[j].1)
}

proof fn lemma_key_end(s: Seq<char>, k: int, i: int)
    requires
        1 <= i <= k < s.len(),
        forall|m: int| 1 <= m < k ==> is_key_rest(s[m]),
        s[k] == ' ',
    ensures
        key_end(s, i) == k,
    decreases k - i,
{
    if i < k {
        lemma_key_end(s, k, i + 1);
    }
}

proof fn lemma_kv_line(k: Seq<char>, v: Seq<char>)
    requires
        key_ok(k),
        value_ok(v),
    ensures
        trimmed(kv_line(k, v)) == kv_line(k, v),
        kv_split(kv_line(k, v)) == Some((k, v)),
{
    let s = kv_line(k, v);
    assert(s[0] == k[0]);
    assert(!is_ws(s[0]));
    assert(trim_start(s) == s);
    assert(s.last() == v.last());
    assert(trim_end(s) == s);
    assert forall|m: int| 1 <= m < k.len() implies is_key_rest(s[m]) by {
        assert(s[m] == k[m]);
    }
    assert(s[k.len() as int] == ' ');
    lemma_key_end(s, k.len() as int, 1);
    assert(s.subrange(k.len() as int, k.len() + 3int) =~= separator());
    assert(s.take(k.len() as int) =~= k);
    assert(s.skip(k.len() + 3int) =~= v);
}

/// The states that the lines seen so far lead to, with no closing at the end.
pub open spec fn steps(st: ParserView, lines: Seq<Seq<char>>) -> (ParserView, Option<Seq<char>>)
    decreases lines.len(),
{
    if lines.len() == 0 {
        (st, None)
    } else {
        let (s2, e) = step(st, lines[0]);
        if e is Some {
            (s2, e)
        } else {
            steps(s2, lines.drop_first())
        }
    }
}

proof fn lemma_run_steps(st: ParserView, lines: Seq<Seq<char>>)
    ensures
        run(st, lines) == (if steps(st, lines).1 is Some {
            steps(st, lines)
        } else {
            finalize(steps(st, lines).0)
        }),
    decreases lines.len(),
{
    if lines.len() > 0 {
        lemma_run_steps(step(st, lines[0]).0, lines.drop_first());
    }
}

proof fn lemma_steps_push(st: ParserView, a: Seq<Seq<char>>, x: Seq<char>)
    ensures
        steps(st, a.push(x)) == (if steps(st, a).1 is Some {
            steps(st, a)
        } else {
            step(steps(st, a).0, x)
        }),
    decreases a.len(),
{
    if a.len() == 0 {
        assert(a.push(x).drop_first() =~= Seq::<Seq<char>>::empty());
        assert(a.push(x)[0] == x);
        let (s1, e1) = step(st, x);
        assert(steps(s1, Seq::<Seq<char>>::empty()) == (s1, None::<Seq<char>>));
        assert(steps(st, a) == (st, None::<Seq<char>>));
    } else {
        assert(a.push(x).drop_first() =~= a.drop_first().push(x));
        assert(a.push(x)[0] == a[0]);
        let (s1, e1) = step(st, a[0]);
        lemma_steps_push(s1, a.drop_first(), x);
        if e1 is None {
            assert(steps(st, a) == steps(s1, a.drop_first()));
            assert(steps(st, a.push(x)) == steps(s1, a.drop_first().push(x)));
        } else {
            assert(steps(st, a) == (s1, e1));
            assert(steps(st, a.push(x)) == (s1, e1));
        }
    }
}

proof fn lemma_steps_append(st: ParserView, a: Seq<Seq<char>>, b: Seq<Seq<char>>)
    ensures
        steps(st, a + b) == (if steps(st, a).1 is Some {
            steps(st, a)
        } else {
            steps(steps(st, a).0, b)
        }),
    decreases b.len(),
{
    if b.len() == 0 {
        assert(a + b =~= a);
    } else {
        lemma_steps_append(st, a, b.drop_last());
        assert(a + b =~= (a + b.drop_last()).push(b.last()));
        assert(b =~= b.drop_last().push(b.last()));
        lemma_steps_push(st, a + b.drop_last(), b.last());
        if steps(st, a).1 is None {
            lemma_steps_push(steps(st, a).0, b.drop_last(), b.last());
        }
    }
}

/// The state after the own line of an entry and its first `j` children.
pub open spec fn entry_state(es: Seq<EntryView>, e: EntryView, j: int) -> ParserView {
    if j == 0 {
        ParserView {
            entries: es,
            childs: Seq::empty(),
            cur_key: Seq::empty(),
            cur_val: Seq::empty(),
            parent_key: e.slug,
            parent_val: e.value,
        }
    } else {
        ParserView {
            entries: es,
            childs: e.childs.take(j - 1),
            cur_key: e.childs[j - 1].0,
            cur_val: e.childs[j - 1].1,
            parent_key: e.slug,
            parent_val: e.value,
        }
    }
}

proof fn lemma_children(es: Seq<EntryView>, e: EntryView, j: int)
    requires
        entry_ok(e),
        0 <= j <= e.childs.len(),
    ensures
        steps(
            idle(es),
            seq![kv_line(e.slug, e.value)] + e.childs.map_values(
                |c: (Seq<char>, Seq<char>)| kv_line(c.0, c.1),
            ).take(j),
        ) == (entry_state(es, e, j), None::<Seq<char>>),
    decreases j,
{
    let cl = e.childs.map_values(|c: (Seq<char>, Seq<char>)| kv_line(c.0, c.1));
    let first = seq![kv_line(e.slug, e.value)];
    if j == 0 {
        lemma_kv_line(e.slug, e.value);
        assert(first + cl.take(0) =~= first);
        assert(first.drop_first() =~= Seq::<Seq<char>>::empty());
        assert(first[0] == kv_line(e.slug, e.value));
        assert(finalize(idle(es)) == (idle(es), None::<Seq<char>>));
        assert(step(idle(es), kv_line(e.slug, e.value)) == (entry_state(es, e, 0), None::<Seq<char>>));
        assert(steps(entry_state(es, e, 0), first.drop_first()) == (entry_state(es, e, 0), None::<Seq<char>>));
    } else {
        let i = j - 1;
        lemma_children(es, e, i);
        let c = e.childs[i];
        assert(key_ok(c.0) && c.0[0] == '.' && value_ok(c.1));
        lemma_kv_line(c.0, c.1);
        assert(first + cl.take(j) =~= (first + cl.take(i)).push(cl[i]));
        lemma_steps_push(idle(es), first + cl.take(i), cl[i]);
        let st = entry_state(es, e, i);
        if i > 0 {
            assert(e.childs[i - 1].0.len() > 0);
            assert(e.childs.take(i - 1).push(e.childs[i - 1]) =~= e.childs.take(i));
        } else {
            assert(flush_child(st) == st);
            assert(e.childs.take(0) =~= Seq::<(Seq<char>, Seq<char>)>::empty());
        }
        assert(step(st, cl[i]) == (entry_state(es, e, j), None::<Seq<char>>));
    }
}

proof fn lemma_entry_lines(es: Seq<EntryView>, e: EntryView)
    requires
        entry_ok(e),
        !has_slug(es, e.slug),
    ensures
        steps(idle(es), entry_lines(e)) == (idle(es.push(e)), None::<Seq<char>>),
{
    let cl = e.childs.map_values(|c: (Seq<char>, Seq<char>)| kv_line(c.0, c.1));
    let first = seq![kv_line(e.slug, e.value)];
    lemma_kv_line(e.slug, e.value);
    lemma_children(es, e, cl.len() as int);
    assert(cl.take(cl.len() as int) =~= cl);
    let all = first + cl;
    assert(entry_lines(e) =~= all.push(Seq::<char>::empty()));
    lemma_steps_push(idle(es), all, Seq::<char>::empty());
    let st = entry_state(es, e, cl.len() as int);
    assert(trimmed(Seq::<char>::empty()) == Seq::<char>::empty());
    assert(kv_split(Seq::<char>::empty()) is None);
    if cl.len() > 0 {
        assert(e.childs.take(cl.len() - 1).push(e.childs[cl.len() - 1]) =~= e.childs);
    } else {
        assert(e.childs =~= Seq::<(Seq<char>, Seq<char>)>::empty());
    }
    assert(finalize(st).0 == idle(es.push(e)));
}

proof fn lemma_serialized_steps(es: Seq<EntryView>)
    requires
        unique_slugs(es),
        forall|i: int| 0 <= i < es.len() ==> entry_ok(#[trigger] es[i]),
    ensures
        steps(idle(Seq::empty()), serialized(es)) == (idle(es), None::<Seq<char>>),
    decreases es.len(),
{
    if es.len() > 0 {
        let init = es.drop_last();
        assert forall|i: int, j: int| 0 <= i < j < init.len() implies init[i].slug != init[j].slug by {
            assert(init[i] == es[i] && init[j] == es[j]);
        }
        assert forall|i: int| 0 <= i < init.len() implies entry_ok(#[trigger] init[i]) by {
            assert(init[i] == es[i]);
        }
        lemma_serialized_steps(init);
        lemma_steps_append(idle(Seq::empty()), serialized(init), entry_lines(es.last()));
        assert(entry_ok(es[es.len() - 1]));
        assert(!has_slug(init, es.last().slug)) by {
            if has_slug(init, es.last().slug) {
                let i = choose|i: int| 0 <= i < init.len() && init[i].slug == es.last().slug;
                assert(es[i].slug == es[es.len() - 1].slug);
            }
        }
        lemma_entry_lines(init, es.last());
        assert(init.push(es.last()) =~= es);
    } else {
        assert(es =~= Seq::<EntryView>::empty());
    }
}

/// Round trip: entries with distinct slugs that the format can hold are
/// written as lines and parsed back to the same slugs, texts and children,
/// in the same order.
pub proof fn resource_round_trip(es: Seq<EntryView>)
    requires
        unique_slugs(es),
        forall|i: int| 0 <= i < es.len() ==> entry_ok(#[trigger] es[i]),
    ensures
        parse_entries(serialized(es)) == Ok::<Seq<EntryView>, Seq<char>>(es),
{
    lemma_serialized_steps(es);
    lemma_run_steps(idle(Seq::empty()), serialized(es));
    assert(finalize(idle(es)) == (idle(es), None::<Seq<char>>));
}

/// Rewriting the output of a rewrite again changes nothing, once no record
/// would change what that output still holds of it.
pub proof fn rewriting_twice_changes_nothing(v: VisitorView)
    requires
        forall|i: int| 0 <= i < v.errors.len() && owner_of(v.errors, v.fluent_source, #[trigger] v.errors[i]) is Some
            ==> inert(generated(v), (v.errors[i].source, rewritten(v.errors, v.fluent_source, v.errors[i]))),
    ensures
        generated(VisitorView { file_source_code: generated(v), ..v }) == generated(v),
{
    rewriting_is_idempotent(VisitorView { file_source_code: generated(v), ..v });
}

/// The labels of `s` that resolved, in order.
pub open spec fn active(s: Seq<LabelView>) -> Seq<LabelView>
    decreases s.len(),
{
    if s.len() == 0 {
        Seq::empty()
    } else if s[0].2 is Some {
        seq![s[0]] + active(s.drop_first())
    } else {
        active(s.drop_first())
    }
}

proof fn lemma_active_append(a: Seq<LabelView>, b: Seq<LabelView>)
    ensures
        active(a + b) == active(a) + active(b),
    decreases a.len(),
{
    if a.len() == 0 {
        assert(a + b =~= b);
    } else {
        assert((a + b).drop_first() =~= a.drop_first() + b);
        lemma_active_append(a.drop_first(), b);
    }
}

proof fn lemma_active_one(y: LabelView)
    ensures
        active(seq![y]) == (if y.2 is Some {
            seq![y]
        } else {
            Seq::<LabelView>::empty()
        }),
{
    let e = seq![y].drop_first();
    assert(e =~= Seq::<LabelView>::empty());
    assert(active(e) == Seq::<LabelView>::empty());
    assert(seq![y][0] == y);
    assert(seq![y] + Seq::<LabelView>::empty() =~= seq![y]);
}

proof fn lemma_active_last(s: Seq<LabelView>)
    requires
        s.len() > 0,
    ensures
        active(s) == active(s.drop_last()) + (if s.last().2 is Some {
            seq![s.last()]
        } else {
            Seq::<LabelView>::empty()
        }),
{
    assert(s =~= s.drop_last() + seq![s.last()]);
    lemma_active_append(s.drop_last(), seq![s.last()]);
    lemma_active_one(s.last());
    if s.last().2 is None {
        assert(active(s.drop_last()) + Seq::<LabelView>::empty() =~= active(s.drop_last()));
    }
}

proof fn lemma_apply_active(text: Seq<char>, s: Seq<LabelView>)
    ensures
        apply_labels(text, s) == apply_labels(text, active(s)),
    decreases s.len(),
{
    if s.len() > 0 {
        lemma_apply_active(text, s.drop_last());
        lemma_active_last(s);
        let a = active(s.drop_last());
        if s.last().2 is Some {
            assert(active(s) =~= a.push(s.last()));
            assert(a.push(s.last()).drop_last() =~= a);
        } else {
            assert(active(s) =~= a);
        }
    }
}

proof fn lemma_active_insert(x: LabelView, s: Seq<LabelView>)
    ensures
        x.2 is None ==> active(insert_desc(x, s)) == active(s),
        x.2 is Some && active(s).len() == 0 ==> active(insert_desc(x, s)) == seq![x],
    decreases s.len(),
{
    lemma_active_one(x);
    if s.len() == 0 {
        assert(insert_desc(x, s) == seq![x]);
        assert(active(s) == Seq::<LabelView>::empty());
    } else {
        assert(s =~= seq![s[0]] + s.drop_first());
        lemma_active_append(seq![s[0]], s.drop_first());
        lemma_active_one(s[0]);
        if crate::visitor::weight(s[0]) >= crate::visitor::weight(x) {
            lemma_active_insert(x, s.drop_first());
            lemma_active_append(seq![s[0]], insert_desc(x, s.drop_first()));
            if s[0].2 is None {
                assert(Seq::<LabelView>::empty() + active(insert_desc(x, s.drop_first())) =~= active(insert_desc(x, s.drop_first())));
                assert(Seq::<LabelView>::empty() + active(s.drop_first()) =~= active(s.drop_first()));
            }
        } else {
            lemma_active_append(seq![x], s);
            if x.2 is None {
                assert(Seq::<LabelView>::empty() + active(s) =~= active(s));
            } else {
                assert(seq![x] + Seq::<LabelView>::empty() =~= seq![x]);
            }
        }
    }
}

proof fn lemma_active_sort(s: Seq<LabelView>, x: LabelView)
    ensures
        active(s).len() == 0 ==> active(sort_desc(s)).len() == 0,
        active(s) == seq![x] ==> active(sort_desc(s)) == seq![x],
    decreases s.len(),
{
    if s.len() > 0 {
        lemma_active_sort(s.drop_last(), x);
        lemma_active_last(s);
        lemma_active_insert(s.last(), sort_desc(s.drop_last()));
        let a = active(s.drop_last());
        if s.last().2 is Some {
            assert(active(s) == a + seq![s.last()]);
            assert((a + seq![s.last()]).len() == a.len() + 1);
            if active(s) == seq![x] {
                assert(a.len() == 0);
                assert(active(s)[a.len() as int] == s.last());
            }
        } else {
            assert(active(s) =~= a);
        }
    }
}

proof fn lemma_active_single(s: Seq<LabelView>, k: int)
    requires
        0 <= k < s.len(),
        s[k].2 is Some,
        forall|j: int| 0 <= j < s.len() && j != k ==> (#[trigger] s[j]).2 is None,
    ensures
        active(s) == seq![s[k]],
    decreases s.len(),
{
    if k == 0 {
        lemma_active_none(s.drop_first());
        assert(seq![s[0]] + Seq::<LabelView>::empty() =~= seq![s[0]]);
    } else {
        assert(s[0].2 is None);
        assert forall|j: int| 0 <= j < s.drop_first().len() && j != k - 1 implies (#[trigger] s.drop_first()[j]).2 is None by {
            assert(s.drop_first()[j] == s[j + 1]);
        }
        lemma_active_single(s.drop_first(), k - 1);
    }
}

proof fn lemma_active_none(s: Seq<LabelView>)
    requires
        forall|j: int| 1 <= j <= s.len() ==> (#[trigger] s[j - 1]).2 is None,
    ensures
        active(s).len() == 0,
    decreases s.len(),
{
    if s.len() > 0 {
        assert(s[1 - 1].2 is None);
        assert forall|j: int| 1 <= j <= s.drop_first().len() implies (#[trigger] s.drop_first()[j - 1]).2 is None by {
            assert(s.drop_first()[j - 1] == s[j]);
            assert(s[(j + 1) - 1].2 is None);
        }
        lemma_active_none(s.drop_first());
    }
}

proof fn lemma_single_output(records: Seq<RecordView>, store: Seq<EntryView>, i: int, m: int)
    requires
        0 <= i < records.len(),
        0 <= m <= records.len(),
        owner_of(records, store, records[i]) is Some,
        forall|j: int| 0 <= j < records.len() && j != i ==> owner_of(records, store, #[trigger] records[j]) is None,
    ensures
        outputs(records, store, m) == (if m > i {
            seq![(records[i].source, rewritten(records, store, records[i]))]
        } else {
            Seq::empty()
        }),
    decreases m,
{
    if m > 0 {
        lemma_single_output(records, store, i, m - 1);
        if m - 1 == i {
            assert(Seq::<(Seq<char>, Seq<char>)>::empty().push((records[i].source, rewritten(records, store, records[i])))
                =~= seq![(records[i].source, rewritten(records, store, records[i]))]);
        }
    }
}

pub open spec fn note_word() -> Seq<char> {
    seq!['n', 'o', 't', 'e']
}

/// The bare marker `#[note]`.
pub open spec fn bare_note() -> Seq<char> {
    seq!['#', '['] + note_word() + seq![']']
}

/// A bare `#[note]` marker is filled: where the only label of record `i`
/// that resolves is its `(note, _)` label, resolving to `lit`, where its text
/// holds `#[note]`, and where no other record has an owning entry, the
/// output is the source with that record's text replaced by its text with
/// each `#[note]` turned into `#[note(lit)]`.
pub proof fn placeholder_note_is_filled(v: VisitorView, i: int, k: int, lit: Seq<char>)
    requires
        0 <= i < v.errors.len(),
        owner_of(v.errors, v.fluent_source, v.errors[i]) is Some,
        forall|j: int| 0 <= j < v.errors.len() && j != i ==> owner_of(v.errors, v.fluent_source, #[trigger] v.errors[j]) is None,
        0 <= k < label_pairs(v.errors[i]).len(),
        label_pairs(v.errors[i])[k] == (note_word(), placeholder()),
        resolve(v.errors, v.fluent_source, v.errors[i], seq!['.'] + note_word()) == Some(lit),
        forall|j: int| 0 <= j < label_pairs(v.errors[i]).len() && j != k ==> resolve(
            v.errors,
            v.fluent_source,
            v.errors[i],
            lookup_key((#[trigger] label_pairs(v.errors[i])[j]).0, label_pairs(v.errors[i])[j].1),
        ) is None,
        contains(v.errors[i].source, bare_note()),
    ensures
        generated(v) == replaced(
            v.file_source_code,
            v.errors[i].source,
            replaced(v.errors[i].source, bare_note(), seq!['#', '['] + note_word() + parens(lit) + seq![']']),
        ),
{
    let r = v.errors[i];
    let rl = resolved_labels(v.errors, v.fluent_source, r);
    let x: LabelView = (note_word(), placeholder(), Some(lit));
    assert(lookup_key(note_word(), placeholder()) == seq!['.'] + note_word());
    assert(rl[k] == x);
    assert forall|j: int| 0 <= j < rl.len() && j != k implies (#[trigger] rl[j]).2 is None by {
        assert(rl[j].2 == resolve(v.errors, v.fluent_source, r, lookup_key(label_pairs(r)[j].0, label_pairs(r)[j].1)));
    }
    lemma_active_single(rl, k);
    lemma_active_sort(rl, x);
    lemma_apply_active(r.source, sort_desc(rl));
    assert(seq![x].drop_last() =~= Seq::<LabelView>::empty());
    assert(seq![x].last() == x);
    assert(apply_labels(r.source, Seq::<LabelView>::empty()) == r.source);
    assert(apply_labels(r.source, seq![x]) == apply_label(r.source, x));
    assert(rewritten(v.errors, v.fluent_source, r) == attr_replaced(r.source, note_word(), lit));
    lemma_single_output(v.errors, v.fluent_source, i, v.errors.len() as int);
    let outs = outputs(v.errors, v.fluent_source, v.errors.len() as int);
    let rw = rewritten(v.errors, v.fluent_source, r);
    assert(outs == seq![(r.source, rw)]);
    assert(outs.drop_last() =~= Seq::<(Seq<char>, Seq<char>)>::empty());
    assert(outs.last() == (r.source, rw));
    assert(apply_outputs(v.file_source_code, Seq::<(Seq<char>, Seq<char>)>::empty()) == v.file_source_code);
    assert(attr_replaced(r.source, note_word(), lit) == replaced(r.source, bare_note(), seq!['#', '['] + note_word() + parens(lit) + seq![']']));
    assert(generated(v) == replaced(v.file_source_code, r.source, rw));
}

} // verus!
