//! Diagnostic records, the parent links between them, the resolution of a
//! slug for a record, and the rewriting of the whole source text.
use vstd::prelude::*;
use crate::entry::{Entry, EntryView, entry_value, pair_view, pairs_view};
use crate::parser::entries_view;
use crate::rewrite::{attr_replaced, attr_replace_chars, slug_replaced, slug_replace_chars};
use crate::store::{extend_store, find_entry, lookup_entry, root_slug, store_with};
use crate::text::{chars_eq, chars_of, copy_chars, push_all, replace_chars, replaced, string_of};

verus! {

/// One declaration that carries diagnostic attributes.
#[derive(Debug, Clone)]
pub struct ErrorStruct {
    /// The main message slug, if the declaration names one.
    pub slug: Option<String>,
    /// Attribute kind to slug, or to `_` where the slug comes from the kind,
    /// patched before the field labels. Pairs are applied in order, so two
    /// with the same kind are both applied and no uniqueness is needed;
    /// extraction leaves this empty.
    pub attrs: Vec<(String, String)>,
    /// `(attribute kind, slug or _)` pairs of the declaration and its fields.
    pub field_labels: Vec<(String, String)>,
    /// Names of the declarations embedded as sub-diagnostics.
    pub sub_diags: Vec<String>,
    pub diag_type: String,
    /// The declaration's name; a variant's is `Enum::Variant`.
    pub diag_name: String,
    /// The record that embeds this one, once linked.
    pub parent_diag: Option<String>,
    /// The declaration's text as it stands in the source.
    pub source: String,
}

pub struct RecordView {
    pub slug: Option<Seq<char>>,
    pub attrs: Seq<(Seq<char>, Seq<char>)>,
    pub field_labels: Seq<(Seq<char>, Seq<char>)>,
    pub sub_diags: Seq<Seq<char>>,
    pub diag_type: Seq<char>,
    pub diag_name: Seq<char>,
    pub parent_diag: Option<Seq<char>>,
    pub source: Seq<char>,
}

pub open spec fn opt_view(o: Option<String>) -> Option<Seq<char>> {
    match o {
        Some(s) => Some(s@),
        None => None,
    }
}

pub open spec fn strings_view(v: Seq<String>) -> Seq<Seq<char>> {
    v.map_values(|s: String| s@)
}

impl View for ErrorStruct {
    type V = RecordView;

    open spec fn view(&self) -> RecordView {
        RecordView {
            slug: opt_view(self.slug),
            attrs: pairs_view(self.attrs@),
            field_labels: pairs_view(self.field_labels@),
            sub_diags: strings_view(self.sub_diags@),
            diag_type: self.diag_type@,
            diag_name: self.diag_name@,
            parent_diag: opt_view(self.parent_diag),
            source: self.source@,
        }
    }
}

pub open spec fn records_view(v: Seq<ErrorStruct>) -> Seq<RecordView> {
    v.map_values(|e: ErrorStruct| e@)
}

/// The records of a source file, the resolution store, and the file's text.
pub struct SynVisitor {
    pub errors: Vec<ErrorStruct>,
    pub fluent_source: Vec<Entry>,
    pub file_source_code: String,
}

pub struct VisitorView {
    pub errors: Seq<RecordView>,
    pub fluent_source: Seq<EntryView>,
    pub file_source_code: Seq<char>,
}

impl View for SynVisitor {
    type V = VisitorView;

    open spec fn view(&self) -> VisitorView {
        VisitorView {
            errors: records_view(self.errors@),
            fluent_source: entries_view(self.fluent_source@),
            file_source_code: self.file_source_code@,
        }
    }
}

/// The index of the first record named `name`.
pub open spec fn first_named(records: Seq<RecordView>, name: Seq<char>) -> Option<int>
    decreases records.len(),
{
    if records.len() == 0 {
        None
    } else if records[0].diag_name == name {
        Some(0)
    } else {
        match first_named(records.drop_first(), name) {
            Some(k) => Some(k + 1),
            None => None,
        }
    }
}

/// Whether record `r` names record `j` of `records` as a sub-diagnostic,
/// among its first `k` sub-diagnostics.
pub open spec fn claims_upto(records: Seq<RecordView>, r: RecordView, j: int, k: int) -> bool {
    exists|m: int| 0 <= m < k && m < r.sub_diags.len() && first_named(records, r.sub_diags[m]) == Some(j)
}

pub open spec fn claims(records: Seq<RecordView>, r: RecordView, j: int) -> bool {
    claims_upto(records, r, j, r.sub_diags.len() as int)
}

/// The name of the last of the first `n` records that names record `j` as a
/// sub-diagnostic.
pub open spec fn last_claimant(records: Seq<RecordView>, j: int, n: int) -> Option<Seq<char>>
    decreases n,
{
    if n <= 0 {
        None
    } else if claims(records, records[n - 1], j) {
        Some(records[n - 1].diag_name)
    } else {
        last_claimant(records, j, n - 1)
    }
}

/// Every record named as a sub-diagnostic gets as parent the last record
/// that names it; the others keep theirs.
pub open spec fn linked(records: Seq<RecordView>) -> Seq<RecordView> {
    Seq::new(
        records.len(),
        |j: int|
            match last_claimant(records, j, records.len() as int) {
                Some(p) => RecordView { parent_diag: Some(p), ..records[j] },
                None => records[j],
            },
    )
}

/// The entry that owns record `r`: the entry of its own slug, else its
/// parent's owner, else the root entry. A chain of more than `fuel` parents
/// (which with `fuel` the number of records means a cycle) has no owner.
pub open spec fn owner(records: Seq<RecordView>, store: Seq<EntryView>, r: RecordView, fuel: nat) -> Option<EntryView>
    decreases fuel,
{
    if r.slug is Some && lookup_entry(store, r.slug->0) is Some {
        lookup_entry(store, r.slug->0)
    } else {
        match r.parent_diag {
            Some(p) => if fuel == 0 {
                None
            } else {
                match first_named(records, p) {
                    Some(j) => owner(records, store, records[j], (fuel - 1) as nat),
                    None => None,
                }
            },
            None => lookup_entry(store, root_slug()),
        }
    }
}

pub open spec fn owner_of(records: Seq<RecordView>, store: Seq<EntryView>, r: RecordView) -> Option<EntryView> {
    owner(records, store, r, records.len())
}

/// The lookup of `slug` in the root entry.
pub open spec fn root_value(store: Seq<EntryView>, slug: Seq<char>) -> Option<Seq<char>> {
    match lookup_entry(store, root_slug()) {
        Some(root) => entry_value(root, slug),
        None => None,
    }
}

/// The literal `slug` resolves to for record `r`: looked up in the owning
/// entry, then in the root entry.
pub open spec fn resolve(records: Seq<RecordView>, store: Seq<EntryView>, r: RecordView, slug: Seq<char>) -> Option<Seq<char>> {
    match owner_of(records, store, r) {
        Some(e) => match entry_value(e, slug) {
            Some(v) => Some(v),
            None => root_value(store, slug),
        },
        None => root_value(store, slug),
    }
}

pub open spec fn placeholder() -> Seq<char> {
    seq!['_']
}

/// The slug looked up for `(kind, target)`: `.kind` for the placeholder,
/// else the target itself.
pub open spec fn lookup_key(kind: Seq<char>, target: Seq<char>) -> Seq<char> {
    if target == placeholder() {
        seq!['.'] + kind
    } else {
        target
    }
}

/// `(kind, target, resolved literal)`.
pub type LabelView = (Seq<char>, Seq<char>, Option<Seq<char>>);

/// The `(kind, target)` pairs to patch for `r`: its attributes, its field
/// labels and, where it has a main slug, that slug under `diag`.
pub open spec fn label_pairs(r: RecordView) -> Seq<(Seq<char>, Seq<char>)> {
    r.attrs + r.field_labels + match r.slug {
        Some(s) => seq![(crate::rewrite::diag_word(), s)],
        None => Seq::empty(),
    }
}

pub open spec fn resolved_labels(records: Seq<RecordView>, store: Seq<EntryView>, r: RecordView) -> Seq<LabelView> {
    label_pairs(r).map_values(
        |p: (Seq<char>, Seq<char>)| (p.0, p.1, resolve(records, store, r, lookup_key(p.0, p.1))),
    )
}

/// The lookup keys of the labels that resolve to nothing, in order.
pub open spec fn unresolved_of(ls: Seq<LabelView>) -> Seq<Seq<char>>
    decreases ls.len(),
{
    if ls.len() == 0 {
        Seq::empty()
    } else if ls.last().2 is None {
        unresolved_of(ls.drop_last()).push(lookup_key(ls.last().0, ls.last().1))
    } else {
        unresolved_of(ls.drop_last())
    }
}

pub open spec fn weight(l: LabelView) -> nat {
    match l.2 {
        Some(v) => v.len(),
        None => 0,
    }
}

/// `x` placed after every element of `s` whose literal is at least as long.
pub open spec fn insert_desc(x: LabelView, s: Seq<LabelView>) -> Seq<LabelView>
    decreases s.len(),
{
    if s.len() == 0 {
        seq![x]
    } else if weight(s[0]) >= weight(x) {
        seq![s[0]] + insert_desc(x, s.drop_first())
    } else {
        seq![x] + s
    }
}

/// `s` ordered by descending literal length; equal lengths keep their order.
pub open spec fn sort_desc(s: Seq<LabelView>) -> Seq<LabelView>
    decreases s.len(),
{
    if s.len() == 0 {
        s
    } else {
        insert_desc(s.last(), sort_desc(s.drop_last()))
    }
}

/// One resolved label patched into `text`; an unresolved one changes nothing.
pub open spec fn apply_label(text: Seq<char>, l: LabelView) -> Seq<char> {
    match l.2 {
        Some(v) => if l.1 == placeholder() {
            attr_replaced(text, l.0, v)
        } else {
            slug_replaced(text, l.0, lookup_key(l.0, l.1), v)
        },
        None => text,
    }
}

pub open spec fn apply_labels(text: Seq<char>, ls: Seq<LabelView>) -> Seq<char>
    decreases ls.len(),
{
    if ls.len() == 0 {
        text
    } else {
        apply_label(apply_labels(text, ls.drop_last()), ls.last())
    }
}

/// The declaration text of `r` with all its labels patched in, longest
/// literal first.
pub open spec fn rewritten(records: Seq<RecordView>, store: Seq<EntryView>, r: RecordView) -> Seq<char> {
    apply_labels(r.source, sort_desc(resolved_labels(records, store, r)))
}

/// `(declaration text, rewritten text)` for each of the first `n` records that
/// has an owning entry.
pub open spec fn outputs(records: Seq<RecordView>, store: Seq<EntryView>, n: int) -> Seq<(Seq<char>, Seq<char>)>
    decreases n,
{
    if n <= 0 {
        Seq::empty()
    } else {
        let r = records[n - 1];
        let prev = outputs(records, store, n - 1);
        if owner_of(records, store, r) is Some {
            prev.push((r.source, rewritten(records, store, r)))
        } else {
            prev
        }
    }
}

/// Each `(from, to)` replaced throughout `text`, in order.
pub open spec fn apply_outputs(text: Seq<char>, outs: Seq<(Seq<char>, Seq<char>)>) -> Seq<char>
    decreases outs.len(),
{
    if outs.len() == 0 {
        text
    } else {
        replaced(apply_outputs(text, outs.drop_last()), outs.last().0, outs.last().1)
    }
}

/// The whole source text with every record that has an owner rewritten.
pub open spec fn generated(v: VisitorView) -> Seq<char> {
    apply_outputs(v.file_source_code, outputs(v.errors, v.fluent_source, v.errors.len() as int))
}

proof fn lemma_first_named(records: Seq<RecordView>, name: Seq<char>, i: int)
    requires
        0 <= i <= records.len(),
        forall|k: int| 0 <= k < i ==> records[k].diag_name != name,
    ensures
        i < records.len() && records[i].diag_name == name ==> first_named(records, name) == Some(i),
        i == records.len() ==> first_named(records, name) is None,
    decreases i,
{
    if i > 0 {
        lemma_first_named(records.drop_first(), name, i - 1);
    }
}

proof fn lemma_first_named_bound(records: Seq<RecordView>, name: Seq<char>)
    ensures
        first_named(records, name) matches Some(j) ==> 0 <= j < records.len() && records[j].diag_name == name,
    decreases records.len(),
{
    if records.len() > 0 {
        lemma_first_named_bound(records.drop_first(), name);
    }
}

pub open spec fn label_view(l: (Vec<char>, Vec<char>, Option<Vec<char>>)) -> LabelView {
    (
        l.0@,
        l.1@,
        match l.2 {
            Some(v) => Some(v@),
            None => None,
        },
    )
}

pub open spec fn labels_view(v: Seq<(Vec<char>, Vec<char>, Option<Vec<char>>)>) -> Seq<LabelView> {
    v.map_values(|l: (Vec<char>, Vec<char>, Option<Vec<char>>)| label_view(l))
}

proof fn lemma_insert_desc(x: LabelView, s: Seq<LabelView>, p: int)
    requires
        0 <= p <= s.len(),
        forall|k: int| 0 <= k < p ==> weight(s[k]) >= weight(x),
        p == s.len() || weight(s[p]) < weight(x),
    ensures
        insert_desc(x, s) == s.take(p).push(x) + s.skip(p),
    decreases p,
{
    if p == 0 {
        if s.len() == 0 {
            assert(s.take(0).push(x) + s.skip(0) =~= seq![x]);
        } else {
            assert(s.take(0).push(x) + s.skip(0) =~= seq![x] + s);
        }
    } else {
        lemma_insert_desc(x, s.drop_first(), p - 1);
        assert(s.take(p).push(x) + s.skip(p) =~= seq![s[0]] + (s.drop_first().take(p - 1).push(x)
            + s.drop_first().skip(p - 1)));
    }
}

impl SynVisitor {
    pub fn new(file_source_code: String) -> (r: Self)
        ensures
            r@.errors.len() == 0,
            r@.fluent_source.len() == 0,
            r@.file_source_code == file_source_code@,
    {
        SynVisitor { errors: Vec::new(), fluent_source: Vec::new(), file_source_code }
    }

    /// The index of the first record named `diag_name`.
    pub fn find_error_by_diag_name(&self, diag_name: &str) -> (r: Option<usize>)
        ensures
            r matches Some(i) ==> first_named(self@.errors, diag_name@) == Some(i as int),
            r is None ==> first_named(self@.errors, diag_name@) is None,
    {
        let mut i: usize = 0;
        while i < self.errors.len()
            invariant
                i <= self.errors.len(),
                forall|k: int| 0 <= k < i ==> self@.errors[k].diag_name != diag_name@,
            decreases self.errors.len() - i,
        {
            assert(self@.errors[i as int] == self.errors@[i as int]@);
            if chars_eq(&chars_of(self.errors[i].diag_name.as_str()), &chars_of(diag_name)) {
                proof {
                    lemma_first_named(self@.errors, diag_name@, i as int);
                }
                return Some(i);
            }
            i += 1;
        }
        proof {
            lemma_first_named(self@.errors, diag_name@, i as int);
        }
        None
    }

    /// Links every record named as a sub-diagnostic to the last record that
    /// names it. A name that matches no record is ignored.
    pub fn set_parent_diag(&mut self)
        ensures
            final(self)@.errors == linked(old(self)@.errors),
            final(self)@.fluent_source == old(self)@.fluent_source,
            final(self)@.file_source_code == old(self)@.file_source_code,
    {
        let ghost rv = self@.errors;
        let n = self.errors.len();
        let mut claim: Vec<Option<String>> = Vec::new();
        let mut j: usize = 0;
        while j < n
            invariant
                j <= n,
                claim.len() == j,
                forall|m: int| 0 <= m < j ==> claim@[m] is None,
            decreases n - j,
        {
            claim.push(None);
            j += 1;
        }
        let mut i: usize = 0;
        while i < n
            invariant
                n == self.errors.len(),
                rv == self@.errors,
                i <= n,
                claim.len() == n,
                forall|m: int| 0 <= m < n ==> opt_view(#[trigger] claim@[m]) == last_claimant(rv, m, i as int),
            decreases n - i,
        {
            let mut k: usize = 0;
            while k < self.errors[i].sub_diags.len()
                invariant
                    n == self.errors.len(),
                    rv == self@.errors,
                    i < n,
                    claim.len() == n,
                    k <= rv[i as int].sub_diags.len(),
                    forall|m: int| 0 <= m < n ==> opt_view(#[trigger] claim@[m]) == if claims_upto(rv, rv[i as int], m, k as int) {
                        Some(rv[i as int].diag_name)
                    } else {
                        last_claimant(rv, m, i as int)
                    },
                decreases rv[i as int].sub_diags.len() - k,
            {
                let found = self.find_error_by_diag_name(self.errors[i].sub_diags[k].as_str());
                proof {
                    assert(rv[i as int].sub_diags[k as int] == self.errors@[i as int].sub_diags@[k as int]@);
                    lemma_first_named_bound(rv, rv[i as int].sub_diags[k as int]);
                }
                match found {
                    Some(t) => {
                        claim.set(t, Some(self.errors[i].diag_name.clone()));
                    },
                    None => {},
                }
                k += 1;
                proof {
                    assert forall|m: int| 0 <= m < n implies opt_view(#[trigger] claim@[m]) == if claims_upto(rv, rv[i as int], m, k as int) {
                        Some(rv[i as int].diag_name)
                    } else {
                        last_claimant(rv, m, i as int)
                    } by {
                        if claims_upto(rv, rv[i as int], m, k - 1) {
                            let w = choose|w: int| 0 <= w < k - 1 && w < rv[i as int].sub_diags.len() && first_named(rv, rv[i as int].sub_diags[w]) == Some(m);
                            assert(0 <= w < k && w < rv[i as int].sub_diags.len() && first_named(rv, rv[i as int].sub_diags[w]) == Some(m));
                        } else if first_named(rv, rv[i as int].sub_diags[k - 1]) == Some(m) {
                            assert(claims_upto(rv, rv[i as int], m, k as int));
                        } else {
                            assert(!claims_upto(rv, rv[i as int], m, k as int)) by {
                                if claims_upto(rv, rv[i as int], m, k as int) {
                                    let w = choose|w: int| 0 <= w < k && w < rv[i as int].sub_diags.len() && first_named(rv, rv[i as int].sub_diags[w]) == Some(m);
                                    assert(w != k - 1);
                                    assert(claims_upto(rv, rv[i as int], m, k - 1));
                                }
                            }
                        }
                    }
                }
            }
            i += 1;
            proof {
                assert forall|m: int| 0 <= m < n implies opt_view(#[trigger] claim@[m]) == last_claimant(rv, m, i as int) by {
                    assert(last_claimant(rv, m, i as int) == if claims(rv, rv[i - 1], m) {
                        Some(rv[i - 1].diag_name)
                    } else {
                        last_claimant(rv, m, i - 1)
                    });
                }
            }
        }
        let mut t: usize = 0;
        while t < n
            invariant
                n == self.errors.len(),
                n == rv.len(),
                t <= n,
                claim.len() == n,
                forall|m: int| 0 <= m < n ==> opt_view(#[trigger] claim@[m]) == last_claimant(rv, m, n as int),
                forall|m: int| 0 <= m < t ==> #[trigger] self@.errors[m] == linked(rv)[m],
                forall|m: int| t <= m < n ==> #[trigger] self@.errors[m] == rv[m],
                self@.fluent_source == old(self)@.fluent_source,
                self@.file_source_code == old(self)@.file_source_code,
            decreases n - t,
        {
            assert(self@.errors[t as int] == self.errors@[t as int]@);
            assert(self@.errors[t as int] == rv[t as int]);
            assert(opt_view(claim@[t as int]) == last_claimant(rv, t as int, n as int));
            let ghost before = self@.errors;
            match &claim[t] {
                Some(p) => {
                    let mut e = self.errors[t].clone_record();
                    e.parent_diag = Some(p.clone());
                    assert(e@ == linked(rv)[t as int]);
                    self.errors.set(t, e);
                    assert(self@.errors =~= before.update(t as int, e@));
                },
                None => {
                    assert(before[t as int] == linked(rv)[t as int]);
                },
            }
            t += 1;
        }
        assert(self@.errors =~= linked(rv));
    }

    fn owner_index(&self, rec: &ErrorStruct, fuel: usize) -> (r: Option<usize>)
        ensures
            r matches Some(i) ==> i < self.fluent_source.len() && owner(self@.errors, self@.fluent_source, rec@, fuel as nat) == Some(self@.fluent_source[i as int]),
            r is None ==> owner(self@.errors, self@.fluent_source, rec@, fuel as nat) is None,
        decreases fuel,
    {
        match &rec.slug {
            Some(s) => {
                match find_entry(&self.fluent_source, &chars_of(s.as_str())) {
                    Some(i) => {
                        return Some(i);
                    },
                    None => {},
                }
            },
            None => {},
        }
        match &rec.parent_diag {
            Some(p) => {
                if fuel == 0 {
                    return None;
                }
                match self.find_error_by_diag_name(p.as_str()) {
                    Some(j) => {
                        proof {
                            lemma_first_named_bound(self@.errors, p@);
                        }
                        assert(self@.errors[j as int] == self.errors@[j as int]@);
                        self.owner_index(&self.errors[j], fuel - 1)
                    },
                    None => None,
                }
            },
            None => {
                let root: Vec<char> = vec!['*', 'r', 'o', 'o', 't', '*'];
                assert(root@ =~= root_slug());
                find_entry(&self.fluent_source, &root)
            },
        }
    }

    fn root_lookup(&self, key: &Vec<char>) -> (r: Option<Vec<char>>)
        ensures
            r matches Some(v) ==> root_value(self@.fluent_source, key@) == Some(v@),
            r is None ==> root_value(self@.fluent_source, key@) is None,
    {
        let root: Vec<char> = vec!['*', 'r', 'o', 'o', 't', '*'];
        assert(root@ =~= root_slug());
        match find_entry(&self.fluent_source, &root) {
            Some(i) => {
                match self.fluent_source[i].get_value_from_slug(string_of(key).as_str()) {
                    Some(v) => Some(chars_of(v.as_str())),
                    None => None,
                }
            },
            None => None,
        }
    }

    fn resolve_chars(&self, rec: &ErrorStruct, key: &Vec<char>) -> (r: Option<Vec<char>>)
        ensures
            r matches Some(v) ==> resolve(self@.errors, self@.fluent_source, rec@, key@) == Some(v@),
            r is None ==> resolve(self@.errors, self@.fluent_source, rec@, key@) is None,
    {
        match self.owner_index(rec, self.errors.len()) {
            Some(i) => {
                match self.fluent_source[i].get_value_from_slug(string_of(key).as_str()) {
                    Some(v) => Some(chars_of(v.as_str())),
                    None => self.root_lookup(key),
                }
            },
            None => self.root_lookup(key),
        }
    }

    /// The literal that `slug` resolves to for `error`: looked up in the
    /// entry that owns the record, then in the root entry.
    pub fn get_value(&self, error: &ErrorStruct, slug: &str) -> (r: Option<String>)
        ensures
            opt_view(r) == resolve(self@.errors, self@.fluent_source, error@, slug@),
    {
        match self.resolve_chars(error, &chars_of(slug)) {
            Some(v) => Some(string_of(&v)),
            None => None,
        }
    }

    /// The `(kind, target)` pairs of `rec` to patch, in order.
    fn pairs_of(&self, rec: &ErrorStruct) -> (r: Vec<(Vec<char>, Vec<char>)>)
        ensures
            r@.len() == label_pairs(rec@).len(),
            forall|k: int| 0 <= k < r@.len() ==> (#[trigger] r@[k].0@, r@[k].1@) == label_pairs(rec@)[k],
    {
        let mut r: Vec<(Vec<char>, Vec<char>)> = Vec::new();
        let ghost lp = label_pairs(rec@);
        let mut i: usize = 0;
        while i < rec.attrs.len()
            invariant
                i <= rec.attrs.len(),
                lp == label_pairs(rec@),
                r@.len() == i,
                forall|k: int| 0 <= k < r@.len() ==> (#[trigger] r@[k].0@, r@[k].1@) == lp[k],
            decreases rec.attrs.len() - i,
        {
            assert(lp[i as int] == pair_view(rec.attrs@[i as int]));
            r.push((chars_of(rec.attrs[i].0.as_str()), chars_of(rec.attrs[i].1.as_str())));
            i += 1;
        }
        let a = rec.attrs.len();
        let mut j: usize = 0;
        while j < rec.field_labels.len()
            invariant
                j <= rec.field_labels.len(),
                a == rec.attrs.len(),
                lp == label_pairs(rec@),
                r@.len() == a + j,
                forall|k: int| 0 <= k < r@.len() ==> (#[trigger] r@[k].0@, r@[k].1@) == lp[k],
            decreases rec.field_labels.len() - j,
        {
            assert(lp[a + j] == pair_view(rec.field_labels@[j as int]));
            r.push((chars_of(rec.field_labels[j].0.as_str()), chars_of(rec.field_labels[j].1.as_str())));
            j += 1;
        }
        match &rec.slug {
            Some(s) => {
                let d: Vec<char> = vec!['d', 'i', 'a', 'g'];
                assert(d@ =~= crate::rewrite::diag_word());
                r.push((d, chars_of(s.as_str())));
            },
            None => {},
        }
        r
    }

    /// The lookup keys of the labels of `rec` that resolve to nothing, so
    /// that a caller can report the patches that were left out.
    pub fn unresolved_keys(&self, rec: &ErrorStruct) -> (r: Vec<String>)
        ensures
            strings_view(r@) == unresolved_of(resolved_labels(self@.errors, self@.fluent_source, rec@)),
    {
        let pairs = self.pairs_of(rec);
        let ghost all = resolved_labels(self@.errors, self@.fluent_source, rec@);
        let mut out: Vec<String> = Vec::new();
        let mut i: usize = 0;
        assert(all.take(0) =~= Seq::<LabelView>::empty());
        assert(strings_view(out@) =~= Seq::<Seq<char>>::empty());
        while i < pairs.len()
            invariant
                i <= pairs.len(),
                pairs@.len() == all.len(),
                all == resolved_labels(self@.errors, self@.fluent_source, rec@),
                forall|k: int| 0 <= k < pairs@.len() ==> (#[trigger] pairs@[k].0@, pairs@[k].1@) == label_pairs(rec@)[k],
                strings_view(out@) == unresolved_of(all.take(i as int)),
            decreases pairs.len() - i,
        {
            let kind = &pairs[i].0;
            let target = &pairs[i].1;
            let is_placeholder = target.len() == 1 && target[0] == '_';
            let key = if is_placeholder {
                let mut k: Vec<char> = vec!['.'];
                push_all(&mut k, kind);
                k
            } else {
                copy_chars(target)
            };
            proof {
                assert(is_placeholder == (target@ == placeholder())) by {
                    if target@.len() == 1 {
                        if target@[0] == '_' {
                            assert(target@ =~= placeholder());
                        }
                    }
                }
                assert(key@ =~= lookup_key(kind@, target@));
                assert(all.take(i + 1).drop_last() =~= all.take(i as int));
                assert(all.take(i + 1).last() == all[i as int]);
            }
            let lit = self.resolve_chars(rec, &key);
            if lit.is_none() {
                let ghost before = out@;
                out.push(string_of(&key));
                assert(strings_view(out@) =~= strings_view(before).push(key@));
            }
            i += 1;
        }
        assert(all.take(i as int) =~= all);
        out
    }

    /// The resolved labels of `rec`, longest literal first.
    fn sorted_labels(&self, rec: &ErrorStruct) -> (r: Vec<(Vec<char>, Vec<char>, Option<Vec<char>>)>)
        ensures
            labels_view(r@) == sort_desc(resolved_labels(self@.errors, self@.fluent_source, rec@)),
    {
        let pairs = self.pairs_of(rec);
        let ghost all = resolved_labels(self@.errors, self@.fluent_source, rec@);
        let mut sorted: Vec<(Vec<char>, Vec<char>, Option<Vec<char>>)> = Vec::new();
        let mut i: usize = 0;
        assert(all.take(0) =~= Seq::<LabelView>::empty());
        while i < pairs.len()
            invariant
                i <= pairs.len(),
                pairs@.len() == all.len(),
                all == resolved_labels(self@.errors, self@.fluent_source, rec@),
                forall|k: int| 0 <= k < pairs@.len() ==> (#[trigger] pairs@[k].0@, pairs@[k].1@) == label_pairs(rec@)[k],
                labels_view(sorted@) == sort_desc(all.take(i as int)),
            decreases pairs.len() - i,
        {
            let kind = copy_chars(&pairs[i].0);
            let target = copy_chars(&pairs[i].1);
            let is_placeholder = target.len() == 1 && target[0] == '_';
            let key = if is_placeholder {
                let mut k: Vec<char> = vec!['.'];
                push_all(&mut k, &kind);
                k
            } else {
                copy_chars(&target)
            };
            proof {
                assert(is_placeholder == (target@ == placeholder())) by {
                    if target@.len() == 1 {
                        if target@[0] == '_' {
                            assert(target@ =~= placeholder());
                        }
                    }
                }
                assert(key@ =~= lookup_key(kind@, target@));
            }
            let lit = self.resolve_chars(rec, &key);
            let item = (kind, target, lit);
            let ghost x = label_view(item);
            assert(x == all[i as int]);
            let w: usize = match &item.2 {
                Some(v) => v.len(),
                None => 0,
            };
            assert(w == weight(x));
            let ghost sv = labels_view(sorted@);
            let mut p: usize = 0;
            while p < sorted.len()
                invariant
                    p <= sorted.len(),
                    sv == labels_view(sorted@),
                    w == weight(x),
                    forall|k: int| 0 <= k < p ==> weight(sv[k]) >= weight(x),
                ensures
                    p <= sorted.len(),
                    forall|k: int| 0 <= k < p ==> weight(sv[k]) >= weight(x),
                    p == sorted.len() || weight(sv[p as int]) < weight(x),
                decreases sorted.len() - p,
            {
                let wp: usize = match &sorted[p].2 {
                    Some(v) => v.len(),
                    None => 0,
                };
                assert(wp == weight(sv[p as int]));
                if wp < w {
                    break;
                }
                p += 1;
            }
            proof {
                lemma_insert_desc(x, sv, p as int);
                assert(all.take(i + 1).drop_last() =~= all.take(i as int));
                assert(all.take(i + 1).last() == x);
            }
            sorted.insert(p, item);
            assert(labels_view(sorted@) =~= sv.take(p as int).push(x) + sv.skip(p as int));
            i += 1;
        }
        assert(all.take(i as int) =~= all);
        sorted
    }

    /// The declaration text of `rec` with its labels patched in.
    fn rewrite_record(&self, rec: &ErrorStruct) -> (r: Vec<char>)
        ensures
            r@ == rewritten(self@.errors, self@.fluent_source, rec@),
    {
        let labels = self.sorted_labels(rec);
        let ghost lv = labels_view(labels@);
        let mut text = chars_of(rec.source.as_str());
        let mut i: usize = 0;
        assert(lv.take(0) =~= Seq::<LabelView>::empty());
        while i < labels.len()
            invariant
                i <= labels.len(),
                lv == labels_view(labels@),
                text@ == apply_labels(rec@.source, lv.take(i as int)),
            decreases labels.len() - i,
        {
            let ghost before = text@;
            let kind = &labels[i].0;
            let target = &labels[i].1;
            let is_placeholder = target.len() == 1 && target[0] == '_';
            proof {
                assert(is_placeholder == (target@ == placeholder())) by {
                    if target@.len() == 1 {
                        if target@[0] == '_' {
                            assert(target@ =~= placeholder());
                        }
                    }
                }
            }
            match &labels[i].2 {
                Some(v) => {
                    if is_placeholder {
                        text = attr_replace_chars(&text, kind, v);
                    } else {
                        text = slug_replace_chars(&text, kind, target, v);
                    }
                },
                None => {},
            }
            proof {
                assert(lv.take(i + 1).drop_last() =~= lv.take(i as int));
                assert(lv.take(i + 1).last() == lv[i as int]);
            }
            i += 1;
        }
        assert(lv.take(i as int) =~= lv);
        text
    }

    /// The whole source text with each record that has an owning entry
    /// replaced by its rewritten text.
    pub fn gen_source_code(&self) -> (r: String)
        ensures
            r@ == generated(self@),
    {
        let mut text = chars_of(self.file_source_code.as_str());
        let mut i: usize = 0;
        while i < self.errors.len()
            invariant
                i <= self.errors.len(),
                text@ == apply_outputs(self@.file_source_code, outputs(self@.errors, self@.fluent_source, i as int)),
            decreases self.errors.len() - i,
        {
            assert(self@.errors[i as int] == self.errors@[i as int]@);
            let ghost prev = outputs(self@.errors, self@.fluent_source, i as int);
            match self.owner_index(&self.errors[i], self.errors.len()) {
                Some(_) => {
                    let to = self.rewrite_record(&self.errors[i]);
                    let from = chars_of(self.errors[i].source.as_str());
                    text = replace_chars(&text, &from, &to);
                    assert(prev.push((from@, to@)).drop_last() =~= prev);
                },
                None => {},
            }
            i += 1;
        }
        string_of(&text)
    }

    /// Adds `entries`, with their `{name}` references filled in, and their
    /// root entry to the store.
    pub fn set_fluent_source(&mut self, entries: &Vec<Entry>)
        ensures
            final(self)@.fluent_source == store_with(old(self)@.fluent_source, entries_view(entries@)),
            final(self)@.errors == old(self)@.errors,
            final(self)@.file_source_code == old(self)@.file_source_code,
    {
        extend_store(&mut self.fluent_source, entries);
    }
}

impl ErrorStruct {
    /// A field-by-field copy.
    pub fn clone_record(&self) -> (r: Self)
        ensures
            r@ == self@,
    {
        ErrorStruct {
            slug: match &self.slug {
                Some(s) => Some(s.clone()),
                None => None,
            },
            attrs: clone_pairs(&self.attrs),
            field_labels: clone_pairs(&self.field_labels),
            sub_diags: clone_strings(&self.sub_diags),
            diag_type: self.diag_type.clone(),
            diag_name: self.diag_name.clone(),
            parent_diag: match &self.parent_diag {
                Some(s) => Some(s.clone()),
                None => None,
            },
            source: self.source.clone(),
        }
    }
}

pub fn clone_pairs(v: &Vec<(String, String)>) -> (r: Vec<(String, String)>)
    ensures
        pairs_view(r@) == pairs_view(v@),
{
    let mut r: Vec<(String, String)> = Vec::new();
    let mut i: usize = 0;
    while i < v.len()
        invariant
            i <= v.len(),
            r@.len() == i,
            forall|k: int| 0 <= k < i ==> pair_view(r@[k]) == pair_view(v@[k]),
        decreases v.len() - i,
    {
        r.push((v[i].0.clone(), v[i].1.clone()));
        i += 1;
    }
    assert(pairs_view(r@) =~= pairs_view(v@));
    r
}

pub fn clone_strings(v: &Vec<String>) -> (r: Vec<String>)
    ensures
        strings_view(r@) == strings_view(v@),
{
    let mut r: Vec<String> = Vec::new();
    let mut i: usize = 0;
    while i < v.len()
        invariant
            i <= v.len(),
            r@.len() == i,
            forall|k: int| 0 <= k < i ==> r@[k]@ == v@[k]@,
        decreases v.len() - i,
    {
        r.push(v[i].clone());
        i += 1;
    }
    assert(strings_view(r@) =~= strings_view(v@));
    r
}

} // verus!
