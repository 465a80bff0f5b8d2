//! A plain description of the declarations of a source file, and the
//! extraction of diagnostic records from it.
use vstd::prelude::*;
use crate::entry::pairs_view;
use crate::order::{
    lemma_pair_lt_total, lemma_pair_lt_transitive, pair_chars_lt,
    pair_lt, strictly_sorted,
};
use crate::text::{chars_eq, chars_of, copy_chars, push_all, string_of};
use crate::visitor::{opt_view, strings_view, ErrorStruct, RecordView};

verus! {

/// An attribute as the extractor reads it.
#[derive(Debug, Clone)]
pub struct AttrInfo {
    /// The attribute's name, where its path is one identifier.
    pub ident: Option<String>,
    /// The tokens between the parentheses of a list attribute `#[name(..)]`.
    pub tokens: Option<String>,
    /// The first path segment of each nested item, in order.
    pub nested: Vec<String>,
}

/// The shape of a field's type that tells which declaration it embeds.
#[derive(Debug, Clone)]
pub struct TypeShape {
    /// The first segment of a path type; `None` for any other type.
    pub path_first: Option<String>,
    /// The first segment of the first generic argument of that segment,
    /// where the argument is a path type.
    pub first_arg: Option<String>,
}

#[derive(Debug, Clone)]
pub struct FieldInfo {
    pub attrs: Vec<AttrInfo>,
    pub ty: TypeShape,
}

#[derive(Debug, Clone)]
pub struct VariantInfo {
    pub name: String,
    pub attrs: Vec<AttrInfo>,
    pub fields: Vec<FieldInfo>,
    pub source: String,
}

#[derive(Debug, Clone, Copy, PartialEq, Eq)]
pub enum ItemKind {
    Struct,
    Enum,
}

/// A struct or an enum of the source file.
#[derive(Debug, Clone)]
pub struct ItemInfo {
    pub kind: ItemKind,
    pub name: String,
    pub attrs: Vec<AttrInfo>,
    /// The fields of a struct.
    pub fields: Vec<FieldInfo>,
    /// The variants of an enum.
    pub variants: Vec<VariantInfo>,
    pub source: String,
}

pub struct AttrView {
    pub ident: Option<Seq<char>>,
    pub tokens: Option<Seq<char>>,
    pub nested: Seq<Seq<char>>,
}

impl View for AttrInfo {
    type V = AttrView;

    open spec fn view(&self) -> AttrView {
        AttrView {
            ident: opt_view(self.ident),
            tokens: opt_view(self.tokens),
            nested: strings_view(self.nested@),
        }
    }
}

pub open spec fn attrs_view(v: Seq<AttrInfo>) -> Seq<AttrView> {
    v.map_values(|a: AttrInfo| a@)
}

pub open spec fn word_option() -> Seq<char> {
    seq!['O', 'p', 't', 'i', 'o', 'n']
}

/// The name of the declaration that a field of type `ty` embeds: the type's
/// own name, or the wrapped type's for `Option<..>`; empty where there is none.
pub open spec fn embedded_name(ty: TypeShape) -> Seq<char> {
    match ty.path_first {
        Some(f) => if f@ == word_option() {
            match ty.first_arg {
                Some(a) => a@,
                None => Seq::empty(),
            }
        } else {
            f@
        },
        None => Seq::empty(),
    }
}

/// The name of the declaration that a field of type `ty` embeds.
pub fn get_ty_path(ty: &TypeShape) -> (r: String)
    ensures
        r@ == embedded_name(*ty),
{
    match &ty.path_first {
        Some(f) => {
            let opt: Vec<char> = vec!['O', 'p', 't', 'i', 'o', 'n'];
            assert(opt@ =~= word_option());
            if chars_eq(&chars_of(f.as_str()), &opt) {
                match &ty.first_arg {
                    Some(a) => a.clone(),
                    None => String::new(),
                }
            } else {
                f.clone()
            }
        },
        None => String::new(),
    }
}

/// The tokens of a list attribute.
pub fn get_diag_type(attr: &AttrInfo) -> (r: Option<String>)
    ensures
        opt_view(r) == attr@.tokens,
{
    match &attr.tokens {
        Some(t) => Some(t.clone()),
        None => None,
    }
}

pub open spec fn w_subdiagnostic() -> Seq<char> {
    seq!['s', 'u', 'b', 'd', 'i', 'a', 'g', 'n', 'o', 's', 't', 'i', 'c']
}

pub open spec fn w_diag() -> Seq<char> {
    seq!['d', 'i', 'a', 'g']
}

pub open spec fn w_suggestion() -> Seq<char> {
    seq!['s', 'u', 'g', 'g', 'e', 's', 't', 'i', 'o', 'n']
}

pub open spec fn w_multipart_suggestion() -> Seq<char> {
    seq!['m', 'u', 'l', 't', 'i', 'p', 'a', 'r', 't', '_'] + w_suggestion()
}

pub open spec fn w_label() -> Seq<char> {
    seq!['l', 'a', 'b', 'e', 'l']
}

pub open spec fn w_note() -> Seq<char> {
    seq!['n', 'o', 't', 'e']
}

pub open spec fn w_help() -> Seq<char> {
    seq!['h', 'e', 'l', 'p']
}

/// An attribute that can name the main slug.
pub open spec fn is_slug_kind(k: Seq<char>) -> bool {
    k == w_diag() || k == w_multipart_suggestion() || k == w_suggestion()
}

/// An attribute that carries a message.
pub open spec fn is_label_kind(k: Seq<char>) -> bool {
    k == w_suggestion() || k == w_label() || k == w_note() || k == w_help() || k
        == w_multipart_suggestion() || k == w_diag()
}

/// A nested item that is an option of the attribute, not a slug.
pub open spec fn is_option_word(n: Seq<char>) -> bool {
    n == seq!['s', 't', 'y', 'l', 'e'] || n == seq!['c', 'o', 'd', 'e'] || n == seq![
        'a',
        'p',
        'p',
        'l',
        'i',
        'c',
        'a',
        'b',
        'i',
        'l',
        'i',
        't',
        'y',
    ]
}

/// The main slug: the first nested item of the first attribute among
/// `diag`, `multipart_suggestion` and `suggestion` that has one.
pub open spec fn first_slug(attrs: Seq<AttrView>) -> Option<Seq<char>>
    decreases attrs.len(),
{
    if attrs.len() == 0 {
        None
    } else if attrs[0].ident matches Some(k) && is_slug_kind(k) && attrs[0].nested.len() > 0 {
        Some(attrs[0].nested[0])
    } else {
        first_slug(attrs.drop_first())
    }
}

/// Whether some nested item of `a` is a slug.
pub open spec fn names_slug(a: AttrView) -> bool {
    exists|m: int| 0 <= m < a.nested.len() && !is_option_word(a.nested[m])
}

/// The `(kind, slug)` labels that attribute `a` contributes: one per slug it
/// names, or `(kind, _)` where it names none.
pub open spec fn attr_labels(a: AttrView, p: (Seq<char>, Seq<char>)) -> bool {
    a.ident matches Some(k) && is_label_kind(k) && p.0 == k && if names_slug(a) {
        exists|m: int| 0 <= m < a.nested.len() && !is_option_word(a.nested[m]) && p.1 == a.nested[m]
    } else {
        p.1 == seq!['_']
    }
}

/// Whether `p` is a label of one of `attrs`.
pub open spec fn is_label_of(attrs: Seq<AttrView>, p: (Seq<char>, Seq<char>)) -> bool {
    exists|i: int| 0 <= i < attrs.len() && attr_labels(attrs[i], p)
}

/// `name` once for each `#[subdiagnostic]` marker among `attrs`.
pub open spec fn marker_subs(attrs: Seq<AttrView>, name: Seq<char>) -> Seq<Seq<char>>
    decreases attrs.len(),
{
    if attrs.len() == 0 {
        Seq::empty()
    } else if attrs.last().ident == Some(w_subdiagnostic()) {
        marker_subs(attrs.drop_last(), name).push(name)
    } else {
        marker_subs(attrs.drop_last(), name)
    }
}

/// The type name of a field marked `#[subdiagnostic]`, once per marker.
pub open spec fn field_subs(f: FieldInfo) -> Seq<Seq<char>> {
    marker_subs(attrs_view(f.attrs@), embedded_name(f.ty))
}

pub open spec fn subs_of(fields: Seq<FieldInfo>) -> Seq<Seq<char>>
    decreases fields.len(),
{
    if fields.len() == 0 {
        Seq::empty()
    } else {
        subs_of(fields.drop_last()) + field_subs(fields.last())
    }
}

/// A declaration's own attributes followed by those of its fields.
pub open spec fn all_attrs(attrs: Seq<AttrView>, fields: Seq<FieldInfo>) -> Seq<AttrView>
    decreases fields.len(),
{
    if fields.len() == 0 {
        attrs
    } else {
        all_attrs(attrs, fields.drop_last()) + attrs_view(fields.last().attrs@)
    }
}

/// The record of a declaration, where its first attribute is a list.
pub open spec fn record_ok(r: RecordView, name: Seq<char>, attrs: Seq<AttrView>, subs: Seq<Seq<char>>, source: Seq<char>) -> bool {
    &&& attrs.len() > 0
    &&& attrs[0].tokens == Some(r.diag_type)
    &&& r.slug == first_slug(attrs)
    &&& r.attrs.len() == 0
    &&& strictly_sorted(r.field_labels)
    &&& forall|p: (Seq<char>, Seq<char>)| #[trigger] r.field_labels.contains(p) <==> is_label_of(attrs, p)
    &&& r.sub_diags == subs
    &&& r.diag_name == name
    &&& r.parent_diag is None
    &&& r.source == source
}

pub open spec fn no_record(attrs: Seq<AttrView>) -> bool {
    attrs.len() == 0 || attrs[0].tokens is None
}

impl AttrInfo {
    /// A field-by-field copy.
    pub fn copy(&self) -> (r: Self)
        ensures
            r@ == self@,
    {
        AttrInfo {
            ident: match &self.ident {
                Some(s) => Some(s.clone()),
                None => None,
            },
            tokens: match &self.tokens {
                Some(s) => Some(s.clone()),
                None => None,
            },
            nested: crate::visitor::clone_strings(&self.nested),
        }
    }
}

fn push_attrs(out: &mut Vec<AttrInfo>, attrs: &Vec<AttrInfo>)
    ensures
        attrs_view(final(out)@) == attrs_view(old(out)@) + attrs_view(attrs@),
{
    let mut i: usize = 0;
    while i < attrs.len()
        invariant
            i <= attrs.len(),
            attrs_view(out@) == attrs_view(old(out)@) + attrs_view(attrs@).take(i as int),
        decreases attrs.len() - i,
    {
        let ghost before = out@;
        out.push(attrs[i].copy());
        assert(attrs_view(out@) =~= attrs_view(before).push(attrs@[i as int]@));
        i += 1;
        assert(attrs_view(attrs@).take(i as int) =~= attrs_view(attrs@).take(i - 1).push(attrs@[i - 1]@));
    }
    assert(attrs_view(attrs@).take(i as int) =~= attrs_view(attrs@));
}

/// A declaration's own attributes followed by those of its fields.
pub fn gather_attrs(attrs: &Vec<AttrInfo>, fields: &Vec<FieldInfo>) -> (r: Vec<AttrInfo>)
    ensures
        attrs_view(r@) == all_attrs(attrs_view(attrs@), fields@),
{
    let mut out: Vec<AttrInfo> = Vec::new();
    push_attrs(&mut out, attrs);
    assert(attrs_view(out@) =~= attrs_view(attrs@));
    let mut i: usize = 0;
    assert(fields@.take(0) =~= Seq::<FieldInfo>::empty());
    while i < fields.len()
        invariant
            i <= fields.len(),
            attrs_view(out@) == all_attrs(attrs_view(attrs@), fields@.take(i as int)),
        decreases fields.len() - i,
    {
        push_attrs(&mut out, &fields[i].attrs);
        i += 1;
        assert(fields@.take(i as int).drop_last() =~= fields@.take(i - 1));
    }
    assert(fields@.take(i as int) =~= fields@);
    out
}

fn is_word(s: &String, w: &Vec<char>) -> (r: bool)
    ensures
        r == (s@ == w@),
{
    chars_eq(&chars_of(s.as_str()), w)
}

fn is_option_word_str(n: &String) -> (r: bool)
    ensures
        r == is_option_word(n@),
{
    let style: Vec<char> = vec!['s', 't', 'y', 'l', 'e'];
    let code: Vec<char> = vec!['c', 'o', 'd', 'e'];
    let appl: Vec<char> = vec!['a', 'p', 'p', 'l', 'i', 'c', 'a', 'b', 'i', 'l', 'i', 't', 'y'];
    assert(style@ =~= seq!['s', 't', 'y', 'l', 'e']);
    assert(code@ =~= seq!['c', 'o', 'd', 'e']);
    assert(appl@ =~= seq!['a', 'p', 'p', 'l', 'i', 'c', 'a', 'b', 'i', 'l', 'i', 't', 'y']);
    is_word(n, &style) || is_word(n, &code) || is_word(n, &appl)
}

fn w_diag_chars() -> (r: Vec<char>)
    ensures
        r@ == w_diag(),
{
    let r = vec!['d', 'i', 'a', 'g'];
    assert(r@ =~= w_diag());
    r
}

fn w_suggestion_chars() -> (r: Vec<char>)
    ensures
        r@ == w_suggestion(),
{
    let r = vec!['s', 'u', 'g', 'g', 'e', 's', 't', 'i', 'o', 'n'];
    assert(r@ =~= w_suggestion());
    r
}

fn w_multipart_chars() -> (r: Vec<char>)
    ensures
        r@ == w_multipart_suggestion(),
{
    let r = vec!['m', 'u', 'l', 't', 'i', 'p', 'a', 'r', 't', '_', 's', 'u', 'g', 'g', 'e', 's', 't', 'i', 'o', 'n'];
    assert(r@ =~= w_multipart_suggestion());
    r
}

fn is_slug_kind_str(k: &String) -> (r: bool)
    ensures
        r == is_slug_kind(k@),
{
    is_word(k, &w_diag_chars()) || is_word(k, &w_multipart_chars()) || is_word(k, &w_suggestion_chars())
}

fn is_label_kind_str(k: &String) -> (r: bool)
    ensures
        r == is_label_kind(k@),
{
    let label: Vec<char> = vec!['l', 'a', 'b', 'e', 'l'];
    let note: Vec<char> = vec!['n', 'o', 't', 'e'];
    let help: Vec<char> = vec!['h', 'e', 'l', 'p'];
    assert(label@ =~= w_label());
    assert(note@ =~= w_note());
    assert(help@ =~= w_help());
    is_word(k, &w_suggestion_chars()) || is_word(k, &label) || is_word(k, &note) || is_word(k, &help)
        || is_word(k, &w_multipart_chars()) || is_word(k, &w_diag_chars())
}

/// The main slug among `attrs`.
pub fn find_slug(attrs: &Vec<AttrInfo>) -> (r: Option<String>)
    ensures
        opt_view(r) == first_slug(attrs_view(attrs@)),
{
    let ghost av = attrs_view(attrs@);
    let mut i: usize = 0;
    assert(av.skip(0) == av);
    while i < attrs.len()
        invariant
            i <= attrs.len(),
            av == attrs_view(attrs@),
            first_slug(av) == first_slug(av.skip(i as int)),
        decreases attrs.len() - i,
    {
        assert(av.skip(i as int).drop_first() == av.skip(i + 1));
        assert(av.skip(i as int)[0] == attrs@[i as int]@);
        match &attrs[i].ident {
            Some(k) => {
                if is_slug_kind_str(k) && attrs[i].nested.len() > 0 {
                    assert(av.skip(i as int)[0].nested[0] == attrs@[i as int].nested@[0]@);
                    return Some(attrs[i].nested[0].clone());
                }
            },
            None => {},
        }
        i += 1;
    }
    None
}

/// Adds `x` to the strictly sorted `sorted`, where it is not there yet.
fn insert_sorted(sorted: &mut Vec<(Vec<char>, Vec<char>)>, x: (Vec<char>, Vec<char>))
    requires
        strictly_sorted(pair_seq(old(sorted)@)),
    ensures
        strictly_sorted(pair_seq(final(sorted)@)),
        forall|p: (Seq<char>, Seq<char>)| #[trigger] pair_seq(final(sorted)@).contains(p) <==> (pair_seq(old(sorted)@).contains(p) || p == (x.0@, x.1@)),
{
    let ghost sv = pair_seq(sorted@);
    let ghost xv = (x.0@, x.1@);
    let mut p: usize = 0;
    while p < sorted.len()
        invariant
            p <= sorted.len(),
            sv == pair_seq(sorted@),
            xv == (x.0@, x.1@),
            forall|k: int| 0 <= k < p ==> pair_lt(sv[k], xv),
        ensures
            p <= sorted.len(),
            forall|k: int| 0 <= k < p ==> pair_lt(sv[k], xv),
            p == sorted.len() || !pair_lt(sv[p as int], xv),
        decreases sorted.len() - p,
    {
        assert(sv[p as int] == (sorted@[p as int].0@, sorted@[p as int].1@));
        if !pair_chars_lt(&sorted[p], &x) {
            break;
        }
        p += 1;
    }
    if p < sorted.len() {
        assert(sv[p as int] == (sorted@[p as int].0@, sorted@[p as int].1@));
    }
    if p < sorted.len() && chars_eq(&sorted[p].0, &x.0) && chars_eq(&sorted[p].1, &x.1) {
        assert(sv[p as int] == xv);
        return;
    }
    proof {
        if p < sv.len() {
            lemma_pair_lt_total(sv[p as int], xv);
        }
    }
    sorted.insert(p, x);
    proof {
        let nv = pair_seq(sorted@);
        assert(nv =~= sv.insert(p as int, xv));
        assert forall|i: int, j: int| 0 <= i < j < nv.len() implies pair_lt(#[trigger] nv[i], #[trigger] nv[j]) by {
            if j < p {
            } else if j == p {
            } else if i == p {
                if j - 1 > p {
                    lemma_pair_lt_transitive(xv, sv[p as int], sv[j - 1]);
                }
            } else if i < p {
                assert(pair_lt(sv[i], xv));
                if p < sv.len() {
                    assert(pair_lt(xv, sv[p as int]));
                    lemma_pair_lt_transitive(sv[i], xv, sv[p as int]);
                    if j - 1 > p {
                        lemma_pair_lt_transitive(sv[i], sv[p as int], sv[j - 1]);
                    }
                }
            }
        }
        assert forall|q: (Seq<char>, Seq<char>)| #[trigger] nv.contains(q) <==> (sv.contains(q) || q == xv) by {
            if nv.contains(q) {
                let k = choose|k: int| 0 <= k < nv.len() && nv[k] == q;
                if k < p {
                    assert(sv[k] == q);
                } else if k > p {
                    assert(sv[k - 1] == q);
                }
            }
            if sv.contains(q) {
                let k = choose|k: int| 0 <= k < sv.len() && sv[k] == q;
                if k < p {
                    assert(nv[k] == q);
                } else {
                    assert(nv[k + 1] == q);
                }
            }
            if q == xv {
                assert(nv[p as int] == q);
            }
        }
    }
}

pub open spec fn labels_upto(attrs: Seq<AttrView>, n: int, p: (Seq<char>, Seq<char>)) -> bool {
    exists|i: int| 0 <= i < n && attr_labels(attrs[i], p)
}

pub open spec fn slugs_upto(a: AttrView, j: int, p: (Seq<char>, Seq<char>)) -> bool {
    exists|m: int| 0 <= m < j && !is_option_word(a.nested[m]) && p.1 == a.nested[m]
}

pub open spec fn some_slug_upto(a: AttrView, j: int) -> bool {
    exists|m: int| 0 <= m < j && !is_option_word(a.nested[m])
}

/// The labels of `attrs`, without repeats, in increasing order.
pub fn collect_labels(attrs: &Vec<AttrInfo>) -> (r: Vec<(Vec<char>, Vec<char>)>)
    ensures
        strictly_sorted(pair_seq(r@)),
        forall|p: (Seq<char>, Seq<char>)| #[trigger] pair_seq(r@).contains(p) <==> is_label_of(attrs_view(attrs@), p),
{
    let ghost av = attrs_view(attrs@);
    let mut sorted: Vec<(Vec<char>, Vec<char>)> = Vec::new();
    let mut i: usize = 0;
    assert(pair_seq(sorted@) =~= Seq::<(Seq<char>, Seq<char>)>::empty());
    while i < attrs.len()
        invariant
            i <= attrs.len(),
            av == attrs_view(attrs@),
            strictly_sorted(pair_seq(sorted@)),
            forall|p: (Seq<char>, Seq<char>)| #[trigger] pair_seq(sorted@).contains(p) <==> labels_upto(av, i as int, p),
        decreases attrs.len() - i,
    {
        let ghost a = av[i as int];
        assert(a == attrs@[i as int]@);
        match &attrs[i].ident {
            Some(k) => {
                if is_label_kind_str(k) {
                    let kc = chars_of(k.as_str());
                    let mut added = false;
                    let mut j: usize = 0;
                    while j < attrs[i].nested.len()
                        invariant
                            i < attrs.len(),
                            av == attrs_view(attrs@),
                            a == av[i as int],
                            a.ident == Some(kc@),
                            j <= a.nested.len(),
                            added == some_slug_upto(a, j as int),
                            strictly_sorted(pair_seq(sorted@)),
                            forall|p: (Seq<char>, Seq<char>)| #[trigger] pair_seq(sorted@).contains(p) <==> (labels_upto(av, i as int, p) || (p.0 == kc@ && slugs_upto(a, j as int, p))),
                        decreases a.nested.len() - j,
                    {
                        let n = &attrs[i].nested[j];
                        assert(a.nested[j as int] == n@);
                        if !is_option_word_str(n) {
                            let ghost before = pair_seq(sorted@);
                            insert_sorted(&mut sorted, (copy_chars(&kc), chars_of(n.as_str())));
                            added = true;
                            proof {
                                assert forall|p: (Seq<char>, Seq<char>)| #[trigger] pair_seq(sorted@).contains(p) <==> (labels_upto(av, i as int, p) || (p.0 == kc@ && slugs_upto(a, j + 1, p))) by {
                                    if p.0 == kc@ && slugs_upto(a, j + 1, p) && !slugs_upto(a, j as int, p) {
                                        let m = choose|m: int| 0 <= m < j + 1 && !is_option_word(a.nested[m]) && p.1 == a.nested[m];
                                        assert(m == j);
                                    }
                                    if p == (kc@, n@) {
                                        assert(slugs_upto(a, j + 1, p));
                                    }
                                    if slugs_upto(a, j as int, p) {
                                        let m = choose|m: int| 0 <= m < j && !is_option_word(a.nested[m]) && p.1 == a.nested[m];
                                        assert(slugs_upto(a, j + 1, p));
                                    }
                                }
                                assert(some_slug_upto(a, j + 1));
                            }
                        } else {
                            proof {
                                assert forall|p: (Seq<char>, Seq<char>)| slugs_upto(a, j + 1, p) <==> slugs_upto(a, j as int, p) by {
                                    if slugs_upto(a, j + 1, p) {
                                        let m = choose|m: int| 0 <= m < j + 1 && !is_option_word(a.nested[m]) && p.1 == a.nested[m];
                                        assert(m != j);
                                    }
                                    if slugs_upto(a, j as int, p) {
                                        let m = choose|m: int| 0 <= m < j && !is_option_word(a.nested[m]) && p.1 == a.nested[m];
                                        assert(0 <= m < j + 1);
                                    }
                                }
                                if some_slug_upto(a, j + 1) {
                                    let m = choose|m: int| 0 <= m < j + 1 && !is_option_word(a.nested[m]);
                                    assert(m != j);
                                    assert(some_slug_upto(a, j as int));
                                }
                                if some_slug_upto(a, j as int) {
                                    let m = choose|m: int| 0 <= m < j && !is_option_word(a.nested[m]);
                                    assert(0 <= m < j + 1);
                                }
                            }
                        }
                        j += 1;
                    }
                    assert(added == names_slug(a));
                    if !added {
                        let mut u: Vec<char> = Vec::new();
                        u.push('_');
                        assert(u@ =~= seq!['_']);
                        insert_sorted(&mut sorted, (kc, u));
                    }
                    proof {
                        assert forall|p: (Seq<char>, Seq<char>)| #[trigger] pair_seq(sorted@).contains(p) <==> labels_upto(av, i + 1, p) by {
                            if labels_upto(av, i + 1, p) && !labels_upto(av, i as int, p) {
                                let w = choose|w: int| 0 <= w < i + 1 && attr_labels(av[w], p);
                                assert(w == i);
                            }
                            if attr_labels(a, p) {
                                assert(labels_upto(av, i + 1, p));
                            }
                            if labels_upto(av, i as int, p) {
                                let w = choose|w: int| 0 <= w < i && attr_labels(av[w], p);
                                assert(labels_upto(av, i + 1, p));
                            }
                        }
                    }
                } else {
                    proof {
                        assert forall|p: (Seq<char>, Seq<char>)| labels_upto(av, i + 1, p) <==> labels_upto(av, i as int, p) by {
                            if labels_upto(av, i + 1, p) {
                                let w = choose|w: int| 0 <= w < i + 1 && attr_labels(av[w], p);
                                assert(w != i);
                            }
                            if labels_upto(av, i as int, p) {
                                let w = choose|w: int| 0 <= w < i && attr_labels(av[w], p);
                                assert(0 <= w < i + 1);
                            }
                        }
                    }
                }
            },
            None => {
                proof {
                    assert forall|p: (Seq<char>, Seq<char>)| labels_upto(av, i + 1, p) <==> labels_upto(av, i as int, p) by {
                        if labels_upto(av, i + 1, p) {
                            let w = choose|w: int| 0 <= w < i + 1 && attr_labels(av[w], p);
                            assert(w != i);
                        }
                        if labels_upto(av, i as int, p) {
                            let w = choose|w: int| 0 <= w < i && attr_labels(av[w], p);
                            assert(0 <= w < i + 1);
                        }
                    }
                }
            },
        }
        i += 1;
    }
    sorted
}

/// The names that the fields marked `#[subdiagnostic]` embed.
pub fn field_subdiags(fields: &Vec<FieldInfo>) -> (r: Vec<String>)
    ensures
        strings_view(r@) == subs_of(fields@),
{
    let mut out: Vec<String> = Vec::new();
    let mut i: usize = 0;
    assert(strings_view(out@) =~= Seq::<Seq<char>>::empty());
    assert(fields@.take(0) =~= Seq::<FieldInfo>::empty());
    let sub: Vec<char> = vec!['s', 'u', 'b', 'd', 'i', 'a', 'g', 'n', 'o', 's', 't', 'i', 'c'];
    assert(sub@ =~= w_subdiagnostic());
    while i < fields.len()
        invariant
            i <= fields.len(),
            sub@ == w_subdiagnostic(),
            strings_view(out@) == subs_of(fields@.take(i as int)),
        decreases fields.len() - i,
    {
        let f = &fields[i];
        let ghost fa = attrs_view(f.attrs@);
        let ghost base = strings_view(out@);
        let name = get_ty_path(&f.ty);
        let mut j: usize = 0;
        assert(fa.take(0) =~= Seq::<AttrView>::empty());
        while j < f.attrs.len()
            invariant
                j <= f.attrs.len(),
                fa == attrs_view(f.attrs@),
                sub@ == w_subdiagnostic(),
                name@ == embedded_name(f.ty),
                strings_view(out@) == base + marker_subs(fa.take(j as int), name@),
            decreases f.attrs.len() - j,
        {
            assert(fa.take(j + 1).drop_last() =~= fa.take(j as int));
            assert(fa.take(j + 1).last() == f.attrs@[j as int]@);
            let hit = match &f.attrs[j].ident {
                Some(k) => is_word(k, &sub),
                None => false,
            };
            if hit {
                let ghost before = out@;
                out.push(name.clone());
                assert(strings_view(out@) =~= strings_view(before).push(name@));
            }
            j += 1;
        }
        assert(fa.take(j as int) =~= fa);
        i += 1;
        assert(fields@.take(i as int).drop_last() =~= fields@.take(i - 1));
    }
    assert(fields@.take(i as int) =~= fields@);
    out
}

fn pairs_to_strings(v: &Vec<(Vec<char>, Vec<char>)>) -> (r: Vec<(String, String)>)
    ensures
        pairs_view(r@) == pair_seq(v@),
{
    let mut r: Vec<(String, String)> = Vec::new();
    let mut i: usize = 0;
    while i < v.len()
        invariant
            i <= v.len(),
            r@.len() == i,
            forall|k: int| 0 <= k < i ==> crate::entry::pair_view(r@[k]) == (v@[k].0@, v@[k].1@),
        decreases v.len() - i,
    {
        r.push((string_of(&v[i].0), string_of(&v[i].1)));
        i += 1;
    }
    assert(pairs_view(r@) =~= pair_seq(v@));
    r
}

/// The record of a declaration named `name` with attributes `attrs`, where
/// the first attribute is a list; `None` otherwise.
pub fn process_attrs(name: &String, attrs: &Vec<AttrInfo>, sub_diags: &Vec<String>, source: &String) -> (r: Option<ErrorStruct>)
    ensures
        r is None <==> no_record(attrs_view(attrs@)),
        r matches Some(e) ==> record_ok(e@, name@, attrs_view(attrs@), strings_view(sub_diags@), source@),
{
    if attrs.len() == 0 {
        return None;
    }
    let diag_type = match get_diag_type(&attrs[0]) {
        Some(t) => t,
        None => {
            return None;
        },
    };
    let slug = find_slug(attrs);
    let labels = collect_labels(attrs);
    let e = ErrorStruct {
        slug,
        attrs: Vec::new(),
        field_labels: pairs_to_strings(&labels),
        sub_diags: crate::visitor::clone_strings(sub_diags),
        diag_type,
        diag_name: name.clone(),
        parent_diag: None,
        source: source.clone(),
    };
    assert(e@.attrs =~= Seq::<(Seq<char>, Seq<char>)>::empty());
    Some(e)
}

/// `(name, attributes, sub-diagnostics, text)` of one declaration.
pub type DeclView = (Seq<char>, Seq<AttrView>, Seq<Seq<char>>, Seq<char>);

/// A variant is named `Enum::Variant`.
pub open spec fn variant_decl(enum_name: Seq<char>, v: VariantInfo) -> DeclView {
    (
        enum_name + seq![':', ':'] + v.name@,
        all_attrs(attrs_view(v.attrs@), v.fields@),
        subs_of(v.fields@),
        v.source@,
    )
}

/// The declarations of an item in the order they are finished: a struct
/// alone; an enum's variants, then the enum with its own attributes.
pub open spec fn item_decls(it: ItemInfo) -> Seq<DeclView> {
    match it.kind {
        ItemKind::Struct => seq![
            (it.name@, all_attrs(attrs_view(it.attrs@), it.fields@), subs_of(it.fields@), it.source@),
        ],
        ItemKind::Enum => it.variants@.map_values(|v: VariantInfo| variant_decl(it.name@, v)).push(
            (it.name@, attrs_view(it.attrs@), Seq::empty(), it.source@),
        ),
    }
}

pub open spec fn decls(items: Seq<ItemInfo>) -> Seq<DeclView>
    decreases items.len(),
{
    if items.len() == 0 {
        Seq::empty()
    } else {
        decls(items.drop_last()) + item_decls(items.last())
    }
}

/// The declarations that make a record.
pub open spec fn kept(ds: Seq<DeclView>) -> Seq<DeclView>
    decreases ds.len(),
{
    if ds.len() == 0 {
        Seq::empty()
    } else if no_record(ds.last().1) {
        kept(ds.drop_last())
    } else {
        kept(ds.drop_last()).push(ds.last())
    }
}

pub open spec fn records_match(rs: Seq<RecordView>, ds: Seq<DeclView>) -> bool {
    &&& rs.len() == ds.len()
    &&& forall|i: int| 0 <= i < rs.len() ==> record_ok(#[trigger] rs[i], ds[i].0, ds[i].1, ds[i].2, ds[i].3)
}

fn add_decl(out: &mut Vec<ErrorStruct>, name: &String, attrs: &Vec<AttrInfo>, subs: &Vec<String>, source: &String, ds: Ghost<Seq<DeclView>>)
    requires
        records_match(crate::visitor::records_view(old(out)@), kept(ds@)),
    ensures
        records_match(crate::visitor::records_view(final(out)@), kept(ds@.push((name@, attrs_view(attrs@), strings_view(subs@), source@)))),
{
    let ghost d = (name@, attrs_view(attrs@), strings_view(subs@), source@);
    assert(ds@.push(d).drop_last() =~= ds@);
    match process_attrs(name, attrs, subs, source) {
        Some(e) => {
            let ghost before = out@;
            out.push(e);
            assert(crate::visitor::records_view(out@) =~= crate::visitor::records_view(before).push(e@));
        },
        None => {},
    }
}

/// The records of the declarations of `items`, in the order they are
/// finished; a declaration whose first attribute is not a list makes none.
pub fn extract(items: &Vec<ItemInfo>) -> (r: Vec<ErrorStruct>)
    ensures
        records_match(crate::visitor::records_view(r@), kept(decls(items@))),
{
    let mut out: Vec<ErrorStruct> = Vec::new();
    let mut i: usize = 0;
    assert(items@.take(0) =~= Seq::<ItemInfo>::empty());
    assert(crate::visitor::records_view(out@) =~= Seq::<RecordView>::empty());
    while i < items.len()
        invariant
            i <= items.len(),
            records_match(crate::visitor::records_view(out@), kept(decls(items@.take(i as int)))),
        decreases items.len() - i,
    {
        let it = &items[i];
        let ghost base = decls(items@.take(i as int));
        assert(items@.take(i + 1).drop_last() =~= items@.take(i as int));
        assert(items@.take(i + 1).last() == *it);
        match it.kind {
            ItemKind::Struct => {
                let attrs = gather_attrs(&it.attrs, &it.fields);
                let subs = field_subdiags(&it.fields);
                add_decl(&mut out, &it.name, &attrs, &subs, &it.source, Ghost(base));
                assert(base.push((it.name@, attrs_view(attrs@), strings_view(subs@), it.source@)) =~= decls(items@.take(i + 1)));
            },
            ItemKind::Enum => {
                let ghost vd = it.variants@.map_values(|v: VariantInfo| variant_decl(it.name@, v));
                let mut j: usize = 0;
                assert(base + vd.take(0) =~= base);
                while j < it.variants.len()
                    invariant
                        j <= it.variants.len(),
                        vd == it.variants@.map_values(|v: VariantInfo| variant_decl(it.name@, v)),
                        records_match(crate::visitor::records_view(out@), kept(base + vd.take(j as int))),
                    decreases it.variants.len() - j,
                {
                    let v = &it.variants[j];
                    let mut name = chars_of(it.name.as_str());
                    name.push(':');
                    name.push(':');
                    push_all(&mut name, &chars_of(v.name.as_str()));
                    let name = string_of(&name);
                    let attrs = gather_attrs(&v.attrs, &v.fields);
                    let subs = field_subdiags(&v.fields);
                    assert(name@ =~= it.name@ + seq![':', ':'] + v.name@);
                    add_decl(&mut out, &name, &attrs, &subs, &v.source, Ghost(base + vd.take(j as int)));
                    assert((base + vd.take(j as int)).push((name@, attrs_view(attrs@), strings_view(subs@), v.source@)) =~= base + vd.take(j + 1));
                    j += 1;
                }
                assert(vd.take(j as int) =~= vd);
                let no_subs: Vec<String> = Vec::new();
                let own = gather_attrs(&it.attrs, &Vec::new());
                assert(strings_view(no_subs@) =~= Seq::<Seq<char>>::empty());
                add_decl(&mut out, &it.name, &own, &no_subs, &it.source, Ghost(base + vd));
                assert((base + vd).push((it.name@, attrs_view(own@), strings_view(no_subs@), it.source@)) =~= decls(items@.take(i + 1)));
            },
        }
        i += 1;
    }
    assert(items@.take(i as int) =~= items@);
    out
}

impl crate::visitor::SynVisitor {
    /// Adds the records of `items` and links parents to sub-diagnostics.
    pub fn init_with_syntax(&mut self, items: &Vec<ItemInfo>)
        ensures
            exists|rs: Seq<RecordView>| records_match(rs, kept(decls(items@))) && final(self)@.errors == crate::visitor::linked(old(self)@.errors + rs),
            final(self)@.fluent_source == old(self)@.fluent_source,
            final(self)@.file_source_code == old(self)@.file_source_code,
    {
        let mut found = extract(items);
        let ghost rs = crate::visitor::records_view(found@);
        let ghost before = self@.errors;
        self.errors.append(&mut found);
        assert(self@.errors =~= before + rs);
        self.set_parent_diag();
    }
}

pub open spec fn pair_seq(v: Seq<(Vec<char>, Vec<char>)>) -> Seq<(Seq<char>, Seq<char>)> {
    v.map_values(|p: (Vec<char>, Vec<char>)| (p.0@, p.1@))
}

} // verus!
