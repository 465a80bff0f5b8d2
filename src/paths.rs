//! Message paths written `fluent::slug` in the source, replaced by the
//! message they name.
use vstd::prelude::*;
use crate::entry::{entry_value, EntryView};
use crate::parser::entries_view;
use crate::store::{find_entry, lookup_entry, root_slug};
use crate::text::{chars_of, contains, contains_chars, push_all, replace_chars, replaced, starts_with, string_of};
use crate::visitor::SynVisitor;

verus! {

pub open spec fn path_prefix() -> Seq<char> {
    seq!['f', 'l', 'u', 'e', 'n', 't', ':', ':']
}

pub open spec fn path_sep() -> Seq<char> {
    seq![':', ':']
}

/// The slug of a path `fluent::slug` of exactly two segments.
pub open spec fn message_path_slug(p: Seq<char>) -> Option<Seq<char>> {
    if starts_with(p, path_prefix()) && !contains(p.skip(8), path_sep()) {
        Some(p.skip(8))
    } else {
        None
    }
}

/// The expression that takes the place of a message path.
pub open spec fn message_expr(v: Seq<char>) -> Seq<char> {
    seq!['D', 'i', 'a', 'g', 'n', 'o', 's', 't', 'i', 'c', 'M', 'e', 's', 's', 'a', 'g', 'e', ':', ':', 'S', 't', 'r', '(', 'C', 'o', 'w', ':', ':', 'f', 'r', 'o', 'm', '('] + v + seq![')', ')']
}

/// The entry a message path is looked up in: the entry of its own slug where
/// there is one, else the entry the previous path used.
pub open spec fn next_scope(store: Seq<EntryView>, slug: Seq<char>, cur: Option<EntryView>) -> Option<EntryView> {
    match lookup_entry(store, slug) {
        Some(e) => Some(e),
        None => cur,
    }
}

/// `text` with each message path of `paths` replaced, in order, by the
/// expression for its literal; a path that resolves to nothing is left.
pub open spec fn paths_replaced(text: Seq<char>, store: Seq<EntryView>, paths: Seq<Seq<char>>, cur: Option<EntryView>) -> Seq<char>
    decreases paths.len(),
{
    if paths.len() == 0 {
        text
    } else {
        let p = paths[0];
        match message_path_slug(p) {
            None => paths_replaced(text, store, paths.drop_first(), cur),
            Some(slug) => {
                let scope = next_scope(store, slug, cur);
                let next = match scope {
                    Some(e) => match entry_value(e, slug) {
                        Some(v) => replaced(text, p, message_expr(v)),
                        None => text,
                    },
                    None => text,
                };
                paths_replaced(next, store, paths.drop_first(), scope)
            },
        }
    }
}

fn path_slug(p: &Vec<char>) -> (r: Option<Vec<char>>)
    ensures
        r matches Some(s) ==> message_path_slug(p@) == Some(s@),
        r is None ==> message_path_slug(p@) is None,
{
    let prefix: Vec<char> = vec!['f', 'l', 'u', 'e', 'n', 't', ':', ':'];
    assert(prefix@ =~= path_prefix());
    if !crate::text::matches_at(p, &prefix, 0) {
        return None;
    }
    let mut rest: Vec<char> = Vec::new();
    let mut i: usize = 8;
    while i < p.len()
        invariant
            8 <= i <= p.len(),
            rest@ == p@.subrange(8, i as int),
        decreases p.len() - i,
    {
        rest.push(p[i]);
        i += 1;
        assert(p@.subrange(8, i as int) == p@.subrange(8, i - 1).push(p@[i - 1]));
    }
    assert(rest@ == p@.skip(8));
    let sep: Vec<char> = vec![':', ':'];
    assert(sep@ =~= path_sep());
    if contains_chars(&rest, &sep) {
        None
    } else {
        Some(rest)
    }
}

impl SynVisitor {
    /// `text` with every path `fluent::slug` among `paths` replaced by
    /// `DiagnosticMessage::Str(Cow::from(..))` of the slug's literal. The
    /// lookup starts in the root entry.
    pub fn replace_message_paths(&self, text: &String, paths: &Vec<String>) -> (r: String)
        ensures
            r@ == paths_replaced(text@, self@.fluent_source, crate::visitor::strings_view(paths@), lookup_entry(self@.fluent_source, root_slug())),
    {
        let ghost pv = crate::visitor::strings_view(paths@);
        let ghost store = self@.fluent_source;
        let root: Vec<char> = vec!['*', 'r', 'o', 'o', 't', '*'];
        assert(root@ =~= root_slug());
        let mut cur: Option<usize> = find_entry(&self.fluent_source, &root);
        let mut out = chars_of(text.as_str());
        let mut i: usize = 0;
        assert(pv.skip(0) =~= pv);
        while i < paths.len()
            invariant
                i <= paths.len(),
                pv == crate::visitor::strings_view(paths@),
                store == self@.fluent_source,
                cur matches Some(k) ==> k < self.fluent_source.len(),
                paths_replaced(text@, store, pv, lookup_entry(store, root_slug())) == paths_replaced(
                    out@,
                    store,
                    pv.skip(i as int),
                    match cur {
                        Some(k) => Some(store[k as int]),
                        None => None,
                    },
                ),
            decreases paths.len() - i,
        {
            assert(pv.skip(i as int)[0] == paths@[i as int]@);
            assert(pv.skip(i as int).drop_first() =~= pv.skip(i + 1));
            let p = chars_of(paths[i].as_str());
            match path_slug(&p) {
                Some(slug) => {
                    match find_entry(&self.fluent_source, &slug) {
                        Some(k) => {
                            cur = Some(k);
                        },
                        None => {},
                    }
                    match cur {
                        Some(k) => {
                            match self.fluent_source[k].get_value_from_slug(string_of(&slug).as_str()) {
                                Some(v) => {
                                    let mut expr: Vec<char> = vec!['D', 'i', 'a', 'g', 'n', 'o', 's', 't', 'i', 'c', 'M', 'e', 's', 's', 'a', 'g', 'e', ':', ':', 'S', 't', 'r', '(', 'C', 'o', 'w', ':', ':', 'f', 'r', 'o', 'm', '('];
                                    push_all(&mut expr, &chars_of(v.as_str()));
                                    expr.push(')');
                                    expr.push(')');
                                    assert(expr@ =~= message_expr(v@));
                                    out = replace_chars(&out, &p, &expr);
                                },
                                None => {},
                            }
                        },
                        None => {},
                    }
                },
                None => {},
            }
            i += 1;
        }
        string_of(&out)
    }
}

} // verus!
