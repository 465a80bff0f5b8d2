//! Text patches that put a resolved literal in place of a slug or next to an
//! attribute marker.
use vstd::prelude::*;
use crate::text::{chars_of, contains, contains_chars, push_all, replace_chars, replaced, string_of};

verus! {

pub open spec fn diag_word() -> Seq<char> {
    seq!['d', 'i', 'a', 'g']
}

pub open spec fn label_eq() -> Seq<char> {
    seq!['l', 'a', 'b', 'e', 'l', ' ', '=', ' ']
}

/// `(s)`.
pub open spec fn parens(s: Seq<char>) -> Seq<char> {
    seq!['('] + s + seq![')']
}

/// `(slug)` becomes `(to)`; where there is no `(slug)`, each `slug` becomes
/// `label = to `.
pub open spec fn slug_token_replaced(content: Seq<char>, slug: Seq<char>, to: Seq<char>) -> Seq<char> {
    if contains(content, parens(slug)) {
        replaced(content, parens(slug), parens(to))
    } else {
        replaced(content, slug, label_eq() + to + seq![' '])
    }
}

/// The text after patching slug `slug` of an attribute `name` to literal `to`.
/// For the main attribute `diag`, `diag(slug)` first becomes
/// `diag(label = to)`; then, for every attribute, the slug token left over is
/// patched as `slug_token_replaced` says (as in `diag(slug, code = ..)`).
pub open spec fn slug_replaced(content: Seq<char>, name: Seq<char>, slug: Seq<char>, to: Seq<char>) -> Seq<char> {
    if name == diag_word() {
        slug_token_replaced(
            replaced(content, diag_word() + parens(slug), diag_word() + parens(label_eq() + to)),
            slug,
            to,
        )
    } else {
        slug_token_replaced(content, slug, to)
    }
}

/// The text after giving the bare marker `#[attr]` the literal `to`:
/// `#[attr(to)]`; where no bare marker occurs, `attr(` becomes
/// `attr(label = to, `.
pub open spec fn attr_replaced(content: Seq<char>, attr: Seq<char>, to: Seq<char>) -> Seq<char> {
    let bare = seq!['#', '['] + attr + seq![']'];
    if contains(content, bare) {
        replaced(content, bare, seq!['#', '['] + attr + parens(to) + seq![']'])
    } else {
        replaced(content, attr + seq!['('], attr + seq!['('] + label_eq() + to + seq![',', ' '])
    }
}

fn parens_chars(s: &Vec<char>) -> (r: Vec<char>)
    ensures
        r@ == parens(s@),
{
    let mut r: Vec<char> = vec!['('];
    push_all(&mut r, s);
    r.push(')');
    assert(r@ =~= parens(s@));
    r
}

fn slug_token_replace_chars(content: &Vec<char>, slug: &Vec<char>, to: &Vec<char>) -> (r: Vec<char>)
    ensures
        r@ == slug_token_replaced(content@, slug@, to@),
{
    let from = parens_chars(slug);
    if contains_chars(content, &from) {
        replace_chars(content, &from, &parens_chars(to))
    } else {
        let mut label: Vec<char> = vec!['l', 'a', 'b', 'e', 'l', ' ', '=', ' '];
        push_all(&mut label, to);
        label.push(' ');
        assert(label@ =~= label_eq() + to@ + seq![' ']);
        replace_chars(content, slug, &label)
    }
}

pub fn slug_replace_chars(content: &Vec<char>, name: &Vec<char>, slug: &Vec<char>, to: &Vec<char>) -> (r: Vec<char>)
    ensures
        r@ == slug_replaced(content@, name@, slug@, to@),
{
    let diag = copy_diag();
    if crate::text::chars_eq(name, &diag) {
        let mut label: Vec<char> = vec!['l', 'a', 'b', 'e', 'l', ' ', '=', ' '];
        assert(label@ =~= label_eq());
        let mut from = copy_diag();
        let mut into = copy_diag();
        push_all(&mut from, &parens_chars(slug));
        push_all(&mut label, to);
        push_all(&mut into, &parens_chars(&label));
        let first = replace_chars(content, &from, &into);
        return slug_token_replace_chars(&first, slug, to);
    }
    slug_token_replace_chars(content, slug, to)
}

fn copy_diag() -> (r: Vec<char>)
    ensures
        r@ == diag_word(),
{
    let r = vec!['d', 'i', 'a', 'g'];
    assert(r@ =~= diag_word());
    r
}

pub fn attr_replace_chars(content: &Vec<char>, attr: &Vec<char>, to: &Vec<char>) -> (r: Vec<char>)
    ensures
        r@ == attr_replaced(content@, attr@, to@),
{
    let mut bare: Vec<char> = vec!['#', '['];
    push_all(&mut bare, attr);
    bare.push(']');
    assert(bare@ =~= seq!['#', '['] + attr@ + seq![']']);
    if contains_chars(content, &bare) {
        let mut into: Vec<char> = vec!['#', '['];
        push_all(&mut into, attr);
        push_all(&mut into, &parens_chars(to));
        into.push(']');
        assert(into@ =~= seq!['#', '['] + attr@ + parens(to@) + seq![']']);
        replace_chars(content, &bare, &into)
    } else {
        let mut from: Vec<char> = Vec::new();
        push_all(&mut from, attr);
        from.push('(');
        let mut into: Vec<char> = Vec::new();
        push_all(&mut into, attr);
        into.push('(');
        let label: Vec<char> = vec!['l', 'a', 'b', 'e', 'l', ' ', '=', ' '];
        push_all(&mut into, &label);
        push_all(&mut into, to);
        into.push(',');
        into.push(' ');
        assert(from@ =~= attr@ + seq!['(']);
        assert(into@ =~= attr@ + seq!['('] + label_eq() + to@ + seq![',', ' ']);
        replace_chars(content, &from, &into)
    }
}

/// Puts literal `to` in place of slug `slug` of attribute `name` in `content`.
pub fn replace_slug(content: &str, name: &str, slug: &str, to: &str) -> (r: String)
    ensures
        r@ == slug_replaced(content@, name@, slug@, to@),
{
    string_of(&slug_replace_chars(&chars_of(content), &chars_of(name), &chars_of(slug), &chars_of(to)))
}

/// Gives the marker of attribute `attr` in `content` the literal `to`.
pub fn replace_attr_name(content: &str, attr: &str, to: &str) -> (r: String)
    ensures
        r@ == attr_replaced(content@, attr@, to@),
{
    string_of(&attr_replace_chars(&chars_of(content), &chars_of(attr), &chars_of(to)))
}

} // verus!
