//! Lexicographic order on character sequences, as `str` orders them.
use vstd::prelude::*;

verus! {

/// `a` comes strictly before `b`, comparing code points from the left.
pub open spec fn seq_lt(a: Seq<char>, b: Seq<char>) -> bool
    decreases a.len(),
{
    if a.len() == 0 {
        b.len() > 0
    } else if b.len() == 0 {
        false
    } else if a[0] < b[0] {
        true
    } else if a[0] == b[0] {
        seq_lt(a.drop_first(), b.drop_first())
    } else {
        false
    }
}

/// Pairs compared by their first component, then by their second.
pub open spec fn pair_lt(a: (Seq<char>, Seq<char>), b: (Seq<char>, Seq<char>)) -> bool {
    seq_lt(a.0, b.0) || (a.0 == b.0 && seq_lt(a.1, b.1))
}

pub open spec fn strictly_sorted(s: Seq<(Seq<char>, Seq<char>)>) -> bool {
    forall|i: int, j: int| 0 <= i < j < s.len() ==> pair_lt(#[trigger] s[i], #[trigger] s[j])
}

pub proof fn lemma_seq_lt_transitive(a: Seq<char>, b: Seq<char>, c: Seq<char>)
    requires
        seq_lt(a, b),
        seq_lt(b, c),
    ensures
        seq_lt(a, c),
    decreases a.len(),
{
    if a.len() > 0 && b.len() > 0 && c.len() > 0 {
        if a[0] == b[0] && b[0] == c[0] {
            lemma_seq_lt_transitive(a.drop_first(), b.drop_first(), c.drop_first());
        }
    }
}

pub proof fn lemma_seq_lt_total(a: Seq<char>, b: Seq<char>)
    ensures
        a == b || seq_lt(a, b) || seq_lt(b, a),
    decreases a.len(),
{
    if a.len() > 0 && b.len() > 0 {
        if a[0] == b[0] {
            lemma_seq_lt_total(a.drop_first(), b.drop_first());
            if a.drop_first() == b.drop_first() {
                assert(a =~= seq![a[0]] + a.drop_first());
                assert(b =~= seq![b[0]] + b.drop_first());
            }
        } else {

        }
    } else if a.len() == 0 && b.len() == 0 {
        assert(a =~= b);
    }
}

pub proof fn lemma_pair_lt_transitive(a: (Seq<char>, Seq<char>), b: (Seq<char>, Seq<char>), c: (Seq<char>, Seq<char>))
    requires
        pair_lt(a, b),
        pair_lt(b, c),
    ensures
        pair_lt(a, c),
{
    if seq_lt(a.0, b.0) && seq_lt(b.0, c.0) {
        lemma_seq_lt_transitive(a.0, b.0, c.0);
    } else if a.0 == b.0 && b.0 == c.0 {
        lemma_seq_lt_transitive(a.1, b.1, c.1);
    }
}

pub proof fn lemma_pair_lt_total(a: (Seq<char>, Seq<char>), b: (Seq<char>, Seq<char>))
    ensures
        a == b || pair_lt(a, b) || pair_lt(b, a),
{
    lemma_seq_lt_total(a.0, b.0);
    lemma_seq_lt_total(a.1, b.1);
}

/// Whether `a` comes strictly before `b`.
pub fn chars_lt(a: &Vec<char>, b: &Vec<char>) -> (r: bool)
    ensures
        r == seq_lt(a@, b@),
{
    let mut i: usize = 0;
    assert(a@.skip(0) == a@ && b@.skip(0) == b@);
    while i < a.len() && i < b.len() && a[i] == b[i]
        invariant
            i <= a.len(),
            i <= b.len(),
            seq_lt(a@, b@) == seq_lt(a@.skip(i as int), b@.skip(i as int)),
        decreases a.len() - i,
    {
        assert(a@.skip(i as int).drop_first() == a@.skip(i + 1));
        assert(b@.skip(i as int).drop_first() == b@.skip(i + 1));
        i += 1;
    }
    if i == a.len() {
        i < b.len()
    } else if i == b.len() {
        false
    } else {
        a[i] < b[i]
    }
}

pub fn pair_chars_lt(a: &(Vec<char>, Vec<char>), b: &(Vec<char>, Vec<char>)) -> (r: bool)
    ensures
        r == pair_lt((a.0@, a.1@), (b.0@, b.1@)),
{
    chars_lt(&a.0, &b.0) || (crate::text::chars_eq(&a.0, &b.0) && chars_lt(&a.1, &b.1))
}

} // verus!
