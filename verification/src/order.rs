//! The listing order: directories first, then case-insensitive names.

use crate::protocol::Entry;
use vstd::prelude::*;

verus! {

/// The lower-case form of a string, as `str::to_lowercase` computes it.
pub uninterp spec fn lowercased(s: Seq<char>) -> Seq<char>;

/// Strict lexicographic order on strings, characters ordered by code point.
pub open spec fn lex_less(a: Seq<char>, b: Seq<char>) -> bool
    decreases a.len(),
{
    if b.len() == 0 {
        false
    } else if a.len() == 0 {
        true
    } else if a[0] != b[0] {
        (a[0] as int) < (b[0] as int)
    } else {
        lex_less(a.drop_first(), b.drop_first())
    }
}

/// The name by which an entry is ordered within its kind.
pub open spec fn fold_name(e: Entry) -> Seq<char> {
    lowercased(e.name@)
}

/// Whether `a` must come strictly before `b` in a listing.
pub open spec fn entry_before(a: Entry, b: Entry) -> bool {
    if a.is_dir != b.is_dir {
        a.is_dir
    } else {
        lex_less(fold_name(a), fold_name(b))
    }
}

/// No string is less than itself.
pub proof fn lemma_lex_less_irreflexive(a: Seq<char>)
    ensures
        !lex_less(a, a),
    decreases a.len(),
{
    if a.len() > 0 {
        lemma_lex_less_irreflexive(a.drop_first());
    }
}

/// The lexicographic order is transitive.
pub proof fn lemma_lex_less_transitive(a: Seq<char>, b: Seq<char>, c: Seq<char>)
    requires
        lex_less(a, b),
        lex_less(b, c),
    ensures
        lex_less(a, c),
    decreases a.len(),
{
    if a.len() > 0 && a[0] == b[0] && b[0] == c[0] {
        lemma_lex_less_transitive(a.drop_first(), b.drop_first(), c.drop_first());
    }
}

/// Two different strings are ordered one way or the other.
pub proof fn lemma_lex_less_total(a: Seq<char>, b: Seq<char>)
    ensures
        a == b || lex_less(a, b) || lex_less(b, a),
    decreases a.len(),
{
    if a.len() == 0 || b.len() == 0 {
        if a.len() == 0 && b.len() == 0 {
            assert(a =~= b);
        }
    } else if a[0] == b[0] {
        lemma_lex_less_total(a.drop_first(), b.drop_first());
        if a.drop_first() == b.drop_first() {
            assert(a =~= seq![a[0]] + a.drop_first());
            assert(b =~= seq![b[0]] + b.drop_first());
        }
    }
}

/// No entry comes before itself.
pub proof fn lemma_entry_before_irreflexive(a: Entry)
    ensures
        !entry_before(a, a),
{
    lemma_lex_less_irreflexive(fold_name(a));
}

/// The listing order is transitive.
pub proof fn lemma_entry_before_transitive(a: Entry, b: Entry, c: Entry)
    requires
        entry_before(a, b),
        entry_before(b, c),
    ensures
        entry_before(a, c),
{
    if a.is_dir == b.is_dir && b.is_dir == c.is_dir {
        lemma_lex_less_transitive(fold_name(a), fold_name(b), fold_name(c));
    }
}

/// Calls `str::to_lowercase`. The result is taken to be a function of the
/// characters of `s` alone: the same text gives the same lower-case text.
#[verifier::external_body]
pub(crate) fn to_lower(s: &str) -> (r: String)
    ensures
        r@ == lowercased(s@),
{
    s.to_lowercase()
}

/// Calls the `<` of `str`, which std documents as the lexicographic order of
/// the two strings by code point.
#[verifier::external_body]
pub(crate) fn str_less(a: &str, b: &str) -> (r: bool)
    ensures
        r == lex_less(a@, b@),
{
    a < b
}

/// Decides the listing order from the kinds and the lower-case names of two
/// entries.
pub fn before_by_key(a_is_dir: bool, a_key: &str, b_is_dir: bool, b_key: &str) -> (r: bool)
    ensures
        r == (if a_is_dir != b_is_dir {
            a_is_dir
        } else {
            lex_less(a_key@, b_key@)
        }),
{
    if a_is_dir != b_is_dir {
        a_is_dir
    } else {
        str_less(a_key, b_key)
    }
}

/// Whether `a` comes strictly before `b` in a listing.
pub fn comes_before(a: &Entry, b: &Entry) -> (r: bool)
    ensures
        r == entry_before(*a, *b),
{
    let ka = to_lower(a.name.as_str());
    let kb = to_lower(b.name.as_str());
    before_by_key(a.is_dir, ka.as_str(), b.is_dir, kb.as_str())
}

} // verus!
