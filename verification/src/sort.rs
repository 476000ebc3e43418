//! Stable sorting of a result set into the listing order.

use crate::merge::{in_range, picked, sort_indices};
use crate::order::{
    entry_before, fold_name, lemma_entry_before_irreflexive, lemma_entry_before_transitive,
    lemma_lex_less_irreflexive, lemma_lex_less_total, lemma_lex_less_transitive, lex_less,
    to_lower,
};
use crate::protocol::Entry;
use vstd::prelude::*;

verus! {

/// No later element comes strictly before an earlier one.
pub open spec fn is_sorted(s: Seq<Entry>) -> bool {
    forall|i: int, j: int| 0 <= i < j < s.len() ==> !entry_before(#[trigger] s[j], #[trigger] s[i])
}

/// Every directory stands before every file.
pub open spec fn dirs_first(s: Seq<Entry>) -> bool {
    forall|i: int, j: int|
        0 <= i < j < s.len() && (#[trigger] s[j]).is_dir ==> (#[trigger] s[i]).is_dir
}

/// Within each kind the lower-case names never decrease.
pub open spec fn names_ascending(s: Seq<Entry>) -> bool {
    forall|i: int, j: int|
        0 <= i < j < s.len() && (#[trigger] s[i]).is_dir == (#[trigger] s[j]).is_dir ==> {
            ||| fold_name(s[i]) == fold_name(s[j])
            ||| lex_less(fold_name(s[i]), fold_name(s[j]))
        }
}

/// Where `e` enters the sorted sequence `s`: behind the elements that come
/// strictly before it, and so in front of any that ties with it.
pub open spec fn slot(s: Seq<Entry>, e: Entry) -> int
    decreases s.len(),
{
    if s.len() == 0 || !entry_before(s[0], e) {
        0
    } else {
        1 + slot(s.drop_first(), e)
    }
}

/// The result set in listing order; entries that tie keep the order in which
/// they were collected.
pub open spec fn listing_order(s: Seq<Entry>) -> Seq<Entry>
    decreases s.len(),
{
    if s.len() == 0 {
        s
    } else {
        let rest = listing_order(s.drop_first());
        rest.insert(slot(rest, s[0]), s[0])
    }
}

/// The slot lies within the sequence, everything in front of it comes
/// strictly before `e`, and the element at it does not.
pub proof fn lemma_slot(s: Seq<Entry>, e: Entry)
    ensures
        0 <= slot(s, e) <= s.len(),
        forall|k: int| 0 <= k < slot(s, e) ==> entry_before(#[trigger] s[k], e),
        slot(s, e) < s.len() ==> !entry_before(s[slot(s, e)], e),
    decreases s.len(),
{
    if s.len() > 0 && entry_before(s[0], e) {
        let t = s.drop_first();
        lemma_slot(t, e);
        assert forall|k: int| 0 <= k < slot(s, e) implies entry_before(#[trigger] s[k], e) by {
            if k > 0 {
                assert(s[k] == t[k - 1]);
            }
        }
        if slot(s, e) < s.len() {
            assert(s[slot(s, e)] == t[slot(t, e)]);
        }
    }
}

/// If `a` does not come before `b`, nor `b` before `c`, then `a` does not come
/// before `c`.
pub proof fn lemma_not_before_transitive(a: Entry, b: Entry, c: Entry)
    requires
        !entry_before(a, b),
        !entry_before(b, c),
    ensures
        !entry_before(a, c),
{
    if a.is_dir == b.is_dir && b.is_dir == c.is_dir {
        let (x, y, z) = (fold_name(a), fold_name(b), fold_name(c));
        lemma_lex_less_total(x, y);
        lemma_lex_less_total(y, z);
        if lex_less(x, z) {
            if y == x {
            } else if z == y {
            } else {
                lemma_lex_less_transitive(z, y, x);
                lemma_lex_less_transitive(x, z, x);
                lemma_lex_less_irreflexive(x);
            }
        }
    }
}

/// Placing an entry at its slot keeps a sorted sequence sorted.
pub proof fn lemma_insert_keeps_sorted(s: Seq<Entry>, e: Entry)
    requires
        is_sorted(s),
    ensures
        is_sorted(s.insert(slot(s, e), e)),
{
    let p = slot(s, e);
    let t = s.insert(p, e);
    lemma_slot(s, e);
    assert forall|i: int, j: int| 0 <= i < j < t.len() implies !entry_before(
        #[trigger] t[j],
        #[trigger] t[i],
    ) by {
        if j == p {
            assert(t[i] == s[i]);
            assert(entry_before(s[i], e));
            if entry_before(e, s[i]) {
                lemma_entry_before_transitive(e, s[i], e);
                lemma_entry_before_irreflexive(e);
            }
        } else if i == p {
            assert(t[j] == s[j - 1]);
            if j - 1 > p {
                assert(!entry_before(s[j - 1], s[p]));
            } else {
                lemma_entry_before_irreflexive(s[p]);
            }
            lemma_not_before_transitive(s[j - 1], s[p], e);
        } else {
            let si = if i < p { i } else { i - 1 };
            let sj = if j < p { j } else { j - 1 };
            assert(t[i] == s[si]);
            assert(t[j] == s[sj]);
        }
    }
}

/// The listing order is sorted.
pub proof fn lemma_listing_order_sorted(s: Seq<Entry>)
    ensures
        is_sorted(listing_order(s)),
        listing_order(s).len() == s.len(),
    decreases s.len(),
{
    if s.len() > 0 {
        let rest = listing_order(s.drop_first());
        lemma_listing_order_sorted(s.drop_first());
        lemma_slot(rest, s[0]);
        lemma_insert_keeps_sorted(rest, s[0]);
    }
}

/// The listing order holds the entries of the result set, each as often as the
/// result set does.
pub proof fn lemma_listing_order_permutes(s: Seq<Entry>)
    ensures
        listing_order(s).to_multiset() == s.to_multiset(),
    decreases s.len(),
{
    broadcast use vstd::seq_lib::group_to_multiset_ensures;

    if s.len() > 0 {
        let e = s[0];
        let rest = listing_order(s.drop_first());
        lemma_listing_order_permutes(s.drop_first());
        lemma_slot(rest, e);
        let p = slot(rest, e);
        let t = rest.insert(p, e);
        assert(t[p] == e);
        assert(t.remove(p) =~= rest);
        assert(s.remove(0) =~= s.drop_first());
        assert(t.to_multiset().remove(e) == s.to_multiset().remove(e));
        assert(t.contains(e));
        assert(s[0] == e && s.contains(e));
        assert(t.to_multiset() =~= s.to_multiset());
    }
}

/// Whether two entries tie: neither comes before the other.
pub open spec fn ties(a: Entry, b: Entry) -> bool {
    !entry_before(a, b) && !entry_before(b, a)
}

/// The entries that tie with `x`.
pub open spec fn tied_with(x: Entry) -> spec_fn(Entry) -> bool {
    |e: Entry| ties(e, x)
}

/// Filtering a single element keeps it or leaves nothing.
pub proof fn lemma_filter_one(e: Entry, pred: spec_fn(Entry) -> bool)
    ensures
        seq![e].filter(pred) == (if pred(e) {
            seq![e]
        } else {
            Seq::<Entry>::empty()
        }),
{
    reveal_with_fuel(Seq::filter, 2);
    assert(seq![e].drop_last() =~= Seq::<Entry>::empty());
    assert(Seq::<Entry>::empty().push(e) =~= seq![e]);
}

/// Filtering a sequence of which no element qualifies leaves nothing.
pub proof fn lemma_filter_none(s: Seq<Entry>, pred: spec_fn(Entry) -> bool)
    requires
        forall|k: int| 0 <= k < s.len() ==> !pred(#[trigger] s[k]),
    ensures
        s.filter(pred) == Seq::<Entry>::empty(),
    decreases s.len(),
{
    reveal(Seq::filter);
    if s.len() > 0 {
        let t = s.drop_last();
        assert forall|k: int| 0 <= k < t.len() implies !pred(#[trigger] t[k]) by {
            assert(t[k] == s[k]);
        }
        lemma_filter_none(t, pred);
        assert(!pred(s.last()));
    }
}

/// The listing order is stable: the entries that tie with any given entry
/// stand in the listing in the order in which they were collected.
pub proof fn lemma_listing_order_stable(s: Seq<Entry>, x: Entry)
    ensures
        listing_order(s).filter(tied_with(x)) == s.filter(tied_with(x)),
    decreases s.len(),
{
    let pred = tied_with(x);
    if s.len() > 0 {
        let e = s[0];
        let tail = s.drop_first();
        let rest = listing_order(tail);
        lemma_listing_order_stable(tail, x);
        lemma_slot(rest, e);
        let p = slot(rest, e);
        let front = rest.take(p);
        let back = rest.skip(p);
        assert(rest.insert(p, e) =~= front + seq![e] + back);
        assert(rest =~= front + back);
        assert(s =~= seq![e] + tail);
        Seq::filter_distributes_over_add(front, back, pred);
        Seq::filter_distributes_over_add(front + seq![e], back, pred);
        Seq::filter_distributes_over_add(front, seq![e], pred);
        Seq::filter_distributes_over_add(seq![e], tail, pred);
        lemma_filter_one(e, pred);
        if pred(e) {
            assert forall|k: int| 0 <= k < front.len() implies !pred(#[trigger] front[k]) by {
                assert(front[k] == rest[k]);
                assert(entry_before(rest[k], e));
                if !entry_before(front[k], x) {
                    lemma_not_before_transitive(front[k], x, e);
                }
            }
            lemma_filter_none(front, pred);
            assert(listing_order(s).filter(pred) =~= seq![e] + back.filter(pred));
            assert(s.filter(pred) =~= seq![e] + back.filter(pred));
        } else {
            assert(listing_order(s).filter(pred) =~= front.filter(pred) + back.filter(pred));
            assert(s.filter(pred) =~= front.filter(pred) + back.filter(pred));
        }
    }
}

/// Every element of a filtered sequence is an element of the sequence, and
/// qualifies.
pub proof fn lemma_filter_member(s: Seq<Entry>, pred: spec_fn(Entry) -> bool, i: int) -> (k: int)
    requires
        0 <= i < s.filter(pred).len(),
    ensures
        0 <= k < s.len(),
        s[k] == s.filter(pred)[i],
        pred(s[k]),
    decreases s.len(),
{
    reveal(Seq::filter);
    if s.len() == 0 {
        0
    } else {
        let t = s.drop_last();
        if pred(s.last()) && i == t.filter(pred).len() {
            s.len() - 1
        } else {
            let k = lemma_filter_member(t, pred, i);
            assert(t[k] == s[k]);
            k
        }
    }
}

/// Filtering keeps the first element in front where it qualifies, and drops
/// it where it does not.
pub proof fn lemma_filter_first(s: Seq<Entry>, pred: spec_fn(Entry) -> bool)
    requires
        s.len() > 0,
    ensures
        s.filter(pred) == (if pred(s[0]) {
            seq![s[0]] + s.drop_first().filter(pred)
        } else {
            s.drop_first().filter(pred)
        }),
{
    assert(s =~= seq![s[0]] + s.drop_first());
    Seq::filter_distributes_over_add(seq![s[0]], s.drop_first(), pred);
    lemma_filter_one(s[0], pred);
    assert(Seq::<Entry>::empty() + s.drop_first().filter(pred) =~= s.drop_first().filter(pred));
}

/// There is one sorted, stable arrangement: two sorted sequences in which
/// the entries that tie with any given entry stand alike are the same.
pub proof fn lemma_sorted_stable_unique(t: Seq<Entry>, u: Seq<Entry>)
    requires
        is_sorted(t),
        is_sorted(u),
        forall|x: Entry| #[trigger] t.filter(tied_with(x)) == u.filter(tied_with(x)),
    ensures
        t == u,
    decreases t.len(),
{
    if t.len() == 0 {
        if u.len() > 0 {
            let pred = tied_with(u[0]);
            lemma_entry_before_irreflexive(u[0]);
            lemma_filter_first(u, pred);
            lemma_filter_none(t, pred);
            assert(t.filter(pred) == u.filter(pred));
            assert(u.filter(pred)[0] == u[0]);
        }
        assert(t =~= u);
    } else {
        let t0 = t[0];
        let pred = tied_with(t0);
        lemma_entry_before_irreflexive(t0);
        lemma_filter_first(t, pred);
        assert(t.filter(pred) == u.filter(pred));
        assert(t.filter(pred)[0] == t0);
        let k0 = lemma_filter_member(u, pred, 0);
        assert(u[k0] == t0);
        // the first entry of `u` is an entry of `t`, so it does not come before `t0`
        let py = tied_with(u[0]);
        lemma_entry_before_irreflexive(u[0]);
        lemma_filter_first(u, py);
        assert(t.filter(py) == u.filter(py));
        assert(u.filter(py)[0] == u[0]);
        let m = lemma_filter_member(t, py, 0);
        assert(t[m] == u[0]);
        if m > 0 {
            assert(!entry_before(t[m], t[0]));
        }
        if k0 > 0 {
            assert(!entry_before(u[k0], u[0]));
        }
        assert(pred(u[0]));
        lemma_filter_first(u, pred);
        assert(u.filter(pred)[0] == u[0]);
        assert(u[0] == t0);
        let tt = t.drop_first();
        let uu = u.drop_first();
        assert forall|i: int, j: int| 0 <= i < j < tt.len() implies !entry_before(
            #[trigger] tt[j],
            #[trigger] tt[i],
        ) by {
            assert(tt[j] == t[j + 1] && tt[i] == t[i + 1]);
        }
        assert forall|i: int, j: int| 0 <= i < j < uu.len() implies !entry_before(
            #[trigger] uu[j],
            #[trigger] uu[i],
        ) by {
            assert(uu[j] == u[j + 1] && uu[i] == u[i + 1]);
        }
        assert forall|x: Entry| #[trigger]
            tt.filter(tied_with(x)) == uu.filter(tied_with(x)) by {
            let px = tied_with(x);
            lemma_filter_first(t, px);
            lemma_filter_first(u, px);
            assert(t.filter(px) == u.filter(px));
            if px(t0) {
                assert((seq![t0] + tt.filter(px)).skip(1) =~= tt.filter(px));
                assert((seq![t0] + uu.filter(px)).skip(1) =~= uu.filter(px));
            }
        }
        lemma_sorted_stable_unique(tt, uu);
        assert(t =~= seq![t0] + tt);
        assert(u =~= seq![t0] + uu);
    }
}

/// A sorted sequence has its directories first, and within each kind its
/// lower-case names in ascending order.
pub proof fn lemma_sorted_means_dirs_first_names_ascending(s: Seq<Entry>)
    requires
        is_sorted(s),
    ensures
        dirs_first(s),
        names_ascending(s),
{
    assert forall|i: int, j: int|
        0 <= i < j < s.len() && (#[trigger] s[i]).is_dir == (#[trigger] s[j]).is_dir implies {
        ||| fold_name(s[i]) == fold_name(s[j])
        ||| lex_less(fold_name(s[i]), fold_name(s[j]))
    } by {
        assert(!entry_before(s[j], s[i]));
        lemma_lex_less_total(fold_name(s[i]), fold_name(s[j]));
    }
    assert forall|i: int, j: int| 0 <= i < j < s.len() && (#[trigger] s[j]).is_dir implies (
    #[trigger] s[i]).is_dir by {
        assert(!entry_before(s[j], s[i]));
    }
}

/// Sorts a result set into the listing order: directories before files, and
/// within each kind by lower-case name. Entries that tie keep the order in
/// which they were collected.
pub fn sort_entries(entries: &mut Vec<Entry>)
    ensures
        final(entries)@ == listing_order(old(entries)@),
        final(entries)@.to_multiset() == old(entries)@.to_multiset(),
        is_sorted(final(entries)@),
        dirs_first(final(entries)@),
        names_ascending(final(entries)@),
        forall|x: Entry| #[trigger]
            final(entries)@.filter(tied_with(x)) == old(entries)@.filter(tied_with(x)),
{
    let ghost orig = entries@;
    let n: usize = entries.len();
    let mut keys: Vec<String> = Vec::new();
    let mut idx: Vec<usize> = Vec::new();
    let mut k: usize = 0;
    while k < n
        invariant
            k <= n,
            n == entries.len(),
            entries@ == orig,
            keys.len() == k,
            idx.len() == k,
            forall|m: int| 0 <= m < k ==> (#[trigger] keys[m])@ == fold_name(entries[m]),
            forall|m: int| 0 <= m < k ==> (#[trigger] idx[m]) == m,
        decreases n - k,
    {
        keys.push(to_lower(entries[k].name.as_str()));
        idx.push(k);
        k += 1;
    }
    proof {
        assert(picked(orig, idx@) =~= orig);
    }
    let perm = sort_indices(entries, &keys, idx);
    let mut out: Vec<Entry> = Vec::new();
    k = 0;
    while k < n
        invariant
            k <= n,
            n == entries.len(),
            n == perm.len(),
            entries@ == orig,
            in_range(perm@, orig.len()),
            out@ == picked(orig, perm@).take(k as int),
        decreases n - k,
    {
        let from: usize = perm[k];
        out.push(entries[from].duplicate());
        proof {
            assert(out@ =~= picked(orig, perm@).take(k + 1));
        }
        k += 1;
    }
    proof {
        assert(out@ =~= picked(orig, perm@));
        lemma_listing_order_sorted(orig);
        lemma_listing_order_permutes(orig);
        lemma_sorted_means_dirs_first_names_ascending(listing_order(orig));
        assert forall|x: Entry| #[trigger]
            listing_order(orig).filter(tied_with(x)) == orig.filter(tied_with(x)) by {
            lemma_listing_order_stable(orig, x);
        }
        lemma_sorted_stable_unique(out@, listing_order(orig));
    }
    *entries = out;
}

} // verus!
