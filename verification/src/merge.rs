//! A stable merge sort over indices into a result set.

use crate::order::{
    before_by_key, entry_before, fold_name, lemma_entry_before_irreflexive,
    lemma_entry_before_transitive,
};
use crate::protocol::Entry;
use crate::sort::{
    is_sorted, lemma_filter_none, lemma_filter_one, lemma_not_before_transitive, tied_with,
};
use vstd::prelude::*;

verus! {

/// The entries that the indices pick, in the order of the indices.
pub open spec fn picked(entries: Seq<Entry>, idx: Seq<usize>) -> Seq<Entry> {
    Seq::new(idx.len(), |k: int| entries[idx[k] as int])
}

/// Every index lies below `n`.
pub open spec fn in_range(idx: Seq<usize>, n: nat) -> bool {
    forall|k: int| 0 <= k < idx.len() ==> (#[trigger] idx[k]) < n
}

/// `keys` holds, place by place, the names by which `entries` are ordered.
pub open spec fn keys_match(entries: Seq<Entry>, keys: Seq<String>) -> bool {
    &&& keys.len() == entries.len()
    &&& forall|k: int| 0 <= k < keys.len() ==> (#[trigger] keys[k])@ == fold_name(entries[k])
}

/// What is known between two steps of a merge of `pa` and `pb` into `pc`,
/// with `i` and `j` entries taken: `pc` is sorted, nothing left to take comes
/// before anything in it, what was taken of `pb` comes strictly before the
/// head of `pa`, and the entries that tie stand as in `pa`, then as in `pb`.
pub open spec fn merging(pa: Seq<Entry>, pb: Seq<Entry>, pc: Seq<Entry>, i: int, j: int) -> bool {
    &&& 0 <= i <= pa.len()
    &&& 0 <= j <= pb.len()
    &&& is_sorted(pc)
    &&& i < pa.len() ==> forall|k: int| 0 <= k < pc.len() ==> !entry_before(pa[i], #[trigger] pc[k])
    &&& j < pb.len() ==> forall|k: int| 0 <= k < pc.len() ==> !entry_before(pb[j], #[trigger] pc[k])
    &&& i < pa.len() ==> forall|m: int| 0 <= m < j ==> entry_before(#[trigger] pb[m], pa[i])
    &&& forall|x: Entry| #[trigger]
        pc.filter(tied_with(x)) == pa.take(i).filter(tied_with(x)) + pb.take(j).filter(
            tied_with(x),
        )
}

/// A merge starts with nothing taken.
pub proof fn lemma_merging_starts(pa: Seq<Entry>, pb: Seq<Entry>)
    ensures
        merging(pa, pb, Seq::<Entry>::empty(), 0, 0),
{
    let pc = Seq::<Entry>::empty();
    assert forall|x: Entry| #[trigger]
        pc.filter(tied_with(x)) == pa.take(0).filter(tied_with(x)) + pb.take(0).filter(
            tied_with(x),
        ) by {
        lemma_filter_none(pc, tied_with(x));
        lemma_filter_none(pa.take(0), tied_with(x));
        lemma_filter_none(pb.take(0), tied_with(x));
    }
}

/// Taking the head of `pa`, where the head of `pb` does not come before it,
/// keeps the merge in order.
pub proof fn lemma_take_left(pa: Seq<Entry>, pb: Seq<Entry>, pc: Seq<Entry>, i: int, j: int)
    requires
        is_sorted(pa),
        is_sorted(pb),
        merging(pa, pb, pc, i, j),
        i < pa.len(),
        j < pb.len() ==> !entry_before(pb[j], pa[i]),
    ensures
        merging(pa, pb, pc.push(pa[i]), i + 1, j),
{
    let e = pa[i];
    let pd = pc.push(e);
    assert forall|k: int, l: int| 0 <= k < l < pd.len() implies !entry_before(
        #[trigger] pd[l],
        #[trigger] pd[k],
    ) by {
        if l < pc.len() {
            assert(pd[l] == pc[l] && pd[k] == pc[k]);
        } else {
            assert(pd[k] == pc[k]);
        }
    }
    if i + 1 < pa.len() {
        assert forall|k: int| 0 <= k < pd.len() implies !entry_before(
            pa[i + 1],
            #[trigger] pd[k],
        ) by {
            assert(!entry_before(pa[i + 1], pa[i]));
            if k < pc.len() {
                assert(pd[k] == pc[k]);
                lemma_not_before_transitive(pa[i + 1], pa[i], pc[k]);
            }
        }
        assert forall|m: int| 0 <= m < j implies entry_before(#[trigger] pb[m], pa[i + 1]) by {
            assert(entry_before(pb[m], pa[i]));
            assert(!entry_before(pa[i + 1], pa[i]));
            if !entry_before(pb[m], pa[i + 1]) {
                lemma_not_before_transitive(pb[m], pa[i + 1], pa[i]);
            }
        }
    }
    if j < pb.len() {
        assert forall|k: int| 0 <= k < pd.len() implies !entry_before(pb[j], #[trigger] pd[k]) by {
            if k < pc.len() {
                assert(pd[k] == pc[k]);
            }
        }
    }
    assert forall|x: Entry| #[trigger]
        pd.filter(tied_with(x)) == pa.take(i + 1).filter(tied_with(x)) + pb.take(j).filter(
            tied_with(x),
        ) by {
        let pred = tied_with(x);
        let taken = pb.take(j);
        assert(pd =~= pc + seq![e]);
        assert(pa.take(i + 1) =~= pa.take(i) + seq![e]);
        Seq::filter_distributes_over_add(pc, seq![e], pred);
        Seq::filter_distributes_over_add(pa.take(i), seq![e], pred);
        lemma_filter_one(e, pred);
        assert(pc.filter(pred) == pa.take(i).filter(pred) + taken.filter(pred));
        if pred(e) {
            assert forall|m: int| 0 <= m < taken.len() implies !pred(#[trigger] taken[m]) by {
                assert(taken[m] == pb[m]);
                assert(entry_before(pb[m], e));
                if !entry_before(pb[m], x) {
                    lemma_not_before_transitive(pb[m], x, e);
                }
            }
            lemma_filter_none(taken, pred);
            assert(pd.filter(pred) =~= pa.take(i + 1).filter(pred) + taken.filter(pred));
        } else {
            assert(pd.filter(pred) =~= pa.take(i + 1).filter(pred) + taken.filter(pred));
        }
    }
}

/// Taking the head of `pb`, where it comes strictly before the head of `pa`
/// or `pa` is used up, keeps the merge in order.
pub proof fn lemma_take_right(pa: Seq<Entry>, pb: Seq<Entry>, pc: Seq<Entry>, i: int, j: int)
    requires
        is_sorted(pa),
        is_sorted(pb),
        merging(pa, pb, pc, i, j),
        j < pb.len(),
        i < pa.len() ==> entry_before(pb[j], pa[i]),
    ensures
        merging(pa, pb, pc.push(pb[j]), i, j + 1),
{
    let e = pb[j];
    let pd = pc.push(e);
    assert forall|k: int, l: int| 0 <= k < l < pd.len() implies !entry_before(
        #[trigger] pd[l],
        #[trigger] pd[k],
    ) by {
        if l < pc.len() {
            assert(pd[l] == pc[l] && pd[k] == pc[k]);
        } else {
            assert(pd[k] == pc[k]);
        }
    }
    if i < pa.len() {
        assert forall|k: int| 0 <= k < pd.len() implies !entry_before(pa[i], #[trigger] pd[k]) by {
            if k < pc.len() {
                assert(pd[k] == pc[k]);
            } else {
                if entry_before(pa[i], e) {
                    lemma_entry_before_transitive(e, pa[i], e);
                    lemma_entry_before_irreflexive(e);
                }
            }
        }
    }
    if j + 1 < pb.len() {
        assert forall|k: int| 0 <= k < pd.len() implies !entry_before(
            pb[j + 1],
            #[trigger] pd[k],
        ) by {
            assert(!entry_before(pb[j + 1], pb[j]));
            if k < pc.len() {
                assert(pd[k] == pc[k]);
                lemma_not_before_transitive(pb[j + 1], pb[j], pc[k]);
            }
        }
    }
    assert forall|x: Entry| #[trigger]
        pd.filter(tied_with(x)) == pa.take(i).filter(tied_with(x)) + pb.take(j + 1).filter(
            tied_with(x),
        ) by {
        let pred = tied_with(x);
        assert(pd =~= pc + seq![e]);
        assert(pb.take(j + 1) =~= pb.take(j) + seq![e]);
        Seq::filter_distributes_over_add(pc, seq![e], pred);
        Seq::filter_distributes_over_add(pb.take(j), seq![e], pred);
        assert(pc.filter(pred) == pa.take(i).filter(pred) + pb.take(j).filter(pred));
        assert(pd.filter(pred) =~= pa.take(i).filter(pred) + pb.take(j + 1).filter(pred));
    }
}

/// Merges two index runs, each sorted, into one sorted run. Where an entry
/// of `a` ties with one of `b`, that of `a` comes first.
pub fn merge(entries: &Vec<Entry>, keys: &Vec<String>, a: &Vec<usize>, b: &Vec<usize>) -> (c: Vec<
    usize,
>)
    requires
        keys_match(entries@, keys@),
        in_range(a@, entries@.len()),
        in_range(b@, entries@.len()),
        is_sorted(picked(entries@, a@)),
        is_sorted(picked(entries@, b@)),
    ensures
        in_range(c@, entries@.len()),
        c@.len() == a@.len() + b@.len(),
        is_sorted(picked(entries@, c@)),
        forall|x: Entry| #[trigger]
            picked(entries@, c@).filter(tied_with(x)) == picked(entries@, a@).filter(tied_with(x))
                + picked(entries@, b@).filter(tied_with(x)),
{
    let ghost pa = picked(entries@, a@);
    let ghost pb = picked(entries@, b@);
    let mut c: Vec<usize> = Vec::new();
    let mut i: usize = 0;
    let mut j: usize = 0;
    proof {
        lemma_merging_starts(pa, pb);
        assert(picked(entries@, c@) =~= Seq::<Entry>::empty());
    }
    while i < a.len() || j < b.len()
        invariant
            keys_match(entries@, keys@),
            in_range(a@, entries@.len()),
            in_range(b@, entries@.len()),
            pa == picked(entries@, a@),
            pb == picked(entries@, b@),
            is_sorted(pa),
            is_sorted(pb),
            in_range(c@, entries@.len()),
            c@.len() == i + j,
            merging(pa, pb, picked(entries@, c@), i as int, j as int),
        decreases a.len() - i + b.len() - j,
    {
        let ghost pc = picked(entries@, c@);
        let mut left = true;
        if j < b.len() {
            if i < a.len() {
                let ia: usize = a[i];
                let ib: usize = b[j];
                left = !before_by_key(
                    entries[ib].is_dir,
                    keys[ib].as_str(),
                    entries[ia].is_dir,
                    keys[ia].as_str(),
                );
            } else {
                left = false;
            }
        }
        if left {
            let v: usize = a[i];
            proof {
                lemma_take_left(pa, pb, pc, i as int, j as int);
                assert(picked(entries@, c@.push(v)) =~= pc.push(pa[i as int]));
            }
            c.push(v);
            i += 1;
        } else {
            let v: usize = b[j];
            proof {
                lemma_take_right(pa, pb, pc, i as int, j as int);
                assert(picked(entries@, c@.push(v)) =~= pc.push(pb[j as int]));
            }
            c.push(v);
            j += 1;
        }
    }
    proof {
        assert(pa.take(i as int) =~= pa);
        assert(pb.take(j as int) =~= pb);
    }
    c
}

/// Sorts a run of indices so that the entries they pick stand in listing
/// order, those that tie in the order in which the run held them.
pub fn sort_indices(entries: &Vec<Entry>, keys: &Vec<String>, idx: Vec<usize>) -> (r: Vec<usize>)
    requires
        keys_match(entries@, keys@),
        in_range(idx@, entries@.len()),
    ensures
        in_range(r@, entries@.len()),
        r@.len() == idx@.len(),
        is_sorted(picked(entries@, r@)),
        forall|x: Entry| #[trigger]
            picked(entries@, r@).filter(tied_with(x)) == picked(entries@, idx@).filter(
                tied_with(x),
            ),
    decreases idx@.len(),
{
    let n: usize = idx.len();
    if n <= 1 {
        return idx;
    }
    let ghost whole = idx@;
    let mid: usize = n / 2;
    let mut first = idx;
    let second = first.split_off(mid);
    proof {
        assert(picked(entries@, whole) =~= picked(entries@, first@) + picked(entries@, second@));
    }
    let ghost pf = picked(entries@, first@);
    let ghost ps = picked(entries@, second@);
    let a = sort_indices(entries, keys, first);
    let b = sort_indices(entries, keys, second);
    let c = merge(entries, keys, &a, &b);
    proof {
        assert forall|x: Entry| #[trigger]
            picked(entries@, c@).filter(tied_with(x)) == picked(entries@, whole).filter(
                tied_with(x),
            ) by {
            Seq::filter_distributes_over_add(pf, ps, tied_with(x));
            assert(picked(entries@, a@).filter(tied_with(x)) == pf.filter(tied_with(x)));
            assert(picked(entries@, b@).filter(tied_with(x)) == ps.filter(tied_with(x)));
        }
    }
    c
}

} // verus!
