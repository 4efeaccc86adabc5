//! Lexicographic lower-bound filter over a sorted key sequence: the maximal
//! suffix of keys at or after a bound, found by binary search.

use vstd::prelude::*;
use vstd::slice::slice_index_get;
use crate::order::{keys_view, lemma_lex_lt_trans, lex_lt, sorted_ascending, str_lt};

verus! {

/// Index of the first key at or after `bound`: everything before it is
/// strictly below the bound, everything from it on is not.
pub(crate) fn lower_bound(keys: &[String], bound: &str) -> (cut: usize)
    requires
        sorted_ascending(keys_view(keys@)),
    ensures
        cut <= keys@.len(),
        forall|i: int| 0 <= i < cut ==> lex_lt(keys@[i]@, bound@),
        forall|i: int| cut <= i < keys@.len() ==> !lex_lt(keys@[i]@, bound@),
{
    let mut lo: usize = 0;
    let mut hi: usize = keys.len();
    while lo < hi
        invariant
            lo <= hi <= keys@.len(),
            sorted_ascending(keys_view(keys@)),
            forall|i: int| 0 <= i < lo ==> lex_lt(keys@[i]@, bound@),
            forall|i: int| hi <= i < keys@.len() ==> !lex_lt(keys@[i]@, bound@),
        decreases hi - lo,
    {
        let mid = lo + (hi - lo) / 2;
        let below = str_lt(slice_index_get(keys, mid).as_str(), bound);
        if below {
            proof {
                assert forall|i: int| 0 <= i <= mid implies lex_lt(keys@[i]@, bound@) by {
                    if i < mid {
                        assert(lex_lt(keys_view(keys@)[i], keys_view(keys@)[mid as int]));
                        lemma_lex_lt_trans(keys@[i]@, keys@[mid as int]@, bound@);
                    }
                }
            }
            lo = mid + 1;
        } else {
            proof {
                assert forall|i: int| mid <= i < keys@.len() implies !lex_lt(
                    keys@[i]@,
                    bound@,
                ) by {
                    if i > mid && lex_lt(keys@[i]@, bound@) {
                        assert(lex_lt(keys_view(keys@)[mid as int], keys_view(keys@)[i]));
                        lemma_lex_lt_trans(keys@[mid as int]@, keys@[i]@, bound@);
                    }
                }
            }
            hi = mid;
        }
    }
    lo
}

/// A cut that separates the keys below the bound from the rest turns the
/// suffix from the cut on into exactly the keys at or after the bound.
proof fn lemma_cut_suffix_is_filter(ks: Seq<Seq<char>>, bound: Seq<char>, cut: int)
    requires
        0 <= cut <= ks.len(),
        forall|i: int| 0 <= i < cut ==> lex_lt(ks[i], bound),
        forall|i: int| cut <= i < ks.len() ==> !lex_lt(ks[i], bound),
    ensures
        ks.skip(cut) =~= ks.filter(|k: Seq<char>| !lex_lt(k, bound)),
    decreases ks.len(),
{
    reveal(Seq::filter);
    let pred = |k: Seq<char>| !lex_lt(k, bound);
    if ks.len() == 0 {
        assert(ks.skip(cut) =~= ks);
    } else {
        let pre = ks.drop_last();
        if cut == ks.len() {
            lemma_cut_suffix_is_filter(pre, bound, cut - 1);
            assert(pre.skip(cut - 1) =~= Seq::<Seq<char>>::empty());
            assert(!pred(ks.last()));
            assert(ks.filter(pred) == pre.filter(pred));
            assert(ks.skip(cut) =~= Seq::<Seq<char>>::empty());
        } else {
            lemma_cut_suffix_is_filter(pre, bound, cut);
            assert(pred(ks.last()));
            assert(ks.filter(pred) == pre.filter(pred).push(ks.last()));
            assert(ks.skip(cut) =~= pre.skip(cut).push(ks.last()));
        }
    }
}

/// The keys at or after `bound`, in order: the spec-level meaning of the
/// lower-bound filter.
pub open spec fn at_or_after(ks: Seq<Seq<char>>, bound: Seq<char>) -> Seq<Seq<char>> {
    ks.filter(|k: Seq<char>| !lex_lt(k, bound))
}

/// Returns the keys at or after `bound`, in their original order. `keys`
/// must be strictly ascending; the search is logarithmic, the copy linear
/// in the size of the suffix returned.
pub fn filter_after(keys: &[String], bound: &str) -> (r: Vec<String>)
    requires
        sorted_ascending(keys_view(keys@)),
    ensures
        keys_view(r@) == at_or_after(keys_view(keys@), bound@),
{
    let cut = lower_bound(keys, bound);
    let mut r: Vec<String> = Vec::new();
    let mut i: usize = cut;
    while i < keys.len()
        invariant
            cut <= i <= keys@.len(),
            keys_view(r@) =~= keys_view(keys@).subrange(cut as int, i as int),
        decreases keys@.len() - i,
    {
        let ghost old_r = r@;
        r.push(slice_index_get(keys, i).clone());
        proof {
            let ksv = keys_view(keys@);
            assert(ksv.len() == keys@.len());
            assert(keys_view(old_r).len() == old_r.len());
            assert(old_r.len() == i - cut);
            assert(r@.len() == i - cut + 1);
            assert forall|j: int| 0 <= j < r@.len() implies keys_view(r@)[j] == ksv.subrange(
                cut as int,
                i + 1,
            )[j] by {
                assert(keys_view(r@)[j] == r@[j]@);
                assert(ksv.subrange(cut as int, i + 1)[j] == ksv[cut + j]);
                assert(ksv[cut + j] == keys@[cut + j]@);
                if j < r@.len() - 1 {
                    assert(r@[j] == old_r[j]);
                    assert(keys_view(old_r)[j] == old_r[j]@);
                    assert(keys_view(old_r)[j] == ksv.subrange(cut as int, i as int)[j]);
                } else {
                    assert(r@[j]@ == keys@[i as int]@);
                }
            }
            assert(keys_view(r@) =~= keys_view(keys@).subrange(cut as int, i + 1));
        }
        i = i + 1;
    }
    proof {
        assert(keys_view(keys@).subrange(cut as int, keys@.len() as int) =~= keys_view(
            keys@,
        ).skip(cut as int));
        assert forall|i2: int| 0 <= i2 < cut implies lex_lt(keys_view(keys@)[i2], bound@) by {
            assert(lex_lt(keys@[i2]@, bound@));
        }
        lemma_cut_suffix_is_filter(keys_view(keys@), bound@, cut as int);
    }
    r
}

/// Laws of the lower-bound filter: every key it keeps is at or after the
/// bound; every key at or after the bound is kept (the length is the count
/// of such keys); an empty bound keeps everything; a bound above every key
/// keeps nothing; a bound at or below every key keeps everything.
pub proof fn lemma_filter_after_props(ks: Seq<Seq<char>>, bound: Seq<char>)
    ensures
        forall|i: int|
            0 <= i < at_or_after(ks, bound).len() ==> !lex_lt(
                #[trigger] at_or_after(ks, bound)[i],
                bound,
            ),
        bound.len() == 0 ==> at_or_after(ks, bound) =~= ks,
        (forall|i: int| 0 <= i < ks.len() ==> lex_lt(#[trigger] ks[i], bound)) ==> at_or_after(
            ks,
            bound,
        ) =~= Seq::<Seq<char>>::empty(),
        (forall|i: int| 0 <= i < ks.len() ==> !lex_lt(#[trigger] ks[i], bound)) ==> at_or_after(
            ks,
            bound,
        ) =~= ks,
{
    let pred = |k: Seq<char>| !lex_lt(k, bound);
    assert forall|i: int| 0 <= i < ks.filter(pred).len() implies !lex_lt(
        ks.filter(pred)[i],
        bound,
    ) by {
        ks.lemma_filter_pred(pred, i);
    }
    if bound.len() == 0 {
        assert(forall|i: int| 0 <= i < ks.len() ==> !lex_lt(#[trigger] ks[i], bound));
    }
    if forall|i: int| 0 <= i < ks.len() ==> lex_lt(#[trigger] ks[i], bound) {
        lemma_cut_suffix_is_filter(ks, bound, ks.len() as int);
        assert(ks.skip(ks.len() as int) =~= Seq::<Seq<char>>::empty());
    }
    if forall|i: int| 0 <= i < ks.len() ==> !lex_lt(#[trigger] ks[i], bound) {
        lemma_cut_suffix_is_filter(ks, bound, 0);
        assert(ks.skip(0) =~= ks);
    }
}

} // verus!
