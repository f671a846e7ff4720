//! Order-preserving subsequences, and the laws that the pipeline's stages
//! only ever narrow a list: a filtered list is a subsequence of its input,
//! and a selection by ascending indices is a subsequence of the list it
//! selects from.

use vstd::prelude::*;
use crate::pattern::pattern_matches;
use crate::pipeline::{filtered_of, selected_of};

verus! {

/// `sub` can be had from `sup` by deleting elements, keeping the rest in
/// their relative order.
pub open spec fn is_subsequence_of<T>(sub: Seq<T>, sup: Seq<T>) -> bool
    decreases sup.len(),
{
    if sub.len() == 0 {
        true
    } else if sup.len() == 0 {
        false
    } else if sub.last() == sup.last() {
        is_subsequence_of(sub.drop_last(), sup.drop_last())
    } else {
        is_subsequence_of(sub, sup.drop_last())
    }
}

/// A subsequence of `sup` is one of `sup` with more behind it.
pub proof fn lemma_subsequence_extend<T>(sub: Seq<T>, sup: Seq<T>, x: T)
    requires
        is_subsequence_of(sub, sup),
    ensures
        is_subsequence_of(sub, sup.push(x)),
    decreases sup.len(), 1int,
{
    if sub.len() == 0 {
    } else {
        assert(sup.push(x).last() == x);
        assert(sup.push(x).drop_last() =~= sup);
        if sub.last() == x {
            lemma_subsequence_shrink(sub, sup);
        }
    }
}

/// Dropping the last element of a subsequence leaves a subsequence.
pub proof fn lemma_subsequence_shrink<T>(sub: Seq<T>, sup: Seq<T>)
    requires
        is_subsequence_of(sub, sup),
        sub.len() > 0,
    ensures
        is_subsequence_of(sub.drop_last(), sup),
    decreases sup.len(), 0int,
{
    if sub.last() == sup.last() {
        assert(is_subsequence_of(sub.drop_last(), sup.drop_last()));
        lemma_subsequence_extend(sub.drop_last(), sup.drop_last(), sup.last());
        assert(sup.drop_last().push(sup.last()) =~= sup);
    } else {
        lemma_subsequence_shrink(sub, sup.drop_last());
        lemma_subsequence_extend(sub.drop_last(), sup.drop_last(), sup.last());
        assert(sup.drop_last().push(sup.last()) =~= sup);
    }
}

/// Filtering keeps an order-preserving subsequence: whatever the predicate,
/// the filtered list is a subsequence of the list it was filtered from.
pub proof fn lemma_filter_is_subsequence<T>(s: Seq<T>, pred: spec_fn(T) -> bool)
    ensures
        is_subsequence_of(s.filter(pred), s),
    decreases s.len(),
{
    reveal(Seq::filter);
    if s.len() == 0 {
    } else {
        let t = s.drop_last();
        lemma_filter_is_subsequence(t, pred);
        if pred(s.last()) {
            assert(s.filter(pred) == t.filter(pred).push(s.last()));
            assert(s.filter(pred).drop_last() =~= t.filter(pred));
        } else {
            lemma_subsequence_extend(t.filter(pred), t, s.last());
            assert(t.push(s.last()) =~= s);
        }
    }
}

/// The filtered list is an order-preserving subsequence of the candidate
/// list it came from.
pub proof fn lemma_filtered_is_subsequence(files: Seq<Seq<char>>, pattern: Seq<char>)
    ensures
        is_subsequence_of(filtered_of(files, pattern), files),
{
    lemma_filter_is_subsequence(files, |path: Seq<char>| pattern_matches(pattern, path));
}

/// A selection by strictly ascending, in-range indices — as the interactive
/// prompt reports its choices — is an order-preserving subsequence of the
/// filtered list it selects from.
pub proof fn lemma_selected_is_subsequence(files: Seq<Seq<char>>, idxs: Seq<int>)
    requires
        forall|i: int| 0 <= i < idxs.len() ==> 0 <= #[trigger] idxs[i] < files.len(),
        forall|i: int, j: int| 0 <= i < j < idxs.len() ==> idxs[i] < idxs[j],
    ensures
        is_subsequence_of(selected_of(files, idxs), files),
{
    lemma_selection_is_subsequence(files, idxs);
    assert(idxs.map_values(|k: int| files[k]) =~= selected_of(files, idxs));
}

/// Selecting by strictly ascending, in-range indices keeps an
/// order-preserving subsequence of the list selected from.
pub proof fn lemma_selection_is_subsequence<T>(files: Seq<T>, idxs: Seq<int>)
    requires
        forall|i: int| 0 <= i < idxs.len() ==> 0 <= #[trigger] idxs[i] < files.len(),
        forall|i: int, j: int| 0 <= i < j < idxs.len() ==> idxs[i] < idxs[j],
    ensures
        is_subsequence_of(idxs.map_values(|k: int| files[k]), files),
    decreases files.len(),
{
    let sub = idxs.map_values(|k: int| files[k]);
    if idxs.len() == 0 {
        assert(sub.len() == 0);
    } else {
        let t = files.drop_last();
        if idxs.last() == files.len() - 1 {
            let idxs2 = idxs.drop_last();
            assert(forall|i: int| 0 <= i < idxs2.len() ==> 0 <= #[trigger] idxs2[i] < t.len());
            lemma_selection_is_subsequence(t, idxs2);
            assert(idxs2.map_values(|k: int| t[k]) =~= sub.drop_last());
            assert(sub.last() == files.last());
        } else {
            assert(forall|i: int| 0 <= i < idxs.len() ==> 0 <= #[trigger] idxs[i] < t.len());
            lemma_selection_is_subsequence(t, idxs);
            assert(idxs.map_values(|k: int| t[k]) =~= sub);
            lemma_subsequence_extend(sub, t, files.last());
            assert(t.push(files.last()) =~= files);
        }
    }
}

} // verus!
