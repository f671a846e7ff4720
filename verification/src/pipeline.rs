//! The pipeline's decisions over plain values: filtering a candidate list
//! by a pattern, applying an interactive selection, and deciding how a run
//! proceeds or ends.

use vstd::prelude::*;
use crate::combine::combined_of;
use crate::pattern::{pattern_matches, pattern_ok, Pattern};

verus! {

/// Whether the caller asked for a way of selecting files at all: a run
/// needs a pattern or interactive mode before any filesystem work starts.
pub fn mode_ok(interactive: bool, has_pattern: bool) -> (r: bool)
    ensures
        r == (interactive || has_pattern),
{
    interactive || has_pattern
}

/// Concatenates each root's file list into one candidate list, in root
/// order, each root's files kept in their own order.
pub fn concat_candidates(lists: &Vec<Vec<String>>) -> (r: Vec<String>)
    ensures
        r.deep_view() == lists.deep_view().flatten(),
{
    let ghost lv = lists.deep_view();
    let mut r: Vec<String> = Vec::new();
    let mut i: usize = 0;
    proof {
        assert(lv.take(0) =~= Seq::<Seq<Seq<char>>>::empty());
        assert(r.deep_view() =~= lv.take(0).flatten());
    }
    while i < lists.len()
        invariant
            lv == lists.deep_view(),
            lv.len() == lists.len(),
            0 <= i <= lists.len(),
            r.deep_view() == lv.take(i as int).flatten(),
        decreases lists.len() - i,
    {
        let inner = &lists[i];
        let ghost iv = lv[i as int];
        let mut j: usize = 0;
        proof {
            assert(iv == inner.deep_view());
            assert(r.deep_view() + iv.take(0) =~= r.deep_view());
        }
        let ghost base = r.deep_view();
        while j < inner.len()
            invariant
                iv == inner.deep_view(),
                iv.len() == inner.len(),
                0 <= j <= inner.len(),
                r.deep_view() == base + iv.take(j as int),
            decreases inner.len() - j,
        {
            let ghost before = r.deep_view();
            r.push(inner[j].clone());
            proof {
                assert(r.deep_view() =~= before.push(iv[j as int]));
                assert(base + iv.take(j + 1) =~= before.push(iv[j as int]));
            }
            j += 1;
        }
        proof {
            assert(iv.take(inner.len() as int) =~= iv);
            assert(lv.take(i + 1) =~= lv.take(i as int).push(iv));
            lv.take(i as int).lemma_flatten_push(iv);
        }
        i += 1;
    }
    proof {
        assert(lv.take(lists.len() as int) =~= lv);
    }
    r
}

/// The candidate paths that the pattern retains, in candidate order.
pub open spec fn filtered_of(files: Seq<Seq<char>>, pattern: Seq<char>) -> Seq<Seq<char>> {
    files.filter(|path: Seq<char>| pattern_matches(pattern, path))
}

/// Keeps the files whose path the pattern matches, preserving their order.
pub fn filter_files(files: &Vec<String>, pattern: &Pattern) -> (r: Vec<String>)
    ensures
        r.deep_view() == filtered_of(files.deep_view(), pattern@),
{
    let ghost v = files.deep_view();
    let mut r: Vec<String> = Vec::new();
    let mut i: usize = 0;
    while i < files.len()
        invariant
            v == files.deep_view(),
            v.len() == files.len(),
            0 <= i <= files.len(),
            r.deep_view() == filtered_of(v.take(i as int), pattern@),
        decreases files.len() - i,
    {
        proof {
            reveal(Seq::filter);
            assert(v.take(i + 1).drop_last() =~= v.take(i as int));
            assert(v[i as int] == files@[i as int]@);
        }
        if pattern.is_match(files[i].as_str()) {
            r.push(files[i].clone());
            proof {
                assert(r.deep_view() =~= filtered_of(v.take(i as int), pattern@).push(
                    v[i as int],
                ));
            }
        }
        i += 1;
    }
    proof {
        assert(v.take(files.len() as int) =~= v);
    }
    r
}

/// The files a selection picks: the element at each chosen index, in the
/// order the indices are given.
pub open spec fn selected_of(files: Seq<Seq<char>>, idxs: Seq<int>) -> Seq<Seq<char>> {
    idxs.map_values(|k: int| files[k])
}

/// How applying an interactive selection ends.
pub enum SelectionOutcome {
    /// Some chosen index lies outside the list selected from.
    InvalidSelection,
    /// The user confirmed with nothing chosen.
    NoFilesSelected,
    /// The chosen files, in the order the indices were given.
    Combine(Vec<String>),
}

/// Maps the chosen indices back to the files they pick. An index outside
/// the list is rejected; an empty choice ends the run with nothing to do.
pub fn apply_selection(files: &Vec<String>, indices: &Vec<usize>) -> (r: SelectionOutcome)
    ensures
        (r is InvalidSelection <==> exists|i: int|
            0 <= i < indices@.len() && indices@[i] >= files@.len()),
        (r is NoFilesSelected <==> indices@.len() == 0),
        r matches SelectionOutcome::Combine(v) ==> v.deep_view() == selected_of(
            files.deep_view(),
            indices@.map_values(|u: usize| u as int),
        ),
{
    let ghost fv = files.deep_view();
    let ghost ix = indices@.map_values(|u: usize| u as int);
    let mut i: usize = 0;
    while i < indices.len()
        invariant
            0 <= i <= indices.len(),
            forall|j: int| 0 <= j < i ==> indices@[j] < files@.len(),
        decreases indices.len() - i,
    {
        if indices[i] >= files.len() {
            return SelectionOutcome::InvalidSelection;
        }
        i += 1;
    }
    if indices.len() == 0 {
        return SelectionOutcome::NoFilesSelected;
    }
    let mut chosen: Vec<String> = Vec::new();
    let mut k: usize = 0;
    while k < indices.len()
        invariant
            fv == files.deep_view(),
            ix == indices@.map_values(|u: usize| u as int),
            fv.len() == files.len(),
            ix.len() == indices.len(),
            0 <= k <= indices.len(),
            forall|j: int| 0 <= j < indices.len() ==> indices@[j] < files@.len(),
            chosen.deep_view() == selected_of(fv, ix.take(k as int)),
        decreases indices.len() - k,
    {
        let ghost before = chosen.deep_view();
        chosen.push(files[indices[k]].clone());
        proof {
            assert(fv[ix[k as int]] == files@[indices@[k as int] as int]@);
            assert(chosen.deep_view() =~= before.push(fv[ix[k as int]]));
            assert(selected_of(fv, ix.take(k + 1)) =~= before.push(fv[ix[k as int]]));
        }
        k += 1;
    }
    proof {
        assert(ix.take(indices.len() as int) =~= ix);
    }
    SelectionOutcome::Combine(chosen)
}

/// The list a run goes on with after the filter stage: the candidates the
/// pattern retains, or all of them when no pattern was given.
pub open spec fn planned_files(candidates: Seq<Seq<char>>, pattern: Option<Seq<char>>) -> Seq<
    Seq<char>,
> {
    match pattern {
        Some(p) => filtered_of(candidates, p),
        None => candidates,
    }
}

/// How a run proceeds after the candidate files are known.
pub enum RunOutcome {
    /// Neither a pattern nor interactive mode was asked for: nothing to do.
    UsageError,
    /// No candidate files at all under the roots searched.
    NoFilesFound,
    /// The pattern does not compile; its parse error's description.
    InvalidPattern(String),
    /// A pattern was given and retained no file.
    NoFilesMatched,
    /// Interactive mode: these files must be put to the user for selection.
    AwaitSelection(Vec<String>),
    /// Non-interactive mode: combine exactly these files, in this order.
    Combine(Vec<String>),
}

/// Decides a run from its mode and its candidate files: demands a selection
/// mode, reports an empty candidate list, validates and applies the
/// pattern, and hands the retained files on, either to the user
/// (interactive) or straight to the combiner.
pub fn plan_run(interactive: bool, pattern: &Option<String>, candidates: Vec<String>) -> (r:
    RunOutcome)
    ensures
        (r is UsageError <==> (!interactive && pattern is None)),
        (r is NoFilesFound <==> ((interactive || pattern is Some) && candidates@.len() == 0)),
        (r is InvalidPattern <==> ((interactive || pattern is Some) && candidates@.len() > 0 && (
        pattern.deep_view() matches Some(p) && !pattern_ok(p)))),
        (r is NoFilesMatched <==> ((interactive || pattern is Some) && candidates@.len() > 0 && (
        pattern.deep_view() matches Some(p) ==> pattern_ok(p)) && planned_files(
            candidates.deep_view(),
            pattern.deep_view(),
        ).len() == 0)),
        (r is AwaitSelection <==> ((interactive || pattern is Some) && candidates@.len() > 0 && (
        pattern.deep_view() matches Some(p) ==> pattern_ok(p)) && planned_files(
            candidates.deep_view(),
            pattern.deep_view(),
        ).len() > 0 && interactive)),
        r matches RunOutcome::AwaitSelection(v) ==> v.deep_view() == planned_files(
            candidates.deep_view(),
            pattern.deep_view(),
        ),
        (r is Combine <==> ((interactive || pattern is Some) && candidates@.len() > 0 && (
        pattern.deep_view() matches Some(p) ==> pattern_ok(p)) && planned_files(
            candidates.deep_view(),
            pattern.deep_view(),
        ).len() > 0 && !interactive)),
        r matches RunOutcome::Combine(v) ==> v.deep_view() == planned_files(
            candidates.deep_view(),
            pattern.deep_view(),
        ),
{
    if !interactive && pattern.is_none() {
        return RunOutcome::UsageError;
    }
    if candidates.len() == 0 {
        return RunOutcome::NoFilesFound;
    }
    let filtered: Vec<String> = match pattern {
        Some(p) => {
            match Pattern::compile(p.as_str()) {
                Ok(pat) => filter_files(&candidates, &pat),
                Err(e) => {
                    return RunOutcome::InvalidPattern(e);
                },
            }
        },
        None => candidates,
    };
    if filtered.len() == 0 {
        return RunOutcome::NoFilesMatched;
    }
    if interactive {
        RunOutcome::AwaitSelection(filtered)
    } else {
        RunOutcome::Combine(filtered)
    }
}

/// The artifact a whole run produces, as a function of its inputs: the
/// candidate list, the optional pattern, the optional interactive choice of
/// indices, and the content read for each path.
pub open spec fn run_artifact(
    candidates: Seq<Seq<char>>,
    pattern: Option<Seq<char>>,
    idxs: Option<Seq<int>>,
    content_of: spec_fn(Seq<char>) -> Seq<char>,
) -> Seq<char> {
    let filtered = planned_files(candidates, pattern);
    let selected = match idxs {
        Some(ix) => selected_of(filtered, ix),
        None => filtered,
    };
    combined_of(selected.map_values(|p: Seq<char>| (p, content_of(p))))
}

/// Running the pipeline twice with identical inputs — the same candidate
/// list in the same order, the same pattern, the same selection, and the
/// same content behind every path — produces identical artifacts.
pub proof fn lemma_run_idempotent(
    candidates1: Seq<Seq<char>>,
    pattern1: Option<Seq<char>>,
    idxs1: Option<Seq<int>>,
    content_of1: spec_fn(Seq<char>) -> Seq<char>,
    candidates2: Seq<Seq<char>>,
    pattern2: Option<Seq<char>>,
    idxs2: Option<Seq<int>>,
    content_of2: spec_fn(Seq<char>) -> Seq<char>,
)
    requires
        candidates1 == candidates2,
        pattern1 == pattern2,
        idxs1 == idxs2,
        content_of1 == content_of2,
    ensures
        run_artifact(candidates1, pattern1, idxs1, content_of1) == run_artifact(
            candidates2,
            pattern2,
            idxs2,
            content_of2,
        ),
{
}

} // verus!
