//! The combined artifact: one block per selected file, in selection order.
//!
//! A block is a blank line, a marker line naming the source path, a blank
//! line, the file's content, and a trailing newline. The whole artifact is
//! the concatenation of the blocks.

use vstd::prelude::*;

verus! {

/// The text that opens every marker line.
pub open spec fn marker_prefix() -> Seq<char> {
    "\n// ===== FILE: "@
}

/// The text that closes every marker line, up to the start of the content.
pub open spec fn marker_suffix() -> Seq<char> {
    " =====\n\n"@
}

/// The block written for one file: marker line around the path, then the
/// content, then one newline.
pub open spec fn block_of(path: Seq<char>, content: Seq<char>) -> Seq<char> {
    marker_prefix() + path + marker_suffix() + content + "\n"@
}

/// The whole artifact for a list of (path, content) pairs: the blocks,
/// concatenated in order.
pub open spec fn combined_of(entries: Seq<(Seq<char>, Seq<char>)>) -> Seq<char>
    decreases entries.len(),
{
    if entries.len() == 0 {
        Seq::empty()
    } else {
        block_of(entries.first().0, entries.first().1) + combined_of(entries.drop_first())
    }
}

/// Renders the block for one file.
pub fn render_block(path: &str, content: &str) -> (r: String)
    ensures
        r@ == block_of(path@, content@),
{
    let mut r = String::new();
    r.append("\n// ===== FILE: ");
    r.append(path);
    r.append(" =====\n\n");
    r.append(content);
    r.append("\n");
    proof {
        assert(r@ =~= block_of(path@, content@));
    }
    r
}

/// How a combine run ends: either every file was read and the whole
/// artifact was produced, with the count of files written, or the first
/// unreadable file aborted the run, leaving the blocks already written.
pub enum CombineOutcome {
    /// The artifact text and the number of files it combines.
    Done(String, usize),
    /// The path whose read failed, and the partial artifact written before
    /// the failure.
    ReadFailure(String, String),
}

/// Whether every file's read succeeded.
pub open spec fn reads_ok(items: Seq<(Seq<char>, Option<Seq<char>>)>) -> bool {
    forall|i: int| 0 <= i < items.len() ==> items[i].1 is Some
}

/// The (path, content) pairs of a list of successful reads.
pub open spec fn entries_of(items: Seq<(Seq<char>, Option<Seq<char>>)>) -> Seq<
    (Seq<char>, Seq<char>),
> {
    items.map_values(|it: (Seq<char>, Option<Seq<char>>)| (it.0, it.1->0))
}

/// The index of the first failed read.
pub open spec fn first_failure(items: Seq<(Seq<char>, Option<Seq<char>>)>) -> int
    decreases items.len(),
{
    if items.len() == 0 {
        0
    } else if items.first().1 is None {
        0
    } else {
        1 + first_failure(items.drop_first())
    }
}

/// Builds the combined artifact from a list of read outcomes, one per
/// selected file in selection order: `Some` content where the read
/// succeeded, `None` where it failed. The first failure aborts the run,
/// names the failing path, and leaves every block written before it in
/// place; nothing after the failure is written.
pub fn combine_reads(items: &Vec<(String, Option<String>)>) -> (r: CombineOutcome)
    ensures
        (r is Done <==> reads_ok(items.deep_view())),
        r matches CombineOutcome::Done(out, n) ==> out@ == combined_of(
            entries_of(items.deep_view()),
        ) && n == items.len(),
        r matches CombineOutcome::ReadFailure(path, partial) ==> path@
            == items.deep_view()[first_failure(items.deep_view())].0 && partial@ == combined_of(
            entries_of(items.deep_view().take(first_failure(items.deep_view()))),
        ),
{
    let ghost v = items.deep_view();
    let mut out = String::new();
    let mut i: usize = 0;
    while i < items.len()
        invariant
            v == items.deep_view(),
            0 <= i <= items.len(),
            v.len() == items.len(),
            forall|j: int| 0 <= j < i ==> v[j].1 is Some,
            out@ == combined_of(entries_of(v.take(i as int))),
        decreases items.len() - i,
    {
        let (path, read) = &items[i];
        match read {
            Some(content) => {
                let block = render_block(path.as_str(), content.as_str());
                out.append(block.as_str());
                proof {
                    assert(entries_of(v.take(i + 1)) =~= entries_of(v.take(i as int)).push(
                        (v[i as int].0, v[i as int].1->0),
                    ));
                    lemma_combined_of_push(
                        entries_of(v.take(i as int)),
                        v[i as int].0,
                        v[i as int].1->0,
                    );
                }
            },
            None => {
                proof {
                    lemma_first_failure(v, i as int);
                }
                return CombineOutcome::ReadFailure(path.clone(), out);
            },
        }
        i += 1;
    }
    proof {
        assert(v.take(items.len() as int) =~= v);
    }
    CombineOutcome::Done(out, items.len())
}

/// Appending one entry appends its block to the artifact.
pub proof fn lemma_combined_of_push(
    entries: Seq<(Seq<char>, Seq<char>)>,
    path: Seq<char>,
    content: Seq<char>,
)
    ensures
        combined_of(entries.push((path, content))) == combined_of(entries) + block_of(
            path,
            content,
        ),
    decreases entries.len(),
{
    let one = seq![(path, content)];
    assert(entries.push((path, content)) =~= entries + one);
    lemma_combined_of_concat(entries, one);
    let empty_entries = Seq::<(Seq<char>, Seq<char>)>::empty();
    assert(one.drop_first() =~= empty_entries);
    assert(combined_of(empty_entries) == Seq::<char>::empty());
    assert(combined_of(one) == block_of(path, content) + Seq::<char>::empty());
    assert(combined_of(one) =~= block_of(path, content));
}

/// The first failed read comes after every successful one.
proof fn lemma_first_failure(items: Seq<(Seq<char>, Option<Seq<char>>)>, i: int)
    requires
        0 <= i < items.len(),
        forall|j: int| 0 <= j < i ==> items[j].1 is Some,
        items[i].1 is None,
    ensures
        first_failure(items) == i,
    decreases i,
{
    if i == 0 {
    } else {
        assert(items.first().1 is Some);
        lemma_first_failure(items.drop_first(), i - 1);
    }
}

/// Concatenating two entry lists concatenates their artifacts.
pub proof fn lemma_combined_of_concat(a: Seq<(Seq<char>, Seq<char>)>, b: Seq<(Seq<char>, Seq<char>)>)
    ensures
        combined_of(a + b) == combined_of(a) + combined_of(b),
    decreases a.len(),
{
    if a.len() == 0 {
        assert(a + b =~= b);
        assert(combined_of(a) + combined_of(b) =~= combined_of(b));
    } else {
        assert((a + b).drop_first() =~= a.drop_first() + b);
        lemma_combined_of_concat(a.drop_first(), b);
        assert(block_of(a.first().0, a.first().1) + (combined_of(a.drop_first()) + combined_of(b))
            =~= (block_of(a.first().0, a.first().1) + combined_of(a.drop_first())) + combined_of(
            b,
        ));
    }
}

/// Combining a list of files writes exactly one block per file, in list
/// order: the artifact splits, around any entry, into the artifact of the
/// entries before it, that entry's own block, and the artifact of the
/// entries after it.
pub proof fn lemma_block_placement(entries: Seq<(Seq<char>, Seq<char>)>, i: int)
    requires
        0 <= i < entries.len(),
    ensures
        combined_of(entries) == combined_of(entries.take(i)) + block_of(
            entries[i].0,
            entries[i].1,
        ) + combined_of(entries.skip(i + 1)),
{
    let mid = seq![entries[i]];
    assert(entries =~= entries.take(i) + (mid + entries.skip(i + 1)));
    lemma_combined_of_concat(entries.take(i), mid + entries.skip(i + 1));
    lemma_combined_of_concat(mid, entries.skip(i + 1));
    let empty_entries = Seq::<(Seq<char>, Seq<char>)>::empty();
    assert(mid.first() == entries[i]);
    assert(mid.drop_first() =~= empty_entries);
    assert(combined_of(empty_entries) == Seq::<char>::empty());
    assert(combined_of(mid) == block_of(entries[i].0, entries[i].1) + Seq::<char>::empty());
    assert(combined_of(mid) =~= block_of(entries[i].0, entries[i].1));
    assert(combined_of(entries.take(i)) + (block_of(entries[i].0, entries[i].1) + combined_of(
        entries.skip(i + 1),
    )) =~= combined_of(entries.take(i)) + block_of(entries[i].0, entries[i].1) + combined_of(
        entries.skip(i + 1),
    ));
}

/// A block carries its file's path and content verbatim: the path stands in
/// the marker line right after the marker's opening text, and the content
/// stands after the marker, unchanged, followed by exactly one newline.
pub proof fn lemma_block_round_trip(path: Seq<char>, content: Seq<char>)
    ensures
        block_of(path, content).len() == marker_prefix().len() + path.len()
            + marker_suffix().len() + content.len() + 1,
        block_of(path, content).subrange(
            marker_prefix().len() as int,
            (marker_prefix().len() + path.len()) as int,
        ) == path,
        block_of(path, content).subrange(
            (marker_prefix().len() + path.len() + marker_suffix().len()) as int,
            (marker_prefix().len() + path.len() + marker_suffix().len() + content.len()) as int,
        ) == content,
        block_of(path, content).last() == '\n',
{
    reveal_strlit("\n");
    assert("\n"@.len() == 1);
    let b = block_of(path, content);
    let p = marker_prefix().len() as int;
    assert(b.subrange(p, p + path.len()) =~= path);
    assert(b.subrange(
        p + path.len() + marker_suffix().len(),
        p + path.len() + marker_suffix().len() + content.len(),
    ) =~= content);
}

} // verus!
