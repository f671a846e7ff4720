//! Parsing the directories option: a comma-separated list of root paths,
//! each trimmed of surrounding ASCII whitespace before use.

use vstd::prelude::*;

verus! {

/// The whitespace trimmed from a root path's ends.
pub open spec fn is_space(c: char) -> bool {
    c == ' ' || c == '\t' || c == '\n' || c == '\r'
}

/// `s` without its leading whitespace.
pub open spec fn trim_front(s: Seq<char>) -> Seq<char>
    decreases s.len(),
{
    if s.len() > 0 && is_space(s.first()) {
        trim_front(s.drop_first())
    } else {
        s
    }
}

/// `s` without its trailing whitespace.
pub open spec fn trim_back(s: Seq<char>) -> Seq<char>
    decreases s.len(),
{
    if s.len() > 0 && is_space(s.last()) {
        trim_back(s.drop_last())
    } else {
        s
    }
}

/// `s` without leading and trailing whitespace.
pub open spec fn trimmed(s: Seq<char>) -> Seq<char> {
    trim_back(trim_front(s))
}

/// `s` split at every comma: one segment more than there are commas, in
/// order, commas not kept. The empty string has one empty segment.
pub open spec fn split_commas(s: Seq<char>) -> Seq<Seq<char>>
    decreases s.len(),
{
    if s.len() == 0 {
        seq![Seq::<char>::empty()]
    } else {
        let rest = split_commas(s.drop_first());
        if s.first() == ',' {
            seq![Seq::<char>::empty()] + rest
        } else {
            seq![seq![s.first()] + rest.first()] + rest.drop_first()
        }
    }
}

/// Every segment of a split, trimmed.
pub open spec fn trim_all(segs: Seq<Seq<char>>) -> Seq<Seq<char>> {
    segs.map_values(|seg: Seq<char>| trimmed(seg))
}

/// The root paths that a directories option denotes: its comma-separated
/// segments, each trimmed of surrounding whitespace.
pub open spec fn dirs_of(s: Seq<char>) -> Seq<Seq<char>> {
    trim_all(split_commas(s))
}

/// A comma-free string is one whole segment.
proof fn lemma_split_no_comma(s: Seq<char>)
    requires
        forall|i: int| 0 <= i < s.len() ==> s[i] != ',',
    ensures
        split_commas(s) == seq![s],
    decreases s.len(),
{
    if s.len() == 0 {
        assert(s =~= Seq::<char>::empty());
        assert(split_commas(s) =~= seq![s]);
    } else {
        lemma_split_no_comma(s.drop_first());
        let rest = split_commas(s.drop_first());
        assert(split_commas(s) == seq![seq![s.first()] + rest.first()] + rest.drop_first());
        assert(rest.drop_first() =~= Seq::<Seq<char>>::empty());
        assert(seq![s.first()] + s.drop_first() =~= s);
        assert(split_commas(s) =~= seq![s]);
    }
}

/// Splitting at the first comma: a comma-free prefix is the first segment,
/// and the rest splits on its own.
proof fn lemma_split_at_comma(a: Seq<char>, b: Seq<char>)
    requires
        forall|i: int| 0 <= i < a.len() ==> a[i] != ',',
    ensures
        split_commas(a + seq![','] + b) == seq![a] + split_commas(b),
    decreases a.len(),
{
    let s = a + seq![','] + b;
    if a.len() == 0 {
        assert(s.first() == ',');
        assert(s.drop_first() =~= b);
        assert(split_commas(s) == seq![Seq::<char>::empty()] + split_commas(s.drop_first()));
        assert(a =~= Seq::<char>::empty());
        assert(split_commas(s) =~= seq![a] + split_commas(b));
    } else {
        assert(s.first() == a.first());
        assert(s.first() != ',');
        assert(s.drop_first() =~= a.drop_first() + seq![','] + b);
        lemma_split_at_comma(a.drop_first(), b);
        let rest = split_commas(s.drop_first());
        assert(split_commas(s) == seq![seq![s.first()] + rest.first()] + rest.drop_first());
        assert(rest == seq![a.drop_first()] + split_commas(b));
        assert(rest.first() == a.drop_first());
        assert(rest.drop_first() =~= split_commas(b));
        assert(seq![s.first()] + rest.first() =~= a);
        assert(split_commas(s) =~= seq![a] + split_commas(b));
    }
}

/// Whether `c` is trimmed away at a path's ends.
fn is_space_char(c: char) -> (r: bool)
    ensures
        r == is_space(c),
{
    c == ' ' || c == '\t' || c == '\n' || c == '\r'
}

/// The characters `from..to` of `s`, trimmed of surrounding whitespace.
fn trimmed_segment(s: &str, from: usize, to: usize) -> (r: String)
    requires
        from <= to <= s@.len(),
    ensures
        r@ == trimmed(s@.subrange(from as int, to as int)),
{
    let seg = Ghost(s@.subrange(from as int, to as int));
    let mut lo = from;
    while lo < to && is_space_char(s.get_char(lo))
        invariant
            from <= lo <= to <= s@.len(),
            trim_front(seg@) == trim_front(s@.subrange(lo as int, to as int)),
            seg@ == s@.subrange(from as int, to as int),
        decreases to - lo,
    {
        proof {
            assert(s@.subrange(lo as int, to as int).first() == s@[lo as int]);
            assert(s@.subrange(lo as int, to as int).drop_first() =~= s@.subrange(
                lo + 1,
                to as int,
            ));
        }
        lo += 1;
    }
    proof {
        assert(trim_front(seg@) == s@.subrange(lo as int, to as int));
    }
    let mut hi = to;
    while hi > lo && is_space_char(s.get_char(hi - 1))
        invariant
            from <= lo <= hi <= to <= s@.len(),
            trim_back(s@.subrange(lo as int, to as int)) == trim_back(
                s@.subrange(lo as int, hi as int),
            ),
        decreases hi,
    {
        proof {
            assert(s@.subrange(lo as int, hi as int).last() == s@[hi - 1]);
            assert(s@.subrange(lo as int, hi as int).drop_last() =~= s@.subrange(
                lo as int,
                hi - 1,
            ));
        }
        hi -= 1;
    }
    proof {
        assert(trim_back(s@.subrange(lo as int, hi as int)) == s@.subrange(lo as int, hi as int));
        assert(trimmed(seg@) == s@.subrange(lo as int, hi as int));
    }
    s.substring_char(lo, hi).to_owned()
}

/// Parses the directories option: splits it at commas and trims each
/// segment of surrounding whitespace, keeping the segments' order.
pub fn parse_dirs(s: &str) -> (r: Vec<String>)
    ensures
        r.deep_view() == dirs_of(s@),
{
    let n = s.unicode_len();
    let mut r: Vec<String> = Vec::new();
    let mut seg_start: usize = 0;
    let mut i: usize = 0;
    proof {
        assert(s@.skip(0) =~= s@);
        assert(r.deep_view() + trim_all(split_commas(s@)) =~= trim_all(split_commas(s@)));
    }
    while i < n
        invariant
            n == s@.len(),
            0 <= seg_start <= i <= n,
            forall|j: int| seg_start <= j < i ==> s@[j] != ',',
            dirs_of(s@) == r.deep_view() + trim_all(split_commas(s@.skip(seg_start as int))),
        decreases n - i,
    {
        if s.get_char(i) == ',' {
            let ghost a = s@.subrange(seg_start as int, i as int);
            let seg = trimmed_segment(s, seg_start, i);
            let ghost before = r.deep_view();
            r.push(seg);
            proof {
                assert(s@.skip(seg_start as int) =~= a + seq![','] + s@.skip(i + 1));
                lemma_split_at_comma(a, s@.skip(i + 1));
                assert(trim_all(seq![a] + split_commas(s@.skip(i + 1))) =~= seq![trimmed(a)]
                    + trim_all(split_commas(s@.skip(i + 1))));
                assert(r.deep_view() =~= before.push(trimmed(a)));
                assert(before + seq![trimmed(a)] + trim_all(split_commas(s@.skip(i + 1)))
                    =~= before.push(trimmed(a)) + trim_all(split_commas(s@.skip(i + 1))));
            }
            seg_start = i + 1;
        }
        i += 1;
    }
    let ghost a = s@.subrange(seg_start as int, n as int);
    let seg = trimmed_segment(s, seg_start, n);
    let ghost before = r.deep_view();
    r.push(seg);
    proof {
        assert(s@.skip(seg_start as int) =~= a);
        lemma_split_no_comma(a);
        assert(trim_all(seq![a]) =~= seq![trimmed(a)]);
        assert(r.deep_view() =~= before.push(trimmed(a)));
        assert(before + seq![trimmed(a)] =~= before.push(trimmed(a)));
    }
    r
}

} // verus!
