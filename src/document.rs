//! The verdict on one document: whether it has annotated snippets, and
//! whether any of them differs from its source.
use vstd::prelude::*;
use crate::compare::{
    compare_snippet, compared, diff_view, line_diff, CheckError, SnippetDiff, SnippetOutcome,
};
use crate::extract::{extract_snippets, snippets_of};

verus! {

/// The verdict on a document. While its snippets are compared one by one it
/// is also the state reached so far.
#[derive(Clone, Copy, PartialEq, Eq, Debug, Structural)]
pub enum Verdict {
    /// No snippet seen.
    NoSnippets,
    /// Snippets seen, none of them different.
    Match,
    /// Some snippet differs; no later snippet changes that.
    Mismatch,
}

/// The state after one more snippet, which differs exactly when `mismatch` holds.
pub open spec fn verdict_after(v: Verdict, mismatch: bool) -> Verdict {
    if mismatch || v == Verdict::Mismatch {
        Verdict::Mismatch
    } else {
        Verdict::Match
    }
}

/// The verdict after snippets whose mismatches `flags` lists, in order.
pub open spec fn verdict_of(flags: Seq<bool>) -> Verdict
    decreases flags.len(),
{
    if flags.len() == 0 {
        Verdict::NoSnippets
    } else {
        verdict_after(verdict_of(flags.drop_last()), flags.last())
    }
}

/// Moves the verdict on by one snippet.
pub fn next_verdict(v: Verdict, mismatch: bool) -> (r: Verdict)
    ensures
        r == verdict_after(v, mismatch),
{
    if mismatch || v == Verdict::Mismatch {
        Verdict::Mismatch
    } else {
        Verdict::Match
    }
}

/// A comparison that found a difference.
pub open spec fn is_mismatch(r: Result<Option<(nat, Seq<char>, Seq<char>)>, CheckError>) -> bool {
    r matches Ok(Some(_))
}

/// For the snippets of `md` compared with `sources` (one text per snippet, in
/// order), which of them differ.
pub open spec fn mismatch_flags(md: Seq<char>, sources: Seq<Seq<char>>) -> Seq<bool> {
    Seq::new(
        sources.len(),
        |i: int| is_mismatch(compared(snippets_of(md)[i].1, sources[i])),
    )
}

/// What one document comes to: its verdict, and each differing snippet with
/// its index.
pub struct DocReport {
    pub verdict: Verdict,
    pub mismatches: Vec<(usize, SnippetDiff)>,
}

/// Compares each annotated snippet of `md_file` with the text of the source
/// file that it names, given in `sources` in the same order. The first snippet
/// that cannot be compared ends the work with its error.
pub fn get_md_snippets_diff(md_file: &str, sources: &Vec<String>) -> (r: Result<
    DocReport,
    CheckError,
>)
    requires
        sources.len() == snippets_of(md_file@).len(),
    ensures
        r is Err <==> exists|i: int|
            0 <= i < sources.len() && (#[trigger] compared(
                snippets_of(md_file@)[i].1,
                sources[i]@,
            )) is Err,
        r matches Err(e) ==> exists|i: int|
            0 <= i < sources.len() && compared(snippets_of(md_file@)[i].1, sources[i]@) == Err::<
                Option<(nat, Seq<char>, Seq<char>)>,
                CheckError,
            >(e) && forall|j: int|
                0 <= j < i ==> (#[trigger] compared(
                    snippets_of(md_file@)[j].1,
                    sources[j]@,
                )) is Ok,
        r matches Ok(rep) ==> rep.verdict == verdict_of(
            mismatch_flags(md_file@, sources@.map_values(|s: String| s@)),
        ),
        r matches Ok(rep) ==> forall|k: int|
            0 <= k < rep.mismatches.len() ==> {
                let (i, d) = #[trigger] rep.mismatches[k];
                &&& i < sources.len()
                &&& compared(snippets_of(md_file@)[i as int].1, sources[i as int]@) == Ok::<
                    Option<(nat, Seq<char>, Seq<char>)>,
                    CheckError,
                >(Some((d.start_line as nat, d.snippet@, d.block@)))
                &&& diff_view(d.diff@) == line_diff(d.snippet@, d.block@)
                &&& k > 0 ==> rep.mismatches[k - 1].0 < i
            },
        r matches Ok(rep) ==> forall|i: int|
            0 <= i < sources.len() && is_mismatch(#[trigger] compared(snippets_of(md_file@)[i].1, sources[i]@)) ==> exists|k: int|
                0 <= k < rep.mismatches.len() && rep.mismatches[k].0 == i,
{
    let snippets = extract_snippets(md_file);
    let ghost srcs = sources@.map_values(|s: String| s@);
    let ghost flags = mismatch_flags(md_file@, srcs);
    let mut verdict = Verdict::NoSnippets;
    let mut mismatches: Vec<(usize, SnippetDiff)> = Vec::new();
    for i in 0..snippets.len()
        invariant
            snippets.len() == sources.len() == snippets_of(md_file@).len(),
            srcs == sources@.map_values(|s: String| s@),
            flags == mismatch_flags(md_file@, srcs),
            forall|j: int|
                0 <= j < snippets.len() ==> (#[trigger] snippets[j]).body@ == snippets_of(
                    md_file@,
                )[j].1,
            forall|j: int|
                0 <= j < i ==> (#[trigger] compared(snippets_of(md_file@)[j].1, sources[j]@)) is Ok,
            verdict == verdict_of(flags.take(i as int)),
            forall|k: int|
                0 <= k < mismatches.len() ==> {
                    let (j, d) = #[trigger] mismatches[k];
                    &&& j < i
                    &&& compared(snippets_of(md_file@)[j as int].1, sources[j as int]@) == Ok::<
                        Option<(nat, Seq<char>, Seq<char>)>,
                        CheckError,
                    >(Some((d.start_line as nat, d.snippet@, d.block@)))
                    &&& diff_view(d.diff@) == line_diff(d.snippet@, d.block@)
                    &&& k > 0 ==> mismatches[k - 1].0 < j
                },
            forall|j: int|
                0 <= j < i && is_mismatch(#[trigger] compared(snippets_of(md_file@)[j].1, sources[j]@)) ==> exists|k: int|
                    0 <= k < mismatches.len() && mismatches[k].0 == j,
    {
        assert(snippets[i as int].body@ == snippets_of(md_file@)[i as int].1);
        assert(flags.take(i + 1).drop_last() =~= flags.take(i as int));
        assert(srcs[i as int] == sources[i as int]@);
        match compare_snippet(snippets[i].body.as_str(), sources[i].as_str()) {
            Err(e) => {
                return Err(e);
            },
            Ok(SnippetOutcome::Match) => {
                verdict = next_verdict(verdict, false);
            },
            Ok(SnippetOutcome::Mismatch(d)) => {
                verdict = next_verdict(verdict, true);
                let ghost m0 = mismatches@;
                mismatches.push((i, d));
                assert(forall|k: int| 0 <= k < m0.len() ==> mismatches[k] == m0[k]);
                assert(mismatches[m0.len() as int].0 == i);
            },
        }
    }
    assert(flags.take(snippets.len() as int) =~= flags);
    Ok(DocReport { verdict, mismatches })
}

} // verus!
