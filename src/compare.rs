//! Comparing a snippet with the block of source code it claims to show, and
//! summing up the comparisons of one document into a verdict.
use vstd::prelude::*;
use crate::locate::{extract_clean_block, located};
use crate::normalize::{deindented, remove_identation, strip_comments, stripped};

verus! {

/// How a line of a line diff came about.
#[derive(Clone, Copy, PartialEq, Eq, Debug, Structural)]
pub enum ChangeKind {
    Removed,
    Added,
    Unchanged,
}

/// One line of a line diff, with its line ending if it had one.
pub struct DiffLine {
    pub kind: ChangeKind,
    pub text: String,
}

/// The line diff that `similar` computes from `old` to `new`.
pub uninterp spec fn line_diff(old: Seq<char>, new: Seq<char>) -> Seq<(ChangeKind, Seq<char>)>;

/// The (kind, text) pairs that a vector of diff lines holds.
pub open spec fn diff_view(v: Seq<DiffLine>) -> Seq<(ChangeKind, Seq<char>)> {
    v.map_values(|d: DiffLine| (d.kind, d.text@))
}

/// Relies on `similar::TextDiff::from_lines` and `iter_all_changes`: the
/// changes of a line diff from `old` to `new` (Myers, no deadline, so it
/// depends on the two texts alone), each tag mapped to a `ChangeKind`.
#[verifier::external_body]
fn diff_lines(old: &str, new: &str) -> (r: Vec<DiffLine>)
    ensures
        diff_view(r@) == line_diff(old@, new@),
{
    let diff = similar::TextDiff::from_lines(old, new);
    diff.iter_all_changes().map(|c| DiffLine {
        kind: match c.tag() {
            similar::ChangeTag::Delete => ChangeKind::Removed,
            similar::ChangeTag::Insert => ChangeKind::Added,
            similar::ChangeTag::Equal => ChangeKind::Unchanged,
        },
        text: c.value().to_string(),
    }).collect()
}

/// Why a snippet cannot be compared at all; either one stops the whole run.
#[derive(Clone, Copy, PartialEq, Eq, Debug, Structural)]
pub enum CheckError {
    /// After cleaning, every line of the snippet is indented.
    IndentedSnippet,
    /// No block of the source file corresponds to the snippet.
    BlockNotFound,
}

/// A snippet that differs from its source block.
pub struct SnippetDiff {
    /// 1-based line number of the block's first line in the source file.
    pub start_line: usize,
    /// The snippet, cleaned.
    pub snippet: String,
    /// The block, cleaned, and de-indented where every line was indented.
    pub block: String,
    /// Line diff from `snippet` to `block`.
    pub diff: Vec<DiffLine>,
}

pub enum SnippetOutcome {
    Match,
    Mismatch(SnippetDiff),
}

/// The result of comparing `snippet` with `code`: `Ok(None)` for a match,
/// `Ok(Some((line, cleaned snippet, block)))` for a mismatch.
#[verifier::opaque]
pub open spec fn compared(snippet: Seq<char>, code: Seq<char>) -> Result<
    Option<(nat, Seq<char>, Seq<char>)>,
    CheckError,
> {
    let cs = stripped(snippet);
    if deindented(cs) is Some {
        Err(CheckError::IndentedSnippet)
    } else {
        match located(code, cs) {
            None => Err(CheckError::BlockNotFound),
            Some((line, block)) => {
                if cs == block {
                    Ok(None)
                } else {
                    match deindented(block) {
                        Some(nb) => if cs == nb {
                            Ok(None)
                        } else {
                            Ok(Some((line, cs, nb)))
                        },
                        None => Ok(Some((line, cs, block))),
                    }
                }
            },
        }
    }
}

/// Compares the snippet text `snippet` with the source file text `code`.
pub fn compare_snippet(snippet: &str, code: &str) -> (r: Result<SnippetOutcome, CheckError>)
    ensures
        r is Err <==> compared(snippet@, code@) is Err,
        r matches Err(e) ==> compared(snippet@, code@) == Err::<
            Option<(nat, Seq<char>, Seq<char>)>,
            CheckError,
        >(e),
        r matches Ok(SnippetOutcome::Match) <==> compared(snippet@, code@) == Ok::<
            Option<(nat, Seq<char>, Seq<char>)>,
            CheckError,
        >(None),
        r matches Ok(SnippetOutcome::Mismatch(d)) ==> compared(snippet@, code@) == Ok::<
            Option<(nat, Seq<char>, Seq<char>)>,
            CheckError,
        >(Some((d.start_line as nat, d.snippet@, d.block@))) && diff_view(d.diff@) == line_diff(
            d.snippet@,
            d.block@,
        ),
{
    reveal(compared);
    let cleaned = strip_comments(snippet);
    if remove_identation(cleaned.as_str()).is_some() {
        return Err(CheckError::IndentedSnippet);
    }
    let (start_line, block) = match extract_clean_block(code, cleaned.as_str()) {
        None => return Err(CheckError::BlockNotFound),
        Some(found) => found,
    };
    if cleaned == block {
        return Ok(SnippetOutcome::Match);
    }
    let shown = match remove_identation(block.as_str()) {
        Some(nb) => {
            if cleaned == nb {
                return Ok(SnippetOutcome::Match);
            }
            nb
        },
        None => block,
    };
    let diff = diff_lines(cleaned.as_str(), shown.as_str());
    Ok(SnippetOutcome::Mismatch(SnippetDiff { start_line, snippet: cleaned, block: shown, diff }))
}

} // verus!
