//! Checks that code snippets in markdown documentation still agree with the
//! source files they name.
use vstd::prelude::*;

pub mod compare;
pub mod document;
pub mod extract;
pub mod laws;
pub mod locate;
pub mod normalize;
pub mod text;

pub use compare::{compare_snippet, ChangeKind, CheckError, DiffLine, SnippetDiff, SnippetOutcome};
pub use document::{get_md_snippets_diff, next_verdict, DocReport, Verdict};
pub use extract::{code_file_path, extract_snippets, Snippet};
pub use locate::extract_clean_block;
pub use normalize::{remove_identation, strip_comments};

verus! {

} // verus!
