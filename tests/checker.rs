use snippet_checker::{
    code_file_path, compare_snippet, extract_clean_block, extract_snippets, get_md_snippets_diff,
    next_verdict, remove_identation, strip_comments, ChangeKind, CheckError, SnippetOutcome,
    Verdict,
};

fn doc_with(body: &str) -> String {
    format!("# Chapter\n\nSome text.\n\n```rust\n# // Path: floresta-chain/src/lib.rs\n{}\n```\n\nMore text.\n", body)
}

#[test]
fn no_fence_gives_no_snippets() {
    let md = "# Title\n\nJust prose, and `inline code`.\n\n```\nnot annotated\n```\n";
    assert!(extract_snippets(md).is_empty());
    let rep = get_md_snippets_diff(md, &vec![]).unwrap();
    assert_eq!(rep.verdict, Verdict::NoSnippets);
    assert!(rep.mismatches.is_empty());
}

#[test]
fn identical_block_matches() {
    let md = doc_with("let x = 1;\nlet y = 2;");
    let code = "fn main() {\nlet x = 1;\nlet y = 2;\n}\n".to_string();
    let rep = get_md_snippets_diff(&md, &vec![code]).unwrap();
    assert_eq!(rep.verdict, Verdict::Match);
    assert!(rep.mismatches.is_empty());
}

#[test]
fn indented_block_matches() {
    let md = doc_with("let x = 1;\nlet y = 2;");
    let code = "fn main() {\n    let x = 1;\n    let y = 2;\n}\n".to_string();
    let rep = get_md_snippets_diff(&md, &vec![code]).unwrap();
    assert_eq!(rep.verdict, Verdict::Match);
}

#[test]
fn changed_line_mismatches() {
    let md = doc_with("let x = 1;\nlet y = 2;");
    let code = "fn main() {\nlet x = 1;\nlet y = 3;\n}\n".to_string();
    let rep = get_md_snippets_diff(&md, &vec![code]).unwrap();
    assert_eq!(rep.verdict, Verdict::Mismatch);
    assert_eq!(rep.mismatches.len(), 1);
    let (index, d) = &rep.mismatches[0];
    assert_eq!(*index, 0);
    assert_eq!(d.start_line, 2);
    assert_eq!(d.snippet, "let x = 1;\nlet y = 2;");
    assert_eq!(d.block, "let x = 1;\nlet y = 3;");
    let removed: Vec<&str> =
        d.diff.iter().filter(|c| c.kind == ChangeKind::Removed).map(|c| c.text.as_str()).collect();
    let added: Vec<&str> =
        d.diff.iter().filter(|c| c.kind == ChangeKind::Added).map(|c| c.text.as_str()).collect();
    assert_eq!(removed, vec!["let y = 2;"]);
    assert_eq!(added, vec!["let y = 3;"]);
    assert_eq!(d.diff[0].kind, ChangeKind::Unchanged);
    assert_eq!(d.diff[0].text, "let x = 1;\n");
}

#[test]
fn mismatch_after_match_keeps_index_and_verdict() {
    let md = format!("{}{}", doc_with("let a = 0;"), doc_with("let b = 1;\nlet c = 2;"));
    let first = "let a = 0;\n".to_string();
    let second = "let b = 1;\nlet c = 3;\n".to_string();
    let rep = get_md_snippets_diff(&md, &vec![first, second]).unwrap();
    assert_eq!(rep.verdict, Verdict::Mismatch);
    assert_eq!(rep.mismatches.len(), 1);
    assert_eq!(rep.mismatches[0].0, 1);
    assert_eq!(rep.mismatches[0].1.start_line, 1);
}

#[test]
fn extracts_paths_and_bodies_in_order() {
    let md = "```rust\n# // Path: a/src/one.rs\nfn one() {}\n```\ntext\n> ```rust\n> # // Path: b/src/two.rs\n> fn two() {}\n> let z = 3;\n> ```\n";
    let snippets = extract_snippets(md);
    assert_eq!(snippets.len(), 2);
    assert_eq!(snippets[0].path, "a/src/one.rs");
    assert_eq!(snippets[0].body, "fn one() {}");
    assert_eq!(snippets[1].path, "b/src/two.rs");
    assert_eq!(snippets[1].body, "fn two() {}\nlet z = 3;");
}

#[test]
fn fence_without_closing_is_ignored() {
    let md = "```rust\n# // Path: a.rs\nfn one() {}\n";
    assert!(extract_snippets(md).is_empty());
}

#[test]
fn other_language_fence_is_ignored() {
    let md = "```toml\n# // Path: a.toml\nx = 1\n```\n";
    assert!(extract_snippets(md).is_empty());
}

#[test]
fn strip_comments_drops_comments_blanks_and_markers() {
    let code = "// a comment\nfn f() {\n\n    # let hidden = 1;\n    #[inline]\n    let x = 2; // trailing\n   // indented comment\n}\n";
    assert_eq!(
        strip_comments(code),
        "fn f() {\n    #[inline]\n    let x = 2; // trailing\n}"
    );
}

#[test]
fn strip_comments_twice_is_once() {
    let code = "# use std::io;\n\n// note\nfn g() -> u8 {\n    # // hidden comment\n    7\n}\n";
    let once = strip_comments(code);
    assert_eq!(once, "fn g() -> u8 {\n    7\n}");
    assert_eq!(strip_comments(&once), once);
}

#[test]
fn marker_lines_vanish_entirely() {
    assert_eq!(strip_comments("# # x"), "");
    assert_eq!(strip_comments("# use std::fmt;\n    # let hidden = 0;\nfn f() {}"), "fn f() {}");
    assert_eq!(strip_comments("#[derive(Debug)]\n#x\nstruct S;"), "#[derive(Debug)]\nstruct S;");
}

#[test]
fn uniformly_indented_block_round_trip() {
    let snippet = "fn f() {\n    let a = 1;\n}";
    let code = "impl T {\n    fn f() {\n        let a = 1;\n    }\n}\n";
    assert!(matches!(compare_snippet(snippet, code), Ok(SnippetOutcome::Match)));
    assert_eq!(
        remove_identation("    fn f() {\n        let a = 1;\n    }").as_deref(),
        Some(snippet)
    );
}

#[test]
fn strip_comments_of_empty_is_empty() {
    assert_eq!(strip_comments(""), "");
    assert_eq!(strip_comments("\n  \n// only\n"), "");
}

#[test]
fn remove_identation_strips_one_unit() {
    assert_eq!(remove_identation("    a\n        b").as_deref(), Some("a\n    b"));
}

#[test]
fn remove_identation_is_all_or_nothing() {
    assert_eq!(remove_identation("    a\n   b"), None);
    assert_eq!(remove_identation("a\n    b"), None);
    assert_eq!(remove_identation("    a\n"), Some("a".to_string()));
}

#[test]
fn locate_skips_comments_inside_block() {
    let file = "use x;\n\nfn f() {\n    // explain\n    let a = 1;\n\n    let b = 2;\n}\n";
    let found = extract_clean_block(file, "fn f() {\nlet a = 1;\nlet b = 2;");
    assert_eq!(found, Some((3, "fn f() {\n    let a = 1;\n    let b = 2;".to_string())));
}

#[test]
fn locate_uses_first_anchor_only() {
    let file = "let a = 1;\nlet b = 2;\nlet a = 1;\nlet c = 3;\n";
    let found = extract_clean_block(file, "let a = 1;\nlet c = 3;");
    assert_eq!(found, Some((1, "let a = 1;\nlet b = 2;".to_string())));
}

#[test]
fn locate_fails_when_file_ends_too_soon() {
    assert_eq!(extract_clean_block("x\nlet a = 1;\n// c\n", "let a = 1;\nlet b = 2;"), None);
}

#[test]
fn locate_fails_without_anchor_or_snippet() {
    assert_eq!(extract_clean_block("let a = 1;\n", "let q = 9;"), None);
    assert_eq!(extract_clean_block("let a = 1;\n", "  \n"), None);
}

#[test]
fn indented_snippet_is_an_error() {
    let r = compare_snippet("    let x = 1;\n    let y = 2;", "let x = 1;\nlet y = 2;\n");
    assert!(matches!(r, Err(CheckError::IndentedSnippet)));
}

#[test]
fn missing_block_is_an_error() {
    let r = compare_snippet("let x = 1;", "fn main() {}\n");
    assert!(matches!(r, Err(CheckError::BlockNotFound)));
    let md = doc_with("let x = 1;");
    assert!(matches!(
        get_md_snippets_diff(&md, &vec!["fn main() {}\n".to_string()]),
        Err(CheckError::BlockNotFound)
    ));
}

#[test]
fn hidden_lines_in_snippet_are_left_out() {
    let r = compare_snippet("# fn main() {\nlet x = 1;\n# }", "fn main() {\n    let x = 1;\n}\n");
    assert!(matches!(r, Ok(SnippetOutcome::Match)));
    let r = compare_snippet("# fn main() {\nlet x = 1;\n# }", "fn main() {\nlet x = 1;\n}\n");
    assert!(matches!(r, Ok(SnippetOutcome::Match)));
}

#[test]
fn partly_indented_block_reports_raw_block() {
    let r = compare_snippet("let x = 1;\nlet y = 2;", "    let x = 1;\nlet y = 2;\n").unwrap();
    match r {
        SnippetOutcome::Mismatch(d) => {
            assert_eq!(d.start_line, 1);
            assert_eq!(d.block, "    let x = 1;\nlet y = 2;");
        }
        SnippetOutcome::Match => panic!("expected a mismatch"),
    }
}

#[test]
fn verdict_moves_on() {
    assert_eq!(next_verdict(Verdict::NoSnippets, false), Verdict::Match);
    assert_eq!(next_verdict(Verdict::Match, true), Verdict::Mismatch);
    assert_eq!(next_verdict(Verdict::Mismatch, false), Verdict::Mismatch);
}

#[test]
fn code_path_is_under_crates() {
    assert_eq!(code_file_path("/repo", "floresta/src/lib.rs"), "/repo/crates/floresta/src/lib.rs");
}
