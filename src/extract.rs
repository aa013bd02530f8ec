//! Finding annotated code fences in a markdown document.
//!
//! A fence opens with a line "```rust", its first line inside reads
//! "# // Path: <path>", and it ends at the next line that starts with "```".
use vstd::prelude::*;
use vstd::string::StringExecFns;
use crate::text::{chars_of, join, join_lines, lines, split_lines, starts_with, string_of, views};

verus! {

/// An annotated code block: the source path it names and the text it shows.
pub struct Snippet {
    pub path: String,
    pub body: String,
}

/// The text that opens an annotated fence, up to the path.
pub open spec fn open_marker() -> Seq<char> {
    seq![
        '`', '`', '`', 'r', 'u', 's', 't', '\n', '#', ' ', '/', '/', ' ', 'P', 'a', 't', 'h', ':',
        ' ',
    ]
}

/// The text that closes a fence.
pub open spec fn close_marker() -> Seq<char> {
    seq!['\n', '`', '`', '`']
}

pub open spec fn occurs_at(s: Seq<char>, p: Seq<char>, i: int) -> bool {
    0 <= i && i + p.len() <= s.len() && s.subrange(i, i + p.len()) == p
}

/// The first position at or after `i` where `p` occurs in `s`.
pub open spec fn find_from(s: Seq<char>, p: Seq<char>, i: int) -> Option<int>
    decreases s.len() + 1 - i,
{
    if i < 0 || i + p.len() > s.len() {
        None
    } else if occurs_at(s, p, i) {
        Some(i)
    } else {
        find_from(s, p, i + 1)
    }
}

/// A line that quotes with "> " loses that marker.
pub open spec fn strip_quote(l: Seq<char>) -> Seq<char> {
    if starts_with(l, seq!['>', ' ']) {
        l.skip(2)
    } else {
        l
    }
}

/// The document with the quote marker taken off each line.
pub open spec fn unquoted(md: Seq<char>) -> Seq<char> {
    join(lines(md).map_values(|l: Seq<char>| strip_quote(l)))
}

pub proof fn lemma_find_from(s: Seq<char>, p: Seq<char>, i: int)
    ensures
        find_from(s, p, i) matches Some(j) ==> i <= j && occurs_at(s, p, j),
    decreases s.len() + 1 - i,
{
    if !(i < 0 || i + p.len() > s.len()) && !occurs_at(s, p, i) {
        lemma_find_from(s, p, i + 1);
    }
}

/// The (path, body) pairs of the fences of `s` that open at or after `pos`,
/// in order; after each fence the search goes on past its closing marker.
pub open spec fn fences_from(s: Seq<char>, pos: int) -> Seq<(Seq<char>, Seq<char>)>
    decreases s.len() - pos,
{
    if pos < 0 || pos > s.len() {
        Seq::empty()
    } else {
        match find_from(s, open_marker(), pos) {
            None => Seq::empty(),
            Some(a) => {
                let p0 = a + open_marker().len();
                match find_from(s, seq!['\n'], p0) {
                    None => Seq::empty(),
                    Some(n1) => match find_from(s, close_marker(), n1 + 1) {
                        None => Seq::empty(),
                        Some(q) => {
                            proof {
                                lemma_find_from(s, open_marker(), pos);
                                lemma_find_from(s, seq!['\n'], p0);
                                lemma_find_from(s, close_marker(), n1 + 1);
                            }
                            seq![(s.subrange(p0, n1), s.subrange(n1 + 1, q))] + fences_from(
                                s,
                                q + 4,
                            )
                        },
                    },
                }
            },
        }
    }
}

/// The annotated snippets of a markdown document, in document order.
pub open spec fn snippets_of(md: Seq<char>) -> Seq<(Seq<char>, Seq<char>)> {
    fences_from(unquoted(md), 0)
}

fn occurs(s: &Vec<char>, p: &Vec<char>, i: usize) -> (r: bool)
    ensures
        r == occurs_at(s@, p@, i as int),
{
    if p.len() > s.len() || i > s.len() - p.len() {
        return false;
    }
    let mut j: usize = 0;
    while j < p.len()
        invariant
            i + p.len() <= s.len(),
            j <= p.len(),
            s@.subrange(i as int, i + j) == p@.take(j as int),
        decreases p.len() - j,
    {
        if s[i + j] != p[j] {
            assert(s@.subrange(i as int, i + p.len())[j as int] != p@[j as int]);
            return false;
        }
        assert(s@.subrange(i as int, i + j + 1) =~= s@.subrange(i as int, i + j).push(
            s@[i + j],
        ));
        assert(p@.take(j + 1) =~= p@.take(j as int).push(p@[j as int]));
        j += 1;
    }
    assert(p@.take(p.len() as int) =~= p@);
    true
}

fn find(s: &Vec<char>, p: &Vec<char>, start: usize) -> (r: Option<usize>)
    requires
        p.len() > 0,
    ensures
        r is None <==> find_from(s@, p@, start as int) is None,
        r matches Some(j) ==> find_from(s@, p@, start as int) == Some(j as int),
{
    let mut i: usize = start;
    while i <= s.len() && p.len() <= s.len() - i
        invariant
            p.len() > 0,
            start <= i,
            find_from(s@, p@, start as int) == find_from(s@, p@, i as int),
        decreases s.len() - i,
    {
        if occurs(s, p, i) {
            return Some(i);
        }
        i += 1;
    }
    None
}

fn unquote(md: &str) -> (r: Vec<char>)
    ensures
        r@ == unquoted(md@),
{
    let s = chars_of(md);
    let ls = split_lines(&s);
    let mut out: Vec<Vec<char>> = Vec::new();
    for i in 0..ls.len()
        invariant
            views(ls@) == lines(md@),
            views(out@) == lines(md@).take(i as int).map_values(|l: Seq<char>| strip_quote(l)),
    {
        let line = &ls[i];
        assert(line@ == lines(md@)[i as int]);
        let mut t: Vec<char> = Vec::new();
        let from: usize = if line.len() >= 2 && line[0] == '>' && line[1] == ' ' {
            assert(line@.take(2) =~= seq!['>', ' ']);
            2
        } else {
            assert(line.len() >= 2 ==> line@.take(2)[0] == line@[0] && line@.take(2)[1]
                == line@[1]);
            0
        };
        for j in from..line.len()
            invariant
                from <= line.len(),
                t@ == line@.subrange(from as int, j as int),
        {
            t.push(line[j]);
            assert(line@.subrange(from as int, j + 1) =~= line@.subrange(from as int, j as int).push(
                line@[j as int],
            ));
        }
        assert(t@ =~= strip_quote(line@));
        let ghost o0 = views(out@);
        let ghost tv = t@;
        out.push(t);
        assert(views(out@) =~= o0.push(tv));
        assert(lines(md@).take(i + 1) =~= lines(md@).take(i as int).push(line@));
        assert(views(out@) =~= lines(md@).take(i + 1).map_values(|l: Seq<char>| strip_quote(l)));
    }
    assert(lines(md@).take(ls.len() as int) =~= lines(md@));
    join_lines(&out)
}

fn copy_range(s: &Vec<char>, a: usize, b: usize) -> (r: String)
    requires
        a <= b <= s.len(),
    ensures
        r@ == s@.subrange(a as int, b as int),
{
    let mut t: Vec<char> = Vec::new();
    for j in a..b
        invariant
            a <= b <= s.len(),
            t@ == s@.subrange(a as int, j as int),
    {
        t.push(s[j]);
        assert(s@.subrange(a as int, j + 1) =~= s@.subrange(a as int, j as int).push(s@[j as int]));
    }
    string_of(&t)
}

/// The annotated snippets of `md_file`, in the order in which they appear.
pub fn extract_snippets(md_file: &str) -> (r: Vec<Snippet>)
    ensures
        r.len() == snippets_of(md_file@).len(),
        forall|i: int|
            0 <= i < r.len() ==> (#[trigger] r[i]).path@ == snippets_of(md_file@)[i].0
                && r[i].body@ == snippets_of(md_file@)[i].1,
{
    let s = unquote(md_file);
    let open: Vec<char> = vec![
        '`', '`', '`', 'r', 'u', 's', 't', '\n', '#', ' ', '/', '/', ' ', 'P', 'a', 't', 'h', ':',
        ' ',
    ];
    let newline: Vec<char> = vec!['\n'];
    let close: Vec<char> = vec!['\n', '`', '`', '`'];
    assert(open@ =~= open_marker());
    assert(newline@ =~= seq!['\n']);
    assert(close@ =~= close_marker());
    let ghost all = fences_from(s@, 0);
    let mut out: Vec<Snippet> = Vec::new();
    let mut pos: usize = 0;
    loop
        invariant
            s@ == unquoted(md_file@),
            all == fences_from(s@, 0),
            open@ == open_marker(),
            newline@ == seq!['\n'],
            close@ == close_marker(),
            pos <= s.len(),
            all == seq_of_snippets(out@) + fences_from(s@, pos as int),
        ensures
            fences_from(s@, pos as int) == Seq::<(Seq<char>, Seq<char>)>::empty(),
        decreases s.len() - pos,
    {
        let a = match find(&s, &open, pos) {
            None => break,
            Some(a) => a,
        };
        proof {
            lemma_find_from(s@, open@, pos as int);
        }
        let p0 = a + open.len();
        let n1 = match find(&s, &newline, p0) {
            None => break,
            Some(n1) => n1,
        };
        proof {
            lemma_find_from(s@, newline@, p0 as int);
        }
        let q = match find(&s, &close, n1 + 1) {
            None => break,
            Some(q) => q,
        };
        proof {
            lemma_find_from(s@, close@, n1 + 1);
        }
        let snip = Snippet { path: copy_range(&s, p0, n1), body: copy_range(&s, n1 + 1, q) };
        let ghost o0 = seq_of_snippets(out@);
        let ghost item = (snip.path@, snip.body@);
        out.push(snip);
        assert(seq_of_snippets(out@) =~= o0.push(item));
        assert(fences_from(s@, pos as int) == seq![item] + fences_from(s@, q + 4));
        assert(o0.push(item) + fences_from(s@, q + 4) =~= o0 + (seq![item] + fences_from(
            s@,
            q + 4,
        )));
        pos = q + 4;
    }
    assert(fences_from(s@, pos as int) =~= Seq::empty());
    assert(all =~= seq_of_snippets(out@));
    out
}

/// Where the file that a snippet names lives: `<code_dir>/crates/<snippet_path>`.
pub fn code_file_path(code_dir: &str, snippet_path: &str) -> (r: String)
    ensures
        r@ == code_dir@ + "/crates/"@ + snippet_path@,
{
    let mut r = String::from_str(code_dir);
    r.append("/crates/");
    r.append(snippet_path);
    r
}

/// The (path, body) pairs that a vector of snippets holds.
pub open spec fn seq_of_snippets(v: Seq<Snippet>) -> Seq<(Seq<char>, Seq<char>)> {
    v.map_values(|x: Snippet| (x.path@, x.body@))
}

} // verus!
