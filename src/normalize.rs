//! Canonical forms: dropping comment and blank lines, hidden-line markers,
//! and one level of indentation shared by every line.
use vstd::prelude::*;
use crate::text::{
    chars_of, join, join_lines, leading_ws, lines, split_lines, starts_with,
    string_of, trim_start, trim_start_index, views,
};

verus! {

/// A line whose first non-blank character is `#` not followed by `[`
/// (a hidden-line marker, as opposed to an attribute).
pub open spec fn is_directive(l: Seq<char>) -> bool {
    let t = trim_start(l);
    t.len() > 0 && t[0] == '#' && !(t.len() > 1 && t[1] == '[')
}

/// A hidden-line marker line keeps only what precedes the `#` (its leading
/// blanks), so that it reads as blank; any other line stays as it is.
pub open spec fn strip_directive(l: Seq<char>) -> Seq<char> {
    if is_directive(l) {
        l.take(leading_ws(l) as int)
    } else {
        l
    }
}

/// A line that is neither blank nor a `//` comment.
pub open spec fn is_meaningful(l: Seq<char>) -> bool {
    let t = trim_start(l);
    t.len() > 0 && !starts_with(t, seq!['/', '/'])
}

/// The meaningful lines of `ls`, in order.
pub open spec fn meaningful_lines(ls: Seq<Seq<char>>) -> Seq<Seq<char>>
    decreases ls.len(),
{
    if ls.len() == 0 {
        Seq::empty()
    } else {
        let p = meaningful_lines(ls.drop_last());
        if is_meaningful(ls.last()) {
            p.push(ls.last())
        } else {
            p
        }
    }
}

/// The lines of `s` with markers removed, then only the meaningful ones.
pub open spec fn clean_lines(s: Seq<char>) -> Seq<Seq<char>> {
    meaningful_lines(lines(s).map_values(|l: Seq<char>| strip_directive(l)))
}

/// What `strip_comments` returns for `s`.
pub open spec fn stripped(s: Seq<char>) -> Seq<char> {
    join(clean_lines(s))
}

/// The unit of indentation: four spaces.
pub open spec fn indent_unit() -> Seq<char> {
    seq![' ', ' ', ' ', ' ']
}

pub open spec fn all_indented(ls: Seq<Seq<char>>) -> bool {
    forall|i: int| 0 <= i < ls.len() ==> starts_with(#[trigger] ls[i], indent_unit())
}

/// What `remove_identation` returns for `s`: every line less one indentation
/// unit, or `None` as soon as one line lacks it.
pub open spec fn deindented(s: Seq<char>) -> Option<Seq<char>> {
    let ls = lines(s);
    if all_indented(ls) {
        Some(join(ls.map_values(|l: Seq<char>| l.skip(4))))
    } else {
        None
    }
}

pub proof fn lemma_meaningful_len(ls: Seq<Seq<char>>)
    ensures
        meaningful_lines(ls).len() <= ls.len(),
        forall|i: int|
            0 <= i < meaningful_lines(ls).len() ==> is_meaningful(
                #[trigger] meaningful_lines(ls)[i],
            ),
    decreases ls.len(),
{
    if ls.len() > 0 {
        lemma_meaningful_len(ls.drop_last());
    }
}

pub fn is_meaningful_line(l: &Vec<char>) -> (r: bool)
    ensures
        r == is_meaningful(l@),
{
    let k = trim_start_index(l);
    let n = l.len();
    let ghost t = trim_start(l@);
    assert(t.len() == n - k);
    if k == n {
        false
    } else if k + 1 < n && l[k] == '/' && l[k + 1] == '/' {
        assert(t[0] == l@[k as int] && t[1] == l@[k + 1]);
        assert(t.take(2) =~= seq!['/', '/']);
        false
    } else {
        assert(t.len() >= 2 ==> t[0] == l@[k as int] && t[1] == l@[k + 1]);
        assert(t.len() >= 2 ==> t.take(2)[0] == t[0] && t.take(2)[1] == t[1]);
        true
    }
}

fn strip_directive_line(l: &Vec<char>) -> (r: Vec<char>)
    ensures
        r@ == strip_directive(l@),
{
    let k = trim_start_index(l);
    let n = l.len();
    let ghost t = trim_start(l@);
    if k < n && l[k] == '#' && !(k + 1 < n && l[k + 1] == '[') {
        assert(t[0] == l@[k as int]);
        assert(t.len() > 1 ==> t[1] == l@[k + 1]);
        let mut r: Vec<char> = Vec::new();
        for i in 0..k
            invariant
                k < n == l.len(),
                r@ == l@.take(i as int),
        {
            r.push(l[i]);
            assert(l@.take(i + 1) =~= l@.take(i as int).push(l@[i as int]));
        }
        r
    } else {
        assert(!is_directive(l@));
        l.clone()
    }
}

fn clean_line_vec(s: &Vec<char>) -> (r: Vec<Vec<char>>)
    ensures
        views(r@) == clean_lines(s@),
{
    let ls = split_lines(s);
    let ghost marked = lines(s@).map_values(|l: Seq<char>| strip_directive(l));
    let mut r: Vec<Vec<char>> = Vec::new();
    for i in 0..ls.len()
        invariant
            views(ls@) == lines(s@),
            marked == lines(s@).map_values(|l: Seq<char>| strip_directive(l)),
            views(r@) == meaningful_lines(marked.take(i as int)),
    {
        let m = strip_directive_line(&ls[i]);
        let ghost t1 = marked.take(i + 1);
        assert(ls@[i as int]@ == views(ls@)[i as int]);
        assert(t1.drop_last() =~= marked.take(i as int));
        assert(t1.last() == m@);
        if is_meaningful_line(&m) {
            let ghost r0 = views(r@);
            let ghost m0 = m@;
            r.push(m);
            assert(views(r@) =~= r0.push(m0));
        }
    }
    assert(marked.take(ls.len() as int) =~= marked);
    r
}

/// Removes comment lines, blank lines and hidden-line markers from `code`.
pub fn strip_comments(code: &str) -> (r: String)
    ensures
        r@ == stripped(code@),
{
    let s = chars_of(code);
    let ls = clean_line_vec(&s);
    let j = join_lines(&ls);
    string_of(&j)
}

/// Removes four leading spaces from every line of `block`, or returns `None`
/// (leaving nothing changed) when some line does not start with them.
pub fn remove_identation(block: &str) -> (r: Option<String>)
    ensures
        r is None <==> exists|i: int|
            0 <= i < lines(block@).len() && !starts_with(#[trigger] lines(block@)[i], indent_unit()),
        r is None <==> deindented(block@) is None,
        r matches Some(x) ==> deindented(block@) == Some(x@),
{
    let s = chars_of(block);
    let ls = split_lines(&s);
    let mut out: Vec<Vec<char>> = Vec::new();
    for i in 0..ls.len()
        invariant
            views(ls@) == lines(block@),
            views(out@) == lines(block@).take(i as int).map_values(|l: Seq<char>| l.skip(4)),
            all_indented(lines(block@).take(i as int)),
    {
        let line = &ls[i];
        assert(line@ == lines(block@)[i as int]);
        if !(line.len() >= 4 && line[0] == ' ' && line[1] == ' ' && line[2] == ' ' && line[3]
            == ' ') {
            assert(!starts_with(lines(block@)[i as int], indent_unit())) by {
                if line.len() >= 4 {
                    assert(line@.take(4)[0] == line@[0] && line@.take(4)[1] == line@[1]);
                    assert(line@.take(4)[2] == line@[2] && line@.take(4)[3] == line@[3]);
                }
            }
            return None;
        }
        assert(line@.take(4) =~= indent_unit());
        let mut t: Vec<char> = Vec::new();
        for j in 4..line.len()
            invariant
                4 <= line.len(),
                t@ == line@.subrange(4, j as int),
        {
            t.push(line[j]);
            assert(line@.subrange(4, j + 1) =~= line@.subrange(4, j as int).push(line@[j as int]));
        }
        assert(t@ =~= line@.skip(4));
        let ghost o0 = views(out@);
        let ghost tv = t@;
        out.push(t);
        assert(views(out@) =~= o0.push(tv));
        assert(lines(block@).take(i + 1) =~= lines(block@).take(i as int).push(line@));
        assert(views(out@) =~= lines(block@).take(i + 1).map_values(|l: Seq<char>| l.skip(4)));
        assert(all_indented(lines(block@).take(i + 1))) by {
            assert forall|k: int| 0 <= k < i + 1 implies starts_with(
                #[trigger] lines(block@).take(i + 1)[k],
                indent_unit(),
            ) by {
                if k < i {
                    assert(lines(block@).take(i + 1)[k] == lines(block@).take(i as int)[k]);
                }
            }
        }
    }
    assert(lines(block@).take(ls.len() as int) =~= lines(block@));
    let j = join_lines(&out);
    Some(string_of(&j))
}

} // verus!
