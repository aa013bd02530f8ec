//! Facts about the checker as a whole, proved from the definitions that the
//! functions' contracts use.
use vstd::prelude::*;
use crate::compare::{compared, CheckError};
use crate::document::{mismatch_flags, verdict_of, Verdict};
use crate::extract::{fences_from, find_from, occurs_at, open_marker, snippets_of, unquoted};
use crate::locate::{first_anchor, first_nonblank, located};
use crate::normalize::{
    clean_lines, deindented, is_directive, is_meaningful, lemma_meaningful_len, meaningful_lines,
    strip_directive, stripped,
};
use crate::normalize::indent_unit;
use crate::text::{
    drop_cr, is_ws, join, leading_ws, lemma_leading_ws, lemma_segments_nonempty, lines, segments,
    starts_with, trim, trim_start,
};

verus! {

proof fn lemma_find_none(s: Seq<char>, p: Seq<char>, i: int)
    requires
        forall|j: int| i <= j ==> !occurs_at(s, p, j),
    ensures
        find_from(s, p, i) is None,
    decreases s.len() + 1 - i,
{
    if !(i < 0 || i + p.len() > s.len()) {
        lemma_find_none(s, p, i + 1);
    }
}

proof fn lemma_first_anchor_bound(ls: Seq<Seq<char>>, key: Seq<char>, i: int)
    requires
        0 <= i <= ls.len(),
    ensures
        i <= first_anchor(ls, key, i),
    decreases ls.len() - i,
{
    if i < ls.len() && trim(ls[i]) != key {
        lemma_first_anchor_bound(ls, key, i + 1);
    }
}

/// The verdict of a run of snippets is `NoSnippets` exactly when there were
/// none, `Mismatch` exactly when one of them differed, and `Match` otherwise.
pub proof fn lemma_verdict_of(flags: Seq<bool>)
    ensures
        verdict_of(flags) == Verdict::NoSnippets <==> flags.len() == 0,
        verdict_of(flags) == Verdict::Mismatch <==> exists|i: int|
            0 <= i < flags.len() && #[trigger] flags[i],
        verdict_of(flags) == Verdict::Match <==> flags.len() > 0 && forall|i: int|
            0 <= i < flags.len() ==> !#[trigger] flags[i],
    decreases flags.len(),
{
    if flags.len() > 0 {
        let p = flags.drop_last();
        lemma_verdict_of(p);
        assert(forall|i: int| 0 <= i < p.len() ==> p[i] == flags[i]);
        if verdict_of(flags) == Verdict::Mismatch && !flags.last() {
            let i = choose|i: int| 0 <= i < p.len() && #[trigger] p[i];
            assert(flags[i]);
        }
        if exists|i: int| 0 <= i < flags.len() && #[trigger] flags[i] {
            let i = choose|i: int| 0 <= i < flags.len() && #[trigger] flags[i];
            if i < p.len() {
                assert(p[i]);
            }
        }
    }
}

/// A document in which the opening of an annotated fence never occurs (once
/// quote markers are removed) has no snippets, and its verdict is `NoSnippets`.
pub proof fn lemma_no_fence_no_snippets(md: Seq<char>)
    requires
        forall|i: int| !occurs_at(unquoted(md), open_marker(), i),
    ensures
        snippets_of(md).len() == 0,
        verdict_of(mismatch_flags(md, Seq::empty())) == Verdict::NoSnippets,
{
    lemma_find_none(unquoted(md), open_marker(), 0);
    assert(fences_from(unquoted(md), 0) =~= Seq::empty());
    lemma_verdict_of(mismatch_flags(md, Seq::empty()));
}

/// A snippet whose cleaned text equals the block located for it matches.
pub proof fn lemma_equal_block_matches(snippet: Seq<char>, code: Seq<char>, line: nat)
    requires
        deindented(stripped(snippet)) is None,
        located(code, stripped(snippet)) == Some((line, stripped(snippet))),
    ensures
        compared(snippet, code) == Ok::<Option<(nat, Seq<char>, Seq<char>)>, CheckError>(None),
{
    reveal(compared);
}

/// A snippet equal to its located block once one indentation unit is taken
/// off every line of the block matches.
pub proof fn lemma_indented_block_matches(
    snippet: Seq<char>,
    code: Seq<char>,
    line: nat,
    block: Seq<char>,
)
    requires
        deindented(stripped(snippet)) is None,
        located(code, stripped(snippet)) == Some((line, block)),
        deindented(block) == Some(stripped(snippet)),
    ensures
        compared(snippet, code) == Ok::<Option<(nat, Seq<char>, Seq<char>)>, CheckError>(None),
{
    reveal(compared);
}

/// A snippet that differs from its located block, also once the block is
/// de-indented, is a mismatch reported at the 1-based number of the file line
/// that anchors the block: the first whose trimmed text is the snippet's first
/// non-blank line, trimmed; for cleaned lines that, but for the last, end in no
/// carriage return, that is the snippet's first kept line.
pub proof fn lemma_differing_block_mismatches(
    snippet: Seq<char>,
    code: Seq<char>,
    line: nat,
    block: Seq<char>,
)
    requires
        deindented(stripped(snippet)) is None,
        located(code, stripped(snippet)) == Some((line, block)),
        block != stripped(snippet),
        deindented(block) != Some(stripped(snippet)),
    ensures
        compared(snippet, code) is Ok,
        compared(snippet, code)->Ok_0 is Some,
        compared(snippet, code)->Ok_0->Some_0.0 == line,
        line == first_anchor(
            lines(code),
            trim(lines(stripped(snippet))[first_nonblank(lines(stripped(snippet)), 0)]),
            0,
        ) + 1,
        (forall|i: int|
            0 <= i < clean_lines(snippet).len() - 1 ==> drop_cr(#[trigger] clean_lines(snippet)[i])
                == clean_lines(snippet)[i]) ==> line == first_anchor(
            lines(code),
            trim(clean_lines(snippet)[0]),
            0,
        ) + 1,
{
    reveal(compared);
    let sl = lines(stripped(snippet));
    let k = first_nonblank(sl, 0);
    assert(k < sl.len());
    let a = first_anchor(lines(code), trim(sl[k]), 0);
    assert(a < lines(code).len());
    lemma_first_anchor_bound(lines(code), trim(sl[k]), 0);
    assert(located(code, stripped(snippet)) == Some(((a + 1) as nat, block)));
    assert(line == a + 1);
    if forall|i: int|
        0 <= i < clean_lines(snippet).len() - 1 ==> drop_cr(#[trigger] clean_lines(snippet)[i])
            == clean_lines(snippet)[i] {
        if clean_lines(snippet).len() == 0 {
            assert(stripped(snippet) =~= Seq::<char>::empty());
            assert(lines(stripped(snippet)) =~= Seq::<Seq<char>>::empty());
        }
        lemma_anchor_is_first_clean_line(snippet);
    }
}

pub open spec fn no_newline(l: Seq<char>) -> bool {
    forall|i: int| 0 <= i < l.len() ==> l[i] != '\n'
}

proof fn lemma_segments_no_newline(s: Seq<char>)
    ensures
        forall|i: int|
            0 <= i < segments(s).len() ==> no_newline(#[trigger] segments(s)[i]),
    decreases s.len(),
{
    lemma_segments_nonempty(s);
    if s.len() > 0 {
        lemma_segments_no_newline(s.drop_last());
        lemma_segments_nonempty(s.drop_last());
        let p = segments(s.drop_last());
        if s.last() != '\n' {
            assert forall|i: int| 0 <= i < segments(s).len() implies no_newline(
                #[trigger] segments(s)[i],
            ) by {
                if i == p.len() - 1 {
                    assert(segments(s)[i] == p.last().push(s.last()));
                    assert(no_newline(p[i]));
                } else {
                    assert(segments(s)[i] == p[i]);
                }
            }
        } else {
            assert forall|i: int| 0 <= i < segments(s).len() implies no_newline(
                #[trigger] segments(s)[i],
            ) by {
                if i < p.len() {
                    assert(segments(s)[i] == p[i]);
                }
            }
        }
    }
}

proof fn lemma_lines_no_newline(s: Seq<char>)
    ensures
        forall|i: int| 0 <= i < lines(s).len() ==> no_newline(#[trigger] lines(s)[i]),
{
    lemma_segments_no_newline(s);
    lemma_segments_nonempty(s);
    let segs = segments(s);
    assert forall|i: int| 0 <= i < lines(s).len() implies no_newline(#[trigger] lines(s)[i]) by {
        assert(no_newline(segs[i]));
        if i < segs.len() - 1 {
            assert(lines(s)[i] == drop_cr(segs[i]));
        } else {
            assert(lines(s)[i] == segs[i]);
        }
    }
}

proof fn lemma_leading_ws_all(l: Seq<char>)
    ensures
        leading_ws(l) <= l.len(),
        forall|j: int| 0 <= j < leading_ws(l) ==> is_ws(#[trigger] l[j]),
    decreases l.len(),
{
    if l.len() > 0 && is_ws(l[0]) {
        let t = l.drop_first();
        lemma_leading_ws_all(t);
        assert forall|j: int| 0 <= j < leading_ws(l) implies is_ws(#[trigger] l[j]) by {
            if j > 0 {
                assert(l[j] == t[j - 1]);
            }
        }
    }
}

/// What is left of a hidden-line marker line is blank, so it is never kept.
proof fn lemma_directive_not_meaningful(l: Seq<char>)
    requires
        is_directive(l),
    ensures
        !is_meaningful(strip_directive(l)),
{
    lemma_leading_ws_all(l);
    let k = leading_ws(l) as int;
    let p = l.take(k);
    lemma_leading_ws(p, k);
}

proof fn lemma_meaningful_from(ls: Seq<Seq<char>>)
    ensures
        forall|i: int|
            0 <= i < meaningful_lines(ls).len() ==> exists|j: int|
                0 <= j < ls.len() && #[trigger] meaningful_lines(ls)[i] == ls[j],
    decreases ls.len(),
{
    if ls.len() > 0 {
        let p = ls.drop_last();
        lemma_meaningful_from(p);
        assert forall|i: int| 0 <= i < meaningful_lines(ls).len() implies exists|j: int|
            0 <= j < ls.len() && #[trigger] meaningful_lines(ls)[i] == ls[j] by {
            if i < meaningful_lines(p).len() {
                let j = choose|j: int| 0 <= j < p.len() && meaningful_lines(p)[i] == p[j];
                assert(meaningful_lines(ls)[i] == ls[j]);
            } else {
                assert(meaningful_lines(ls)[i] == ls[ls.len() - 1]);
            }
        }
    }
}

proof fn lemma_meaningful_all(ls: Seq<Seq<char>>)
    requires
        forall|i: int| 0 <= i < ls.len() ==> is_meaningful(#[trigger] ls[i]),
    ensures
        meaningful_lines(ls) == ls,
    decreases ls.len(),
{
    if ls.len() > 0 {
        lemma_meaningful_all(ls.drop_last());
        assert(ls.drop_last().push(ls.last()) =~= ls);
    }
}

proof fn lemma_segments_extend(y: Seq<char>, t: Seq<char>)
    requires
        no_newline(t),
    ensures
        segments(y + t) == segments(y).update(
            segments(y).len() - 1,
            segments(y).last() + t,
        ),
    decreases t.len(),
{
    lemma_segments_nonempty(y);
    if t.len() == 0 {
        assert(y + t =~= y);
        assert(segments(y).last() + t =~= segments(y).last());
        assert(segments(y).update(segments(y).len() - 1, segments(y).last()) =~= segments(y));
    } else {
        let t0 = t.drop_last();
        lemma_segments_extend(y, t0);
        assert((y + t).drop_last() =~= y + t0);
        assert((y + t).last() == t.last());
        assert(t[t.len() - 1] != '\n');
        let sy = segments(y);
        let pp = segments(y + t0);
        assert(pp.len() == sy.len());
        assert(pp.last() == sy.last() + t0);
        assert(segments(y + t) == pp.update(pp.len() - 1, pp.last().push(t.last())));
        assert((sy.last() + t0).push(t.last()) =~= sy.last() + t);
        assert(segments(y + t) =~= segments(y).update(
            segments(y).len() - 1,
            segments(y).last() + t,
        ));
    }
}

proof fn lemma_segments_join(ks: Seq<Seq<char>>)
    requires
        ks.len() > 0,
        forall|i: int| 0 <= i < ks.len() ==> no_newline(#[trigger] ks[i]),
    ensures
        segments(join(ks)) == ks,
    decreases ks.len(),
{
    if ks.len() == 1 {
        lemma_segments_extend(Seq::empty(), ks[0]);
        assert(Seq::<char>::empty() + ks[0] =~= ks[0]);
        assert(segments(join(ks)) =~= ks);
    } else {
        let p = ks.drop_last();
        assert(forall|i: int| 0 <= i < p.len() ==> p[i] == ks[i]);
        lemma_segments_join(p);
        let x = join(p) + seq!['\n'];
        assert(x.drop_last() =~= join(p));
        lemma_segments_nonempty(join(p));
        assert(segments(x) == segments(join(p)).push(Seq::<char>::empty()));
        lemma_segments_extend(x, ks.last());
        assert(Seq::<char>::empty() + ks.last() =~= ks.last());
        assert(segments(join(ks)) =~= ks);
    }
}

/// Splitting joined lines into lines gives them back, when none holds a
/// newline, none but the last ends in a carriage return, and the last is not
/// empty.
pub proof fn lemma_lines_join(ks: Seq<Seq<char>>)
    requires
        forall|i: int| 0 <= i < ks.len() ==> no_newline(#[trigger] ks[i]),
        forall|i: int| 0 <= i < ks.len() - 1 ==> drop_cr(#[trigger] ks[i]) == ks[i],
        ks.len() > 0 ==> ks.last().len() > 0,
    ensures
        lines(join(ks)) == ks,
{
    if ks.len() == 0 {
        assert(lines(join(ks)) =~= ks);
    } else {
        lemma_segments_join(ks);
        assert(lines(join(ks)) =~= ks);
    }
}

/// Stripping comments from text whose comments were already stripped leaves
/// it as it is, provided no kept line but the last ends in a carriage return
/// (a line ending that the second pass would drop).
pub proof fn lemma_strip_comments_idempotent(s: Seq<char>)
    requires
        forall|i: int|
            0 <= i < clean_lines(s).len() - 1 ==> drop_cr(#[trigger] clean_lines(s)[i])
                == clean_lines(s)[i],
    ensures
        stripped(stripped(s)) == stripped(s),
{
    let ks = clean_lines(s);
    lemma_clean_lines(s);
    lemma_lines_join(ks);
    let again = lines(join(ks)).map_values(|l: Seq<char>| strip_directive(l));
    assert(again =~= ks);
    lemma_meaningful_all(ks);
}

/// Every kept line is meaningful, holds no newline and is no hidden-line marker.
pub proof fn lemma_clean_lines(s: Seq<char>)
    ensures
        forall|i: int|
            0 <= i < clean_lines(s).len() ==> {
                &&& is_meaningful(#[trigger] clean_lines(s)[i])
                &&& no_newline(clean_lines(s)[i])
                &&& !is_directive(clean_lines(s)[i])
                &&& clean_lines(s)[i].len() > 0
            },
{
    let marked = lines(s).map_values(|l: Seq<char>| strip_directive(l));
    let ks = clean_lines(s);
    lemma_meaningful_len(marked);
    lemma_meaningful_from(marked);
    lemma_lines_no_newline(s);
    assert forall|i: int| 0 <= i < ks.len() implies {
        &&& is_meaningful(#[trigger] ks[i])
        &&& no_newline(ks[i])
        &&& !is_directive(ks[i])
        &&& ks[i].len() > 0
    } by {
        let j = choose|j: int| 0 <= j < marked.len() && ks[i] == marked[j];
        if is_directive(lines(s)[j]) {
            lemma_directive_not_meaningful(lines(s)[j]);
        }
        assert(ks[i] == lines(s)[j]);
        assert(trim_start(ks[i]).len() > 0);
    }
}

/// Each line with one indentation unit put in front.
pub open spec fn indented(ks: Seq<Seq<char>>) -> Seq<Seq<char>> {
    ks.map_values(|l: Seq<char>| indent_unit() + l)
}

/// Taking one indentation unit off every line undoes putting one in front of
/// every line, for lines that hold no newline and, but for the last, end in no
/// carriage return.
pub proof fn lemma_deindent_round_trip(ks: Seq<Seq<char>>)
    requires
        forall|i: int| 0 <= i < ks.len() ==> no_newline(#[trigger] ks[i]),
        forall|i: int| 0 <= i < ks.len() - 1 ==> drop_cr(#[trigger] ks[i]) == ks[i],
    ensures
        deindented(join(indented(ks))) == Some(join(ks)),
{
    let iks = indented(ks);
    assert forall|i: int| 0 <= i < iks.len() implies no_newline(#[trigger] iks[i]) by {
        assert forall|j: int| 0 <= j < iks[i].len() implies iks[i][j] != '\n' by {
            if j >= 4 {
                assert(iks[i][j] == ks[i][j - 4]);
            }
        }
    }
    assert forall|i: int| 0 <= i < iks.len() - 1 implies drop_cr(#[trigger] iks[i]) == iks[i] by {
        if ks[i].len() > 0 {
            assert(iks[i].last() == ks[i].last());
        }
    }
    lemma_lines_join(iks);
    assert forall|i: int| 0 <= i < iks.len() implies starts_with(#[trigger] iks[i], indent_unit()) by {
        assert(iks[i].take(4) =~= indent_unit());
    }
    assert forall|i: int| 0 <= i < iks.len() implies #[trigger] iks[i].skip(4) == ks[i] by {
        assert(iks[i].skip(4) =~= ks[i]);
    }
    assert(iks.map_values(|l: Seq<char>| l.skip(4)) =~= ks);
}

/// A snippet whose source block is the snippet, cleaned, with one indentation
/// unit in front of every line, matches (for cleaned lines that, but for the
/// last, end in no carriage return).
pub proof fn lemma_uniformly_indented_block_matches(snippet: Seq<char>, code: Seq<char>, line: nat)
    requires
        deindented(stripped(snippet)) is None,
        forall|i: int|
            0 <= i < clean_lines(snippet).len() - 1 ==> drop_cr(#[trigger] clean_lines(snippet)[i])
                == clean_lines(snippet)[i],
        located(code, stripped(snippet)) == Some((line, join(indented(clean_lines(snippet))))),
    ensures
        compared(snippet, code) == Ok::<Option<(nat, Seq<char>, Seq<char>)>, CheckError>(None),
{
    lemma_clean_lines(snippet);
    lemma_deindent_round_trip(clean_lines(snippet));
    lemma_indented_block_matches(snippet, code, line, join(indented(clean_lines(snippet))));
}

/// The lines of a cleaned snippet are its kept lines, so the anchor of its
/// block is its first kept line (for kept lines that, but for the last, end in
/// no carriage return).
pub proof fn lemma_anchor_is_first_clean_line(snippet: Seq<char>)
    requires
        clean_lines(snippet).len() > 0,
        forall|i: int|
            0 <= i < clean_lines(snippet).len() - 1 ==> drop_cr(#[trigger] clean_lines(snippet)[i])
                == clean_lines(snippet)[i],
    ensures
        lines(stripped(snippet)) == clean_lines(snippet),
        first_nonblank(lines(stripped(snippet)), 0) == 0,
{
    lemma_clean_lines(snippet);
    lemma_lines_join(clean_lines(snippet));
    assert(is_meaningful(clean_lines(snippet)[0]));
}

} // verus!
