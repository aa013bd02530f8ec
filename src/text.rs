//! Text as sequences of characters: splitting into lines, joining lines,
//! and trimming whitespace, each with the meaning that Rust's `str` gives it.
use vstd::prelude::*;

verus! {

/// The characters that carry the Unicode `White_Space` property.
pub open spec fn is_ws(c: char) -> bool {
    ('\t' <= c && c <= '\r') || c == ' ' || c == '\u{85}' || c == '\u{a0}' || c == '\u{1680}'
        || ('\u{2000}' <= c && c <= '\u{200a}') || c == '\u{2028}' || c == '\u{2029}'
        || c == '\u{202f}' || c == '\u{205f}' || c == '\u{3000}'
}

/// Number of whitespace characters at the start of `l`.
pub open spec fn leading_ws(l: Seq<char>) -> nat
    decreases l.len(),
{
    if l.len() == 0 || !is_ws(l[0]) {
        0
    } else {
        1 + leading_ws(l.drop_first())
    }
}

/// Number of whitespace characters at the end of `l`.
pub open spec fn trailing_ws(l: Seq<char>) -> nat
    decreases l.len(),
{
    if l.len() == 0 || !is_ws(l.last()) {
        0
    } else {
        1 + trailing_ws(l.drop_last())
    }
}

pub open spec fn trim_start(l: Seq<char>) -> Seq<char> {
    l.skip(leading_ws(l) as int)
}

pub open spec fn trim_end(l: Seq<char>) -> Seq<char> {
    l.take(l.len() - trailing_ws(l))
}

pub open spec fn trim(l: Seq<char>) -> Seq<char> {
    trim_end(trim_start(l))
}

pub open spec fn starts_with(l: Seq<char>, p: Seq<char>) -> bool {
    p.len() <= l.len() && l.take(p.len() as int) == p
}

/// The pieces of `s` between newline characters; there is always at least one.
pub open spec fn segments(s: Seq<char>) -> Seq<Seq<char>>
    decreases s.len(),
{
    if s.len() == 0 {
        seq![Seq::<char>::empty()]
    } else {
        let p = segments(s.drop_last());
        if s.last() == '\n' {
            p.push(Seq::<char>::empty())
        } else {
            p.update(p.len() - 1, p.last().push(s.last()))
        }
    }
}

/// A line that was ended by a newline loses one carriage return before it.
pub open spec fn drop_cr(l: Seq<char>) -> Seq<char> {
    if l.len() > 0 && l.last() == '\r' {
        l.drop_last()
    } else {
        l
    }
}

/// The lines of `s`: split at `\n` or `\r\n`; a final line ending adds no empty line.
pub open spec fn lines(s: Seq<char>) -> Seq<Seq<char>> {
    let segs = segments(s);
    let ended = segs.drop_last().map_values(|l: Seq<char>| drop_cr(l));
    if segs.last().len() == 0 {
        ended
    } else {
        ended.push(segs.last())
    }
}

/// The lines of `ls` with a newline between each two of them.
pub open spec fn join(ls: Seq<Seq<char>>) -> Seq<char>
    decreases ls.len(),
{
    if ls.len() == 0 {
        Seq::empty()
    } else if ls.len() == 1 {
        ls[0]
    } else {
        join(ls.drop_last()) + seq!['\n'] + ls.last()
    }
}

/// The character sequences that a vector of lines holds.
pub open spec fn views(v: Seq<Vec<char>>) -> Seq<Seq<char>> {
    v.map_values(|l: Vec<char>| l@)
}

pub proof fn lemma_segments_nonempty(s: Seq<char>)
    ensures
        segments(s).len() >= 1,
    decreases s.len(),
{
    if s.len() > 0 {
        lemma_segments_nonempty(s.drop_last());
    }
}

pub fn is_ws_char(c: char) -> (r: bool)
    ensures
        r == is_ws(c),
{
    ('\t' <= c && c <= '\r') || c == ' ' || c == '\u{85}' || c == '\u{a0}' || c == '\u{1680}'
        || ('\u{2000}' <= c && c <= '\u{200a}') || c == '\u{2028}' || c == '\u{2029}'
        || c == '\u{202f}' || c == '\u{205f}' || c == '\u{3000}'
}

/// The characters of `s`, in order.
pub fn chars_of(s: &str) -> (r: Vec<char>)
    ensures
        r@ == s@,
{
    let mut r: Vec<char> = Vec::new();
    for c in it: s.chars()
        invariant
            r@ == it.seq().take(it.index() as int),
            it.seq() == s@,
    {
        r.push(c);
    }
    r
}


/// Relies on std's `String: FromIterator<&char>`: the string holds the given characters in order.
#[verifier::external_body]
pub(crate) fn string_of(v: &Vec<char>) -> (r: String)
    ensures
        r@ == v@,
{
    v.iter().collect()
}

pub fn push_all(r: &mut Vec<char>, l: &Vec<char>)
    ensures
        final(r)@ == old(r)@ + l@,
{
    let ghost r0 = r@;
    for i in 0..l.len()
        invariant
            r@ == r0 + l@.take(i as int),
    {
        r.push(l[i]);
        assert(l@.take(i + 1) == l@.take(i as int).push(l@[i as int]));
    }
    assert(l@.take(l.len() as int) == l@);
}

fn drop_cr_vec(l: &mut Vec<char>)
    ensures
        final(l)@ == drop_cr(old(l)@),
{
    let n = l.len();
    if n > 0 && l[n - 1] == '\r' {
        l.pop();
    }
}

/// Splits `s` into its lines.
pub fn split_lines(s: &Vec<char>) -> (r: Vec<Vec<char>>)
    ensures
        views(r@) == lines(s@),
{
    let mut done: Vec<Vec<char>> = Vec::new();
    let mut cur: Vec<char> = Vec::new();
    for i in 0..s.len()
        invariant
            segments(s@.take(i as int)).len() >= 1,
            views(done@) == segments(s@.take(i as int)).drop_last().map_values(
                |l: Seq<char>| drop_cr(l),
            ),
            cur@ == segments(s@.take(i as int)).last(),
    {
        let ghost t = s@.take(i as int);
        let ghost t1 = s@.take(i + 1);
        assert(t1.drop_last() == t);
        assert(t1.last() == s@[i as int]);
        proof {
            lemma_segments_nonempty(t);
            lemma_segments_nonempty(t1);
        }
        if s[i] == '\n' {
            assert(segments(t1) == segments(t).push(Seq::<char>::empty()));
            assert(segments(t) =~= segments(t).drop_last().push(segments(t).last()));
            let ghost d0 = views(done@);
            let mut line = cur;
            drop_cr_vec(&mut line);
            done.push(line);
            cur = Vec::new();
            assert(views(done@) =~= d0.push(drop_cr(segments(t).last())));
            assert(views(done@) =~= segments(t1).drop_last().map_values(
                |l: Seq<char>| drop_cr(l),
            ));
        } else {
            cur.push(s[i]);
            assert(segments(t1).drop_last() =~= segments(t).drop_last());
        }
    }
    assert(s@.take(s.len() as int) == s@);
    proof {
        lemma_segments_nonempty(s@);
    }
    let ghost d0 = views(done@);
    let ghost c0 = cur@;
    if cur.len() > 0 {
        done.push(cur);
        assert(views(done@) =~= d0.push(c0));
        assert(views(done@) =~= lines(s@));
    } else {
        assert(views(done@) =~= lines(s@));
    }
    done
}

/// Joins `ls` with a newline between each two lines.
pub fn join_lines(ls: &Vec<Vec<char>>) -> (r: Vec<char>)
    ensures
        r@ == join(views(ls@)),
{
    let mut r: Vec<char> = Vec::new();
    for i in 0..ls.len()
        invariant
            r@ == join(views(ls@).take(i as int)),
    {
        let ghost t1 = views(ls@).take(i + 1);
        assert(t1.drop_last() =~= views(ls@).take(i as int));
        if i > 0 {
            r.push('\n');
        }
        push_all(&mut r, &ls[i]);
        assert(t1.last() == ls[i as int]@);
        if i == 0 {
            assert(r@ =~= join(t1));
        }
    }
    assert(views(ls@).take(ls.len() as int) =~= views(ls@));
    r
}

pub proof fn lemma_leading_ws(l: Seq<char>, k: int)
    requires
        0 <= k <= l.len(),
        forall|j: int| 0 <= j < k ==> is_ws(#[trigger] l[j]),
        k == l.len() || !is_ws(l[k]),
    ensures
        leading_ws(l) == k,
    decreases k,
{
    if k > 0 {
        lemma_leading_ws(l.drop_first(), k - 1);
    }
}

pub proof fn lemma_trailing_ws(l: Seq<char>, k: int)
    requires
        0 <= k <= l.len(),
        forall|j: int| l.len() - k <= j < l.len() ==> is_ws(#[trigger] l[j]),
        k == l.len() || !is_ws(l[l.len() - k - 1]),
    ensures
        trailing_ws(l) == k,
    decreases k,
{
    if k > 0 {
        lemma_trailing_ws(l.drop_last(), k - 1);
    }
}

/// Index of the first character of `l` that is not whitespace (or its length).
pub fn trim_start_index(l: &Vec<char>) -> (r: usize)
    ensures
        r == leading_ws(l@),
        r <= l.len(),
{
    let mut i: usize = 0;
    while i < l.len() && is_ws_char(l[i])
        invariant
            i <= l.len(),
            forall|j: int| 0 <= j < i ==> is_ws(#[trigger] l@[j]),
        decreases l.len() - i,
    {
        i += 1;
    }
    proof {
        lemma_leading_ws(l@, i as int);
    }
    i
}

/// Bounds `(a, b)` such that `trim(l@)` is the part of `l` from `a` up to `b`.
pub fn trim_bounds(l: &Vec<char>) -> (r: (usize, usize))
    ensures
        r.0 <= r.1 <= l.len(),
        r.0 == leading_ws(l@),
        l@.subrange(r.0 as int, r.1 as int) == trim(l@),
{
    let a = trim_start_index(l);
    let mut b: usize = l.len();
    while b > a && is_ws_char(l[b - 1])
        invariant
            a <= b <= l.len(),
            forall|j: int| b <= j < l.len() ==> is_ws(#[trigger] l@[j]),
        decreases b,
    {
        b -= 1;
    }
    let ghost t = l@.skip(a as int);
    proof {
        assert forall|j: int| t.len() - (l.len() - b) <= j < t.len() implies is_ws(
            #[trigger] t[j],
        ) by {
            assert(t[j] == l@[j + a]);
        }
        lemma_trailing_ws(t, l.len() - b);
    }
    assert(l@.subrange(a as int, b as int) =~= trim(l@));
    (a, b)
}

} // verus!
