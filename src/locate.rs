//! Finding, inside a source file, the block of meaningful lines that a snippet shows.
use vstd::prelude::*;
use crate::normalize::{is_meaningful, is_meaningful_line, meaningful_lines};
use crate::text::{
    chars_of, join, join_lines, lines, split_lines, string_of, trim, trim_bounds, trim_start,
    views,
};

verus! {

/// Index of the first line at or after `i` that is not blank (or the number of lines).
pub open spec fn first_nonblank(ls: Seq<Seq<char>>, i: int) -> int
    decreases ls.len() - i,
{
    if i < 0 || i >= ls.len() {
        ls.len() as int
    } else if trim_start(ls[i]).len() > 0 {
        i
    } else {
        first_nonblank(ls, i + 1)
    }
}

/// Index of the first line at or after `i` whose trimmed text is `key` (or the number of lines).
pub open spec fn first_anchor(ls: Seq<Seq<char>>, key: Seq<char>, i: int) -> int
    decreases ls.len() - i,
{
    if i < 0 || i >= ls.len() {
        ls.len() as int
    } else if trim(ls[i]) == key {
        i
    } else {
        first_anchor(ls, key, i + 1)
    }
}

/// Where the block for `snippet` stands in `file`: the 1-based number of the
/// anchor line, and as many meaningful lines from there on as the snippet has
/// lines, joined. `None` when the snippet is blank, no line of the file
/// matches its first non-blank line, or the file ends too soon.
pub open spec fn located(file: Seq<char>, snippet: Seq<char>) -> Option<(nat, Seq<char>)> {
    let sl = lines(snippet);
    let k = first_nonblank(sl, 0);
    if k >= sl.len() {
        None
    } else {
        let fl = lines(file);
        let a = first_anchor(fl, trim(sl[k]), 0);
        if a >= fl.len() {
            None
        } else {
            let ml = meaningful_lines(fl.skip(a));
            if ml.len() < sl.len() {
                None
            } else {
                Some(((a + 1) as nat, join(ml.take(sl.len() as int))))
            }
        }
    }
}

pub proof fn lemma_meaningful_prefix(s: Seq<Seq<char>>, m: int)
    requires
        0 <= m <= s.len(),
    ensures
        meaningful_lines(s.take(m)).len() <= meaningful_lines(s).len(),
        meaningful_lines(s).take(meaningful_lines(s.take(m)).len() as int) == meaningful_lines(
            s.take(m),
        ),
    decreases s.len(),
{
    if m == s.len() {
        assert(s.take(m) =~= s);
        assert(meaningful_lines(s).take(meaningful_lines(s).len() as int) =~= meaningful_lines(s));
    } else {
        assert(s.take(m) =~= s.drop_last().take(m));
        lemma_meaningful_prefix(s.drop_last(), m);
        let p = meaningful_lines(s.drop_last());
        let k = meaningful_lines(s.take(m)).len() as int;
        if is_meaningful(s.last()) {
            assert(p.push(s.last()).take(k) =~= p.take(k));
        }
    }
}

fn same_trimmed(l: &Vec<char>, key: &Vec<char>, ka: usize, kb: usize) -> (r: bool)
    requires
        ka <= kb <= key.len(),
    ensures
        r == (trim(l@) == key@.subrange(ka as int, kb as int)),
{
    let (a, b) = trim_bounds(l);
    if b - a != kb - ka {
        assert(trim(l@).len() != key@.subrange(ka as int, kb as int).len());
        return false;
    }
    let mut i: usize = 0;
    while i < b - a
        invariant
            a <= b <= l.len(),
            ka <= kb <= key.len(),
            b - a == kb - ka,
            l@.subrange(a as int, b as int) == trim(l@),
            i <= b - a,
            l@.subrange(a as int, a + i) == key@.subrange(ka as int, ka + i),
        decreases b - a - i,
    {
        if l[a + i] != key[ka + i] {
            let ghost x = l@.subrange(a as int, b as int);
            let ghost y = key@.subrange(ka as int, kb as int);
            assert(x[i as int] != y[i as int]);
            assert(x != y);
            return false;
        }
        assert(l@.subrange(a as int, a + i + 1) =~= l@.subrange(a as int, a + i).push(
            l@[a + i],
        ));
        assert(key@.subrange(ka as int, ka + i + 1) =~= key@.subrange(ka as int, ka + i).push(
            key@[ka + i],
        ));
        i += 1;
    }
    assert(l@.subrange(a as int, b as int) =~= key@.subrange(ka as int, kb as int));
    true
}

/// Finds the block of `file_content` that `snippet` corresponds to, with the
/// 1-based line number where it starts. Comment and blank lines of the file
/// inside the block are skipped and do not count.
pub fn extract_clean_block(file_content: &str, snippet: &str) -> (r: Option<(usize, String)>)
    ensures
        r is None <==> located(file_content@, snippet@) is None,
        r matches Some((n, b)) ==> located(file_content@, snippet@) == Some((n as nat, b@)),
{
    let sc = chars_of(snippet);
    let sl = split_lines(&sc);
    let n = sl.len();
    let mut k: usize = 0;
    while k < n && trim_start_len(&sl[k]) == 0
        invariant
            views(sl@) == lines(snippet@),
            n == sl.len(),
            k <= n,
            first_nonblank(lines(snippet@), 0) == first_nonblank(lines(snippet@), k as int),
        decreases n - k,
    {
        assert(sl@[k as int]@ == lines(snippet@)[k as int]);
        k += 1;
    }
    if k == n {
        return None;
    }
    assert(sl@[k as int]@ == lines(snippet@)[k as int]);
    let key = &sl[k];
    let (ka, kb) = trim_bounds(key);
    let fc = chars_of(file_content);
    let fl = split_lines(&fc);
    let ghost fls = lines(file_content@);
    let mut a: usize = 0;
    while a < fl.len() && !same_trimmed(&fl[a], key, ka, kb)
        invariant
            views(fl@) == fls,
            a <= fl.len(),
            ka <= kb <= key.len(),
            key@.subrange(ka as int, kb as int) == trim(key@),
            first_anchor(fls, trim(key@), 0) == first_anchor(fls, trim(key@), a as int),
        decreases fl.len() - a,
    {
        assert(fl@[a as int]@ == fls[a as int]);
        a += 1;
    }
    if a == fl.len() {
        return None;
    }
    assert(fl@[a as int]@ == fls[a as int]);
    let mut block: Vec<Vec<char>> = Vec::new();
    let mut i: usize = a;
    while i < fl.len() && block.len() < n
        invariant
            views(fl@) == fls,
            a < fl.len(),
            a <= i <= fl.len(),
            views(block@) == meaningful_lines(fls.subrange(a as int, i as int)),
            block.len() <= n,
        decreases fl.len() - i,
    {
        let ghost t1 = fls.subrange(a as int, i + 1);
        assert(t1.drop_last() =~= fls.subrange(a as int, i as int));
        assert(t1.last() == fl@[i as int]@);
        if is_meaningful_line(&fl[i]) {
            let ghost b0 = views(block@);
            block.push(fl[i].clone());
            assert(views(block@) =~= b0.push(fl@[i as int]@));
        }
        i += 1;
    }
    let ghost rest = fls.skip(a as int);
    assert(fls.subrange(a as int, i as int) =~= rest.take(i - a));
    proof {
        lemma_meaningful_prefix(rest, i - a);
    }
    if block.len() < n {
        assert(rest.take(i - a) =~= rest);
        return None;
    }
    let j = join_lines(&block);
    Some((a + 1, string_of(&j)))
}

/// Number of characters left in `l` once its leading whitespace is removed.
fn trim_start_len(l: &Vec<char>) -> (r: usize)
    ensures
        r == trim_start(l@).len(),
{
    let k = crate::text::trim_start_index(l);
    l.len() - k
}

} // verus!
