//! Literal search and replacement over character sequences.
use vstd::prelude::*;
use vstd::string::StringExecFns;

verus! {

/// `needle` occurs in `s` starting at position `i`.
pub open spec fn match_at(s: Seq<char>, needle: Seq<char>, i: int) -> bool {
    0 <= i && i + needle.len() <= s.len() && s.subrange(i, i + needle.len()) == needle
}

/// `needle` occurs somewhere in `s`.
pub open spec fn occurs(s: Seq<char>, needle: Seq<char>) -> bool {
    exists|i: int| match_at(s, needle, i)
}

/// Every non-overlapping occurrence of `needle` in `s`, taken from left to
/// right, replaced by `rep`. An empty needle matches before every character
/// and at the end.
pub open spec fn replace_all(s: Seq<char>, needle: Seq<char>, rep: Seq<char>) -> Seq<char>
    decreases s.len(),
{
    if needle.len() == 0 {
        if s.len() == 0 {
            rep
        } else {
            rep + seq![s[0]] + replace_all(s.drop_first(), needle, rep)
        }
    } else if s.len() < needle.len() {
        s
    } else if s.subrange(0, needle.len() as int) == needle {
        rep + replace_all(s.subrange(needle.len() as int, s.len() as int), needle, rep)
    } else {
        seq![s[0]] + replace_all(s.drop_first(), needle, rep)
    }
}

/// Relies on `String::push`: the character is appended at the end.
pub assume_specification[ String::push ](s: &mut String, ch: char)
    ensures
        final(s)@ == old(s)@.push(ch),
;

/// The characters of `s`, in order.
pub fn chars_of(s: &str) -> (r: Vec<char>)
    ensures
        r@ == s@,
{
    let mut r: Vec<char> = Vec::new();
    for c in it: s.chars()
        invariant
            r@ == it.seq().take(it.index() as int),
            it.seq() == s@,
    {
        r.push(c);
    }
    r
}

/// Whether `needle` occurs in `hay` at position `i`.
pub fn matches_at(hay: &Vec<char>, needle: &Vec<char>, i: usize) -> (r: bool)
    requires
        i <= hay.len(),
    ensures
        r == match_at(hay@, needle@, i as int),
{
    if needle.len() > hay.len() - i {
        return false;
    }
    let mut j: usize = 0;
    while j < needle.len()
        invariant
            i + needle.len() <= hay.len(),
            j <= needle.len(),
            forall|k: int| 0 <= k < j ==> hay@[i + k] == needle@[k],
        decreases needle.len() - j,
    {
        if hay[i + j] != needle[j] {
            assert(hay@.subrange(i as int, i + needle.len())[j as int] != needle@[j as int]);
            return false;
        }
        j = j + 1;
    }
    assert(hay@.subrange(i as int, i + needle.len()) =~= needle@);
    true
}

/// Whether `needle` occurs anywhere in `hay`.
pub fn contains_chars(hay: &Vec<char>, needle: &Vec<char>) -> (r: bool)
    ensures
        r == occurs(hay@, needle@),
{
    let mut i: usize = 0;
    while needle.len() <= hay.len() - i
        invariant
            i <= hay.len(),
            forall|k: int| 0 <= k < i ==> !match_at(hay@, needle@, k),
        decreases hay.len() - i,
    {
        if matches_at(hay, needle, i) {
            return true;
        }
        if i == hay.len() {
            return false;
        }
        i = i + 1;
    }
    false
}

/// `hay` with every occurrence of `needle` replaced by `rep`.
pub fn replace_chars(hay: &Vec<char>, needle: &Vec<char>, rep: &str) -> (r: String)
    ensures
        r@ == replace_all(hay@, needle@, rep@),
{
    let ghost whole = replace_all(hay@, needle@, rep@);
    let n = needle.len();
    let mut out = String::new();
    let mut i: usize = 0;
    assert(hay@.subrange(0, hay.len() as int) =~= hay@);
    while i < hay.len()
        invariant
            i <= hay.len(),
            n == needle.len(),
            out@ + replace_all(hay@.subrange(i as int, hay.len() as int), needle@, rep@) == whole,
        decreases hay.len() - i,
    {
        let ghost rest = hay@.subrange(i as int, hay.len() as int);
        assert(rest.drop_first() =~= hay@.subrange(i + 1, hay.len() as int));
        if n == 0 {
            out.append(rep);
            out.push(hay[i]);
            assert(out@ + replace_all(rest.drop_first(), needle@, rep@) =~= whole);
            i = i + 1;
        } else if matches_at(hay, needle, i) {
            assert(rest.subrange(0, n as int) =~= hay@.subrange(i as int, i + n));
            assert(rest.subrange(n as int, rest.len() as int) =~= hay@.subrange(i + n, hay.len() as int));
            out.append(rep);
            assert(out@ + replace_all(hay@.subrange(i + n, hay.len() as int), needle@, rep@) =~= whole);
            i = i + n;
        } else {
            proof {
                if rest.len() >= n {
                    assert(rest.subrange(0, n as int) =~= hay@.subrange(i as int, i + n));
                } else {
                    assert(replace_all(rest.drop_first(), needle@, rep@) == rest.drop_first());
                }
            }
            out.push(hay[i]);
            assert(out@ + replace_all(rest.drop_first(), needle@, rep@) =~= whole);
            i = i + 1;
        }
    }
    assert(hay@.subrange(i as int, hay.len() as int) =~= Seq::<char>::empty());
    if n == 0 {
        out.append(rep);
    }
    assert(out@ =~= whole);
    out
}

/// Replacing a needle that does not occur leaves the text as it was.
pub proof fn lemma_absent_needle(s: Seq<char>, needle: Seq<char>, rep: Seq<char>)
    requires
        !occurs(s, needle),
    ensures
        replace_all(s, needle, rep) == s,
    decreases s.len(),
{
    if needle.len() == 0 {
        assert(s.subrange(0, 0) =~= needle);
        assert(match_at(s, needle, 0));
    } else if s.len() >= needle.len() {
        assert(!match_at(s, needle, 0));
        let t = s.drop_first();
        assert forall|i: int| !match_at(t, needle, i) by {
            if match_at(t, needle, i) {
                assert(s.subrange(i + 1, i + 1 + needle.len()) =~= t.subrange(i, i + needle.len()));
                assert(match_at(s, needle, i + 1));
            }
        }
        lemma_absent_needle(t, needle, rep);
        assert(seq![s[0]] + t =~= s);
    }
}

/// Where no occurrence starts before `k`, the first `k` characters pass
/// through unchanged.
pub proof fn lemma_skip_prefix(s: Seq<char>, needle: Seq<char>, rep: Seq<char>, k: int)
    requires
        needle.len() > 0,
        0 <= k <= s.len(),
        forall|j: int| 0 <= j < k ==> !match_at(s, needle, j),
    ensures
        replace_all(s, needle, rep) == s.take(k) + replace_all(s.skip(k), needle, rep),
    decreases k,
{
    if k == 0 {
        assert(s.take(0) + s.skip(0) =~= s);
    } else if s.len() < needle.len() {
        assert(s.take(k) + s.skip(k) =~= s);
    } else {
        assert(!match_at(s, needle, 0));
        assert(s.subrange(0, needle.len() as int) != needle);
        let t = s.drop_first();
        assert forall|j: int| 0 <= j < k - 1 implies !match_at(t, needle, j) by {
            if match_at(t, needle, j) {
                assert(s.subrange(j + 1, j + 1 + needle.len()) =~= t.subrange(j, j + needle.len()));
                assert(match_at(s, needle, j + 1));
            }
        }
        lemma_skip_prefix(t, needle, rep, k - 1);
        assert(t.skip(k - 1) =~= s.skip(k));
        assert(seq![s[0]] + t.take(k - 1) =~= s.take(k));
    }
}

/// A needle whose first character does not recur in it, placed after text
/// that does not hold it, is the first occurrence and is replaced.
pub proof fn lemma_leading_occurrence(
    x: Seq<char>,
    needle: Seq<char>,
    y: Seq<char>,
    rep: Seq<char>,
)
    requires
        needle.len() > 0,
        forall|m: int| 1 <= m < needle.len() ==> #[trigger] needle[m] != needle[0],
        !occurs(x, needle),
    ensures
        replace_all(x + needle + y, needle, rep) == x + rep + replace_all(y, needle, rep),
{
    let s = x + needle + y;
    let n = needle.len() as int;
    assert forall|j: int| 0 <= j < x.len() implies !match_at(s, needle, j) by {
        if match_at(s, needle, j) {
            if j + n <= x.len() {
                assert(x.subrange(j, j + n) =~= s.subrange(j, j + n));
                assert(match_at(x, needle, j));
            } else {
                let p = x.len() - j;
                assert(s.subrange(j, j + n)[p] == s[x.len() as int]);
                assert(s[x.len() as int] == needle[0]);
            }
        }
    }
    lemma_skip_prefix(s, needle, rep, x.len() as int);
    assert(s.take(x.len() as int) =~= x);
    let t = s.skip(x.len() as int);
    assert(t =~= needle + y);
    assert(t.subrange(0, n) =~= needle);
    assert(t.subrange(n, t.len() as int) =~= y);
}

/// The start of a replaced text is the start of the original, unless a
/// character of the replacement shows up in it first.
pub proof fn lemma_prefix_kept(s: Seq<char>, needle: Seq<char>, rep: Seq<char>, m: int)
    requires
        needle.len() > 0,
        rep.len() > 0,
        0 <= m <= s.len(),
        m <= replace_all(s, needle, rep).len(),
    ensures
        replace_all(s, needle, rep).take(m) == s.take(m) || exists|i: int|
            0 <= i < m && rep.contains(#[trigger] replace_all(s, needle, rep)[i]),
    decreases s.len(),
{
    let r = replace_all(s, needle, rep);
    if m == 0 {
        assert(r.take(0) =~= s.take(0));
    } else if s.len() < needle.len() {
    } else if s.subrange(0, needle.len() as int) == needle {
        assert(r[0] == rep[0]);
        assert(rep.contains(r[0]));
    } else {
        let t = s.drop_first();
        let rt = replace_all(t, needle, rep);
        lemma_prefix_kept(t, needle, rep, m - 1);
        if rt.take(m - 1) == t.take(m - 1) {
            assert(r.take(m) =~= seq![s[0]] + rt.take(m - 1));
            assert(r.take(m) =~= s.take(m));
        } else {
            let i = choose|i: int| 0 <= i < m - 1 && rep.contains(#[trigger] rt[i]);
            assert(r[i + 1] == rt[i]);
        }
    }
}

/// A non-empty replacement that shares no character with the needle leaves
/// no occurrence of the needle behind.
pub proof fn lemma_needle_gone(s: Seq<char>, needle: Seq<char>, rep: Seq<char>)
    requires
        needle.len() > 0,
        rep.len() > 0,
        forall|c: char| rep.contains(c) ==> !needle.contains(c),
    ensures
        !occurs(replace_all(s, needle, rep), needle),
    decreases s.len(),
{
    let r = replace_all(s, needle, rep);
    let n = needle.len() as int;
    if s.len() < needle.len() {
    } else if s.subrange(0, n) == needle {
        let t = s.subrange(n, s.len() as int);
        let rt = replace_all(t, needle, rep);
        lemma_needle_gone(t, needle, rep);
        assert forall|j: int| !match_at(r, needle, j) by {
            if match_at(r, needle, j) {
                if j >= rep.len() {
                    assert(rt.subrange(j - rep.len(), j - rep.len() + n) =~= r.subrange(j, j + n));
                    assert(match_at(rt, needle, j - rep.len()));
                } else {
                    assert(r[j] == rep[j]);
                    assert(r.subrange(j, j + n)[0] == needle[0]);
                    assert(rep.contains(rep[j]));
                    assert(needle.contains(needle[0]));
                }
            }
        }
    } else {
        let t = s.drop_first();
        let rt = replace_all(t, needle, rep);
        lemma_needle_gone(t, needle, rep);
        assert forall|j: int| !match_at(r, needle, j) by {
            if match_at(r, needle, j) {
                if j >= 1 {
                    assert(rt.subrange(j - 1, j - 1 + n) =~= r.subrange(j, j + n));
                    assert(match_at(rt, needle, j - 1));
                } else {
                    lemma_prefix_kept(s, needle, rep, n);
                    if r.take(n) == s.take(n) {
                        assert(r.take(n) =~= r.subrange(0, n));
                        assert(s.take(n) =~= s.subrange(0, n));
                    } else {
                        let i = choose|i: int| 0 <= i < n && rep.contains(#[trigger] r[i]);
                        assert(r.subrange(0, n)[i] == needle[i]);
                        assert(needle.contains(needle[i]));
                    }
                }
            }
        }
    }
}

/// How many occurrences a replacement pass replaces.
pub open spec fn replaced_count(s: Seq<char>, needle: Seq<char>) -> nat
    decreases s.len(),
{
    if needle.len() == 0 {
        s.len() + 1
    } else if s.len() < needle.len() {
        0
    } else if s.subrange(0, needle.len() as int) == needle {
        1 + replaced_count(s.subrange(needle.len() as int, s.len() as int), needle)
    } else {
        replaced_count(s.drop_first(), needle)
    }
}

/// Each replaced occurrence trades the needle's length for the
/// replacement's; where the needle occurs, at least one is replaced.
pub proof fn lemma_replaced_length(s: Seq<char>, needle: Seq<char>, rep: Seq<char>)
    ensures
        replace_all(s, needle, rep).len() == s.len() + replaced_count(s, needle) * rep.len()
            - replaced_count(s, needle) * needle.len(),
        occurs(s, needle) <==> replaced_count(s, needle) > 0,
    decreases s.len(),
{
    let c = replaced_count(s, needle);
    if needle.len() == 0 {
        assert(c * needle.len() == 0) by (nonlinear_arith)
            requires
                needle.len() == 0,
        ;
        if s.len() > 0 {
            let t = s.drop_first();
            lemma_replaced_length(t, needle, rep);
            assert(replaced_count(t, needle) == c - 1);
            assert(replaced_count(t, needle) * needle.len() == 0) by (nonlinear_arith)
                requires
                    needle.len() == 0,
            ;
            assert(c * rep.len() == rep.len() + (c - 1) * rep.len()) by (nonlinear_arith);
            assert(replace_all(s, needle, rep).len() == rep.len() + 1 + replace_all(
                t,
                needle,
                rep,
            ).len());
            } else {
            assert(c * rep.len() == rep.len()) by (nonlinear_arith)
                requires
                    c == 1,
            ;
        }
        assert(s.subrange(0, 0) =~= needle);
        assert(match_at(s, needle, 0));
    } else if s.len() < needle.len() {
        assert(c * rep.len() == 0 && c * needle.len() == 0) by (nonlinear_arith)
            requires
                c == 0,
        ;
        assert forall|i: int| !match_at(s, needle, i) by {}
    } else if s.subrange(0, needle.len() as int) == needle {
        let t = s.subrange(needle.len() as int, s.len() as int);
        lemma_replaced_length(t, needle, rep);
        assert(match_at(s, needle, 0));
        assert(c * rep.len() == rep.len() + (c - 1) * rep.len()) by (nonlinear_arith);
        assert(c * needle.len() == needle.len() + (c - 1) * needle.len()) by (nonlinear_arith);
    } else {
        let t = s.drop_first();
        lemma_replaced_length(t, needle, rep);
        if occurs(s, needle) {
            let i = choose|i: int| match_at(s, needle, i);
            assert(i != 0);
            assert(t.subrange(i - 1, i - 1 + needle.len()) =~= s.subrange(i, i + needle.len()));
            assert(match_at(t, needle, i - 1));
        }
        if occurs(t, needle) {
            let i = choose|i: int| match_at(t, needle, i);
            assert(t.subrange(i, i + needle.len()) =~= s.subrange(i + 1, i + 1 + needle.len()));
            assert(match_at(s, needle, i + 1));
        }
    }
}

}
