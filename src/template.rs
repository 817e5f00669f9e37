//! Templates: text holding placeholders of the form `<%name%>`, filled in by
//! an ordered list of (token name, replacement) pairs.
use std::borrow::Cow;
use vstd::prelude::*;
use vstd::string::StringExecFns;

use crate::replace::{cow_text, MaybeReplaceExt};
use crate::text::{
    lemma_absent_needle, lemma_leading_occurrence, lemma_needle_gone, lemma_replaced_length, occurs,
    replace_all, replaced_count,
};

verus! {

/// The placeholder text for the token called `name`.
pub open spec fn token_text(name: Seq<char>) -> Seq<char> {
    seq!['<', '%'] + name + seq!['%', '>']
}

/// The template after each pair has been applied in order, each pass working
/// on the text the earlier passes left.
pub open spec fn substituted(t: Seq<char>, pairs: Seq<(Seq<char>, Seq<char>)>) -> Seq<char>
    decreases pairs.len(),
{
    if pairs.len() == 0 {
        t
    } else {
        replace_all(
            substituted(t, pairs.drop_last()),
            token_text(pairs.last().0),
            pairs.last().1,
        )
    }
}

/// The pairs as character sequences.
pub open spec fn pairs_view(pairs: Seq<(String, String)>) -> Seq<(Seq<char>, Seq<char>)> {
    pairs.map_values(|p: (String, String)| (p.0@, p.1@))
}

/// The placeholder text for the token called `name`.
pub fn token(name: &str) -> (r: String)
    ensures
        r@ == token_text(name@),
{
    let mut r = String::from_str("<%");
    r.append(name);
    r.append("%>");
    proof {
        reveal_strlit("<%");
        reveal_strlit("%>");
        assert(r@ =~= token_text(name@));
    }
    r
}

/// Applies each (token name, replacement) pair in order to `template`.
pub fn substitute(template: &str, pairs: &Vec<(String, String)>) -> (r: String)
    ensures
        r@ == substituted(template@, pairs_view(pairs@)),
{
    let mut cur: Cow<str> = Cow::Borrowed(template);
    let mut i: usize = 0;
    while i < pairs.len()
        invariant
            i <= pairs.len(),
            cur@ == substituted(template@, pairs_view(pairs@).take(i as int)),
        decreases pairs.len() - i,
    {
        let tok = token(pairs[i].0.as_str());
        cur = cur.maybe_replace(tok.as_str(), pairs[i].1.as_str());
        proof {
            let v = pairs_view(pairs@);
            assert(v.take(i + 1).drop_last() =~= v.take(i as int));
        }
        i = i + 1;
    }
    proof {
        assert(pairs_view(pairs@).take(i as int) =~= pairs_view(pairs@));
    }
    cow_text(&cur).to_owned()
}

/// A template in which none of the listed tokens occurs comes out unchanged.
pub proof fn lemma_absent_tokens_unchanged(t: Seq<char>, pairs: Seq<(Seq<char>, Seq<char>)>)
    requires
        forall|i: int| 0 <= i < pairs.len() ==> !occurs(t, token_text(#[trigger] pairs[i].0)),
    ensures
        substituted(t, pairs) == t,
    decreases pairs.len(),
{
    if pairs.len() > 0 {
        let front = pairs.drop_last();
        assert forall|i: int| 0 <= i < front.len() implies !occurs(t, token_text(#[trigger] front[i].0)) by {
            assert(front[i] == pairs[i]);
        }
        lemma_absent_tokens_unchanged(t, front);
        lemma_absent_needle(t, token_text(pairs.last().0), pairs.last().1);
    }
}

/// Substituting a single pair is one replacement pass.
pub proof fn lemma_single_pair(t: Seq<char>, name: Seq<char>, rep: Seq<char>)
    ensures
        substituted(t, seq![(name, rep)]) == replace_all(t, token_text(name), rep),
{
    let pairs = seq![(name, rep)];
    assert(pairs.drop_last() =~= Seq::<(Seq<char>, Seq<char>)>::empty());
    assert(substituted(t, pairs.drop_last()) == t);
    assert(pairs.last() == (name, rep));
}

/// Applying an empty list after a substitution changes nothing.
pub proof fn lemma_empty_pass_idempotent(t: Seq<char>, tok: Seq<char>, lit: Seq<char>)
    ensures
        substituted(substituted(t, seq![(tok, lit)]), seq![]) == substituted(t, seq![(tok, lit)]),
{
}

/// A token whose name holds no `<` has its opening `<` nowhere else, so no
/// two of its occurrences overlap.
pub proof fn lemma_token_opens_once(name: Seq<char>)
    requires
        !name.contains('<'),
    ensures
        forall|m: int|
            1 <= m < token_text(name).len() ==> #[trigger] token_text(name)[m] != token_text(name)[0],
{
    let tok = token_text(name);
    assert forall|m: int| 1 <= m < tok.len() implies #[trigger] tok[m] != tok[0] by {
        if 2 <= m < tok.len() - 2 {
            assert(tok[m] == name[m - 2]);
        }
    }
}

/// A token whose name holds no `<` is replaced at each of its two
/// occurrences, where the text around them holds no further one.
pub proof fn lemma_both_occurrences_replaced(
    a: Seq<char>,
    b: Seq<char>,
    c: Seq<char>,
    name: Seq<char>,
    rep: Seq<char>,
)
    requires
        !name.contains('<'),
        !occurs(a, token_text(name)),
        !occurs(b, token_text(name)),
        !occurs(c, token_text(name)),
    ensures
        substituted(a + token_text(name) + b + token_text(name) + c, seq![(name, rep)])
            == a + rep + b + rep + c,
{
    let tok = token_text(name);
    lemma_token_opens_once(name);
    let rest = b + tok + c;
    assert(a + tok + b + tok + c =~= a + tok + rest);
    lemma_leading_occurrence(a, tok, rest, rep);
    lemma_leading_occurrence(b, tok, c, rep);
    lemma_absent_needle(c, tok, rep);
    lemma_single_pair(a + tok + rest, name, rep);
    assert(replace_all(a + tok + rest, tok, rep) == a + rep + (b + rep + c));
    assert(a + rep + (b + rep + c) =~= a + rep + b + rep + c);
}

/// After a pass whose non-empty replacement shares no character with the
/// token's text, the token is gone, so applying the same pair again changes
/// nothing.
pub proof fn lemma_reapplied_pair_is_noop(t: Seq<char>, name: Seq<char>, lit: Seq<char>)
    requires
        lit.len() > 0,
        forall|c: char| lit.contains(c) ==> !token_text(name).contains(c),
    ensures
        !occurs(substituted(t, seq![(name, lit)]), token_text(name)),
        substituted(substituted(t, seq![(name, lit)]), seq![(name, lit)]) == substituted(
            t,
            seq![(name, lit)],
        ),
{
    lemma_single_pair(t, name, lit);
    let once = substituted(t, seq![(name, lit)]);
    lemma_needle_gone(t, token_text(name), lit);
    lemma_absent_needle(once, token_text(name), lit);
    lemma_single_pair(once, name, lit);
}

/// A pass with the empty string removes the token's text at each replaced
/// occurrence: the result is shorter by that many token lengths, and
/// strictly shorter wherever the token occurs.
pub proof fn lemma_empty_replacement_removes_token(t: Seq<char>, name: Seq<char>)
    ensures
        substituted(t, seq![(name, Seq::<char>::empty())]).len() == t.len() - replaced_count(
            t,
            token_text(name),
        ) * token_text(name).len(),
        occurs(t, token_text(name)) ==> substituted(t, seq![(name, Seq::<char>::empty())]).len()
            < t.len(),
{
    let e = Seq::<char>::empty();
    let tok = token_text(name);
    lemma_single_pair(t, name, e);
    lemma_replaced_length(t, tok, e);
    let c = replaced_count(t, tok);
    assert(c * e.len() == 0) by (nonlinear_arith)
        requires
            e.len() == 0,
    ;
    if occurs(t, tok) {
        assert(c * tok.len() >= tok.len()) by (nonlinear_arith)
            requires
                c >= 1,
        ;
    }
}

}
