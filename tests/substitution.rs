use std::borrow::Cow;

use unitgen::replace::MaybeReplaceExt;
use unitgen::template::{substitute, token};
use unitgen::text::{chars_of, contains_chars, replace_chars};

fn pairs(list: &[(&str, &str)]) -> Vec<(String, String)> {
    list.iter().map(|(a, b)| (a.to_string(), b.to_string())).collect()
}

#[test]
fn absent_token_leaves_template_unchanged() {
    let t = "Exec=<%target%>\nUser=<%user-line%>\n";
    let out = substitute(t, &pairs(&[("name", "foo"), ("restart", "always")]));
    assert_eq!(out, t);
}

#[test]
fn both_occurrences_are_replaced() {
    let t = "A=<%name%> B=<%name%>";
    let out = substitute(t, &pairs(&[("name", "foo")]));
    assert_eq!(out, "A=foo B=foo");
}

#[test]
fn empty_pass_after_substitution_is_idempotent() {
    let t = "x <%tok%> y <%other%>";
    let once = substitute(t, &pairs(&[("tok", "lit")]));
    let twice = substitute(&once, &Vec::new());
    assert_eq!(twice, once);
    assert_eq!(once, "x lit y <%other%>");
}

#[test]
fn unknown_tokens_stay_verbatim() {
    let t = "<%unknown%> and <%name%>";
    let out = substitute(t, &pairs(&[("name", "svc")]));
    assert_eq!(out, "<%unknown%> and svc");
}

#[test]
fn later_pairs_rescan_earlier_output() {
    let t = "D=<%description%>";
    let out = substitute(t, &pairs(&[("description", "run <%name%>"), ("name", "svc")]));
    assert_eq!(out, "D=run svc");
    let out2 = substitute(t, &pairs(&[("name", "svc"), ("description", "run <%name%>")]));
    assert_eq!(out2, "D=run <%name%>");
}

#[test]
fn replacement_is_not_rescanned_in_its_own_pass() {
    let t = "<%a%>";
    let out = substitute(t, &pairs(&[("a", "<%a%><%a%>")]));
    assert_eq!(out, "<%a%><%a%>");
}

#[test]
fn token_has_delimiters() {
    assert_eq!(token("user-line"), "<%user-line%>");
}

#[test]
fn maybe_replace_borrows_when_needle_absent() {
    let s = "no tokens here";
    match s.maybe_replace("<%name%>", "x") {
        Cow::Borrowed(b) => assert_eq!(b, s),
        Cow::Owned(_) => panic!("copied a string without the needle"),
    }
}

#[test]
fn maybe_replace_on_cow_replaces_all() {
    let c: Cow<str> = Cow::Owned("a-b-c".to_string());
    assert_eq!(c.maybe_replace("-", "+"), "a+b+c");
}

#[test]
fn maybe_replace_keeps_owned_cow_when_absent() {
    let c: Cow<str> = Cow::Owned("abc".to_string());
    assert_eq!(c.maybe_replace("z", "+"), "abc");
}

#[test]
fn maybe_replace_closure_runs_only_when_needed() {
    let s = "plain";
    let out = s.maybe_replace_closure("<%x%>", || panic!("closure called"));
    assert_eq!(out, "plain");
    let t = "v=<%x%>";
    let out2 = t.maybe_replace_closure("<%x%>", || "7".to_string());
    assert_eq!(out2, "v=7");
    let c: Cow<str> = Cow::Borrowed("<%x%><%x%>");
    assert_eq!(c.maybe_replace_closure("<%x%>", || "ab".to_string()), "abab");
}

#[test]
fn overlapping_needles_replaced_left_to_right() {
    assert_eq!("aaaa".maybe_replace("aa", "b"), "bb");
    assert_eq!("aaa".maybe_replace("aa", "b"), "ba");
}

#[test]
fn empty_needle_matches_between_characters() {
    assert_eq!("abc".maybe_replace("", "x"), "abc".replace("", "x"));
    assert_eq!("".maybe_replace("", "x"), "x");
}

#[test]
fn non_ascii_text_is_replaced_by_character() {
    assert_eq!("héllo <%n%> wörld".maybe_replace("<%n%>", "ü"), "héllo ü wörld");
}

#[test]
fn char_level_helpers() {
    let hay = chars_of("ab<%x%>cd");
    let needle = chars_of("<%x%>");
    assert!(contains_chars(&hay, &needle));
    assert!(!contains_chars(&hay, &chars_of("<%y%>")));
    assert_eq!(replace_chars(&hay, &needle, "Z"), "abZcd");
    assert!(contains_chars(&chars_of("a"), &Vec::new()));
}

#[test]
fn present_needle_gives_owned_result() {
    assert!(matches!("a<%x%>".maybe_replace("<%x%>", "b"), Cow::Owned(_)));
    let c: Cow<str> = Cow::Borrowed("a<%x%>");
    assert!(matches!(c.maybe_replace("<%x%>", "b"), Cow::Owned(_)));
    assert!(matches!("a<%x%>".maybe_replace_closure("<%x%>", || "b".to_string()), Cow::Owned(_)));
}

#[test]
fn chain_of_absent_tokens_stays_borrowed() {
    let t = "Restart=always";
    let out = Cow::Borrowed(t)
        .maybe_replace("<%name%>", "foo")
        .maybe_replace("<%args%>", "-v")
        .maybe_replace_closure("<%user-line%>", || panic!("closure called"));
    match out {
        Cow::Borrowed(b) => assert!(std::ptr::eq(b, t)),
        Cow::Owned(_) => panic!("copied a string without any token"),
    }
}

#[test]
fn reapplying_a_pair_is_a_no_op() {
    let once = "A=<%tok%> B=<%tok%>".maybe_replace("<%tok%>", "lit");
    assert_eq!(once, "A=lit B=lit");
    let owned = once.clone();
    let again = once.maybe_replace("<%tok%>", "lit");
    assert_eq!(again, owned);
    assert!(matches!(again, Cow::Owned(_)));
}

#[test]
fn empty_replacement_removes_token_text() {
    let t = "x<%user-line%>y<%user-line%>";
    let out = substitute(t, &pairs(&[("user-line", "")]));
    assert_eq!(out, "xy");
    assert_eq!(out.chars().count(), t.chars().count() - 2 * "<%user-line%>".len());
}
