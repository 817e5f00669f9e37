//! Replacement that leaves a string borrowed when the needle is absent.
use std::borrow::Cow;
use vstd::prelude::*;

use crate::text::{chars_of, contains_chars, occurs, replace_all, replace_chars};

verus! {

/// Replaces a needle only where it is present, so that a string without it is
/// handed back as it came, without a copy.
pub trait MaybeReplaceExt<'a>: Sized + View<V = Seq<char>> {
    /// The value as a `Cow`, as it is handed back when nothing is replaced.
    spec fn as_cow(self) -> Cow<'a, str>;

    /// Every occurrence of `needle` replaced by `replacement`; the value itself,
    /// uncopied, where `needle` does not occur.
    fn maybe_replace(self, needle: &str, replacement: &str) -> (r: Cow<'a, str>)
        ensures
            r@ == replace_all(self@, needle@, replacement@),
            !occurs(self@, needle@) ==> r == self.as_cow(),
            occurs(self@, needle@) ==> r is Owned,
    ;

    /// As `maybe_replace`, with the replacement computed only when the needle
    /// occurs; the closure need not be callable where it does not.
    fn maybe_replace_closure<F>(self, needle: &str, replacement: F) -> (r: Cow<'a, str>) where
        F: FnOnce() -> String,
        requires
            occurs(self@, needle@) ==> replacement.requires(()),
        ensures
            !occurs(self@, needle@) ==> r == self.as_cow(),
            occurs(self@, needle@) ==> r is Owned,
            occurs(self@, needle@) ==> exists|s: String|
                replacement.ensures((), s) && r@ == replace_all(self@, needle@, s@),
    ;
}

/// The text a `Cow` holds, borrowed from it.
pub fn cow_text<'b, 'a>(c: &'b Cow<'a, str>) -> (r: &'b str)
    ensures
        r@ == c@,
{
    match c {
        Cow::Borrowed(b) => *b,
        Cow::Owned(o) => o.as_str(),
    }
}

impl<'a> MaybeReplaceExt<'a> for &'a str {
    open spec fn as_cow(self) -> Cow<'a, str> {
        Cow::Borrowed(self)
    }

    fn maybe_replace(self, needle: &str, replacement: &str) -> (r: Cow<'a, str>) {
        let hay = chars_of(self);
        let pat = chars_of(needle);
        if contains_chars(&hay, &pat) {
            Cow::Owned(replace_chars(&hay, &pat, replacement))
        } else {
            proof {
                crate::text::lemma_absent_needle(hay@, pat@, replacement@);
            }
            Cow::Borrowed(self)
        }
    }

    fn maybe_replace_closure<F>(self, needle: &str, replacement: F) -> (r: Cow<'a, str>) where
        F: FnOnce() -> String,
    {
        let hay = chars_of(self);
        let pat = chars_of(needle);
        if contains_chars(&hay, &pat) {
            let rep = replacement();
            Cow::Owned(replace_chars(&hay, &pat, rep.as_str()))
        } else {
            Cow::Borrowed(self)
        }
    }
}

impl<'a> MaybeReplaceExt<'a> for Cow<'a, str> {
    open spec fn as_cow(self) -> Cow<'a, str> {
        self
    }

    fn maybe_replace(self, needle: &str, replacement: &str) -> (r: Cow<'a, str>) {
        let hay = chars_of(cow_text(&self));
        let pat = chars_of(needle);
        if contains_chars(&hay, &pat) {
            Cow::Owned(replace_chars(&hay, &pat, replacement))
        } else {
            proof {
                crate::text::lemma_absent_needle(hay@, pat@, replacement@);
            }
            self
        }
    }

    fn maybe_replace_closure<F>(self, needle: &str, replacement: F) -> (r: Cow<'a, str>) where
        F: FnOnce() -> String,
    {
        let hay = chars_of(cow_text(&self));
        let pat = chars_of(needle);
        if contains_chars(&hay, &pat) {
            let rep = replacement();
            Cow::Owned(replace_chars(&hay, &pat, rep.as_str()))
        } else {
            self
        }
    }
}

}
