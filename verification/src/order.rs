//! Which of two streams comes first.

use crate::event::{GoTestKey, KeyView};
use crate::text::{
    comes_before, lemma_text_before_total, lemma_text_before_transitive, text_before,
};
use core::cmp::Ordering;
use vstd::prelude::*;
use vstd::std_specs::cmp::{PartialEqSpecImpl, PartialOrdSpecImpl};

verus! {

/// Whether a name that may be absent comes before another: an absent one
/// before every one that is present, two that are present as in a dictionary.
pub open spec fn name_before(a: Option<Seq<char>>, b: Option<Seq<char>>) -> bool {
    match (a, b) {
        (None, Some(_)) => true,
        (Some(x), Some(y)) => text_before(x, y),
        _ => false,
    }
}

/// Whether a stream comes before another: by package, and by test where the
/// packages are the same.
pub open spec fn key_before(a: KeyView, b: KeyView) -> bool {
    name_before(a.package, b.package) || (a.package == b.package && name_before(a.test, b.test))
}

/// No stream comes before itself; of two different streams exactly one comes
/// before the other.
pub proof fn lemma_key_before_total(a: KeyView, b: KeyView)
    ensures
        !key_before(a, a),
        a != b ==> (key_before(a, b) <==> !key_before(b, a)),
{
    if let Some(x) = a.package {
        lemma_text_before_total(x, x);
        if let Some(y) = b.package {
            lemma_text_before_total(x, y);
        }
    }
    if let Some(x) = a.test {
        lemma_text_before_total(x, x);
        if let Some(y) = b.test {
            lemma_text_before_total(x, y);
        }
    }
}

/// What comes before a stream that comes before a third comes before the
/// third.
pub proof fn lemma_key_before_transitive(a: KeyView, b: KeyView, c: KeyView)
    requires
        key_before(a, b),
        key_before(b, c),
    ensures
        key_before(a, c),
{
    if let (Some(x), Some(y), Some(z)) = (a.package, b.package, c.package) {
        if text_before(x, y) && text_before(y, z) {
            lemma_text_before_transitive(x, y, z);
        }
    }
    if let (Some(x), Some(y), Some(z)) = (a.test, b.test, c.test) {
        if text_before(x, y) && text_before(y, z) {
            lemma_text_before_transitive(x, y, z);
        }
    }
}

/// Whether a name that may be absent comes before another.
fn name_precedes(a: &Option<String>, b: &Option<String>) -> (r: bool)
    ensures
        r == name_before(crate::event::text_view(*a), crate::event::text_view(*b)),
{
    match (a, b) {
        (None, Some(_)) => true,
        (Some(x), Some(y)) => comes_before(x.as_str(), y.as_str()),
        _ => false,
    }
}

/// Whether two names that may be absent are the same.
fn name_same(a: &Option<String>, b: &Option<String>) -> (r: bool)
    ensures
        r == (crate::event::text_view(*a) == crate::event::text_view(*b)),
{
    match (a, b) {
        (Some(x), Some(y)) => *x == *y,
        (None, None) => true,
        _ => false,
    }
}

impl GoTestKey {
    /// Whether this stream comes before `other`.
    pub fn precedes(&self, other: &GoTestKey) -> (r: bool)
        ensures
            r == key_before(self@, other@),
    {
        name_precedes(&self.package, &other.package) || (name_same(&self.package, &other.package)
            && name_precedes(&self.test, &other.test))
    }
}

impl PartialEq for GoTestKey {
    fn eq(&self, other: &GoTestKey) -> (r: bool) {
        self.same(other)
    }
}

impl PartialEqSpecImpl for GoTestKey {
    open spec fn obeys_eq_spec() -> bool {
        true
    }

    open spec fn eq_spec(&self, other: &GoTestKey) -> bool {
        self@ == other@
    }
}

impl PartialOrd for GoTestKey {
    fn partial_cmp(&self, other: &GoTestKey) -> (r: Option<Ordering>) {
        if self.same(other) {
            Some(Ordering::Equal)
        } else if self.precedes(other) {
            Some(Ordering::Less)
        } else {
            Some(Ordering::Greater)
        }
    }
}

impl PartialOrdSpecImpl for GoTestKey {
    open spec fn obeys_partial_cmp_spec() -> bool {
        true
    }

    open spec fn partial_cmp_spec(&self, other: &GoTestKey) -> Option<Ordering> {
        if self@ == other@ {
            Some(Ordering::Equal)
        } else if key_before(self@, other@) {
            Some(Ordering::Less)
        } else {
            Some(Ordering::Greater)
        }
    }
}

} // verus!
