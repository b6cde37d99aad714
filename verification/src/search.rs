//! First matches, and optional text.

use vstd::prelude::*;

use crate::text::{opt_str, opt_text, same_str, texts};

verus! {

/// The first index below `n` at which the predicate holds.
pub open spec fn first_where(n: nat, pred: spec_fn(int) -> bool) -> Option<int>
    decreases n,
{
    if n == 0 {
        None
    } else {
        match first_where((n - 1) as nat, pred) {
            Some(i) => Some(i),
            None => if pred(n - 1) {
                Some(n - 1)
            } else {
                None
            },
        }
    }
}

/// A match with none before it is the first one.
pub proof fn lemma_first_found(n: nat, pred: spec_fn(int) -> bool, i: int)
    requires
        0 <= i < n,
        pred(i),
        first_where(i as nat, pred) is None,
    ensures
        first_where(n, pred) == Some(i),
    decreases n,
{
    if n > i + 1 {
        lemma_first_found((n - 1) as nat, pred, i);
    }
}

/// The first match is one, and nothing before it is.
pub proof fn lemma_first_where(n: nat, pred: spec_fn(int) -> bool)
    ensures
        match first_where(n, pred) {
            Some(i) => 0 <= i < n && pred(i) && forall|j: int| 0 <= j < i ==> !#[trigger] pred(j),
            None => forall|j: int| 0 <= j < n ==> !#[trigger] pred(j),
        },
    decreases n,
{
    if n > 0 {
        lemma_first_where((n - 1) as nat, pred);
    }
}

/// Whether two optional strings hold the same text.
pub fn same_opt(a: &Option<String>, b: &Option<String>) -> (r: bool)
    ensures
        r == (opt_text(*a) == opt_text(*b)),
{
    match (a, b) {
        (Some(x), Some(y)) => same_str(x.as_str(), y.as_str()),
        (None, None) => true,
        _ => false,
    }
}

/// Whether an optional string holds the given text.
pub fn is_text(a: &Option<String>, b: &str) -> (r: bool)
    ensures
        r == (opt_text(*a) == Some(b@)),
{
    match a {
        Some(x) => same_str(x.as_str(), b),
        None => false,
    }
}

pub fn copy_opt(a: &Option<String>) -> (r: Option<String>)
    ensures
        opt_text(r) == opt_text(*a),
{
    match a {
        Some(x) => Some(x.clone()),
        None => None,
    }
}

/// An optional string as an optional slice.
pub fn as_opt_str<'a>(a: &'a Option<String>) -> (r: Option<&'a str>)
    ensures
        opt_str(r) == opt_text(*a),
{
    match a {
        Some(x) => Some(x.as_str()),
        None => None,
    }
}

/// Which texts of the list are `s`.
pub open spec fn is_at(v: Seq<Seq<char>>, s: Seq<char>) -> spec_fn(int) -> bool {
    |i: int| v[i] == s
}

/// The index of the first text of the list that is `s`.
pub open spec fn position(v: Seq<Seq<char>>, s: Seq<char>) -> Option<int> {
    first_where(v.len(), is_at(v, s))
}

pub fn position_of(v: &Vec<String>, s: &str) -> (r: Option<usize>)
    ensures
        match (r, position(texts(v@), s@)) {
            (Some(i), Some(j)) => i == j && i < v@.len(),
            (None, None) => true,
            _ => false,
        },
{
    let ghost pred = is_at(texts(v@), s@);
    for i in 0..v.len()
        invariant
            pred == is_at(texts(v@), s@),
            first_where(i as nat, pred) is None,
    {
        if same_str(v[i].as_str(), s) {
            proof {
                lemma_first_found(texts(v@).len(), pred, i as int);
            }
            return Some(i);
        }
    }
    None
}

/// Whether the list holds the text.
pub fn lists(v: &Vec<String>, s: &str) -> (r: bool)
    ensures
        r == texts(v@).contains(s@),
{
    for i in 0..v.len()
        invariant
            forall|j: int| 0 <= j < i ==> #[trigger] texts(v@)[j] != s@,
    {
        if same_str(v[i].as_str(), s) {
            assert(texts(v@)[i as int] == s@);
            return true;
        }
    }
    false
}

/// A text is found where it first stands in a list, and nowhere only where the list lacks it.
pub proof fn law_texts_are_found_where_they_stand(v: Seq<Seq<char>>, s: Seq<char>)
    ensures
        match position(v, s) {
            Some(i) => 0 <= i < v.len() && v[i] == s && forall|j: int|
                0 <= j < i ==> #[trigger] v[j] != s,
            None => forall|j: int| 0 <= j < v.len() ==> #[trigger] v[j] != s,
        },
{
    let same = is_at(v, s);
    lemma_first_where(v.len(), same);
    assert forall|j: int| 0 <= j < v.len() implies same(j) == (#[trigger] v[j] == s) by {}
}

} // verus!
