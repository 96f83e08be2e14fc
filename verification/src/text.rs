//! Searching and ordering of text, stated over sequences of characters.

use vstd::prelude::*;

verus! {

/// `part` stands in `text`, starting at position `at`.
pub open spec fn occurs_at(text: Seq<char>, part: Seq<char>, at: int) -> bool {
    &&& 0 <= at
    &&& at + part.len() <= text.len()
    &&& text.subrange(at, at + part.len()) == part
}

/// `part` stands somewhere in `text`.
pub open spec fn occurs(text: Seq<char>, part: Seq<char>) -> bool {
    exists|at: int| occurs_at(text, part, at)
}

/// `text` ends with `part`.
pub open spec fn ends_in(text: Seq<char>, part: Seq<char>) -> bool {
    occurs_at(text, part, text.len() - part.len())
}

/// `a` and `b` agree before position `at`, and there `a` ends first or has the smaller
/// character.
pub open spec fn precedes_at(a: Seq<char>, b: Seq<char>, at: int) -> bool {
    &&& 0 <= at <= a.len()
    &&& at < b.len()
    &&& forall|i: int| 0 <= i < at ==> a[i] == b[i]
    &&& at == a.len() || (a[at] as int) < (b[at] as int)
}

/// `a` comes strictly before `b` in lexicographic order of code points.
pub open spec fn precedes(a: Seq<char>, b: Seq<char>) -> bool {
    exists|at: int| precedes_at(a, b, at)
}

/// Lexicographic order relates no text to itself, and never relates two texts both ways.
pub proof fn lemma_precedes_asymmetric(a: Seq<char>, b: Seq<char>)
    requires
        precedes(a, b),
    ensures
        !precedes(b, a),
        a != b,
{
    let at = choose|at: int| precedes_at(a, b, at);
    if precedes(b, a) {
        let back = choose|back: int| precedes_at(b, a, back);
        if at < back {
            assert(b[at] == a[at]);
        } else if back < at {
            assert(a[back] == b[back]);
        }
    }
    if a == b {
        assert(precedes_at(b, a, at));
    }
}

/// Lexicographic order is transitive.
pub proof fn lemma_precedes_transitive(a: Seq<char>, b: Seq<char>, c: Seq<char>)
    requires
        precedes(a, b),
        precedes(b, c),
    ensures
        precedes(a, c),
{
    let first = choose|at: int| precedes_at(a, b, at);
    let second = choose|at: int| precedes_at(b, c, at);
    let at = if first <= second {
        first
    } else {
        second
    };
    assert(precedes_at(a, c, at));
}

/// Two different texts are always ordered, one way or the other.
pub proof fn lemma_precedes_total(a: Seq<char>, b: Seq<char>)
    requires
        a != b,
    ensures
        precedes(a, b) || precedes(b, a),
{
    lemma_first_difference(a, b, 0);
}

proof fn lemma_first_difference(a: Seq<char>, b: Seq<char>, from: int)
    requires
        a != b,
        0 <= from <= a.len(),
        from <= b.len(),
        forall|i: int| 0 <= i < from ==> a[i] == b[i],
    ensures
        precedes(a, b) || precedes(b, a),
    decreases a.len() - from,
{
    if from == a.len() {
        if from == b.len() {
            assert(a =~= b);
        } else {
            assert(precedes_at(a, b, from));
        }
    } else if from == b.len() {
        assert(precedes_at(b, a, from));
    } else if a[from] == b[from] {
        lemma_first_difference(a, b, from + 1);
    } else if (a[from] as int) < (b[from] as int) {
        assert(precedes_at(a, b, from));
    } else {
        assert(precedes_at(b, a, from));
    }
}

/// Calls `str::contains` with a string pattern. Trusted: the result says whether the pattern
/// occurs as a contiguous part of the text.
#[verifier::external_body]
pub(crate) fn text_contains(text: &str, part: &str) -> (found: bool)
    ensures
        found == occurs(text@, part@),
{
    text.contains(part)
}

/// Calls `str::ends_with` with a string pattern. Trusted: the result says whether the text ends
/// with the pattern.
#[verifier::external_body]
pub(crate) fn text_ends_with(text: &str, part: &str) -> (found: bool)
    ensures
        found == ends_in(text@, part@),
{
    text.ends_with(part)
}

/// Calls `<str as PartialOrd>::lt`. Trusted: strings are ordered lexicographically, and by the
/// position of their code points.
#[verifier::external_body]
pub(crate) fn text_precedes(a: &str, b: &str) -> (before: bool)
    ensures
        before == precedes(a@, b@),
{
    a < b
}

} // verus!
