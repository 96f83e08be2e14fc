//! Words for the characters of a location, in which the laws say what its name decides.

use crate::location::{file_name, segment_start};
use crate::text::{ends_in, occurs, occurs_at, precedes, precedes_at};
use vstd::prelude::*;

verus! {

/// The characters of `part` stand in `text` one after another, from position `at` on.
pub open spec fn stands_at(text: Seq<char>, part: Seq<char>, at: int) -> bool {
    &&& 0 <= at <= text.len() - part.len()
    &&& forall|k: int| 0 <= k < part.len() ==> #[trigger] text[at + k] == part[k]
}

/// The characters of `part` stand in `text` somewhere.
pub open spec fn has(text: Seq<char>, part: Seq<char>) -> bool {
    exists|at: int| #[trigger] stands_at(text, part, at)
}

/// The last characters of `text` are those of `part`.
pub open spec fn closes_with(text: Seq<char>, part: Seq<char>) -> bool {
    stands_at(text, part, text.len() - part.len())
}

/// `name` is what follows the last `/` of the text, or the whole text where it has none.
pub open spec fn is_last_segment(text: Seq<char>, name: Seq<char>) -> bool {
    &&& closes_with(text, name)
    &&& forall|i: int| 0 <= i < name.len() ==> name[i] != '/'
    &&& name.len() == text.len() || text[text.len() - name.len() - 1] == '/'
}

/// `a` comes before `b` in a dictionary: where they first differ, `a` ends or has the smaller
/// character.
pub open spec fn comes_before(a: Seq<char>, b: Seq<char>) -> bool {
    exists|at: int|
        {
            &&& 0 <= at <= a.len()
            &&& at < b.len()
            &&& #[trigger] a.take(at) == b.take(at)
            &&& at < a.len() ==> (a[at] as int) < (b[at] as int)
        }
}

pub(crate) proof fn lemma_has(text: Seq<char>, part: Seq<char>)
    ensures
        occurs(text, part) == has(text, part),
        ends_in(text, part) == closes_with(text, part),
{
    assert forall|at: int| occurs_at(text, part, at) == stands_at(text, part, at) by {
        if stands_at(text, part, at) {
            let found = text.subrange(at, at + part.len());
            assert forall|k: int| 0 <= k < part.len() implies found[k] == part[k] by {
                assert(text[at + k] == part[k]);
            }
            assert(found =~= part);
        }
        if occurs_at(text, part, at) {
            assert forall|k: int| 0 <= k < part.len() implies #[trigger] text[at + k]
                == part[k] by {
                assert(text.subrange(at, at + part.len())[k] == part[k]);
            }
        }
    }
    if occurs(text, part) {
        let at = choose|at: int| occurs_at(text, part, at);
        assert(stands_at(text, part, at));
    }
    if has(text, part) {
        let at = choose|at: int| #[trigger] stands_at(text, part, at);
        assert(occurs_at(text, part, at));
    }
    assert(occurs_at(text, part, text.len() - part.len()) == stands_at(
        text,
        part,
        text.len() - part.len(),
    ));
}

pub(crate) proof fn lemma_comes_before(a: Seq<char>, b: Seq<char>)
    ensures
        precedes(a, b) == comes_before(a, b),
{
    if precedes(a, b) {
        let at = choose|at: int| precedes_at(a, b, at);
        assert(a.take(at) =~= b.take(at));
    }
    if comes_before(a, b) {
        let at = choose|at: int|
            {
                &&& 0 <= at <= a.len()
                &&& at < b.len()
                &&& #[trigger] a.take(at) == b.take(at)
                &&& at < a.len() ==> (a[at] as int) < (b[at] as int)
            };
        assert forall|i: int| 0 <= i < at implies a[i] == b[i] by {
            assert(a.take(at)[i] == b.take(at)[i]);
        }
        assert(precedes_at(a, b, at));
    }
}

pub(crate) proof fn lemma_segment_start(text: Seq<char>, end: int)
    requires
        0 <= end <= text.len(),
    ensures
        0 <= segment_start(text, end) <= end,
        segment_start(text, end) == 0 || text[segment_start(text, end) - 1] == '/',
        forall|i: int| segment_start(text, end) <= i < end ==> text[i] != '/',
    decreases end,
{
    if end > 0 && text[end - 1] != '/' {
        lemma_segment_start(text, end - 1);
    }
}

/// The file name of a location is its last segment, and a location has no other last segment.
pub proof fn law_file_name(text: Seq<char>, name: Seq<char>)
    ensures
        file_name(text) == name <==> is_last_segment(text, name),
{
    let end = text.len() as int;
    let start = segment_start(text, end);
    lemma_segment_start(text, end);
    let own = file_name(text);
    assert forall|k: int| 0 <= k < own.len() implies #[trigger] text[start + k] == own[k] by {}
    assert forall|i: int| 0 <= i < own.len() implies own[i] != '/' by {
        assert(text[start + i] != '/');
    }
    assert(is_last_segment(text, own));
    if is_last_segment(text, name) {
        let begin = end - name.len();
        assert forall|k: int| 0 <= k < name.len() implies #[trigger] text[begin + k]
            == name[k] by {}
        if begin < start {
            assert(text[begin + (start - 1 - begin)] == name[start - 1 - begin]);
        }
        if start < begin {
            assert(text[begin - 1] == '/');
        }
        assert(begin == start);
        assert forall|k: int| 0 <= k < name.len() implies name[k] == own[k] by {
            assert(text[begin + k] == name[k]);
        }
        assert(name =~= own);
    }
}

} // verus!
