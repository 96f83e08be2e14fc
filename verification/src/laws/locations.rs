//! What reading a location amounts to.

use crate::laws::characters::lemma_segment_start;
use crate::location::{
    is_control, parsed, segment_at, segment_start, valid_path, valid_segment, without_leading,
    without_trailing,
};
use vstd::prelude::*;

verus! {

/// Whatever is read as a location is a valid path, and reading that path again gives the same
/// location.
pub proof fn law_parse_is_stable(raw: Seq<char>)
    requires
        parsed(raw) is Some,
    ensures
        valid_path(parsed(raw)->Some_0),
        parsed(parsed(raw)->Some_0) == parsed(raw),
{
    law_valid_path_parses(parsed(raw)->Some_0);
}

/// A valid path is read as it stands.
pub proof fn law_valid_path_parses(text: Seq<char>)
    requires
        valid_path(text),
    ensures
        parsed(text) == Some(text),
{
    if text.len() > 0 {
        let end = text.len() as int;
        if text[0] == '/' {
            assert(segment_at(text, 0, 0));
            assert(!valid_segment(text.subrange(0, 0)));
        }
        if text[end - 1] == '/' {
            assert(segment_at(text, end, end));
            assert(!valid_segment(text.subrange(end, end)));
        }
    }
}

/// A segment of the path could begin here.
pub open spec fn opens_at(text: Seq<char>, at: int) -> bool {
    at == 0 || text[at - 1] == '/'
}

/// A segment of the path could end here.
pub open spec fn closes_at(text: Seq<char>, at: int) -> bool {
    at == text.len() || text[at] == '/'
}

/// A path that is fit for a location, by its characters: no delimiter at either end, none next to
/// another, no control character, and nothing that stands for this directory or the one above.
pub open spec fn proper(text: Seq<char>) -> bool {
    &&& text.len() > 0 ==> text[0] != '/' && text[text.len() - 1] != '/'
    &&& forall|i: int|
        0 <= i < text.len() ==> 32 <= #[trigger] text[i] as int && text[i] as int != 127
    &&& forall|i: int|
        0 <= i && i + 1 < text.len() && #[trigger] text[i] == '/' ==> text[i + 1] != '/'
    &&& forall|i: int|
        0 <= i < text.len() && #[trigger] text[i] == '.' && opens_at(text, i) ==> !closes_at(
            text,
            i + 1,
        ) && !(text[i + 1] == '.' && closes_at(text, i + 2))
}

proof fn lemma_segment_end(text: Seq<char>, from: int) -> (to: int)
    requires
        0 <= from <= text.len(),
    ensures
        from <= to <= text.len(),
        closes_at(text, to),
        forall|i: int| from <= i < to ==> text[i] != '/',
    decreases text.len() - from,
{
    if from == text.len() || text[from] == '/' {
        from
    } else {
        lemma_segment_end(text, from + 1)
    }
}

/// The valid paths are the proper ones.
pub proof fn law_valid_paths(text: Seq<char>)
    ensures
        valid_path(text) <==> proper(text),
{
    let end = text.len() as int;
    if valid_path(text) && end > 0 {
        if text[0] == '/' {
            assert(segment_at(text, 0, 0));
            assert(!valid_segment(text.subrange(0, 0)));
        }
        if text[end - 1] == '/' {
            assert(segment_at(text, end, end));
            assert(!valid_segment(text.subrange(end, end)));
        }
        assert forall|i: int| 0 <= i < end implies 32 <= #[trigger] text[i] as int && text[i] as int
            != 127 by {
            if text[i] != '/' {
                lemma_segment_start(text, i);
                let from = segment_start(text, i);
                let to = lemma_segment_end(text, i);
                assert(segment_at(text, from, to));
                let segment = text.subrange(from, to);
                assert(valid_segment(segment));
                assert(i < to);
                assert(segment[i - from] == text[i]);
                assert(!is_control(segment[i - from]));
            }
        }
        assert forall|i: int| 0 <= i && i + 1 < end && #[trigger] text[i] == '/' implies text[i + 1]
            != '/' by {
            if text[i + 1] == '/' {
                assert(segment_at(text, i + 1, i + 1));
                assert(!valid_segment(text.subrange(i + 1, i + 1)));
            }
        }
        assert forall|i: int|
            0 <= i < end && #[trigger] text[i] == '.' && opens_at(text, i) implies !closes_at(
            text,
            i + 1,
        ) && !(text[i + 1] == '.' && closes_at(text, i + 2)) by {
            if closes_at(text, i + 1) {
                assert(segment_at(text, i, i + 1));
                assert(text.subrange(i, i + 1) =~= seq!['.']);
            } else if text[i + 1] == '.' && closes_at(text, i + 2) {
                assert(segment_at(text, i, i + 2));
                assert(text.subrange(i, i + 2) =~= seq!['.', '.']);
            }
        }
    }
    if proper(text) && end > 0 {
        assert forall|from: int, to: int| #[trigger] segment_at(
            text,
            from,
            to,
        ) implies valid_segment(text.subrange(from, to)) by {
            let segment = text.subrange(from, to);
            if from == to && from > 0 {
                assert(text[from - 1] == '/');
            }
            if segment == seq!['.'] {
                assert(segment.len() == 1);
                assert(text[from] == segment[0]);
                assert(opens_at(text, from) && closes_at(text, from + 1));
            }
            if segment == seq!['.', '.'] {
                assert(segment.len() == 2);
                assert(text[from] == segment[0] && text[from + 1] == segment[1]);
                assert(opens_at(text, from) && closes_at(text, from + 2));
            }
            assert forall|i: int| 0 <= i < segment.len() implies !is_control(
                #[trigger] segment[i],
            ) by {
                assert(segment[i] == text[from + i]);
            }
        }
    }
}

/// What is read as a location: a proper path, which may have one delimiter before it and, unless it
/// is empty, one behind it. Nothing else is.
pub proof fn law_parse(raw: Seq<char>, text: Seq<char>)
    ensures
        parsed(raw) == Some(text) <==> proper(text) && {
            ||| raw == text
            ||| raw == seq!['/'] + text
            ||| text.len() > 0 && raw == text + seq!['/']
            ||| text.len() > 0 && raw == seq!['/'] + text + seq!['/']
        },
{
    law_valid_paths(text);
    let slash = seq!['/'];
    let stripped = without_leading(raw);
    if parsed(raw) == Some(text) {
        assert(raw =~= stripped || raw =~= slash + stripped);
        if stripped.len() > 0 {
            assert(stripped =~= text || stripped =~= text + slash);
            assert(slash + (text + slash) =~= slash + text + slash);
        } else {
            assert(stripped =~= text);
        }
    }
    if proper(text) {
        if raw == text {
            assert(stripped == text);
            assert(parsed(raw) == Some(text));
        } else if raw == slash + text {
            assert(stripped =~= text);
            assert(parsed(raw) == Some(text));
        } else if text.len() > 0 && raw == text + slash {
            assert(raw[0] == text[0]);
            assert(stripped == raw);
            assert(without_trailing(stripped) =~= text);
        } else if text.len() > 0 && raw == slash + text + slash {
            assert(stripped =~= text + slash);
            assert(without_trailing(stripped) =~= text);
        }
    }
}

} // verus!
