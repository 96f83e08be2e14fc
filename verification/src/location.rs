//! Locations of objects in a store: validated, `/`-delimited paths.

use object_store::path::Path;
use vstd::prelude::*;

verus! {

/// `text[from..to]` is a whole path segment: it runs from one delimiter, or the beginning, to
/// the next delimiter, or the end.
pub open spec fn segment_at(text: Seq<char>, from: int, to: int) -> bool {
    &&& 0 <= from <= to <= text.len()
    &&& from == 0 || text[from - 1] == '/'
    &&& to == text.len() || text[to] == '/'
    &&& forall|i: int| from <= i < to ==> text[i] != '/'
}

/// An ASCII control character.
pub open spec fn is_control(c: char) -> bool {
    (c as int) < 0x20 || c as int == 0x7f
}

/// A segment is not empty, is no relative segment (`.` or `..`) and holds no ASCII control
/// character.
pub open spec fn valid_segment(segment: Seq<char>) -> bool {
    &&& segment.len() > 0
    &&& segment != seq!['.']
    &&& segment != seq!['.', '.']
    &&& forall|i: int| 0 <= i < segment.len() ==> !is_control(#[trigger] segment[i])
}

/// The root, or a path all of whose segments are valid.
pub open spec fn valid_path(text: Seq<char>) -> bool {
    text.len() > 0 ==> forall|from: int, to: int| #[trigger]
        segment_at(text, from, to) ==> valid_segment(text.subrange(from, to))
}

/// `raw` without one leading delimiter.
pub open spec fn without_leading(raw: Seq<char>) -> Seq<char> {
    if raw.len() > 0 && raw[0] == '/' {
        raw.skip(1)
    } else {
        raw
    }
}

/// `raw` without one trailing delimiter.
pub open spec fn without_trailing(raw: Seq<char>) -> Seq<char> {
    if raw.len() > 0 && raw.last() == '/' {
        raw.drop_last()
    } else {
        raw
    }
}

/// The path that `raw` denotes once one leading and one trailing delimiter are stripped, or
/// `None` where it denotes none.
pub open spec fn parsed(raw: Seq<char>) -> Option<Seq<char>> {
    let stripped = without_leading(raw);
    if stripped.len() == 0 {
        Some(stripped)
    } else {
        let path = without_trailing(stripped);
        if path.len() > 0 && valid_path(path) {
            Some(path)
        } else {
            None
        }
    }
}

/// Where the segment that ends at `end` begins.
pub open spec fn segment_start(text: Seq<char>, end: int) -> int
    decreases end,
{
    if end <= 0 {
        0
    } else if text[end - 1] == '/' {
        end
    } else {
        segment_start(text, end - 1)
    }
}

/// The last segment of a path: what follows the last delimiter.
pub open spec fn file_name(text: Seq<char>) -> Seq<char> {
    text.subrange(segment_start(text, text.len() as int), text.len() as int)
}

/// Calls `object_store::path::Path::parse` and hands out the parsed path as text. Trusted: one
/// leading and one trailing delimiter are stripped; what is left is accepted if it is empty
/// after the first of these steps, or if it is not empty and every segment of it is valid.
#[verifier::external_body]
fn path_parse(raw: &str) -> (path: Option<String>)
    ensures
        match path {
            Some(text) => parsed(raw@) == Some(text@),
            None => parsed(raw@) is None,
        },
{
    Path::parse(raw).ok().map(String::from)
}

/// Calls `object_store::path::Path::filename` on the path with this text. Trusted: the root has
/// no file name, and every other path has its last segment for one.
#[verifier::external_body]
fn path_filename(text: &str) -> (name: Option<String>)
    requires
        valid_path(text@),
    ensures
        match name {
            Some(name) => text@.len() > 0 && name@ == file_name(text@),
            None => text@.len() == 0,
        },
{
    Path::parse(text).ok()?.filename().map(String::from)
}

/// The location of an object, or of a prefix that holds objects.
///
/// The text of a location is a valid path: see [`valid_path`].
#[derive(Debug)]
pub struct Location {
    text: String,
}

impl View for Location {
    type V = Seq<char>;

    closed spec fn view(&self) -> Seq<char> {
        self.text@
    }
}

impl Clone for Location {
    fn clone(&self) -> (copy: Self)
        ensures
            copy@ == self@,
    {
        proof {
            use_type_invariant(self);
        }
        Location { text: self.text.clone() }
    }
}

impl Location {
    #[verifier::type_invariant]
    spec fn is_valid(self) -> bool {
        valid_path(self.text@)
    }

    /// Reads a location from text. One leading and one trailing `/` are ignored.
    pub fn parse(raw: &str) -> (location: Option<Location>)
        ensures
            match location {
                Some(location) => parsed(raw@) == Some(location@) && valid_path(location@),
                None => parsed(raw@) is None,
            },
    {
        match path_parse(raw) {
            Some(text) => Some(Location { text }),
            None => None,
        }
    }

    /// The location as text.
    pub fn as_str(&self) -> (text: &str)
        ensures
            text@ == self@,
            valid_path(self@),
    {
        proof {
            use_type_invariant(self);
        }
        self.text.as_str()
    }

    /// Whether the two are the same location.
    pub fn is_same(&self, other: &Location) -> (same: bool)
        ensures
            same == (self@ == other@),
    {
        self.text == other.text
    }

    /// The last segment of the location; the root has none.
    pub fn filename(&self) -> (name: Option<String>)
        ensures
            match name {
                Some(name) => self@.len() > 0 && name@ == file_name(self@),
                None => self@.len() == 0,
            },
    {
        proof {
            use_type_invariant(self);
        }
        path_filename(self.text.as_str())
    }

    /// The last segment of the location, or the empty text for the root.
    pub fn filename_or_empty(&self) -> (name: String)
        ensures
            name@ == file_name(self@),
    {
        match self.filename() {
            Some(name) => name,
            None => {
                proof {
                    assert(file_name(self@) =~= Seq::<char>::empty());
                }
                String::new()
            },
        }
    }
}

} // verus!
