//! Locations of objects: `/`-delimited paths in canonical form.

use crate::error::Error;
use vstd::prelude::*;
use vstd::std_specs::iter::IteratorSpec;

verus! {

/// The path without one leading delimiter.
pub open spec fn without_leading(raw: Seq<char>) -> Seq<char> {
    if raw.len() > 0 && raw[0] == '/' {
        raw.drop_first()
    } else {
        raw
    }
}

/// The text that a path keeps of `raw`: `raw` without one leading and one
/// trailing delimiter.
pub open spec fn trimmed(raw: Seq<char>) -> Seq<char> {
    let rest = without_leading(raw);
    if rest.len() > 0 && rest.last() == '/' {
        rest.drop_last()
    } else {
        rest
    }
}

/// A delimiter stands at `at` directly after another one, or at the start.
pub open spec fn empty_segment_at(text: Seq<char>, at: int) -> bool {
    0 <= at < text.len() && text[at] == '/' && (at == 0 || text[at - 1] == '/')
}

/// Splitting `text` at its delimiters gives no empty part.
pub open spec fn segments_nonempty(text: Seq<char>) -> bool {
    &&& text.len() > 0
    &&& text.last() != '/'
    &&& forall|at: int| !empty_segment_at(text, at)
}

/// `text` is a path as it is kept: empty, or segments joined by single
/// delimiters.
pub open spec fn canonical(text: Seq<char>) -> bool {
    text.len() == 0 || segments_nonempty(text)
}

/// `raw` denotes a path: nothing is left once the leading delimiter is
/// gone, or else what `trimmed` keeps has no empty segment.
pub open spec fn parses(raw: Seq<char>) -> bool {
    without_leading(raw).len() == 0 || segments_nonempty(trimmed(raw))
}

/// A parsed path: segments joined by `/`, none of them empty, with no
/// delimiter at either end. The empty path is the root.
#[derive(Debug, Clone)]
pub struct Path {
    raw: String,
}

impl View for Path {
    type V = Seq<char>;

    closed spec fn view(&self) -> Seq<char> {
        self.raw@
    }
}

/// Whether `text` has an empty segment, read off in one pass.
fn has_empty_segment(text: &str) -> (bad: bool)
    ensures
        bad == !segments_nonempty(text@),
{
    let mut found = false;
    let mut after_delimiter = true;
    for c in it: text.chars()
        invariant
            it.seq() == text@,
            found == exists|at: int| 0 <= at < it.index() && empty_segment_at(text@, at),
            after_delimiter == (it.index() == 0 || text@[it.index() - 1] == '/'),
    {
        if c == '/' && after_delimiter {
            found = true;
            assert(empty_segment_at(text@, it.index() as int));
        }
        after_delimiter = c == '/';
    }
    found || after_delimiter
}

impl Path {
    /// The root path.
    pub fn root() -> (path: Path)
        ensures
            path@ == Seq::<char>::empty(),
    {
        Path { raw: String::new() }
    }

    /// Parses `raw` as a path. One leading and one trailing `/` are
    /// dropped; what is left must split at `/` into non-empty segments,
    /// unless nothing follows the leading delimiter, which gives the root.
    pub fn parse(raw: &str) -> (parsed: Result<Path, Error>)
        ensures
            match parsed {
                Ok(path) => parses(raw@) && path@ == trimmed(raw@) && canonical(path@),
                Err(e) => !parses(raw@) && e.is_invalid_path(raw@),
            },
    {
        let n = raw.unicode_len();
        let from: usize = if n > 0 && raw.get_char(0) == '/' {
            1
        } else {
            0
        };
        assert(without_leading(raw@) =~= raw@.subrange(from as int, n as int));
        if from == n {
            assert(trimmed(raw@) =~= Seq::<char>::empty());
            return Ok(Path::root());
        }
        let to: usize = if raw.get_char(n - 1) == '/' {
            (n - 1) as usize
        } else {
            n
        };
        let kept = raw.substring_char(from, to);
        assert(kept@ =~= trimmed(raw@));
        if has_empty_segment(kept) {
            Err(Error::InvalidPath { path: String::from_str(raw) })
        } else {
            Ok(Path { raw: String::from_str(kept) })
        }
    }

    /// The text of the path.
    pub fn as_str(&self) -> (text: &str)
        ensures
            text@ == self@,
    {
        self.raw.as_str()
    }
}

} // verus!
