//! How the model-checking trace recorder classifies the files of a book
//! directory and labels the canonical user state.

use vstd::prelude::*;

use crate::text::{decimal, decimal_string, is_prefix, is_suffix, str_ends_with, str_eq, str_starts_with};

verus! {

/// Number of occurrences of `c` in `s`.
pub open spec fn count_char(s: Seq<char>, c: char) -> nat
    decreases s.len(),
{
    if s.len() == 0 {
        0
    } else {
        count_char(s.drop_last(), c) + if s.last() == c { 1nat } else { 0 }
    }
}

/// `translation_<src>_<tgt>.dat` with no further `_` and no `.` before the
/// extension: the canonical file of a translation.
pub open spec fn is_canonical_translation_name(name: Seq<char>) -> bool {
    is_prefix("translation_"@, name) && is_suffix(".dat"@, name) && count_char(name.take(name.len() - 4), '.') == 0
        && count_char(name.take(name.len() - 4), '_') == 2
}

/// Whether `name` is the canonical file of a translation.
pub fn is_canonical_translation_filename(name: &str) -> (r: bool)
    ensures
        r == is_canonical_translation_name(name@),
{
    if !(str_starts_with(name, "translation_") && str_ends_with(name, ".dat")) {
        return false;
    }
    proof {
        reveal_strlit(".dat");
    }
    let n = name.unicode_len();
    let stem_len = n - 4;
    let mut dots: usize = 0;
    let mut unders: usize = 0;
    let mut i: usize = 0;
    while i < stem_len
        invariant
            n == name@.len(),
            stem_len + 4 == n,
            i <= stem_len,
            dots == count_char(name@.take(i as int), '.'),
            unders == count_char(name@.take(i as int), '_'),
            dots <= i,
            unders <= i,
        decreases stem_len - i,
    {
        let c = name.get_char(i);
        assert(name@.take(i + 1).drop_last() =~= name@.take(i as int));
        if c == '.' {
            dots = dots + 1;
        }
        if c == '_' {
            unders = unders + 1;
        }
        i = i + 1;
    }
    dots == 0 && unders == 2
}

/// A conflict copy of the book file: `book*.dat` other than `book.dat`.
pub open spec fn is_book_conflict_name(name: Seq<char>) -> bool {
    is_prefix("book"@, name) && is_suffix(".dat"@, name) && name != "book.dat"@
}

/// Whether `name` is a conflict copy of the book file.
pub fn is_book_conflict_filename(name: &str) -> (r: bool)
    ensures
        r == is_book_conflict_name(name@),
{
    str_starts_with(name, "book") && str_ends_with(name, ".dat") && !str_eq(name, "book.dat")
}

/// A conflict copy of the user state: `state*.json` other than `state.json`.
pub open spec fn is_state_conflict_name(name: Seq<char>) -> bool {
    is_prefix("state"@, name) && is_suffix(".json"@, name) && name != "state.json"@
}

/// Whether `name` is a conflict copy of the user state.
pub fn is_state_conflict_filename(name: &str) -> (r: bool)
    ensures
        r == is_state_conflict_name(name@),
{
    str_starts_with(name, "state") && str_ends_with(name, ".json") && !str_eq(name, "state.json")
}

/// A conflict copy of a translation: `translation_*.dat` that is not
/// canonical.
pub open spec fn is_translation_conflict_name(name: Seq<char>) -> bool {
    is_prefix("translation_"@, name) && is_suffix(".dat"@, name) && !is_canonical_translation_name(name)
}

/// Whether `name` is a conflict copy of a translation.
pub fn is_translation_conflict_filename(name: &str) -> (r: bool)
    ensures
        r == is_translation_conflict_name(name@),
{
    str_starts_with(name, "translation_") && str_ends_with(name, ".dat") && !is_canonical_translation_filename(name)
}

/// The trace label of a reading position: `chapter:paragraph`, or `nil`.
pub open spec fn reading_label(position: Option<(usize, usize)>) -> Seq<char> {
    match position {
        Some((c, p)) => decimal(c as nat) + ":"@ + decimal(p as nat),
        None => "nil"@,
    }
}

/// Labels a reading position for the trace.
pub fn trace_reading_label(position: Option<(usize, usize)>) -> (r: String)
    ensures
        r@ == reading_label(position),
{
    match position {
        Some((c, p)) => {
            let mut out = decimal_string(c);
            out.append(":");
            let q = decimal_string(p);
            out.append(q.as_str());
            out
        },
        None => String::from_str("nil"),
    }
}

/// The parts of a folder path joined with `/`.
pub open spec fn joined_with_slash(parts: Seq<Seq<char>>) -> Seq<char>
    decreases parts.len(),
{
    if parts.len() == 0 {
        Seq::empty()
    } else if parts.len() == 1 {
        parts[0]
    } else {
        joined_with_slash(parts.drop_last()) + "/"@ + parts.last()
    }
}

/// Labels a folder path for the trace: its parts joined with `/`, or `nil`
/// when it is empty.
pub fn trace_folder_label(folder_path: &Vec<String>) -> (r: String)
    ensures
        folder_path@.len() == 0 ==> r@ == "nil"@,
        folder_path@.len() > 0 ==> r@ == joined_with_slash(folder_path@.map_values(|s: String| s@)),
{
    if folder_path.len() == 0 {
        return String::from_str("nil");
    }
    let ghost parts = folder_path@.map_values(|s: String| s@);
    let mut out = folder_path[0].clone();
    let mut i: usize = 1;
    assert(parts.take(1).drop_last().len() == 0);
    while i < folder_path.len()
        invariant
            1 <= i <= folder_path@.len(),
            parts == folder_path@.map_values(|s: String| s@),
            out@ == joined_with_slash(parts.take(i as int)),
        decreases folder_path@.len() - i,
    {
        out.append("/");
        out.append(folder_path[i].as_str());
        proof {
            assert(parts.take(i + 1).drop_last() =~= parts.take(i as int));
            assert(parts.take(i + 1).last() == folder_path@[i as int]@);
        }
        i = i + 1;
    }
    assert(parts.take(folder_path@.len() as int) =~= parts);
    out
}

/// The argument of a traced book event: the reading position or the folder
/// path the event sets.
#[derive(Debug, Clone)]
pub struct TraceArg {
    pub reading: Option<String>,
    pub folder: Option<String>,
}

impl Default for TraceArg {
    fn default() -> (r: TraceArg)
        ensures
            r.reading is None,
            r.folder is None,
    {
        TraceArg { reading: None, folder: None }
    }
}

impl TraceArg {
    /// The argument of an event that sets the reading position:
    /// `chapter:paragraph`.
    pub fn reading_position(chapter_id: usize, paragraph_id: usize) -> (r: TraceArg)
        ensures
            r.reading matches Some(s) && s@ == reading_label(Some((chapter_id, paragraph_id))),
            r.folder is None,
    {
        TraceArg { reading: Some(trace_reading_label(Some((chapter_id, paragraph_id)))), folder: None }
    }

    /// The argument of an event that sets the folder path: its parts joined
    /// with `/`.
    pub fn folder_path(folder_path: &Vec<String>) -> (r: TraceArg)
        ensures
            r.reading is None,
            r.folder matches Some(s) && s@ == joined_with_slash(folder_path@.map_values(|s: String| s@)),
    {
        let joined = if folder_path.len() == 0 {
            String::new()
        } else {
            trace_folder_label(folder_path)
        };
        TraceArg { reading: None, folder: Some(joined) }
    }
}

} // verus!
