//! Library-level rules on books: the duplicate-title error and paragraph
//! splitting of imported plain text.

use vstd::prelude::*;

use crate::text::{delimits, line_bounds, lines_of, trim_ws, trimmed_substring};

verus! {

/// Errors of library operations.
#[derive(Debug)]
pub enum LibraryError {
    DuplicateTitle(String),
}

impl LibraryError {
    /// The human-readable message of the error.
    pub fn message(&self) -> (r: String)
        ensures
            match self {
                LibraryError::DuplicateTitle(t) => r@ == "Failed to create book: duplicate title ("@ + t@ + ")"@,
            },
    {
        match self {
            LibraryError::DuplicateTitle(title) => {
                let mut m = String::from_str("Failed to create book: duplicate title (");
                m.append(title.as_str());
                m.append(")");
                m
            },
        }
    }
}

/// The trimmed, non-empty lines of `ls`, in order.
pub open spec fn nonblank_trimmed(ls: Seq<Seq<char>>) -> Seq<Seq<char>>
    decreases ls.len(),
{
    if ls.len() == 0 {
        Seq::empty()
    } else {
        let rest = nonblank_trimmed(ls.drop_last());
        let t = trim_ws(ls.last());
        if t.len() > 0 {
            rest.push(t)
        } else {
            rest
        }
    }
}

/// Splits plain text into paragraphs: one per line, trimmed, blank lines
/// dropped.
pub fn split_paragraphs(text: &str) -> (r: Vec<String>)
    ensures
        r@.map_values(|s: String| s@) == nonblank_trimmed(lines_of(text@)),
{
    let bounds = line_bounds(text);
    let ghost ls = lines_of(text@);
    let mut out: Vec<String> = Vec::new();
    let mut k: usize = 0;
    while k < bounds.len()
        invariant
            ls == lines_of(text@),
            bounds@.len() == ls.len(),
            forall|m: int| 0 <= m < bounds@.len() ==> delimits(text@, #[trigger] bounds@[m], ls[m]),
            k <= bounds@.len(),
            out@.map_values(|s: String| s@) == nonblank_trimmed(ls.take(k as int)),
        decreases bounds@.len() - k,
    {
        let (lo, hi) = bounds[k];
        proof {
            assert(delimits(text@, bounds@[k as int], ls[k as int]));
            assert(ls.take(k + 1).drop_last() =~= ls.take(k as int));
            assert(ls.take(k + 1).last() == ls[k as int]);
        }
        let p = trimmed_substring(text, lo, hi);
        if p.as_str().unicode_len() > 0 {
            let ghost prev = out@;
            out.push(p);
            assert(out@.map_values(|s: String| s@) =~= prev.map_values(|s: String| s@).push(p@));
        }
        k = k + 1;
    }
    assert(ls.take(ls.len() as int) =~= ls);
    out
}

} // verus!
