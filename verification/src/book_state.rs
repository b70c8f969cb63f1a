//! Per-book user state (reading position and library folder) and the
//! field-wise merge of its conflict copies.

use vstd::prelude::*;

use crate::text::{is_prefix, is_suffix, str_ends_with, str_eq, str_starts_with};

verus! {

/// Where the reader is in a book.
#[derive(Debug, Clone, Copy, PartialEq, Eq, Structural)]
pub struct BookReadingState {
    pub chapter_id: usize,
    pub paragraph_id: usize,
    /// Which column of the saved paragraph the reader was on; zero for
    /// single-column paragraphs.
    pub page_offset: usize,
}

/// The per-book user state: reading position and library folder.
#[derive(Debug, Clone)]
pub struct BookUserState {
    pub reading_state: Option<BookReadingState>,
    pub folder_path: Vec<String>,
}

pub struct BookUserStateView {
    pub reading_state: Option<BookReadingState>,
    pub folder_path: Seq<Seq<char>>,
}

impl View for BookUserState {
    type V = BookUserStateView;

    open spec fn view(&self) -> BookUserStateView {
        BookUserStateView {
            reading_state: self.reading_state,
            folder_path: string_views(self.folder_path@),
        }
    }
}

impl Default for BookUserState {
    fn default() -> (r: BookUserState)
        ensures
            r.reading_state is None,
            r.folder_path@.len() == 0,
    {
        BookUserState { reading_state: None, folder_path: Vec::new() }
    }
}

/// The views of a sequence of strings.
pub open spec fn string_views(s: Seq<String>) -> Seq<Seq<char>> {
    s.map_values(|x: String| x@)
}

/// The reading position of the last candidate that carries one.
pub open spec fn last_reading_state(cs: Seq<BookUserStateView>) -> Option<BookReadingState>
    decreases cs.len(),
{
    if cs.len() == 0 {
        None
    } else if cs.last().reading_state is Some {
        cs.last().reading_state
    } else {
        last_reading_state(cs.drop_last())
    }
}

/// The folder path of the last candidate whose folder path is non-empty.
pub open spec fn last_folder_path(cs: Seq<BookUserStateView>) -> Seq<Seq<char>>
    decreases cs.len(),
{
    if cs.len() == 0 {
        Seq::empty()
    } else if cs.last().folder_path.len() > 0 {
        cs.last().folder_path
    } else {
        last_folder_path(cs.drop_last())
    }
}

/// The state views of timestamped candidates.
pub open spec fn candidate_views(cs: Seq<(BookUserState, u128)>) -> Seq<BookUserStateView> {
    cs.map_values(|c: (BookUserState, u128)| c.0@)
}

fn copy_strings(v: &Vec<String>) -> (r: Vec<String>)
    ensures
        r@.map_values(|s: String| s@) == string_views(v@),
{
    let mut out: Vec<String> = Vec::new();
    let mut i: usize = 0;
    while i < v.len()
        invariant
            i <= v@.len(),
            string_views(out@) == string_views(v@.take(i as int)),
        decreases v@.len() - i,
    {
        let ghost prev = out@;
        out.push(v[i].clone());
        assert(string_views(out@) =~= string_views(prev).push(v@[i as int]@));
        assert(string_views(v@.take(i + 1)) =~= string_views(v@.take(i as int)).push(v@[i as int]@));
        i = i + 1;
    }
    assert(v@.take(v@.len() as int) =~= v@);
    out
}

/// Field-wise merge of every state copy of a book, oldest first: the
/// reading position and the folder path are each taken from the newest copy
/// that carries one, so a concurrent folder move is not reverted by a newer
/// position save (and the other way round).
pub fn merge_user_states(candidates: &Vec<(BookUserState, u128)>) -> (r: BookUserState)
    ensures
        r@.reading_state == last_reading_state(candidate_views(candidates@)),
        r@.folder_path == last_folder_path(candidate_views(candidates@)),
{
    let ghost cs = candidate_views(candidates@);
    let mut merged = BookUserState::default();
    let mut i: usize = 0;
    assert(merged@.folder_path =~= Seq::<Seq<char>>::empty());
    while i < candidates.len()
        invariant
            i <= candidates@.len(),
            cs == candidate_views(candidates@),
            merged@.reading_state == last_reading_state(cs.take(i as int)),
            merged@.folder_path == last_folder_path(cs.take(i as int)),
        decreases candidates@.len() - i,
    {
        let state = &candidates[i].0;
        proof {
            assert(cs.take(i + 1).drop_last() =~= cs.take(i as int));
            assert(cs.take(i + 1).last() == state@);
        }
        if state.reading_state.is_some() {
            merged.reading_state = state.reading_state;
        }
        if state.folder_path.len() > 0 {
            merged.folder_path = copy_strings(&state.folder_path);
        }
        i = i + 1;
    }
    assert(cs.take(candidates@.len() as int) =~= cs);
    merged
}

proof fn lemma_folder_from(cs: Seq<BookUserStateView>, i: int)
    requires
        0 <= i < cs.len(),
        cs[i].folder_path.len() > 0,
        forall|j: int| i < j < cs.len() ==> #[trigger] cs[j].folder_path.len() == 0,
    ensures
        last_folder_path(cs) == cs[i].folder_path,
    decreases cs.len(),
{
    if i < cs.len() - 1 {
        assert(cs[cs.len() - 1].folder_path.len() == 0);
        let d = cs.drop_last();
        assert(d[i] == cs[i]);
        assert forall|j: int| i < j < d.len() implies #[trigger] d[j].folder_path.len() == 0 by {
            assert(d[j] == cs[j]);
        }
        lemma_folder_from(d, i);
    }
}

proof fn lemma_no_folder(cs: Seq<BookUserStateView>)
    requires
        forall|j: int| 0 <= j < cs.len() ==> #[trigger] cs[j].folder_path.len() == 0,
    ensures
        last_folder_path(cs).len() == 0,
    decreases cs.len(),
{
    if cs.len() > 0 {
        assert(cs[cs.len() - 1].folder_path.len() == 0);
        let d = cs.drop_last();
        assert forall|j: int| 0 <= j < d.len() implies #[trigger] d[j].folder_path.len() == 0 by {
            assert(d[j] == cs[j]);
        }
        lemma_no_folder(d);
    }
}

proof fn lemma_reading_from(cs: Seq<BookUserStateView>, i: int)
    requires
        0 <= i < cs.len(),
        cs[i].reading_state is Some,
        forall|j: int| i < j < cs.len() ==> #[trigger] cs[j].reading_state is None,
    ensures
        last_reading_state(cs) == cs[i].reading_state,
    decreases cs.len(),
{
    if i < cs.len() - 1 {
        assert(cs[cs.len() - 1].reading_state is None);
        let d = cs.drop_last();
        assert(d[i] == cs[i]);
        assert forall|j: int| i < j < d.len() implies #[trigger] d[j].reading_state is None by {
            assert(d[j] == cs[j]);
        }
        lemma_reading_from(d, i);
    }
}

proof fn lemma_no_reading(cs: Seq<BookUserStateView>)
    requires
        forall|j: int| 0 <= j < cs.len() ==> #[trigger] cs[j].reading_state is None,
    ensures
        last_reading_state(cs) is None,
    decreases cs.len(),
{
    if cs.len() > 0 {
        assert(cs[cs.len() - 1].reading_state is None);
        let d = cs.drop_last();
        assert forall|j: int| 0 <= j < d.len() implies #[trigger] d[j].reading_state is None by {
            assert(d[j] == cs[j]);
        }
        lemma_no_reading(d);
    }
}

/// Law: each field of a merged state comes from the newest copy carrying
/// it. When copy `i` has a non-empty folder path and no later copy has one,
/// the merge keeps copy `i`'s folder path; when no copy has one, the merged
/// path is empty. The same holds of the reading position.
pub proof fn law_newest_copy_wins(candidates: Seq<(BookUserState, u128)>)
    ensures
        forall|i: int| 0 <= i < candidates.len() && (#[trigger] candidates[i]).0@.folder_path.len() > 0
            && (forall|j: int| i < j < candidates.len() ==> candidates[j].0@.folder_path.len() == 0)
            ==> last_folder_path(candidate_views(candidates)) == candidates[i].0@.folder_path,
        (forall|i: int| 0 <= i < candidates.len() ==> (#[trigger] candidates[i]).0@.folder_path.len() == 0)
            ==> last_folder_path(candidate_views(candidates)).len() == 0,
        forall|i: int| 0 <= i < candidates.len() && (#[trigger] candidates[i]).0.reading_state is Some
            && (forall|j: int| i < j < candidates.len() ==> candidates[j].0.reading_state is None)
            ==> last_reading_state(candidate_views(candidates)) == candidates[i].0.reading_state,
        (forall|i: int| 0 <= i < candidates.len() ==> (#[trigger] candidates[i]).0.reading_state is None)
            ==> last_reading_state(candidate_views(candidates)) is None,
{
    let cs = candidate_views(candidates);
    assert forall|i: int| 0 <= i < candidates.len() && (#[trigger] candidates[i]).0@.folder_path.len() > 0
        && (forall|j: int| i < j < candidates.len() ==> candidates[j].0@.folder_path.len() == 0)
        implies last_folder_path(cs) == candidates[i].0@.folder_path by {
        assert forall|j: int| i < j < cs.len() implies #[trigger] cs[j].folder_path.len() == 0 by {
            assert(cs[j] == candidates[j].0@);
        }
        lemma_folder_from(cs, i);
    }
    if forall|i: int| 0 <= i < candidates.len() ==> (#[trigger] candidates[i]).0@.folder_path.len() == 0 {
        assert forall|j: int| 0 <= j < cs.len() implies #[trigger] cs[j].folder_path.len() == 0 by {
            assert(cs[j] == candidates[j].0@);
        }
        lemma_no_folder(cs);
    }
    assert forall|i: int| 0 <= i < candidates.len() && (#[trigger] candidates[i]).0.reading_state is Some
        && (forall|j: int| i < j < candidates.len() ==> candidates[j].0.reading_state is None)
        implies last_reading_state(cs) == candidates[i].0.reading_state by {
        assert forall|j: int| i < j < cs.len() implies #[trigger] cs[j].reading_state is None by {
            assert(cs[j] == candidates[j].0@);
        }
        lemma_reading_from(cs, i);
    }
    if forall|i: int| 0 <= i < candidates.len() ==> (#[trigger] candidates[i]).0.reading_state is None {
        assert forall|j: int| 0 <= j < cs.len() implies #[trigger] cs[j].reading_state is None by {
            assert(cs[j] == candidates[j].0@);
        }
        lemma_no_reading(cs);
    }
}

/// A copy of the book's user state: `state*.json`.
pub open spec fn is_state_file_name_spec(name: Seq<char>) -> bool {
    is_prefix("state"@, name) && is_suffix(".json"@, name)
}

/// Whether a file name in a book directory is a copy of its user state.
pub fn is_state_file_name(name: &str) -> (r: bool)
    ensures
        r == is_state_file_name_spec(name@),
{
    str_starts_with(name, "state") && str_ends_with(name, ".json")
}

/// Whether the merged state must be written back: unless the only copy is
/// the canonical `state.json`, the merge is persisted and the others are
/// dropped.
pub fn needs_rewrite(file_names: &Vec<String>) -> (r: bool)
    ensures
        r == !(file_names@.len() == 1 && file_names@[0]@ == "state.json"@),
{
    !(file_names.len() == 1 && str_eq(file_names[0].as_str(), "state.json"))
}

/// Position of the first file of `s` from `j` on that is newer than `t`.
pub open spec fn first_newer(s: Seq<(Seq<char>, u128)>, t: u128, j: int) -> int
    decreases s.len() - j,
{
    if j < 0 || j >= s.len() || s[j].1 > t {
        j
    } else {
        first_newer(s, t, j + 1)
    }
}

/// Files ordered oldest first, stably: each file is placed after every
/// earlier file that is not newer.
pub open spec fn oldest_first_spec(s: Seq<(Seq<char>, u128)>) -> Seq<(Seq<char>, u128)>
    decreases s.len(),
{
    if s.len() == 0 {
        Seq::empty()
    } else {
        let r = oldest_first_spec(s.drop_last());
        r.insert(first_newer(r, s.last().1, 0), s.last())
    }
}

/// The views of timestamped file names.
pub open spec fn file_views(s: Seq<(String, u128)>) -> Seq<(Seq<char>, u128)> {
    s.map_values(|f: (String, u128)| (f.0@, f.1))
}

/// Orders the copies of a book's user state oldest first (by modification
/// time, equal times keeping their order), as the merge expects.
pub fn oldest_first(files: Vec<(String, u128)>) -> (r: Vec<(String, u128)>)
    ensures
        file_views(r@) == oldest_first_spec(file_views(files@)),
{
    let ghost src = file_views(files@);
    let mut rest = files;
    let mut sorted: Vec<(String, u128)> = Vec::new();
    let ghost mut t: int = 0;
    while rest.len() > 0
        invariant
            0 <= t <= src.len(),
            file_views(rest@) == src.skip(t),
            file_views(sorted@) == oldest_first_spec(src.take(t)),
        decreases rest@.len(),
    {
        proof {
            assert(file_views(rest@).len() == rest@.len());
            assert(src.skip(t)[0] == src[t]);
            assert(file_views(rest@)[0] == (rest@[0].0@, rest@[0].1));
        }
        let f = rest.remove(0);
        let ghost fv = (f.0@, f.1);
        let ghost sv = file_views(sorted@);
        let mut j: usize = 0;
        while j < sorted.len() && sorted[j].1 <= f.1
            invariant
                j <= sorted@.len(),
                sv == file_views(sorted@),
                first_newer(sv, f.1, 0) == first_newer(sv, f.1, j as int),
            decreases sorted@.len() - j,
        {
            j = j + 1;
        }
        sorted.insert(j, f);
        proof {
            assert(src.take(t + 1).drop_last() =~= src.take(t));
            assert(src.take(t + 1).last() == fv);
            assert(file_views(sorted@) =~= sv.insert(j as int, fv));
            assert(src.skip(t + 1) =~= src.skip(t).drop_first());
            assert(file_views(rest@) =~= src.skip(t + 1));
            t = t + 1;
        }
    }
    proof {
        assert(src.take(t) =~= src);
    }
    sorted
}

} // verus!
