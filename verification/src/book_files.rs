//! The files of a book directory: which of them are conflict copies, how
//! translation files group into one translation with its conflict copies,
//! and the decisions of the merge-then-replace save protocol.

use vstd::prelude::*;

use crate::lrclib::{first_greater, stable_sorted};
use crate::text::{concat_str, is_prefix, is_suffix, str_ends_with, str_starts_with};
use crate::translator::utf8_len;

verus! {

/// A translation file: `translation_*.dat`.
pub open spec fn is_translation_file_name(name: Seq<char>) -> bool {
    is_prefix("translation_"@, name) && is_suffix(".dat"@, name)
}

/// Whether `name` is a translation file.
pub fn is_translation_file(name: &str) -> (r: bool)
    ensures
        r == is_translation_file_name(name@),
{
    str_starts_with(name, "translation_") && str_ends_with(name, ".dat")
}

/// A conflict copy of the chapter summaries: `chapter_summaries~*.dat`.
pub open spec fn is_summaries_conflict_name(name: Seq<char>) -> bool {
    is_prefix("chapter_summaries~"@, name) && is_suffix(".dat"@, name)
}

/// Whether `name` is a conflict copy of the chapter summaries.
pub fn is_summaries_conflict(name: &str) -> (r: bool)
    ensures
        r == is_summaries_conflict_name(name@),
{
    str_starts_with(name, "chapter_summaries~") && str_ends_with(name, ".dat")
}

/// The canonical file name for the language pair (`src`, `tgt`).
pub fn translation_file_name(src: &str, tgt: &str) -> (r: String)
    ensures
        r@ == "translation_"@ + src@ + "_"@ + tgt@ + ".dat"@,
{
    let mut out = String::from_str("translation_");
    out.append(src);
    out.append("_");
    out.append(tgt);
    out.append(".dat");
    out
}

/// The temporary name a file is written under before it replaces `name`:
/// `name~suffix`, which the library watcher ignores.
pub fn temp_file_name(name: &str, suffix: &str) -> (r: String)
    ensures
        r@ == name@ + "~"@ + suffix@,
{
    let mut out = concat_str(name, "~");
    out.append(suffix);
    out
}

/// Whether the copy on disk must be merged in before saving: it exists and
/// either nothing was loaded from it (`last_modified` unknown) or it changed
/// after the version held in memory.
pub fn needs_merge(last_modified: Option<u128>, on_disk: Option<u128>) -> (r: bool)
    ensures
        r == match (last_modified, on_disk) {
            (Some(lm), Some(m)) => m > lm,
            (None, Some(_)) => true,
            (_, None) => false,
        },
{
    match (last_modified, on_disk) {
        (Some(lm), Some(m)) => m > lm,
        (None, Some(_)) => true,
        (_, None) => false,
    }
}

/// Whether the freshly written temporary file may replace the target: the
/// target did not exist before the save, or it did not change meanwhile
/// (otherwise the save merges again and retries).
pub fn may_commit(before: Option<u128>, now: Option<u128>) -> (r: bool)
    ensures
        r == (before is None || now == before),
{
    match before {
        None => true,
        Some(b) => match now {
            Some(n) => n == b,
            None => false,
        },
    }
}

/// Whether a change seen on disk at `modified` is newer than what is held
/// (an unknown load time counts as older).
pub fn is_stale(last_modified: Option<u128>, modified: u128) -> (r: bool)
    ensures
        r == match last_modified {
            Some(lm) => lm < modified,
            None => true,
        },
{
    match last_modified {
        Some(lm) => lm < modified,
        None => true,
    }
}

/// A translation file with the metadata its header carries.
#[derive(Debug, Clone)]
pub struct TranslationFile {
    pub path: String,
    /// The translation's id (its 128-bit value).
    pub id: u128,
    pub source_language: String,
    pub target_language: String,
    pub translated_paragraphs_count: usize,
}

/// One translation of a book: its main file (the shortest path among the
/// files carrying its id) and the conflict copies.
#[derive(Debug, Clone)]
pub struct TranslationGroup {
    pub id: u128,
    pub source_language: String,
    pub target_language: String,
    pub translated_paragraphs_count: usize,
    pub main_path: String,
    pub conflicting_paths: Vec<String>,
}

/// The files carrying `id`, in their original order.
pub open spec fn files_with_id(fs: Seq<TranslationFile>, id: u128) -> Seq<TranslationFile>
    decreases fs.len(),
{
    if fs.len() == 0 {
        Seq::empty()
    } else if fs.last().id == id {
        files_with_id(fs.drop_last(), id).push(fs.last())
    } else {
        files_with_id(fs.drop_last(), id)
    }
}

/// The byte length of a path, as a sort key (saturating at `u32::MAX`).
pub open spec fn path_len_key(p: Seq<char>) -> u32 {
    let n = utf8_len(p) as usize;
    if n <= u32::MAX { n as u32 } else { u32::MAX }
}

/// Files keyed by the byte length of their path.
pub open spec fn by_path_len(fs: Seq<TranslationFile>) -> Seq<(u32, TranslationFile)> {
    fs.map_values(|f: TranslationFile| (path_len_key(f.path@), f))
}

/// The files of one translation, shortest path first (stably).
pub open spec fn group_order(fs: Seq<TranslationFile>, id: u128) -> Seq<TranslationFile> {
    stable_sorted(by_path_len(files_with_id(fs, id))).map_values(|p: (u32, TranslationFile)| p.1)
}

/// The group made of `files` (non-empty, main first).
pub open spec fn group_of(files: Seq<TranslationFile>) -> (u128, Seq<char>, Seq<char>, usize, Seq<char>, Seq<Seq<char>>) {
    (
        files[0].id,
        files[0].source_language@,
        files[0].target_language@,
        files[0].translated_paragraphs_count,
        files[0].path@,
        files.drop_first().map_values(|f: TranslationFile| f.path@),
    )
}

/// The view of a group.
pub open spec fn group_view(g: TranslationGroup) -> (u128, Seq<char>, Seq<char>, usize, Seq<char>, Seq<Seq<char>>) {
    (
        g.id,
        g.source_language@,
        g.target_language@,
        g.translated_paragraphs_count,
        g.main_path@,
        g.conflicting_paths@.map_values(|s: String| s@),
    )
}

/// Some file among `fs` carries `id`.
pub open spec fn has_file_with_id(fs: Seq<TranslationFile>, id: u128) -> bool {
    exists|k: int| 0 <= k < fs.len() && (#[trigger] fs[k]).id == id
}

fn copy_file(f: &TranslationFile) -> (r: TranslationFile)
    ensures
        r == *f,
{
    TranslationFile {
        path: f.path.clone(),
        id: f.id,
        source_language: f.source_language.clone(),
        target_language: f.target_language.clone(),
        translated_paragraphs_count: f.translated_paragraphs_count,
    }
}

/// The distinct ids of the files, in increasing order.
fn distinct_ids(files: &Vec<TranslationFile>) -> (ids: Vec<u128>)
    ensures
        forall|i: int, j: int| 0 <= i < j < ids@.len() ==> ids@[i] < ids@[j],
        forall|k: int| 0 <= k < files@.len() ==> ids@.contains(#[trigger] files@[k].id),
        forall|i: int| 0 <= i < ids@.len() ==> has_file_with_id(files@, #[trigger] ids@[i]),
{
    let mut ids: Vec<u128> = Vec::new();
    let mut k: usize = 0;
    while k < files.len()
        invariant
            k <= files@.len(),
            forall|i: int, j: int| 0 <= i < j < ids@.len() ==> ids@[i] < ids@[j],
            forall|m: int| 0 <= m < k ==> ids@.contains(#[trigger] files@[m].id),
            forall|i: int| 0 <= i < ids@.len() ==> has_file_with_id(files@.take(k as int), #[trigger] ids@[i]),
        decreases files@.len() - k,
    {
        let id = files[k].id;
        let mut j: usize = 0;
        while j < ids.len() && ids[j] < id
            invariant
                j <= ids@.len(),
                forall|m: int| 0 <= m < j ==> ids@[m] < id,
            decreases ids@.len() - j,
        {
            j = j + 1;
        }
        let ghost before = ids@;
        if j == ids.len() || ids[j] != id {
            ids.insert(j, id);
            proof {
                before.insert_ensures(j as int, id);
                assert(ids@[j as int] == id);
                assert forall|m: int| 0 <= m <= k implies ids@.contains(#[trigger] files@[m].id) by {
                    if m < k {
                        let p = choose|p: int| 0 <= p < before.len() && before[p] == files@[m].id;
                        if p < j {
                            assert(ids@[p] == before[p]);
                        } else {
                            assert(ids@[p + 1] == before[p]);
                        }
                    } else {
                        assert(ids@[j as int] == files@[m].id);
                    }
                }
                assert forall|i: int| 0 <= i < ids@.len() implies has_file_with_id(files@.take(k + 1), #[trigger] ids@[i]) by {
                    if i < j {
                        assert(ids@[i] == before[i]);
                        lemma_has_file_grows(files@, k as int, ids@[i]);
                    } else if i == j {
                        assert(files@.take(k + 1)[k as int] == files@[k as int]);
                    } else {
                        assert(ids@[i] == before[i - 1]);
                        lemma_has_file_grows(files@, k as int, ids@[i]);
                    }
                }
                assert forall|a: int, b: int| 0 <= a < b < ids@.len() implies ids@[a] < ids@[b] by {
                    if b < j {
                    } else if b == j {
                    } else if a < j {
                        assert(ids@[b] == before[b - 1]);
                        if j < before.len() {
                            assert(before[j as int] > id);
                        }
                    } else if a == j {
                        assert(ids@[b] == before[b - 1]);
                        assert(before[j as int] >= id);
                        assert(before[j as int] != id);
                    } else {
                        assert(ids@[a] == before[a - 1]);
                        assert(ids@[b] == before[b - 1]);
                    }
                }
            }
        } else {
            proof {
                assert forall|m: int| 0 <= m <= k implies ids@.contains(#[trigger] files@[m].id) by {
                    if m == k {
                        assert(ids@[j as int] == files@[m].id);
                    }
                }
                assert forall|i: int| 0 <= i < ids@.len() implies has_file_with_id(files@.take(k + 1), #[trigger] ids@[i]) by {
                    lemma_has_file_grows(files@, k as int, ids@[i]);
                }
            }
        }
        k = k + 1;
    }
    assert(files@.take(files@.len() as int) =~= files@);
    ids
}

proof fn lemma_has_file_grows(fs: Seq<TranslationFile>, k: int, id: u128)
    requires
        0 <= k < fs.len(),
        has_file_with_id(fs.take(k), id),
    ensures
        has_file_with_id(fs.take(k + 1), id),
{
    let m = choose|m: int| 0 <= m < fs.take(k).len() && (#[trigger] fs.take(k)[m]).id == id;
    assert(fs.take(k + 1)[m] == fs.take(k)[m]);
}

/// The files carrying `id`, in order, keyed by path length and stably
/// sorted by it.
fn sorted_group(files: &Vec<TranslationFile>, id: u128) -> (r: Vec<TranslationFile>)
    ensures
        r@ == group_order(files@, id),
{
    let mut sorted: Vec<(u32, TranslationFile)> = Vec::new();
    let ghost src = by_path_len(files_with_id(files@, id));
    let ghost mut taken: int = 0;
    let mut k: usize = 0;
    while k < files.len()
        invariant
            k <= files@.len(),
            src == by_path_len(files_with_id(files@, id)),
            sorted@ == stable_sorted(by_path_len(files_with_id(files@.take(k as int), id))),
        decreases files@.len() - k,
    {
        proof {
            assert(files@.take(k + 1).drop_last() =~= files@.take(k as int));
            assert(files@.take(k + 1).last() == files@[k as int]);
        }
        if files[k].id == id {
            let f = copy_file(&files[k]);
            let n = f.path.as_str().len();
            let key: u32 = if n <= 0xffff_ffff { n as u32 } else { 0xffff_ffff };
            let mut j: usize = 0;
            let ghost sv = sorted@;
            while j < sorted.len() && sorted[j].0 <= key
                invariant
                    j <= sorted@.len(),
                    sv == sorted@,
                    first_greater(sv, key, 0) == first_greater(sv, key, j as int),
                decreases sorted@.len() - j,
            {
                j = j + 1;
            }
            let ghost fk = files@[k as int];
            assert(key == path_len_key(fk.path@));
            sorted.insert(j, (key, f));
            proof {
                let prefix = files_with_id(files@.take(k as int), id);
                assert(files_with_id(files@.take(k + 1), id) == prefix.push(fk));
                assert(by_path_len(prefix.push(fk)) =~= by_path_len(prefix).push((key, fk)));
                assert(by_path_len(prefix.push(fk)).drop_last() =~= by_path_len(prefix));
            }
        } else {
            proof {
                assert(files_with_id(files@.take(k + 1), id) == files_with_id(files@.take(k as int), id));
            }
        }
        k = k + 1;
    }
    proof {
        assert(files@.take(files@.len() as int) =~= files@);
    }
    let ghost sv = sorted@;
    let mut out: Vec<TranslationFile> = Vec::new();
    let ghost mut t: int = 0;
    while sorted.len() > 0
        invariant
            0 <= t <= sv.len(),
            sorted@ == sv.skip(t),
            out@ == sv.take(t).map_values(|p: (u32, TranslationFile)| p.1),
        decreases sorted@.len(),
    {
        proof {
            assert(sv.skip(t)[0] == sv[t]);
        }
        let (_, f) = sorted.remove(0);
        proof {
            assert(sv.skip(t + 1) =~= sv.skip(t).drop_first());
            assert(sv.take(t + 1).map_values(|p: (u32, TranslationFile)| p.1) =~= sv.take(t).map_values(|p: (u32, TranslationFile)| p.1).push(sv[t].1));
        }
        out.push(f);
        proof {
            t = t + 1;
        }
    }
    proof {
        assert(sv.take(t) =~= sv);
    }
    out
}

proof fn lemma_files_with_id_nonempty(fs: Seq<TranslationFile>, k: int)
    requires
        0 <= k < fs.len(),
    ensures
        files_with_id(fs, fs[k].id).len() > 0,
    decreases fs.len(),
{
    if k < fs.len() - 1 {
        lemma_files_with_id_nonempty(fs.drop_last(), k);
    }
}

/// Groups the translation files of a book by translation id, in increasing
/// id order. Within a group the file with the shortest path is the main
/// file (the first of equal lengths, in the given order) and supplies the
/// metadata; the others are its conflict copies.
pub fn group_translations(files: &Vec<TranslationFile>) -> (r: Vec<TranslationGroup>)
    ensures
        forall|i: int, j: int| 0 <= i < j < r@.len() ==> r@[i].id < r@[j].id,
        forall|k: int| 0 <= k < files@.len() ==> r@.map_values(|g: TranslationGroup| g.id).contains(#[trigger] files@[k].id),
        forall|g: int| 0 <= g < r@.len() ==> has_file_with_id(files@, #[trigger] r@[g].id),
        forall|g: int| 0 <= g < r@.len() ==> group_view(#[trigger] r@[g]) == group_of(group_order(files@, r@[g].id)),
{
    let ids = distinct_ids(files);
    let mut out: Vec<TranslationGroup> = Vec::new();
    let mut i: usize = 0;
    while i < ids.len()
        invariant
            i <= ids@.len(),
            out@.len() == i,
            forall|a: int, b: int| 0 <= a < b < ids@.len() ==> ids@[a] < ids@[b],
            forall|k: int| 0 <= k < files@.len() ==> ids@.contains(#[trigger] files@[k].id),
            forall|a: int| 0 <= a < ids@.len() ==> has_file_with_id(files@, #[trigger] ids@[a]),
            forall|g: int| 0 <= g < i ==> (#[trigger] out@[g]).id == ids@[g],
            forall|g: int| 0 <= g < i ==> group_view(#[trigger] out@[g]) == group_of(group_order(files@, out@[g].id)),
        decreases ids@.len() - i,
    {
        let id = ids[i];
        let members = sorted_group(files, id);
        proof {
            assert(has_file_with_id(files@, ids@[i as int]));
            let k = choose|k: int| 0 <= k < files@.len() && (#[trigger] files@[k]).id == ids@[i as int];
            lemma_files_with_id_nonempty(files@, k);
            crate::lrclib::law_stable_sorted_is_sorted(by_path_len(files_with_id(files@, id)));
        }
        let main = &members[0];
        let mut conflicts: Vec<String> = Vec::new();
        let mut m: usize = 1;
        while m < members.len()
            invariant
                1 <= m <= members@.len(),
                conflicts@.map_values(|s: String| s@) == members@.subrange(1, m as int).map_values(|f: TranslationFile| f.path@),
            decreases members@.len() - m,
        {
            let ghost prev = conflicts@;
            conflicts.push(members[m].path.clone());
            proof {
                assert(conflicts@.map_values(|s: String| s@) =~= prev.map_values(|s: String| s@).push(members@[m as int].path@));
                assert(members@.subrange(1, m + 1).map_values(|f: TranslationFile| f.path@) =~= members@.subrange(1, m as int).map_values(|f: TranslationFile| f.path@).push(members@[m as int].path@));
            }
            m = m + 1;
        }
        proof {
            assert(members@.subrange(1, members@.len() as int) =~= members@.drop_first());
        }
        let group = TranslationGroup {
            id: main.id,
            source_language: main.source_language.clone(),
            target_language: main.target_language.clone(),
            translated_paragraphs_count: main.translated_paragraphs_count,
            main_path: main.path.clone(),
            conflicting_paths: conflicts,
        };
        proof {
            assert(members@[0].id == id) by {
                lemma_group_order_ids(files@, id);
            }
            assert(group_view(group) == group_of(members@));
        }
        out.push(group);
        i = i + 1;
    }
    proof {
        assert forall|k: int| 0 <= k < files@.len() implies out@.map_values(|g: TranslationGroup| g.id).contains(#[trigger] files@[k].id) by {
            assert(ids@.contains(files@[k].id));
            let g = choose|g: int| 0 <= g < ids@.len() && ids@[g] == files@[k].id;
            assert(out@[g].id == files@[k].id);
            assert(out@.map_values(|g: TranslationGroup| g.id)[g] == files@[k].id);
        }
        assert forall|g: int| 0 <= g < out@.len() implies has_file_with_id(files@, #[trigger] out@[g].id) by {
            assert(out@[g].id == ids@[g]);
        }
    }
    out
}

proof fn lemma_files_with_id_ids(fs: Seq<TranslationFile>, id: u128)
    ensures
        forall|i: int| 0 <= i < files_with_id(fs, id).len() ==> (#[trigger] files_with_id(fs, id)[i]).id == id,
    decreases fs.len(),
{
    if fs.len() > 0 {
        lemma_files_with_id_ids(fs.drop_last(), id);
        let prev = files_with_id(fs.drop_last(), id);
        if fs.last().id == id {
            assert forall|i: int| 0 <= i < files_with_id(fs, id).len() implies (#[trigger] files_with_id(fs, id)[i]).id == id by {
                if i < prev.len() {
                    assert(files_with_id(fs, id)[i] == prev[i]);
                }
            }
        }
    }
}

proof fn lemma_stable_sorted_members<L>(s: Seq<(u32, L)>, p: spec_fn(L) -> bool)
    requires
        forall|i: int| 0 <= i < s.len() ==> p(#[trigger] s[i].1),
    ensures
        forall|i: int| 0 <= i < stable_sorted(s).len() ==> p(#[trigger] stable_sorted(s)[i].1),
        stable_sorted(s).len() == s.len(),
    decreases s.len(),
{
    if s.len() > 0 {
        lemma_stable_sorted_members(s.drop_last(), p);
        let r = stable_sorted(s.drop_last());
        let pos = first_greater(r, s.last().0, 0);
        crate::lrclib::law_stable_sorted_is_sorted(s.drop_last());
        lemma_first_greater_bound(r, s.last().0);
        r.insert_ensures(pos, s.last());
        assert forall|i: int| 0 <= i < stable_sorted(s).len() implies p(#[trigger] stable_sorted(s)[i].1) by {
            if i < pos {
                assert(stable_sorted(s)[i] == r[i]);
            } else if i == pos {
            } else {
                assert(stable_sorted(s)[i] == r[i - 1]);
            }
        }
    }
}

proof fn lemma_first_greater_bound<L>(s: Seq<(u32, L)>, k: u32)
    ensures
        0 <= first_greater(s, k, 0) <= s.len(),
{
    lemma_first_greater_from(s, k, 0);
}

proof fn lemma_first_greater_from<L>(s: Seq<(u32, L)>, k: u32, j: int)
    requires
        0 <= j <= s.len(),
    ensures
        j <= first_greater(s, k, j) <= s.len(),
    decreases s.len() - j,
{
    if j < s.len() && s[j].0 <= k {
        lemma_first_greater_from(s, k, j + 1);
    }
}

proof fn lemma_group_order_ids(fs: Seq<TranslationFile>, id: u128)
    ensures
        forall|i: int| 0 <= i < group_order(fs, id).len() ==> (#[trigger] group_order(fs, id)[i]).id == id,
{
    lemma_files_with_id_ids(fs, id);
    let keyed = by_path_len(files_with_id(fs, id));
    let p = |f: TranslationFile| f.id == id;
    assert forall|i: int| 0 <= i < keyed.len() implies p(#[trigger] keyed[i].1) by {
        assert(keyed[i].1 == files_with_id(fs, id)[i]);
    }
    lemma_stable_sorted_members(keyed, p);
}

} // verus!
