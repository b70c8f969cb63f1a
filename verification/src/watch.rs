//! Classification of library file-system events: which book, translation or
//! card a created or modified file belongs to, and the de-duplication of a
//! batch of such changes.

use vstd::prelude::*;

use crate::catalog::opt_view;
use crate::text::{contains_seq, is_prefix, lemma_take_succ_contains, is_suffix, str_contains, str_ends_with, str_eq, str_starts_with, substring};

verus! {

/// What `uuid::Uuid::from_str` makes of a string: the canonical (lower-case,
/// hyphenated) form of the id it parses, `None` when it does not parse.
pub uninterp spec fn uuid_parse(s: Seq<char>) -> Option<Seq<char>>;

/// What `isolang::Language::from_639_3` makes of a code: the ISO 639-3 code
/// of the language found, `None` when the code names none.
pub uninterp spec fn iso639_3_lookup(code: Seq<char>) -> Option<Seq<char>>;

/// `uuid::Uuid::from_str` (uuid): parses a UUID in any of its textual forms.
/// The contract names the outcome only: the canonical text of the parsed id,
/// or `None`, as a function of the input alone.
#[verifier::external_body]
pub(crate) fn parse_uuid(s: &str) -> (r: Option<String>)
    ensures
        opt_view(r) == uuid_parse(s@),
{
    s.parse::<uuid::Uuid>().ok().map(|u| u.to_string())
}

/// `isolang::Language::from_639_3` (isolang): looks a three-letter code up in
/// the ISO 639-3 table. The contract names the outcome only: the code of the
/// language found (`to_639_3`), or `None`, as a function of the input alone.
#[verifier::external_body]
pub(crate) fn lookup_iso639_3(code: &str) -> (r: Option<String>)
    ensures
        opt_view(r) == iso639_3_lookup(code@),
{
    isolang::Language::from_639_3(code).map(|l| l.to_639_3().to_string())
}

/// A change to a library file that the library must pick up.
#[derive(Debug, Clone, PartialEq, Eq, Hash)]
pub enum FileChange {
    /// `<uuid>/book*.dat` changed.
    BookChanged { modified: u128, uuid: String },
    /// `<uuid>/translation_<from>_<to>*.dat` changed.
    TranslationChanged { modified: u128, from: String, to: String, uuid: String },
    /// `cards/<from>-<to>/<lemma_slug>.json` changed.
    CardChanged { modified: u128, from: String, to: String, lemma_slug: String },
}

pub enum FileChangeView {
    Book { modified: u128, uuid: Seq<char> },
    Translation { modified: u128, from: Seq<char>, to: Seq<char>, uuid: Seq<char> },
    Card { modified: u128, from: Seq<char>, to: Seq<char>, lemma_slug: Seq<char> },
}

impl View for FileChange {
    type V = FileChangeView;

    open spec fn view(&self) -> FileChangeView {
        match self {
            FileChange::BookChanged { modified, uuid } => FileChangeView::Book { modified: *modified, uuid: uuid@ },
            FileChange::TranslationChanged { modified, from, to, uuid } => FileChangeView::Translation {
                modified: *modified,
                from: from@,
                to: to@,
                uuid: uuid@,
            },
            FileChange::CardChanged { modified, from, to, lemma_slug } => FileChangeView::Card {
                modified: *modified,
                from: from@,
                to: to@,
                lemma_slug: lemma_slug@,
            },
        }
    }
}

/// What is known of one path of an event.
#[derive(Debug, Clone)]
pub struct PathFacts {
    /// The path's file name; `None` when it has none or it is not UTF-8.
    pub file_name: Option<String>,
    /// The name of the containing directory; `None` when there is none.
    pub parent_name: Option<String>,
    /// The name of the directory above that; `None` when there is none.
    pub grandparent_name: Option<String>,
    /// The modification time in nanoseconds since the epoch (0 when the
    /// platform gives none); `None` when the file's metadata is unreadable.
    pub modified: Option<u128>,
}

pub struct PathFactsView {
    pub file_name: Option<Seq<char>>,
    pub parent_name: Option<Seq<char>>,
    pub grandparent_name: Option<Seq<char>>,
    pub modified: Option<u128>,
}

impl View for PathFacts {
    type V = PathFactsView;

    open spec fn view(&self) -> PathFactsView {
        PathFactsView {
            file_name: opt_view(self.file_name),
            parent_name: opt_view(self.parent_name),
            grandparent_name: opt_view(self.grandparent_name),
            modified: self.modified,
        }
    }
}

/// The verdict on one path: look at the next one, give up on the whole
/// event, or the change found.
pub enum PathVerdict {
    Skip,
    Abort,
    Found(FileChangeView),
}

/// `s` with every leading repetition of `p` removed (`trim_start_matches`).
pub open spec fn strip_all_prefix(s: Seq<char>, p: Seq<char>) -> Seq<char>
    decreases s.len(),
{
    if p.len() > 0 && is_prefix(p, s) {
        strip_all_prefix(s.subrange(p.len() as int, s.len() as int), p)
    } else {
        s
    }
}

/// `s` with every trailing repetition of `p` removed (`trim_end_matches`).
pub open spec fn strip_all_suffix(s: Seq<char>, p: Seq<char>) -> Seq<char>
    decreases s.len(),
{
    if p.len() > 0 && is_suffix(p, s) {
        strip_all_suffix(s.subrange(0, s.len() - p.len()), p)
    } else {
        s
    }
}

/// Position of the first `c` in `s` at or after `i`; `s.len()` when none.
pub open spec fn first_at(s: Seq<char>, c: char, i: int) -> int
    decreases s.len() - i,
{
    if i < 0 || i >= s.len() {
        s.len() as int
    } else if s[i] == c {
        i
    } else {
        first_at(s, c, i + 1)
    }
}

proof fn lemma_first_at_bounds(s: Seq<char>, c: char, i: int)
    requires
        0 <= i <= s.len(),
    ensures
        i <= first_at(s, c, i) <= s.len(),
    decreases s.len() - i,
{
    if i < s.len() && s[i] != c {
        lemma_first_at_bounds(s, c, i + 1);
    }
}

/// The first three characters of `s` (all of it when shorter).
pub open spec fn take3(s: Seq<char>) -> Seq<char> {
    if s.len() <= 3 {
        s
    } else {
        s.subrange(0, 3)
    }
}

/// The language codes of a translation file name: the name without its
/// leading `translation_` and trailing `.dat` runs is split at `_`; the
/// first three characters of the first two parts, when there are two.
pub open spec fn translation_codes(name: Seq<char>) -> Option<(Seq<char>, Seq<char>)> {
    let t = strip_all_suffix(strip_all_prefix(name, "translation_"@), ".dat"@);
    let k = first_at(t, '_', 0);
    if k < t.len() {
        let rest = t.subrange(k + 1, t.len() as int);
        Some((take3(t.subrange(0, k)), take3(rest.subrange(0, first_at(rest, '_', 0)))))
    } else {
        None
    }
}

/// The verdict on a card file `cards/<src>-<tgt>/<slug>.json`: conflict
/// copies and other names are skipped; a missing directory aborts.
pub open spec fn card_verdict(
    modified: u128,
    name: Seq<char>,
    parent: Option<Seq<char>>,
    grand: Option<Seq<char>>,
) -> PathVerdict {
    if is_suffix(".json"@, name) && !contains_seq(name, ".sync-conflict-"@) {
        match parent {
            None => PathVerdict::Abort,
            Some(deck) => match grand {
                None => PathVerdict::Abort,
                Some(g) => {
                    let k = first_at(deck, '-', 0);
                    let from = iso639_3_lookup(deck.subrange(0, k));
                    let to = iso639_3_lookup(deck.subrange(k + 1, deck.len() as int));
                    if g == "cards"@ && k < deck.len() && from is Some && to is Some {
                        PathVerdict::Found(FileChangeView::Card {
                            modified,
                            from: from->0,
                            to: to->0,
                            lemma_slug: name.subrange(0, name.len() - 5),
                        })
                    } else {
                        PathVerdict::Skip
                    }
                },
            },
        }
    } else {
        PathVerdict::Skip
    }
}

/// The verdict on one path of a create or modify event.
pub open spec fn path_verdict(p: PathFactsView) -> PathVerdict {
    match p.file_name {
        None => PathVerdict::Abort,
        Some(name) => if contains_seq(name, "~"@) {
            PathVerdict::Skip
        } else {
            match p.modified {
                None => PathVerdict::Skip,
                Some(m) => if is_prefix("book"@, name) && is_suffix(".dat"@, name) {
                    match p.parent_name {
                        None => PathVerdict::Abort,
                        Some(dir) => match uuid_parse(dir) {
                            None => PathVerdict::Abort,
                            Some(u) => PathVerdict::Found(FileChangeView::Book { modified: m, uuid: u }),
                        },
                    }
                } else if is_prefix("translation_"@, name) && is_suffix(".dat"@, name) {
                    match p.parent_name {
                        None => PathVerdict::Abort,
                        Some(dir) => match translation_codes(name) {
                            None => card_verdict(m, name, p.parent_name, p.grandparent_name),
                            Some(codes) => match (iso639_3_lookup(codes.0), iso639_3_lookup(codes.1), uuid_parse(dir)) {
                                (Some(f), Some(t), Some(u)) => PathVerdict::Found(
                                    FileChangeView::Translation { modified: m, from: f, to: t, uuid: u },
                                ),
                                _ => PathVerdict::Abort,
                            },
                        },
                    }
                } else {
                    card_verdict(m, name, p.parent_name, p.grandparent_name)
                },
            }
        },
    }
}

/// The change the paths of an event show: the first path with a verdict
/// other than `Skip` decides.
pub open spec fn first_change(ps: Seq<PathFactsView>) -> Option<FileChangeView>
    decreases ps.len(),
{
    if ps.len() == 0 {
        None
    } else {
        match path_verdict(ps[0]) {
            PathVerdict::Skip => first_change(ps.drop_first()),
            PathVerdict::Abort => None,
            PathVerdict::Found(c) => Some(c),
        }
    }
}

/// Temporary files (a `~` in the name) and sync-conflict copies of cards
/// never count as library changes: the path is skipped and the next one
/// decides.
pub proof fn law_temp_and_conflict_files_are_skipped(p: PathFactsView)
    requires
        p.file_name is Some,
        contains_seq(p.file_name->0, "~"@) || (is_suffix(".json"@, p.file_name->0) && contains_seq(
            p.file_name->0,
            ".sync-conflict-"@,
        )),
    ensures
        path_verdict(p) is Skip,
{
    let name = p.file_name->0;
    reveal_strlit(".json");
    reveal_strlit(".dat");
    if is_suffix(".json"@, name) && is_suffix(".dat"@, name) {
        assert(name[name.len() - 1] == ".json"@[4]);
        assert(name[name.len() - 1] == ".dat"@[3]);
    }
}

/// The views of the paths of an event.
pub open spec fn path_views(ps: Seq<PathFacts>) -> Seq<PathFactsView> {
    ps.map_values(|p: PathFacts| p@)
}

fn strip_prefix_run(s: &str, p: &str) -> (r: String)
    requires
        p@.len() > 0,
    ensures
        r@ == strip_all_prefix(s@, p@),
{
    let mut cur = String::from_str(s);
    while str_starts_with(cur.as_str(), p)
        invariant
            p@.len() > 0,
            strip_all_prefix(cur@, p@) == strip_all_prefix(s@, p@),
        decreases cur@.len(),
    {
        let n = cur.as_str().unicode_len();
        let k = p.unicode_len();
        cur = substring(cur.as_str(), k, n);
    }
    cur
}

fn strip_suffix_run(s: &str, p: &str) -> (r: String)
    requires
        p@.len() > 0,
    ensures
        r@ == strip_all_suffix(s@, p@),
{
    let mut cur = String::from_str(s);
    while str_ends_with(cur.as_str(), p)
        invariant
            p@.len() > 0,
            strip_all_suffix(cur@, p@) == strip_all_suffix(s@, p@),
        decreases cur@.len(),
    {
        let n = cur.as_str().unicode_len();
        let k = p.unicode_len();
        cur = substring(cur.as_str(), 0, n - k);
    }
    cur
}

fn find_char(s: &str, c: char) -> (r: usize)
    ensures
        r == first_at(s@, c, 0),
{
    let n = s.unicode_len();
    let mut i: usize = 0;
    while i < n
        invariant
            n == s@.len(),
            i <= n,
            first_at(s@, c, 0) == first_at(s@, c, i as int),
        decreases n - i,
    {
        if s.get_char(i) == c {
            return i;
        }
        i = i + 1;
    }
    n
}

fn first_three(s: &str) -> (r: String)
    ensures
        r@ == take3(s@),
{
    let n = s.unicode_len();
    if n <= 3 {
        String::from_str(s)
    } else {
        substring(s, 0, 3)
    }
}

fn translation_codes_of(name: &str) -> (r: Option<(String, String)>)
    ensures
        match translation_codes(name@) {
            Some(codes) => r matches Some(x) && x.0@ == codes.0 && x.1@ == codes.1,
            None => r is None,
        },
{
    proof {
        reveal_strlit("translation_");
        reveal_strlit(".dat");
    }
    let a = strip_prefix_run(name, "translation_");
    let t = strip_suffix_run(a.as_str(), ".dat");
    let n = t.as_str().unicode_len();
    let k = find_char(t.as_str(), '_');
    if k < n {
        let rest = substring(t.as_str(), k + 1, n);
        let k2 = find_char(rest.as_str(), '_');
        proof {
            lemma_first_at_bounds(rest@, '_', 0);
        }
        let first = substring(t.as_str(), 0, k);
        let second = substring(rest.as_str(), 0, k2);
        Some((first_three(first.as_str()), first_three(second.as_str())))
    } else {
        None
    }
}

fn card_change(modified: u128, name: &str, parent: &Option<String>, grand: &Option<String>) -> (r: Option<Option<FileChange>>)
    ensures
        match card_verdict(modified, name@, opt_view(*parent), opt_view(*grand)) {
            PathVerdict::Skip => r is None,
            PathVerdict::Abort => r == Some(None::<FileChange>),
            PathVerdict::Found(c) => r matches Some(Some(x)) && x@ == c,
        },
{
    proof {
        reveal_strlit(".json");
        reveal_strlit("cards");
    }
    if !(str_ends_with(name, ".json") && !str_contains(name, ".sync-conflict-")) {
        return None;
    }
    let deck = match parent {
        Some(d) => d,
        None => return Some(None),
    };
    let g = match grand {
        Some(g) => g,
        None => return Some(None),
    };
    let n = deck.as_str().unicode_len();
    let k = find_char(deck.as_str(), '-');
    if !str_eq(g.as_str(), "cards") || k >= n {
        return None;
    }
    let src = substring(deck.as_str(), 0, k);
    let tgt = substring(deck.as_str(), k + 1, n);
    let from = lookup_iso639_3(src.as_str());
    let to = lookup_iso639_3(tgt.as_str());
    match (from, to) {
        (Some(f), Some(t)) => {
            let len = name.unicode_len();
            let slug = substring(name, 0, len - 5);
            Some(Some(FileChange::CardChanged { modified, from: f, to: t, lemma_slug: slug }))
        },
        _ => None,
    }
}

/// The verdict on one path: `None` to look at the next path, `Some(None)`
/// to give up on the event, `Some(Some(change))` for the change found.
pub fn classify_path(p: &PathFacts) -> (r: Option<Option<FileChange>>)
    ensures
        match path_verdict(p@) {
            PathVerdict::Skip => r is None,
            PathVerdict::Abort => r == Some(None::<FileChange>),
            PathVerdict::Found(c) => r matches Some(Some(x)) && x@ == c,
        },
{
    proof {
        reveal_strlit("~");
        reveal_strlit("book");
        reveal_strlit(".dat");
        reveal_strlit("translation_");
    }
    let name = match &p.file_name {
        Some(n) => n.as_str(),
        None => return Some(None),
    };
    if str_contains(name, "~") {
        return None;
    }
    let m = match p.modified {
        Some(m) => m,
        None => return None,
    };
    if str_starts_with(name, "book") && str_ends_with(name, ".dat") {
        let dir = match &p.parent_name {
            Some(d) => d,
            None => return Some(None),
        };
        return match parse_uuid(dir.as_str()) {
            Some(u) => Some(Some(FileChange::BookChanged { modified: m, uuid: u })),
            None => Some(None),
        };
    }
    if str_starts_with(name, "translation_") && str_ends_with(name, ".dat") {
        let dir = match &p.parent_name {
            Some(d) => d,
            None => return Some(None),
        };
        match translation_codes_of(name) {
            Some((f, t)) => {
                let from = lookup_iso639_3(f.as_str());
                let to = lookup_iso639_3(t.as_str());
                let uuid = parse_uuid(dir.as_str());
                return match (from, to, uuid) {
                    (Some(a), Some(b), Some(u)) => Some(
                        Some(FileChange::TranslationChanged { modified: m, from: a, to: b, uuid: u }),
                    ),
                    _ => Some(None),
                };
            },
            None => {},
        }
    }
    card_change(m, name, &p.parent_name, &p.grandparent_name)
}

/// The library change a debounced event shows, if any: only create and
/// modify events count, and the first path that is not skipped decides.
pub fn classify_event(is_create_or_modify: bool, paths: &Vec<PathFacts>) -> (r: Option<FileChange>)
    ensures
        !is_create_or_modify ==> r is None,
        is_create_or_modify ==> match first_change(path_views(paths@)) {
            Some(c) => r matches Some(x) && x@ == c,
            None => r is None,
        },
{
    if !is_create_or_modify {
        return None;
    }
    let ghost all = path_views(paths@);
    let mut i: usize = 0;
    assert(all.skip(0) =~= all);
    while i < paths.len()
        invariant
            is_create_or_modify,
            i <= paths@.len(),
            all == path_views(paths@),
            first_change(all) == first_change(all.skip(i as int)),
        decreases paths@.len() - i,
    {
        proof {
            assert(all.skip(i as int)[0] == paths@[i as int]@);
            assert(all.skip(i as int).drop_first() =~= all.skip(i + 1));
        }
        match classify_path(&paths[i]) {
            None => {},
            Some(verdict) => {
                return verdict;
            },
        }
        i = i + 1;
    }
    proof {
        assert(all.skip(i as int).len() == 0);
    }
    None
}

/// The views of a batch of changes.
pub open spec fn change_views(cs: Seq<FileChange>) -> Seq<FileChangeView> {
    cs.map_values(|c: FileChange| c@)
}

/// `s` with every element that already occurred earlier dropped, in order.
pub open spec fn first_occurrences(s: Seq<FileChangeView>) -> Seq<FileChangeView>
    decreases s.len(),
{
    if s.len() == 0 {
        Seq::empty()
    } else {
        let r = first_occurrences(s.drop_last());
        if s.drop_last().contains(s.last()) {
            r
        } else {
            r.push(s.last())
        }
    }
}

/// Whether two changes are the same.
pub fn same_change(a: &FileChange, b: &FileChange) -> (r: bool)
    ensures
        r == (a@ == b@),
{
    match (a, b) {
        (FileChange::BookChanged { modified: m1, uuid: u1 }, FileChange::BookChanged { modified: m2, uuid: u2 }) => {
            *m1 == *m2 && str_eq(u1.as_str(), u2.as_str())
        },
        (
            FileChange::TranslationChanged { modified: m1, from: f1, to: t1, uuid: u1 },
            FileChange::TranslationChanged { modified: m2, from: f2, to: t2, uuid: u2 },
        ) => {
            *m1 == *m2 && str_eq(f1.as_str(), f2.as_str()) && str_eq(t1.as_str(), t2.as_str()) && str_eq(
                u1.as_str(),
                u2.as_str(),
            )
        },
        (
            FileChange::CardChanged { modified: m1, from: f1, to: t1, lemma_slug: l1 },
            FileChange::CardChanged { modified: m2, from: f2, to: t2, lemma_slug: l2 },
        ) => {
            *m1 == *m2 && str_eq(f1.as_str(), f2.as_str()) && str_eq(t1.as_str(), t2.as_str()) && str_eq(
                l1.as_str(),
                l2.as_str(),
            )
        },
        _ => false,
    }
}

fn copy_change(c: &FileChange) -> (r: FileChange)
    ensures
        r@ == c@,
{
    match c {
        FileChange::BookChanged { modified, uuid } => FileChange::BookChanged { modified: *modified, uuid: uuid.clone() },
        FileChange::TranslationChanged { modified, from, to, uuid } => FileChange::TranslationChanged {
            modified: *modified,
            from: from.clone(),
            to: to.clone(),
            uuid: uuid.clone(),
        },
        FileChange::CardChanged { modified, from, to, lemma_slug } => FileChange::CardChanged {
            modified: *modified,
            from: from.clone(),
            to: to.clone(),
            lemma_slug: lemma_slug.clone(),
        },
    }
}

/// The distinct changes of a batch, each kept at its first occurrence.
pub fn distinct_changes(changes: Vec<FileChange>) -> (r: Vec<FileChange>)
    ensures
        change_views(r@) == first_occurrences(change_views(changes@)),
{
    let ghost all = change_views(changes@);
    let mut out: Vec<FileChange> = Vec::new();
    let mut i: usize = 0;
    while i < changes.len()
        invariant
            i <= changes@.len(),
            all == change_views(changes@),
            change_views(out@) == first_occurrences(all.take(i as int)),
        decreases changes@.len() - i,
    {
        let mut seen = false;
        let mut j: usize = 0;
        while j < i
            invariant
                i < changes@.len(),
                j <= i,
                all == change_views(changes@),
                seen == all.take(j as int).contains(all[i as int]),
            decreases i - j,
        {
            proof {
                lemma_take_succ_contains(all, j as int);
            }
            if same_change(&changes[j], &changes[i]) {
                seen = true;
            }
            j = j + 1;
        }
        proof {
            assert(all.take(i + 1).drop_last() =~= all.take(i as int));
            assert(all.take(i + 1).last() == all[i as int]);
        }
        if !seen {
            out.push(copy_change(&changes[i]));
            proof {
                assert(change_views(out@) =~= change_views(out@.drop_last()).push(all[i as int]));
            }
        }
        i = i + 1;
    }
    assert(all.take(changes@.len() as int) =~= all);
    out
}

} // verus!
