//! Choosing the best LRClib record for a track.

use unicode_normalization::UnicodeNormalization;
use vstd::prelude::*;

use crate::text::{lowercase_of, to_lowercase};

verus! {

/// The track the records are matched against.
#[derive(Debug, Clone)]
pub struct LyricsQuery<'a> {
    pub artist: &'a str,
    pub title: &'a str,
    pub album: Option<&'a str>,
    pub duration_s: Option<u32>,
}

/// One LRClib search or get record.
#[derive(Debug, Clone)]
pub struct LrclibRecord {
    pub artist: String,
    pub title: String,
    pub album: Option<String>,
    /// Track duration in milliseconds.
    pub duration_ms: Option<u64>,
    pub instrumental: bool,
    pub synced: Option<String>,
    pub plain: Option<String>,
}

/// Present and non-empty.
pub open spec fn nonempty_opt(s: Option<String>) -> bool {
    match s {
        Some(t) => t@.len() > 0,
        None => false,
    }
}

fn nonempty(s: &Option<String>) -> (r: bool)
    ensures
        r == nonempty_opt(*s),
{
    match s {
        Some(t) => t.as_str().unicode_len() > 0,
        None => false,
    }
}

impl LrclibRecord {
    /// Carries non-empty synced lyrics.
    pub fn has_synced(&self) -> (r: bool)
        ensures
            r == nonempty_opt(self.synced),
    {
        nonempty(&self.synced)
    }

    /// Carries non-empty plain lyrics.
    pub fn has_plain(&self) -> (r: bool)
        ensures
            r == nonempty_opt(self.plain),
    {
        nonempty(&self.plain)
    }

    /// Carries lyrics of either kind.
    pub fn has_lyrics(&self) -> (r: bool)
        ensures
            r == (nonempty_opt(self.synced) || nonempty_opt(self.plain)),
    {
        self.has_synced() || self.has_plain()
    }
}

/// Largest accepted difference between a record's and the query's
/// duration, in milliseconds.
pub const MAX_DURATION_DELTA_MS: u64 = 8000;

/// The canonical composition (NFC) of a string, as the normalization crate
/// computes it.
pub uninterp spec fn nfc_of(s: Seq<char>) -> Seq<char>;

/// `UnicodeNormalization::nfc` (unicode-normalization), collected into a
/// string: the canonical composition of `s`, a function of `s` alone.
#[verifier::external_body]
fn nfc(s: &str) -> (r: String)
    ensures
        r@ == nfc_of(s@),
{
    s.nfc().collect::<String>()
}

/// The comparison form of a text: NFC, then lower case.
pub open spec fn normalized_text(s: Seq<char>) -> Seq<char> {
    lowercase_of(nfc_of(s))
}

/// The comparison form of a text: NFC, then lower case.
pub fn normalize(s: &str) -> (r: String)
    ensures
        r@ == normalized_text(s@),
{
    let n = nfc(s);
    to_lowercase(n.as_str())
}

/// Both texts are present and equal once normalized.
pub open spec fn texts_match(a: Option<Seq<char>>, b: Option<Seq<char>>) -> bool {
    match (a, b) {
        (Some(x), Some(y)) => normalized_text(x) == normalized_text(y),
        _ => false,
    }
}

/// Whether two optional texts are both present and equal once normalized.
pub fn matches_text(a: Option<&str>, b: Option<&str>) -> (r: bool)
    ensures
        r == texts_match(
            match a {
                Some(x) => Some(x@),
                None => None,
            },
            match b {
                Some(y) => Some(y@),
                None => None,
            },
        ),
{
    match (a, b) {
        (Some(x), Some(y)) => {
            let nx = normalize(x);
            let ny = normalize(y);
            crate::text::str_eq(nx.as_str(), ny.as_str())
        },
        _ => false,
    }
}

/// The absolute difference between a record's duration and the query's,
/// in milliseconds, when both are known.
pub open spec fn duration_delta_ms(candidate: Option<u64>, query_s: Option<u32>) -> Option<int> {
    match (candidate, query_s) {
        (Some(c), Some(q)) => {
            let d = c - q * 1000;
            Some(if d >= 0 { d } else { -d })
        },
        _ => None,
    }
}

/// The score of a record, given which of album, artist and title match
/// (`None`: the record is not eligible). Records without lyrics and records
/// more than 8 s off the query's duration are dropped; synced lyrics score
/// 1000, plain 100; a matching album adds 50, artist and title 30 each; each
/// second of duration difference (rounded half up) costs 10.
pub open spec fn score_spec(
    synced: bool,
    plain: bool,
    delta_ms: Option<int>,
    album_match: bool,
    artist_match: bool,
    title_match: bool,
) -> Option<int> {
    if !(synced || plain) {
        None
    } else if delta_ms matches Some(d) && d > MAX_DURATION_DELTA_MS {
        None
    } else {
        let base: int = if synced { 1000 } else { 100 };
        let s = base + (if album_match { 50int } else { 0 }) + (if artist_match { 30int } else { 0 })
            + (if title_match { 30int } else { 0 });
        match delta_ms {
            Some(d) => Some(s - 10 * ((d + 500) / 1000)),
            None => Some(s),
        }
    }
}

/// The score of a record given the outcome of the three text comparisons.
pub fn score_with(candidate: &LrclibRecord, query: &LyricsQuery, album_match: bool, artist_match: bool, title_match: bool) -> (r: Option<i32>)
    ensures
        match score_spec(
            nonempty_opt(candidate.synced),
            nonempty_opt(candidate.plain),
            duration_delta_ms(candidate.duration_ms, query.duration_s),
            album_match,
            artist_match,
            title_match,
        ) {
            Some(v) => r == Some(v as i32),
            None => r is None,
        },
{
    if !candidate.has_lyrics() {
        return None;
    }
    let mut delta: Option<u64> = None;
    match (candidate.duration_ms, query.duration_s) {
        (Some(c), Some(q)) => {
            let qm: u64 = (q as u64) * 1000;
            let d = if c >= qm { c - qm } else { qm - c };
            if d > MAX_DURATION_DELTA_MS {
                return None;
            }
            delta = Some(d);
        },
        _ => {},
    }
    let mut s: i32 = if candidate.has_synced() { 1000 } else { 100 };
    if album_match {
        s = s + 50;
    }
    if artist_match {
        s = s + 30;
    }
    if title_match {
        s = s + 30;
    }
    match delta {
        Some(d) => {
            let rounded: i32 = ((d + 500) / 1000) as i32;
            s = s - 10 * rounded;
        },
        None => {},
    }
    Some(s)
}

/// The optional view of an optional owned string.
pub open spec fn opt_string_view(o: Option<String>) -> Option<Seq<char>> {
    match o {
        Some(s) => Some(s@),
        None => None,
    }
}

/// The score of a record against a query (`None`: not eligible).
pub open spec fn record_score(c: LrclibRecord, q: LyricsQuery) -> Option<int> {
    score_spec(
        nonempty_opt(c.synced),
        nonempty_opt(c.plain),
        duration_delta_ms(c.duration_ms, q.duration_s),
        texts_match(opt_string_view(c.album), match q.album {
            Some(a) => Some(a@),
            None => None,
        }),
        texts_match(Some(c.artist@), Some(q.artist@)),
        texts_match(Some(c.title@), Some(q.title@)),
    )
}

/// Law: a record whose artist matches the query's (once normalized) scores
/// exactly 30 more than the same record with an artist that does not match;
/// the artist decides nothing else.
pub proof fn law_artist_match_adds_30(c: LrclibRecord, other_artist: String, q: LyricsQuery)
    requires
        normalized_text(c.artist@) == normalized_text(q.artist@),
        normalized_text(other_artist@) != normalized_text(q.artist@),
    ensures
        ({
            let d = LrclibRecord { artist: other_artist, ..c };
            &&& (record_score(c, q) is Some) == (record_score(d, q) is Some)
            &&& record_score(c, q) is Some ==> record_score(c, q)->0 == record_score(d, q)->0 + 30
        }),
{
}

/// Law: a record whose title matches the query's (once normalized) scores
/// exactly 30 more than the same record with a title that does not match.
pub proof fn law_title_match_adds_30(c: LrclibRecord, other_title: String, q: LyricsQuery)
    requires
        normalized_text(c.title@) == normalized_text(q.title@),
        normalized_text(other_title@) != normalized_text(q.title@),
    ensures
        ({
            let d = LrclibRecord { title: other_title, ..c };
            &&& (record_score(c, q) is Some) == (record_score(d, q) is Some)
            &&& record_score(c, q) is Some ==> record_score(c, q)->0 == record_score(d, q)->0 + 30
        }),
{
}

/// Law: a record whose album matches the query's album scores exactly 50
/// more than the same record without an album.
pub proof fn law_album_match_adds_50(c: LrclibRecord, q: LyricsQuery)
    requires
        c.album is Some,
        q.album is Some,
        normalized_text(c.album->0@) == normalized_text(q.album->0@),
    ensures
        ({
            let d = LrclibRecord { album: None, ..c };
            &&& (record_score(c, q) is Some) == (record_score(d, q) is Some)
            &&& record_score(c, q) is Some ==> record_score(c, q)->0 == record_score(d, q)->0 + 50
        }),
{
}

/// Law: synced lyrics are worth 900 more than plain ones: a record with
/// synced lyrics outscores by exactly 900 the same record carrying only
/// plain lyrics.
pub proof fn law_synced_beats_plain_by_900(c: LrclibRecord, plain: String, q: LyricsQuery)
    requires
        c.synced is Some,
        c.synced->0@.len() > 0,
        plain@.len() > 0,
    ensures
        ({
            let d = LrclibRecord { synced: None, plain: Some(plain), ..c };
            &&& (record_score(c, q) is Some) == (record_score(d, q) is Some)
            &&& record_score(c, q) is Some ==> record_score(c, q)->0 == record_score(d, q)->0 + 900
        }),
{
}

/// Law: a record without lyrics, or more than 8 s longer or shorter than
/// the query, is never eligible.
pub proof fn law_ineligible_records(c: LrclibRecord, q: LyricsQuery)
    ensures
        !nonempty_opt(c.synced) && !nonempty_opt(c.plain) ==> record_score(c, q) is None,
        (c.duration_ms matches Some(ms) && q.duration_s matches Some(s) && (ms > s * 1000 + 8000 || ms + 8000
            < s * 1000)) ==> record_score(c, q) is None,
{
}

/// Scores a record against a query (`None`: not eligible).
pub fn score(candidate: &LrclibRecord, query: &LyricsQuery) -> (r: Option<i32>)
    ensures
        match record_score(*candidate, *query) {
            Some(v) => r == Some(v as i32),
            None => r is None,
        },
{
    let album_match = match &candidate.album {
        Some(a) => matches_text(Some(a.as_str()), query.album),
        None => matches_text(None, query.album),
    };
    let artist_match = matches_text(Some(candidate.artist.as_str()), Some(query.artist));
    let title_match = matches_text(Some(candidate.title.as_str()), Some(query.title));
    score_with(candidate, query, album_match, artist_match, title_match)
}

/// The position of the best score: the highest, the first of equal ones;
/// `None` when no record is eligible.
pub open spec fn best_index(scores: Seq<Option<int>>) -> Option<int>
    decreases scores.len(),
{
    if scores.len() == 0 {
        None
    } else {
        let prev = best_index(scores.drop_last());
        match scores.last() {
            None => prev,
            Some(v) => match prev {
                None => Some(scores.len() - 1),
                Some(i) => if v > scores[i].unwrap() {
                    Some(scores.len() - 1)
                } else {
                    prev
                },
            },
        }
    }
}

/// The scores of the records against a query.
pub open spec fn record_scores(cs: Seq<LrclibRecord>, q: LyricsQuery) -> Seq<Option<int>> {
    cs.map_values(|c: LrclibRecord| record_score(c, q))
}

proof fn lemma_best_index(scores: Seq<Option<int>>)
    ensures
        best_index(scores) matches Some(i) ==> 0 <= i < scores.len() && scores[i] is Some,
    decreases scores.len(),
{
    if scores.len() > 0 {
        lemma_best_index(scores.drop_last());
    }
}

/// Law: the chosen position holds the highest score, and every earlier
/// eligible record scores strictly less (ties go to the first); nothing is
/// chosen only when no record is eligible.
pub proof fn law_best_is_first_maximum(scores: Seq<Option<int>>)
    ensures
        best_index(scores) is None <==> forall|j: int| 0 <= j < scores.len() ==> #[trigger] scores[j] is None,
        best_index(scores) matches Some(i) ==> {
            &&& 0 <= i < scores.len()
            &&& scores[i] is Some
            &&& forall|j: int| 0 <= j < scores.len() && #[trigger] scores[j] is Some ==> scores[j]->0 <= scores[i]->0
            &&& forall|j: int| 0 <= j < i && #[trigger] scores[j] is Some ==> scores[j]->0 < scores[i]->0
        },
    decreases scores.len(),
{
    if scores.len() > 0 {
        let d = scores.drop_last();
        law_best_is_first_maximum(d);
        let n = scores.len() - 1;
        assert forall|j: int| 0 <= j < n implies d[j] == #[trigger] scores[j] by {}
        if best_index(scores) is None {
            assert(scores[n] is None);
        }
    }
}

/// The highest-scoring eligible record (the first of equal ones), or `None`
/// when every record is dropped.
pub fn pick_best<'a>(candidates: &'a [LrclibRecord], query: &LyricsQuery) -> (r: Option<&'a LrclibRecord>)
    ensures
        match best_index(record_scores(candidates@, *query)) {
            Some(i) => r matches Some(c) && *c == candidates@[i],
            None => r is None,
        },
{
    let ghost scores = record_scores(candidates@, *query);
    let mut best: Option<(i32, usize)> = None;
    let mut i: usize = 0;
    while i < candidates.len()
        invariant
            i <= candidates@.len(),
            scores == record_scores(candidates@, *query),
            match best_index(scores.take(i as int)) {
                Some(j) => best matches Some((bs, bj)) && bj == j && j < i && scores[j] == Some(bs as int),
                None => best is None,
            },
        decreases candidates@.len() - i,
    {
        let s = score(&candidates[i], query);
        proof {
            assert(scores.take(i + 1).drop_last() =~= scores.take(i as int));
            assert(scores.take(i + 1).last() == scores[i as int]);
            assert(scores[i as int] == record_score(candidates@[i as int], *query));
            lemma_best_index(scores.take(i as int));
            match best_index(scores.take(i as int)) {
                Some(j) => {
                    assert(scores.take(i as int)[j] == scores[j]);
                    assert(scores.take(i + 1)[j] == scores[j]);
                },
                None => {},
            }
        }
        match s {
            Some(v) => {
                match best {
                    None => {
                        best = Some((v, i));
                    },
                    Some((bs, _)) => {
                        if v > bs {
                            best = Some((v, i));
                        }
                    },
                }
            },
            None => {},
        }
        i = i + 1;
    }
    proof {
        assert(scores.take(candidates@.len() as int) =~= scores);
    }
    match best {
        Some((_, j)) => Some(&candidates[j]),
        None => None,
    }
}

} // verus!
