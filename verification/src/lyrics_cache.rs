//! Where translated and raw lyrics are cached on disk.

use vstd::prelude::*;

use crate::text::{decimal, decimal_string, join_path, path_join, push_char};

verus! {

/// `c` is an ASCII letter or digit.
pub open spec fn is_ascii_alphanumeric(c: char) -> bool {
    ('0' <= c <= '9') || ('a' <= c <= 'z') || ('A' <= c <= 'Z')
}

/// `s` with every character that is not an ASCII letter or digit replaced
/// by `_`.
pub open spec fn sanitized(s: Seq<char>) -> Seq<char> {
    Seq::new(s.len(), |i: int| if is_ascii_alphanumeric(s[i]) { s[i] } else { '_' })
}

/// A file-name-safe form of a track id.
pub fn sanitize(s: &str) -> (r: String)
    ensures
        r@ == sanitized(s@),
{
    let n = s.unicode_len();
    let mut out = String::new();
    let mut i: usize = 0;
    while i < n
        invariant
            n == s@.len(),
            i <= n,
            out@ == sanitized(s@).take(i as int),
        decreases n - i,
    {
        let c = s.get_char(i);
        if ('0' <= c && c <= '9') || ('a' <= c && c <= 'z') || ('A' <= c && c <= 'Z') {
            push_char(&mut out, c);
        } else {
            push_char(&mut out, '_');
        }
        assert(out@ =~= sanitized(s@).take(i + 1));
        i = i + 1;
    }
    assert(sanitized(s@).take(n as int) =~= sanitized(s@));
    out
}

/// Disk cache of lyrics: translations at `<root>/<track>__<lang>_<model>.json`,
/// raw lyrics at `<root>/raw/<track>.json`, `<root>` being
/// `<cache_dir>/lyrics`.
pub struct LyricsCache {
    root: String,
}

impl LyricsCache {
    /// The cache's root directory.
    pub closed spec fn root_view(&self) -> Seq<char> {
        self.root@
    }

    /// A cache under `<cache_dir>/lyrics`.
    pub fn new(cache_dir: &str) -> (r: LyricsCache)
        ensures
            r.root_view() == path_join(cache_dir@, "lyrics"@),
    {
        LyricsCache { root: join_path(cache_dir, "lyrics") }
    }

    /// The cache's root directory.
    pub fn root(&self) -> (r: &str)
        ensures
            r@ == self.root_view(),
    {
        self.root.as_str()
    }

    /// The file of a translation: `<track>__<lang>_<model>.json` under the
    /// root, the track id sanitized and the language as its ISO 639-3 code.
    pub fn path_for(&self, track_id: &str, target_code: &str, model: usize) -> (r: String)
        ensures
            r@ == path_join(
                self.root_view(),
                sanitized(track_id@) + "__"@ + target_code@ + "_"@ + decimal(model as nat) + ".json"@,
            ),
    {
        let mut name = sanitize(track_id);
        name.append("__");
        name.append(target_code);
        name.append("_");
        let m = decimal_string(model);
        name.append(m.as_str());
        name.append(".json");
        join_path(self.root.as_str(), name.as_str())
    }

    /// The directory of raw lyrics.
    pub fn raw_dir(&self) -> (r: String)
        ensures
            r@ == path_join(self.root_view(), "raw"@),
    {
        join_path(self.root.as_str(), "raw")
    }

    /// The file of a track's raw lyrics: `raw/<track>.json` under the root,
    /// so it cannot collide with a translation entry.
    pub fn raw_path_for(&self, track_id: &str) -> (r: String)
        ensures
            r@ == path_join(path_join(self.root_view(), "raw"@), sanitized(track_id@) + ".json"@),
    {
        let dir = self.raw_dir();
        let mut name = sanitize(track_id);
        name.append(".json");
        join_path(dir.as_str(), name.as_str())
    }
}

/// A translation entry and a raw-lyrics entry of one cache never share a
/// file, whatever the tracks, the language code and the model.
pub proof fn law_translation_and_raw_paths_differ(
    cache: LyricsCache,
    track: Seq<char>,
    raw_track: Seq<char>,
    target_code: Seq<char>,
    model: nat,
)
    ensures
        path_join(cache.root_view(), sanitized(track) + "__"@ + target_code + "_"@ + decimal(model) + ".json"@)
            != path_join(path_join(cache.root_view(), "raw"@), sanitized(raw_track) + ".json"@),
{
    reveal_strlit("__");
    reveal_strlit("_");
    reveal_strlit(".json");
    reveal_strlit("raw");
    let root = cache.root_view();
    let p: Seq<char> = if root.len() == 0 {
        Seq::empty()
    } else if root.last() == '/' {
        root
    } else {
        root + seq!['/']
    };
    let s = sanitized(track);
    let x = s + "__"@ + target_code + "_"@ + decimal(model) + ".json"@;
    let y = sanitized(raw_track) + ".json"@;
    let left = path_join(root, x);
    let right = path_join(path_join(root, "raw"@), y);
    assert(left =~= p + x);
    let mid = p + "raw"@;
    assert(path_join(root, "raw"@) =~= mid);
    assert(mid.last() == 'w');
    assert(right =~= mid + seq!['/'] + y);
    // The two differ at the first of the four characters after the shared
    // prefix where the sanitized track (letters, digits, `_`) or the `__`
    // that follows it meets "raw/".
    let k: int = if s.len() >= 4 { 3 } else { s.len() as int };
    if s.len() >= 4 {
        assert(x[k] == s[3]);
    } else {
        assert(x[k] == '_');
    }
    assert(left[p.len() + k] == x[k]);
    if k < 3 {
        assert(right[p.len() + k] == "raw"@[k]);
    } else {
        assert(right[p.len() + k] == '/');
    }
    assert(left[p.len() + k] != right[p.len() + k]);
}

} // verus!
