//! Song lyrics: lines with optional timestamps, per-line translations, and
//! the conversion of the desktop player's lyrics payload.

use vstd::prelude::*;

use crate::text::{parse_decimal, parse_unsigned, str_eq};

verus! {

/// One line of lyrics.
#[derive(Debug, Clone)]
pub struct LyricsLine {
    /// Start time in ms; `None` for unsynced lyrics and stanza breaks.
    pub time_ms: Option<u32>,
    pub text: String,
}

impl View for LyricsLine {
    type V = (Option<u32>, Seq<char>);

    open spec fn view(&self) -> (Option<u32>, Seq<char>) {
        (self.time_ms, self.text@)
    }
}

/// A gloss of a fragment of a line.
#[derive(Debug, Clone)]
pub struct Gloss {
    pub fragment: String,
    pub gloss: String,
    /// Register, idiom, or cultural context; empty when not applicable.
    pub note: String,
}

/// The translation of one line with its glosses.
#[derive(Debug, Clone)]
pub struct LyricsLineTranslation {
    pub translation: String,
    pub glosses: Vec<Gloss>,
}

/// The lyrics of a track.
#[derive(Debug, Clone)]
pub struct Lyrics {
    pub track_id: String,
    pub lines: Vec<LyricsLine>,
    /// Whether lines carry `time_ms`.
    pub synced: bool,
}

/// The views of a sequence of lines.
pub open spec fn line_views(ls: Seq<LyricsLine>) -> Seq<(Option<u32>, Seq<char>)> {
    ls.map_values(|l: LyricsLine| l@)
}

/// The desktop player's lyrics payload.
#[derive(Debug)]
pub struct LyricsResponse {
    /// `LINE_SYNCED`, `WORD_SYNCED` or `UNSYNCED`.
    pub sync_type: String,
    pub lines: Vec<LyricsLineResponse>,
}

/// One line of the payload.
#[derive(Debug)]
pub struct LyricsLineResponse {
    /// Decimal start time; may be empty for unsynced lines.
    pub start_time_ms: String,
    pub words: String,
}

/// Whether a payload's sync type carries line timestamps.
pub open spec fn is_synced_type(sync_type: Seq<char>) -> bool {
    sync_type == "LINE_SYNCED"@ || sync_type == "WORD_SYNCED"@
}

/// The line a payload line becomes: its positive start time when the payload
/// is synced, and its words.
pub open spec fn payload_line(l: LyricsLineResponse, synced: bool) -> (Option<u32>, Seq<char>) {
    let t = match parse_unsigned(l.start_time_ms@, u32::MAX as nat) {
        Some(v) => if synced && v > 0 { Some(v as u32) } else { None },
        None => None,
    };
    (t, l.words@)
}

/// The lines a sequence of payload lines becomes.
pub open spec fn payload_lines(ls: Seq<LyricsLineResponse>, synced: bool) -> Seq<(Option<u32>, Seq<char>)> {
    ls.map_values(|l: LyricsLineResponse| payload_line(l, synced))
}

/// Converts the desktop player's lyrics payload. Synced payloads keep each
/// line's start time when it parses as a positive `u32`; unsynced payloads
/// carry no times.
pub fn parse_lyrics(track_id: &str, payload: LyricsResponse) -> (r: Lyrics)
    ensures
        r.track_id@ == track_id@,
        r.synced == is_synced_type(payload.sync_type@),
        line_views(r.lines@) == payload_lines(payload.lines@, r.synced),
{
    let synced = str_eq(payload.sync_type.as_str(), "LINE_SYNCED") || str_eq(payload.sync_type.as_str(), "WORD_SYNCED");
    let ghost src = payload.lines@;
    let mut lines: Vec<LyricsLine> = Vec::new();
    let mut i: usize = 0;
    while i < payload.lines.len()
        invariant
            src == payload.lines@,
            i <= src.len(),
            line_views(lines@) == payload_lines(src.take(i as int), synced),
        decreases src.len() - i,
    {
        let l = &payload.lines[i];
        let time_ms = if synced {
            let n = l.start_time_ms.as_str().unicode_len();
            match parse_decimal(l.start_time_ms.as_str(), 0, n, 0xffff_ffff) {
                Some(v) => {
                    if v > 0 {
                        Some(v as u32)
                    } else {
                        None
                    }
                },
                None => None,
            }
        } else {
            None
        };
        proof {
            assert(l.start_time_ms@.subrange(0, l.start_time_ms@.len() as int) =~= l.start_time_ms@);
            assert(*l == src[i as int]);
            assert(payload_line(*l, synced) == (time_ms, l.words@));
        }
        let ghost before = lines@;
        let text = l.words.clone();
        lines.push(LyricsLine { time_ms, text });
        proof {
            assert(line_views(lines@) =~= line_views(before).push((time_ms, l.words@)));
            assert(payload_lines(src.take(i + 1), synced) =~= payload_lines(src.take(i as int), synced).push(payload_line(src[i as int], synced)));
            assert(line_views(lines@) =~= payload_lines(src.take(i + 1), synced));
        }
        i = i + 1;
    }
    assert(src.take(src.len() as int) =~= src);
    Lyrics { track_id: String::from_str(track_id), lines, synced }
}

} // verus!
