use library::lrclib::{is_transient, lyrics_from_response, parse_lrc, resolve_get_url, TransportFailure, LRCLIB_BASE};
use library::lyrics::{parse_lyrics, LyricsLineResponse, LyricsResponse};
use library::lyrics_cache::{sanitize, LyricsCache};
use library::lyrics_translation::{stream_budget_chars, system_prompt, user_message, validate_alignment};
use library::lyrics::LyricsLine;
use library::select::{pick_best, LrclibRecord, LyricsQuery};

#[test]
fn get_url_env_resolution() {
    assert_eq!(resolve_get_url(None), LRCLIB_BASE);
    assert_eq!(resolve_get_url(Some("http://127.0.0.1:4002/".into())), "http://127.0.0.1:4002/api/get");
    assert_eq!(resolve_get_url(Some(String::new())), LRCLIB_BASE);
}

#[test]
fn parse_lrc_basic_timestamps() {
    let raw = "[00:12.34]Hello world\n[01:02.50]Second line";
    let lines = parse_lrc(raw);
    assert_eq!(lines.len(), 2);
    assert_eq!(lines[0].time_ms, Some(12_340));
    assert_eq!(lines[0].text, "Hello world");
    assert_eq!(lines[1].time_ms, Some(62_500));
    assert_eq!(lines[1].text, "Second line");
}

#[test]
fn parse_lrc_three_digit_fractional() {
    let lines = parse_lrc("[00:01.234]Line");
    assert_eq!(lines[0].time_ms, Some(1_234));
}

#[test]
fn parse_lrc_one_digit_fractional() {
    let lines = parse_lrc("[00:01.2]Line");
    assert_eq!(lines[0].time_ms, Some(1_200));
}

#[test]
fn parse_lrc_no_fractional() {
    let lines = parse_lrc("[00:05]Line");
    assert_eq!(lines[0].time_ms, Some(5_000));
}

#[test]
fn parse_lrc_multi_tag_repeats_line() {
    let lines = parse_lrc("[00:01.00][00:10.00]Chorus");
    assert_eq!(lines.len(), 2);
    assert_eq!(lines[0].time_ms, Some(1_000));
    assert_eq!(lines[1].time_ms, Some(10_000));
    assert_eq!(lines[0].text, "Chorus");
    assert_eq!(lines[1].text, "Chorus");
}

#[test]
fn parse_lrc_metadata_keeps_line_without_time() {
    let lines = parse_lrc("[ar:Artist]\n[00:01.00]Hello");
    assert_eq!(lines.len(), 2);
    assert!(lines.iter().any(|l| l.text == "[ar:Artist]" && l.time_ms.is_none()));
    assert!(lines.iter().any(|l| l.text == "Hello" && l.time_ms == Some(1_000)));
}

#[test]
fn parse_lrc_empty_line_text_preserved() {
    let lines = parse_lrc("[00:30.00]");
    assert_eq!(lines.len(), 1);
    assert_eq!(lines[0].time_ms, Some(30_000));
    assert_eq!(lines[0].text, "");
}

#[test]
fn parse_lrc_sorts_stably_and_keeps_stanzas() {
    let lines = parse_lrc("[00:10.00]b\n\n[00:05.00]a\r\n[00:10.00]c\n  plain  \n");
    let got: Vec<(Option<u32>, &str)> = lines.iter().map(|l| (l.time_ms, l.text.as_str())).collect();
    assert_eq!(
        got,
        vec![(Some(5_000), "a"), (Some(10_000), "b"), (None, ""), (Some(10_000), "c"), (None, "plain")]
    );
}

#[test]
fn parse_lrc_rejects_malformed_tags() {
    let lines = parse_lrc("[1234:01]x\n[00:01.]y\n[00:123]z");
    assert!(lines.iter().all(|l| l.time_ms.is_none()));
    assert_eq!(lines[0].text, "[1234:01]x");
}

#[test]
fn is_transient_classifies_status_codes() {
    let t = |code: u16| is_transient(None, &format!("LRClib HTTP {code}"));
    assert!(t(408));
    assert!(t(429));
    assert!(t(500));
    assert!(t(502));
    assert!(t(503));
    assert!(t(504));
    assert!(!t(400));
    assert!(!t(401));
    assert!(!t(403));
    assert!(!t(418));
}

#[test]
fn is_transient_ignores_unrelated_errors() {
    assert!(!is_transient(None, "some other thing"));
    assert!(!is_transient(None, "LRClib HTTP nope"));
    assert!(!is_transient(None, "LRClib HTTP 70000"));
}

#[test]
fn is_transient_trusts_transport_failures() {
    let f = TransportFailure { is_timeout: true, is_connect: false, is_request: false };
    assert!(is_transient(Some(f), "whatever"));
    let f = TransportFailure { is_timeout: false, is_connect: false, is_request: false };
    assert!(!is_transient(Some(f), "LRClib HTTP 503"));
}

fn payload(sync_type: &str, lines: &[(&str, &str)]) -> LyricsResponse {
    LyricsResponse {
        sync_type: sync_type.into(),
        lines: lines
            .iter()
            .map(|(t, w)| LyricsLineResponse { start_time_ms: (*t).into(), words: (*w).into() })
            .collect(),
    }
}

#[test]
fn parses_line_synced() {
    let l = parse_lyrics("t1", payload("LINE_SYNCED", &[("960", "One, two"), ("4020", "Ooh-ooh")]));
    assert!(l.synced);
    assert_eq!(l.lines.len(), 2);
    assert_eq!(l.lines[0].time_ms, Some(960));
    assert_eq!(l.lines[1].time_ms, Some(4020));
    assert_eq!(l.lines[1].text, "Ooh-ooh");
}

#[test]
fn parses_unsynced() {
    let l = parse_lyrics("spot1", payload("UNSYNCED", &[("", "line one"), ("", "line two")]));
    assert!(!l.synced);
    assert!(l.lines.iter().all(|x| x.time_ms.is_none()));
    assert_eq!(l.lines[0].text, "line one");
    assert_eq!(l.track_id, "spot1");
}

#[test]
fn parses_word_synced_dropping_zero_and_garbage() {
    let l = parse_lyrics("t", payload("WORD_SYNCED", &[("0", "a"), ("+7", "b"), ("x", "c"), ("4294967296", "d")]));
    assert!(l.synced);
    let times: Vec<Option<u32>> = l.lines.iter().map(|x| x.time_ms).collect();
    assert_eq!(times, vec![None, Some(7), None, None]);
}

fn query() -> LyricsQuery<'static> {
    LyricsQuery { artist: "Mecano", title: "Hijo de la Luna", album: Some("Entre el Cielo y el Suelo"), duration_s: Some(210) }
}

fn rec() -> LrclibRecord {
    LrclibRecord {
        artist: "Mecano".into(),
        title: "Hijo de la Luna".into(),
        album: Some("Entre el Cielo y el Suelo".into()),
        duration_ms: Some(210_000),
        instrumental: false,
        synced: None,
        plain: None,
    }
}

#[test]
fn synced_beats_plain() {
    let plain = LrclibRecord { plain: Some("plain text".into()), ..rec() };
    let synced = LrclibRecord { synced: Some("[00:01.00] timed".into()), ..rec() };
    let candidates = [plain, synced];
    let best = pick_best(&candidates, &query()).expect("eligible");
    assert_eq!(best.synced.as_deref(), Some("[00:01.00] timed"));
}

#[test]
fn duration_window_rejects_30s_off_synced() {
    let far = LrclibRecord { duration_ms: Some(240_000), synced: Some("[00:01.00] far".into()), ..rec() };
    assert!(pick_best(&[far], &query()).is_none());
}

#[test]
fn closer_duration_wins_among_synced() {
    let close = LrclibRecord { duration_ms: Some(210_000), synced: Some("[00:01.00] close".into()), ..rec() };
    let farther = LrclibRecord { duration_ms: Some(214_000), synced: Some("[00:01.00] farther".into()), ..rec() };
    let candidates = [farther, close];
    let best = pick_best(&candidates, &query()).expect("eligible");
    assert_eq!(best.synced.as_deref(), Some("[00:01.00] close"));
}

#[test]
fn empty_instrumental_is_dropped() {
    let inst = LrclibRecord { instrumental: true, ..rec() };
    assert!(pick_best(&[inst], &query()).is_none());
}

#[test]
fn search_synced_preferred_over_get_plain() {
    let get_plain = LrclibRecord { plain: Some("from get".into()), ..rec() };
    let search_synced = LrclibRecord {
        album: Some("Greatest Hits".into()),
        synced: Some("[00:01.00] from search".into()),
        ..rec()
    };
    let candidates = [get_plain, search_synced];
    let best = pick_best(&candidates, &query()).expect("eligible");
    assert_eq!(best.synced.as_deref(), Some("[00:01.00] from search"));
}

#[test]
fn ties_keep_first_and_text_match_ignores_case() {
    let a = LrclibRecord { plain: Some("a".into()), artist: "MECANO".into(), ..rec() };
    let b = LrclibRecord { plain: Some("b".into()), ..rec() };
    let candidates = [a, b];
    let best = pick_best(&candidates, &query()).expect("eligible");
    assert_eq!(best.plain.as_deref(), Some("a"));
}

#[test]
fn lyrics_prompts() {
    let p = system_prompt("German");
    assert!(p.starts_with("You are translating song lyrics into German, in the spirit of"));
    assert!(p.contains("whose native language is German is unlikely"));
    let lines = vec![
        LyricsLine { time_ms: Some(1), text: "Hallo".into() },
        LyricsLine { time_ms: None, text: "".into() },
    ];
    assert_eq!(user_message(&lines), "[0] Hallo\n[1] \n");
    assert_eq!(stream_budget_chars(&lines), 5 * 6 + 256);
    assert!(validate_alignment(2, 2).is_ok());
    assert_eq!(
        validate_alignment(5, 4).unwrap_err(),
        "Lyrics translation alignment error: expected 5 lines, got 4"
    );
}

#[test]
fn raw_and_translation_do_not_collide() {
    let cache = LyricsCache::new("/cache");
    assert_eq!(cache.root(), "/cache/lyrics");
    let t = cache.path_for("spotify:track:abc", "eng", 4);
    let r = cache.raw_path_for("spotify:track:abc");
    assert_eq!(t, "/cache/lyrics/spotify_track_abc__eng_4.json");
    assert_eq!(r, "/cache/lyrics/raw/spotify_track_abc.json");
    assert_ne!(t, r);
    assert_eq!(sanitize("a-b.c/é"), "a_b_c__");
}

#[test]
fn lrclib_answer_conversion() {
    let l = lyrics_from_response("t", Some("[00:01.00]x".into()), Some("plain".into())).unwrap();
    assert!(l.synced);
    assert_eq!(l.lines[0].time_ms, Some(1_000));
    let l = lyrics_from_response("t", Some(String::new()), Some("one\r\n two\n".into())).unwrap();
    assert!(!l.synced);
    let texts: Vec<&str> = l.lines.iter().map(|x| x.text.as_str()).collect();
    assert_eq!(texts, vec!["one", " two"]);
    assert!(lyrics_from_response("t", None, Some(String::new())).is_none());
}
