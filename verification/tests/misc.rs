use library::lock_trace::{LockEventKind, LockTrace};
use library::gemini_cache::{
    build_reference_material, cache_display_name, disk_key, fingerprint_of, is_cache_missing, CacheContent,
    CacheKey,
};
use library::lrclib::lrclib_retry_config;
use library::lyrics_translation::lyrics_retry_config;
use library::retry::{backoff_delay_ms, should_retry, RetryConfig};
use library::text::{decimal_string, str_contains};
use library::vclock::{vc_canon, vc_dominates, vc_join, vc_strictly_dominates, VClock};
use library::idmap::IdMap;

fn vc(pairs: &[(&str, u64)]) -> VClock {
    let mut m: VClock = IdMap::new();
    for (k, v) in pairs {
        m.insert(k.to_string(), *v);
    }
    m
}

#[test]
fn clocks_join_and_dominate() {
    let a = vc(&[("A", 2), ("B", 0)]);
    let b = vc(&[("B", 3)]);
    let j = vc_join(&a, &b);
    assert_eq!(*j.get("A").unwrap(), 2);
    assert_eq!(*j.get("B").unwrap(), 3);
    assert_eq!(j.len(), 2);
    assert!(vc_dominates(&j, &a) && vc_dominates(&j, &b));
    assert!(vc_strictly_dominates(&j, &b));
    let mut c = vc(&[("A", 0)]);
    vc_canon(&mut c);
    assert!(c.is_empty());
    assert!(!vc_strictly_dominates(&c, &vc(&[])));
}

#[test]
fn backoff_is_capped_by_max_delay() {
    let cfg = RetryConfig { max_attempts: 20, base_delay_ms: 100, max_delay_ms: 500 };
    assert_eq!(backoff_delay_ms(&cfg, 10), 500);
    assert_eq!(backoff_delay_ms(&cfg, 0), 100);
    assert_eq!(backoff_delay_ms(&cfg, 2), 400);
    assert_eq!(backoff_delay_ms(&cfg, 3), 500);
}

#[test]
fn retry_budget() {
    let cfg = RetryConfig { max_attempts: 3, base_delay_ms: 1, max_delay_ms: 1 };
    assert!(should_retry(&cfg, 0, true));
    assert!(should_retry(&cfg, 1, true));
    assert!(!should_retry(&cfg, 2, true));
    assert!(!should_retry(&cfg, 0, false));
    let one = RetryConfig { max_attempts: 0, base_delay_ms: 1, max_delay_ms: 1 };
    assert!(!should_retry(&one, 0, true));
}

#[test]
fn reference_material_layout() {
    assert_eq!(build_reference_material("", ""), None);
    let m = build_reference_material("S", "").unwrap();
    assert!(m.starts_with("Summaries of prior chapters in this book"));
    assert!(m.ends_with("S\n\n"));
    let m = build_reference_material("", "T").unwrap();
    assert!(m.starts_with("Full text of the current chapter"));
    assert!(m.ends_with(":\n\nT"));
}

#[test]
fn fingerprint_changes_with_content() {
    let a = CacheContent { system_instruction: "sys".into(), user_reference_material: None };
    let b = CacheContent { system_instruction: "sys".into(), user_reference_material: Some("ref".into()) };
    let c = CacheContent { system_instruction: "sys2".into(), user_reference_material: None };
    assert_ne!(fingerprint_of(&a), fingerprint_of(&b));
    assert_ne!(fingerprint_of(&a), fingerprint_of(&c));
    assert_eq!(fingerprint_of(&a), fingerprint_of(&CacheContent { system_instruction: "sys".into(), user_reference_material: None }));
    let empty = CacheContent { system_instruction: String::new(), user_reference_material: None };
    // FNV-1a of the single byte 0x1F.
    assert_eq!(fingerprint_of(&empty), (0xcbf29ce484222325u64 ^ 0x1f).wrapping_mul(0x100000001b3));
}

#[test]
fn cache_names() {
    let key = CacheKey {
        model: 9,
        from: "eng".into(),
        to: "rus".into(),
        book_id: "67e55044-10b1-426f-9247-bb680e5fe0c8".into(),
        chapter_id: 3,
    };
    assert_eq!(disk_key(&key), "flts-gemini-9-eng-rus-67e55044-10b1-426f-9247-bb680e5fe0c8-c3");
    assert_eq!(cache_display_name(&key), "flts-9-eng-rus-67e55044-10b1-426f-9247-bb680e5fe0c8-c3");
}

#[test]
fn is_cache_missing_error_matches_403_with_cachedcontents_description() {
    assert!(is_cache_missing(403, Some("CachedContent not found (or permission denied)")));
    assert!(is_cache_missing(404, Some("cachedContents/abc is gone")));
}

#[test]
fn is_cache_missing_error_rejects_unrelated_errors() {
    assert!(!is_cache_missing(500, Some("CachedContent")));
    assert!(!is_cache_missing(403, Some("quota")));
    assert!(!is_cache_missing(404, None));
}

#[test]
fn text_helpers() {
    assert_eq!(decimal_string(0), "0");
    assert_eq!(decimal_string(1207), "1207");
    assert!(str_contains("abc", ""));
    assert!(str_contains("abcabd", "abd"));
    assert!(!str_contains("ab", "abc"));
}

#[test]
fn fetch_retry_policies() {
    let l = lrclib_retry_config();
    assert_eq!((l.max_attempts, l.base_delay_ms, l.max_delay_ms), (3, 400, 4_000));
    assert!(should_retry(&l, 1, true));
    assert!(!should_retry(&l, 2, true));
    let t = lyrics_retry_config();
    assert_eq!((t.max_attempts, t.base_delay_ms, t.max_delay_ms), (2, 2_000, 10_000));
    assert_eq!(backoff_delay_ms(&t, 0), 2_000);
    assert!(!should_retry(&t, 1, true));
}

#[test]
fn lock_trace_records_holders_per_task() {
    let mut log = LockTrace::new();
    log.acquired("t1", "book:a", 1, 2);
    log.acquired("t2", "trans:eng_fra", 3, 4);
    log.released("t1", "book:a", 5);
    log.acquired("t2", "book:a", 6, 7);
    assert_eq!(log.tasks(), vec!["t1".to_string(), "t2".to_string()]);
    let t1 = log.events_for("t1");
    assert_eq!(t1.len(), 2);
    assert_eq!(t1[0].0, LockEventKind::Acquire);
    assert!(t1[0].4.is_empty(), "nothing was held before the first grant");
    assert_eq!(t1[1].0, LockEventKind::Release);
    assert_eq!((t1[1].2, t1[1].3), (5, 5));
    assert_eq!(t1[1].4, vec![("trans:eng_fra".to_string(), "t2".to_string())]);
    let t2 = log.events_for("t2");
    assert_eq!(t2.len(), 2);
    assert_eq!(t2[1].1, "book:a");
    assert_eq!(t2[1].4, vec![("trans:eng_fra".to_string(), "t2".to_string())]);
    assert_eq!(LockEventKind::Acquire.label(), "Acq");
    assert_eq!(LockEventKind::Release.label(), "Rel");
    log.reset();
    assert!(log.tasks().is_empty());
}
