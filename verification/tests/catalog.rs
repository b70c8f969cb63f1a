use library::catalog::{
    all_fallbacks, api_key_usable, finish_live_list, next_gemini_page, next_openai_cursor, settle_models, api_id_from_legacy, cache_is_fresh, effective_model_id, encode_query_component,
    ensure_fallback, fallback_for, gemini_list_url, join_models_url, legacy_id_from_api, list_base_url,
    openai_list_url, provider_file_stem, ListedModel, DEPRECATED_OPENROUTER_FLASH_LATEST, FALLBACK_GOOGLE,
    FALLBACK_OPENAI, FALLBACK_OPENROUTER, LIST_TTL_SECS,
};
use library::translator::{TranslationProvider, DEEPSEEK_BASE_URL, OPENROUTER_BASE_URL, ZAI_BASE_URL};

#[test]
fn legacy_table_round_trips_known_ids() {
    assert_eq!(api_id_from_legacy(1), "models/gemini-2.5-flash");
    assert_eq!(api_id_from_legacy(19), "models/gemini-3.7-flash");
    assert_eq!(api_id_from_legacy(0), "");
    assert_eq!(api_id_from_legacy(99), "");
    assert_eq!(legacy_id_from_api("models/gemini-2.5-flash"), 1);
    assert_eq!(legacy_id_from_api("gpt-9-ultra"), 0);
}

#[test]
fn legacy_table_round_trips_every_entry() {
    for i in 1..20u64 {
        assert_eq!(legacy_id_from_api(&api_id_from_legacy(i)), i);
    }
    assert_eq!(legacy_id_from_api(""), 0);
}

#[test]
fn effective_id_uses_fallback_when_empty() {
    assert_eq!(effective_model_id(TranslationProvider::Google, ""), FALLBACK_GOOGLE);
    assert_eq!(effective_model_id(TranslationProvider::Openai, "gpt-5.2"), "gpt-5.2");
    assert_eq!(effective_model_id(TranslationProvider::Openai, " \t"), FALLBACK_OPENAI);
}

#[test]
fn effective_id_migrates_deprecated_openrouter_flash_latest_alias() {
    assert_eq!(
        effective_model_id(TranslationProvider::Openrouter, DEPRECATED_OPENROUTER_FLASH_LATEST),
        FALLBACK_OPENROUTER
    );
    assert_eq!(effective_model_id(TranslationProvider::Openrouter, FALLBACK_OPENROUTER), FALLBACK_OPENROUTER);
    assert_eq!(
        effective_model_id(TranslationProvider::Openai, DEPRECATED_OPENROUTER_FLASH_LATEST),
        DEPRECATED_OPENROUTER_FLASH_LATEST
    );
}

#[test]
fn list_urls_percent_encode_query_values() {
    let url = gemini_list_url("https://example/v1beta", "k/&=", Some("t/2"));
    assert!(url.contains("key=k%2F%26%3D"), "{url}");
    assert!(url.contains("pageToken=t%2F2"), "{url}");
    let url = openai_list_url("https://api.openai.com/v1", Some("id&x"));
    assert!(url.contains("after=id%26x"), "{url}");
}

#[test]
fn list_urls_exact() {
    assert_eq!(
        gemini_list_url("https://example/v1beta/", "k", None),
        "https://example/v1beta/models?key=k"
    );
    assert_eq!(openai_list_url("https://api.openai.com/v1", None), "https://api.openai.com/v1/models");
    assert_eq!(join_models_url("http://x//"), "http://x/models");
    assert_eq!(encode_query_component("a b~é"), "a%20b~%C3%A9");
}

#[test]
fn list_base_url_uses_env_or_defaults() {
    assert_eq!(
        list_base_url(TranslationProvider::Google, None, None, None, None, None),
        "https://generativelanguage.googleapis.com/v1beta/"
    );
    assert_eq!(
        list_base_url(TranslationProvider::Google, Some(String::new()), None, None, None, None),
        "https://generativelanguage.googleapis.com/v1beta/"
    );
    assert_eq!(
        list_base_url(TranslationProvider::Google, Some("https://proxy/v1beta/".into()), None, None, None, None),
        "https://proxy/v1beta/"
    );
    assert_eq!(
        list_base_url(TranslationProvider::Openai, None, Some("http://127.0.0.1:8080/v1".into()), None, None, None),
        "http://127.0.0.1:8080/v1"
    );
    assert_eq!(list_base_url(TranslationProvider::Openai, None, None, None, None, None), "https://api.openai.com/v1");
    assert_eq!(list_base_url(TranslationProvider::Deepseek, None, None, None, None, None), DEEPSEEK_BASE_URL);
    assert_eq!(
        list_base_url(TranslationProvider::Deepseek, None, None, Some("http://ds".into()), None, None),
        "http://ds"
    );
    assert_eq!(list_base_url(TranslationProvider::Zai, None, None, None, None, None), ZAI_BASE_URL);
    assert_eq!(list_base_url(TranslationProvider::Openrouter, None, None, None, None, None), OPENROUTER_BASE_URL);
    assert_eq!(
        list_base_url(TranslationProvider::Openrouter, None, None, None, None, Some("http://or".into())),
        "http://or"
    );
    assert_eq!(fallback_for(TranslationProvider::Openrouter).id, FALLBACK_OPENROUTER);
}

#[test]
fn fallbacks_and_stems() {
    let all = all_fallbacks();
    assert_eq!(all.len(), 5);
    assert_eq!(all[0], fallback_for(TranslationProvider::Google));
    assert_eq!(all[4].provider, TranslationProvider::Openrouter);
    assert_eq!(fallback_for(TranslationProvider::Zai).name, "glm-5.2");
    assert_eq!(provider_file_stem(TranslationProvider::Zai), "zai");
    assert_eq!(provider_file_stem(TranslationProvider::Openrouter), "openrouter");
}

#[test]
fn live_list_missing_fallback_still_includes_it() {
    let mut models = vec![ListedModel { id: "gpt-9-ultra".into(), name: "gpt-9-ultra".into(), provider: TranslationProvider::Openai }];
    ensure_fallback(&mut models, TranslationProvider::Openai);
    let ids: Vec<&str> = models.iter().map(|m| m.id.as_str()).collect();
    assert_eq!(ids, vec!["gpt-9-ultra", FALLBACK_OPENAI]);
    ensure_fallback(&mut models, TranslationProvider::Openai);
    assert_eq!(models.len(), 2, "present fallback is not added twice");
}

#[test]
fn cache_freshness() {
    assert!(cache_is_fresh(1_000, 1_000));
    assert!(cache_is_fresh(1_000 + LIST_TTL_SECS - 1, 1_000));
    assert!(!cache_is_fresh(1_000 + LIST_TTL_SECS, 1_000));
    assert!(cache_is_fresh(5, 10), "clock went backwards");
}

fn gm(name: &str, display: Option<&str>, methods: &[&str]) -> library::catalog::GeminiModelEntry {
    library::catalog::GeminiModelEntry {
        name: Some(name.into()),
        supported_generation_methods: Some(methods.iter().map(|m| Some(m.to_string())).collect()),
        display_name: display.map(|d| d.to_string()),
    }
}

#[test]
fn gemini_filter_keeps_generate_content_drops_the_rest() {
    let models = Some(vec![
        gm("models/gemini-3.7-flash", Some("Gemini 3.7 Flash"), &["generateContent", "countTokens"]),
        gm("models/text-embedding-004", Some("Embeddings"), &["embedContent"]),
        gm("models/gemini-2.5-flash-image", Some("Flash Image"), &["generateContent"]),
        gm("models/gemini-9-ultra", None, &["generateContent"]),
    ]);
    let got = library::catalog::filter_gemini_models(&models);
    let ids: Vec<_> = got.iter().map(|m| m.id.as_str()).collect();
    assert_eq!(ids, ["models/gemini-3.7-flash", "models/gemini-9-ultra"]);
    assert_eq!(got[0].name, "Gemini 3.7 Flash");
    assert_eq!(got[1].name, "models/gemini-9-ultra");
    assert!(library::catalog::filter_gemini_models(&None).is_empty());
}

#[test]
fn openai_filter_drops_non_chat_keeps_unknown_chat() {
    let data = Some(
        ["gpt-9-ultra", "text-embedding-3-large", "whisper-1", "dall-e-3", "gpt-5-mini"]
            .iter()
            .map(|s| Some(s.to_string()))
            .collect::<Vec<_>>(),
    );
    let got = library::catalog::filter_openai_compat_models(&data, TranslationProvider::Openai);
    let ids: Vec<_> = got.iter().map(|m| m.id.as_str()).collect();
    assert_eq!(ids, ["gpt-5-mini", "gpt-9-ultra"]);
}

#[test]
fn sort_is_case_insensitive_and_stable() {
    let mk = |id: &str, name: &str| ListedModel { id: id.into(), name: name.into(), provider: TranslationProvider::Google };
    let mut models = vec![mk("1", "beta"), mk("2", "Alpha"), mk("3", "BETA"), mk("4", "alpha")];
    library::catalog::sort_by_display_name(&mut models);
    let ids: Vec<_> = models.iter().map(|m| m.id.as_str()).collect();
    assert_eq!(ids, ["2", "4", "1", "3"]);
}

#[test]
fn api_key_must_be_present_and_non_empty() {
    assert!(!api_key_usable(None));
    assert!(!api_key_usable(Some("")));
    assert!(api_key_usable(Some("k")));
}

#[test]
fn gemini_pagination_stops_on_missing_or_empty_token() {
    assert_eq!(next_gemini_page(Some("tok".to_string())), Some("tok".to_string()));
    assert_eq!(next_gemini_page(Some(String::new())), None);
    assert_eq!(next_gemini_page(None), None);
}

#[test]
fn openai_pagination_follows_last_id_only_when_more() {
    assert_eq!(next_openai_cursor(Some(true), Some("m-9".to_string())), Some("m-9".to_string()));
    assert_eq!(next_openai_cursor(Some(false), Some("m-9".to_string())), None);
    assert_eq!(next_openai_cursor(None, Some("m-9".to_string())), None);
    assert_eq!(next_openai_cursor(Some(true), Some(String::new())), None);
    assert_eq!(next_openai_cursor(Some(true), None), None);
}

fn listed(id: &str, name: &str, provider: TranslationProvider) -> ListedModel {
    ListedModel { id: id.to_string(), name: name.to_string(), provider }
}

#[test]
fn live_list_gains_missing_fallback_and_is_sorted() {
    let mut models = vec![listed("b", "beta", TranslationProvider::Openai), listed("a", "Alpha", TranslationProvider::Openai)];
    finish_live_list(&mut models, TranslationProvider::Openai);
    let names: Vec<&str> = models.iter().map(|m| m.name.as_str()).collect();
    assert_eq!(names, vec!["Alpha", "beta", FALLBACK_OPENAI]);

    let mut with_fb = vec![listed(FALLBACK_OPENAI, "zeta", TranslationProvider::Openai), listed("a", "Alpha", TranslationProvider::Openai)];
    finish_live_list(&mut with_fb, TranslationProvider::Openai);
    assert_eq!(with_fb.len(), 2);
    assert_eq!(with_fb[0].id, "a");
}

#[test]
fn settled_list_prefers_fetched_then_cached_then_fallback() {
    let fetched = vec![listed("x", "x", TranslationProvider::Google)];
    let cached = vec![listed("y", "y", TranslationProvider::Google)];
    assert_eq!(settle_models(Some(fetched.clone()), Some(cached.clone()), TranslationProvider::Google), fetched);
    assert_eq!(settle_models(None, Some(cached.clone()), TranslationProvider::Google), cached);
    let fb = settle_models(None, None, TranslationProvider::Google);
    assert_eq!(fb, vec![fallback_for(TranslationProvider::Google)]);
    assert_eq!(fb[0].id, FALLBACK_GOOGLE);
}
