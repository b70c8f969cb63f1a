use library::translator::{
    gemini_model, is_transient_translation_error, json_system_prompt, openai_compat_base_url, openai_model_name,
    paragraph_request, thinking_budget, total_stream_timeout, GeminiModel, StreamChunkAccumulator,
    TranslationErrors, TranslationModel, TranslationProvider, DEEPSEEK_BASE_URL, TRANSLATION_TOTAL_TIMEOUT_BASE_MS,
    TRANSLATION_TOTAL_TIMEOUT_PER_CHAR_MS,
};

#[test]
fn first_chunk_error_is_retried() {
    let mut accumulator = StreamChunkAccumulator::new("OpenAI");
    let mut progress = Vec::new();
    assert!(accumulator.handle_result(Err("boom".to_string()), &mut progress).unwrap());
    assert!(accumulator.handle_result(Ok(Some("abc".into())), &mut progress).unwrap());
    assert!(!accumulator.handle_result(Ok(None), &mut progress).unwrap());
    assert_eq!(accumulator.finish().unwrap(), "abc");
}

#[test]
fn second_chunk_error_fails() {
    let mut accumulator = StreamChunkAccumulator::new("Gemini");
    let mut progress = Vec::new();
    assert!(accumulator.handle_result(Err("boom-1".to_string()), &mut progress).unwrap());
    let err = accumulator.handle_result(Err("boom-2".to_string()), &mut progress).unwrap_err();
    assert!(err.contains("Gemini stream failed after retry"));
    assert_eq!(err, "Gemini stream failed after retry: boom-2");
}

#[test]
fn callback_tracks_cumulative_progress_for_non_empty_chunks() {
    let mut accumulator = StreamChunkAccumulator::new("OpenAI");
    let mut seen = Vec::new();
    assert!(accumulator.handle_result(Ok(Some("a".into())), &mut seen).unwrap());
    assert!(accumulator.handle_result(Ok(Some(String::new())), &mut seen).unwrap());
    assert!(accumulator.handle_result(Ok(Some("bc".into())), &mut seen).unwrap());
    assert!(!accumulator.handle_result(Ok(None), &mut seen).unwrap());
    assert_eq!(accumulator.finish().unwrap(), "abc");
    assert_eq!(seen, vec![1, 3]);
}

#[test]
fn empty_stream_still_fails() {
    let mut accumulator = StreamChunkAccumulator::new("Gemini");
    let mut progress = Vec::new();
    assert!(!accumulator.handle_result(Ok(None), &mut progress).unwrap());
    assert_eq!(accumulator.finish().unwrap_err(), "Gemini returned empty content");
}

#[test]
fn empty_content_chunks_are_treated_as_heartbeats() {
    let mut accumulator = StreamChunkAccumulator::new("OpenAI");
    let mut progress = Vec::new();
    for _ in 0..20 {
        assert!(
            accumulator.handle_result(Ok(Some(String::new())), &mut progress).unwrap(),
            "empty chunk should not terminate the stream"
        );
    }
    assert!(accumulator.handle_result(Ok(Some("hello".into())), &mut progress).unwrap());
    assert_eq!(accumulator.finish().unwrap(), "hello");
    assert_eq!(progress, vec![5]);
}

#[test]
fn progress_counts_bytes() {
    let mut accumulator = StreamChunkAccumulator::new("OpenAI");
    let mut progress = Vec::new();
    assert!(accumulator.handle_result(Ok(Some("é".into())), &mut progress).unwrap());
    assert_eq!(progress, vec![2]);
}

#[test]
fn total_stream_timeout_scales_with_input() {
    let short = total_stream_timeout(100);
    let long = total_stream_timeout(1000);
    assert!(long > short, "longer input should have longer timeout");
    assert_eq!(short, TRANSLATION_TOTAL_TIMEOUT_BASE_MS + TRANSLATION_TOTAL_TIMEOUT_PER_CHAR_MS * 100);
    assert_eq!(total_stream_timeout(0), 180_000);
}

#[test]
fn classifier_treats_self_emitted_timeouts_as_transient() {
    assert!(is_transient_translation_error("OpenAI lyrics request timed out"));
    assert!(is_transient_translation_error("Gemini lyrics stream idle timeout"));
    assert!(is_transient_translation_error("OpenAI lyrics total stream timeout"));
}

#[test]
fn classifier_rejects_lyrics_alignment_error() {
    assert!(!is_transient_translation_error("Lyrics translation alignment error: expected 5 lines, got 4"));
}

#[test]
fn model_numbers_round_trip() {
    for n in 0..=16usize {
        let m = TranslationModel::from(n);
        assert_eq!(usize::from(m), n);
    }
    assert_eq!(TranslationModel::from(99usize), TranslationModel::Unknown);
    assert_eq!(usize::from(TranslationModel::DeepSeekV4Pro), 16);
}

#[test]
fn model_providers() {
    assert_eq!(TranslationModel::Gemini35Flash.provider(), Some(TranslationProvider::Google));
    assert_eq!(TranslationModel::OpenAIGpt54Mini.provider(), Some(TranslationProvider::Openai));
    assert_eq!(TranslationModel::DeepSeekV4Flash.provider(), Some(TranslationProvider::Deepseek));
    assert_eq!(TranslationModel::Unknown.provider(), None);
}

#[test]
fn provider_names() {
    assert_eq!(TranslationProvider::Google.display_name(), "Google");
    assert_eq!(TranslationProvider::Openai.display_name(), "OpenAI");
    assert_eq!(TranslationProvider::Deepseek.display_name(), "DeepSeek");
    assert_eq!(TranslationProvider::Zai.display_name(), "z.AI");
    assert_eq!(TranslationProvider::default(), TranslationProvider::Google);
}

#[test]
fn openai_names_and_urls() {
    assert_eq!(openai_model_name(TranslationModel::OpenAIGpt52).unwrap(), "gpt-5.2");
    assert_eq!(openai_model_name(TranslationModel::DeepSeekV4Pro).unwrap(), "deepseek-v4-pro");
    assert!(matches!(openai_model_name(TranslationModel::Gemini3Pro), Err(TranslationErrors::UnknownModel)));
    assert_eq!(TranslationErrors::UnknownModel.message(), "Unknown model");
    assert_eq!(openai_compat_base_url(TranslationProvider::Deepseek), Some(DEEPSEEK_BASE_URL));
    assert_eq!(openai_compat_base_url(TranslationProvider::Openai), None);
}

#[test]
fn gemini_models() {
    assert!(matches!(gemini_model(TranslationModel::Gemini25Flash), Ok(GeminiModel::Gemini25Flash)));
    assert!(matches!(gemini_model(TranslationModel::Gemini31Pro), Ok(GeminiModel::Custom("models/gemini-3.1-pro-preview"))));
    assert!(gemini_model(TranslationModel::OpenAIGpt52).is_err());
    assert_eq!(thinking_budget(GeminiModel::Gemini25Flash), Some(0));
    assert_eq!(thinking_budget(GeminiModel::Gemini3Pro), None);
}

#[test]
fn request_texts() {
    assert_eq!(paragraph_request("Hola."), "Translate this paragraph: Hola.");
    let p = json_system_prompt("P", None);
    assert!(p.starts_with("P\n\nReturn ONLY a single JSON object"));
    let p = json_system_prompt("P", Some("{}"));
    assert!(p.ends_with("\n\nJSON schema for the response:\n{}"));
}
