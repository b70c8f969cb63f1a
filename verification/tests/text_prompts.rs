use library::books::{split_paragraphs, LibraryError};
use library::summary::{checked_summary, system_prompt, user_message};

#[test]
fn split_paragraphs_js_equivalence_basic() {
    let input = "Hello\n\n  world  \r\n\nNext line\n";
    let result = split_paragraphs(input);
    assert_eq!(result, vec!["Hello", "world", "Next line"]);
}

#[test]
fn split_paragraphs_whitespace_only() {
    let input = "  \n\n\t\n\r\n";
    let result = split_paragraphs(input);
    assert!(result.is_empty());
}

#[test]
fn split_paragraphs_keeps_lone_carriage_return_inside() {
    assert_eq!(split_paragraphs("a\rb\n\u{3000}c\u{3000}"), vec!["a\rb", "c"]);
}

#[test]
fn duplicate_title_message() {
    let e = LibraryError::DuplicateTitle("Dune".into());
    assert_eq!(e.message(), "Failed to create book: duplicate title (Dune)");
}

#[test]
fn user_message_includes_prior_summary_when_present() {
    let msg = user_message("Anna Karenina", Some("I"), "Chapter text here.", Some("Previously: characters introduced."));
    assert!(msg.contains("Book title: Anna Karenina"));
    assert!(msg.contains("Summary of prior chapters"));
    assert!(msg.contains("Previously: characters introduced."));
    assert!(msg.contains("Chapter: I"));
    assert!(msg.contains("Chapter text here."));
}

#[test]
fn user_message_skips_prior_summary_for_first_chapter() {
    let msg = user_message("Some Book", None, "First chapter text.", None);
    assert!(msg.contains("Book title: Some Book"));
    assert!(!msg.contains("Summary of prior chapters"));
    assert!(msg.contains("First chapter text."));
}

#[test]
fn user_message_skips_prior_summary_when_empty_string() {
    let msg = user_message("X", None, "text", Some(""));
    assert!(!msg.contains("Summary of prior chapters"));
}

#[test]
fn user_message_exact_layout() {
    assert_eq!(
        user_message("B", Some(""), "t", Some("p")),
        "Book title: B\n\nSummary of prior chapters (in order):\np\n\nChapter\n\nText:\nt"
    );
}

#[test]
fn system_prompt_targets_book_language() {
    let p = system_prompt(isolang::Language::Eng.to_name());
    assert!(p.contains("must be in English"));
}

#[test]
fn empty_summary_reply_is_an_error() {
    assert_eq!(checked_summary("Gemini", "A summary.".to_string()), Ok("A summary.".to_string()));
    assert_eq!(checked_summary("OpenAI", String::new()), Err("OpenAI summary returned empty content".to_string()));
}

#[test]
fn paragraph_prompt_names_both_languages_and_the_vocabulary() {
    let p = library::prompt::paragraph_prompt("Spanish", "English");
    assert!(p.starts_with(
        "You are given a paragraph in a foreign language. The goal is to construct a translation which can be used by somebody who speaks the English language to learn the original language.\n"
    ));
    assert!(p.contains("from Spanish into the English language."));
    assert!(p.contains("\n            - common_noun: regular common nouns (book, idea, страна, libro, kitap, წიგნი, 书)\n"));
    assert!(p.contains("CRITICAL RULE — tag by FUNCTION, not by MORPHOLOGY."));
    assert!(p.ends_with("6. partOfSpeech: Is every word's partOfSpeech one of the canonical English tags listed above?"));
    assert!(!p.contains("{to}") && !p.contains("{from}"));
}

#[test]
fn part_of_speech_tags_are_the_closed_vocabulary() {
    let tags = library::prompt::part_of_speech_tags();
    assert_eq!(tags.len(), 35);
    assert_eq!(tags[0], "common_noun");
    assert_eq!(tags[11], "verb_auxiliary");
    assert_eq!(tags[34], "other");
    let p = library::prompt::paragraph_prompt("A", "B");
    for t in &tags {
        assert!(p.contains(&format!("            - {t}: ")), "{t}");
    }
}
