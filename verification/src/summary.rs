//! Prompts of the per-chapter source-language summaries that give the
//! translator cross-chapter context.

use vstd::prelude::*;

use crate::text::concat_str;

verus! {

/// Ceiling of one summary request, in seconds.
pub const SUMMARY_REQUEST_TIMEOUT_SECS: u64 = 180;

/// The system prompt before the book's language name.
pub const SUMMARY_PROMPT_HEAD: &'static str = "You are summarizing a chapter of a book for the purpose of providing context to a future translator working into a foreign language. The translator's goal: make consistent choices about characters, register, and recurring vocabulary across the whole book.\n\nBias your summary HEAVILY toward facts the translator needs and AWAY from plot retelling:\n- Characters introduced or developed: name, apparent gender, social position, distinguishing attributes (age, profession, dialect, relationship to other characters). Note anything that would affect gendered/honorific translation choices in inflected target languages.\n- Narrator point of view and tense (first-person past, third-person omniscient, etc.).\n- Register and tone: formal, informal, archaic, poetic, conversational, technical. Dialect or sociolect.\n- Recurring proper nouns, place names, or invented terms specific to this book's setting.\n- Conventions a translator should follow (honorifics, dialect markers, code-switching) when carried over from prior chapters.\n\nDo NOT retell the plot beat by beat. Skip generic action sequences. 150-250 words is a good target \u{2014} shorter is fine if the chapter introduces little new context.\n\nThe output must be in ";

/// The system prompt after the book's language name.
pub const SUMMARY_PROMPT_TAIL: &'static str = " (the book's language). Plain prose, no markdown, no headings.";

/// The summary system prompt for a book written in `language_name`.
pub fn system_prompt(language_name: &str) -> (r: String)
    ensures
        r@ == SUMMARY_PROMPT_HEAD@ + language_name@ + SUMMARY_PROMPT_TAIL@,
{
    let mut out = concat_str(SUMMARY_PROMPT_HEAD, language_name);
    out.append(SUMMARY_PROMPT_TAIL);
    out
}

/// The optional view of an optional string slice.
pub open spec fn opt_str_view(o: Option<&str>) -> Option<Seq<char>> {
    match o {
        Some(s) => Some(s@),
        None => None,
    }
}

/// The summary request for one chapter: the book title, the prior chapters'
/// summary when there is a non-empty one, the chapter heading (with its
/// title when there is a non-empty one), then the chapter text.
pub open spec fn summary_user_message(
    book_title: Seq<char>,
    chapter_title: Option<Seq<char>>,
    chapter_text: Seq<char>,
    prior_summary: Option<Seq<char>>,
) -> Seq<char> {
    let head = "Book title: "@ + book_title + "\n\n"@;
    let prior = match prior_summary {
        Some(p) => if p.len() > 0 { "Summary of prior chapters (in order):\n"@ + p + "\n\n"@ } else { Seq::empty() },
        None => Seq::empty(),
    };
    let title = match chapter_title {
        Some(t) => if t.len() > 0 { ": "@ + t } else { Seq::empty() },
        None => Seq::empty(),
    };
    head + prior + "Chapter"@ + title + "\n\nText:\n"@ + chapter_text
}

/// The summary request for one chapter.
pub fn user_message(book_title: &str, chapter_title: Option<&str>, chapter_text: &str, prior_summary: Option<&str>) -> (r: String)
    ensures
        r@ == summary_user_message(book_title@, opt_str_view(chapter_title), chapter_text@, opt_str_view(prior_summary)),
{
    let mut out = String::from_str("Book title: ");
    out.append(book_title);
    out.append("\n\n");
    let ghost head = out@;
    match prior_summary {
        Some(prior) => {
            if prior.unicode_len() > 0 {
                out.append("Summary of prior chapters (in order):\n");
                out.append(prior);
                out.append("\n\n");
            }
        },
        None => {},
    }
    let ghost after_prior = out@;
    out.append("Chapter");
    match chapter_title {
        Some(title) => {
            if title.unicode_len() > 0 {
                out.append(": ");
                out.append(title);
            }
        },
        None => {},
    }
    out.append("\n\nText:\n");
    out.append(chapter_text);
    proof {
        let spec_prior: Seq<char> = match opt_str_view(prior_summary) {
            Some(p) => if p.len() > 0 { "Summary of prior chapters (in order):\n"@ + p + "\n\n"@ } else { Seq::empty() },
            None => Seq::empty(),
        };
        assert(after_prior =~= head + spec_prior);
        assert(out@ =~= summary_user_message(book_title@, opt_str_view(chapter_title), chapter_text@, opt_str_view(prior_summary)));
    }
    out
}

/// The text of a summary reply: the reply when it is non-empty, else the
/// error `"<service> summary returned empty content"`.
pub fn checked_summary(service: &str, text: String) -> (r: Result<String, String>)
    ensures
        text@.len() > 0 ==> (r matches Ok(t) && t@ == text@),
        text@.len() == 0 ==> (r matches Err(e) && e@ == service@ + " summary returned empty content"@),
{
    if text.as_str().unicode_len() > 0 {
        Ok(text)
    } else {
        Err(concat_str(service, " summary returned empty content"))
    }
}

} // verus!
