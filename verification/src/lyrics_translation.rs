//! What a lyrics translation asks of the model and how its answer is checked.

use vstd::prelude::*;

use crate::lyrics::LyricsLine;
use crate::retry::RetryConfig;
use crate::text::{concat_str, decimal, decimal_string};
use crate::translator::utf8_len;

verus! {

/// How much larger than the lyrics a response may grow (translations plus
/// glosses).
pub const RESPONSE_LENGTH_FACTOR: usize = 6;

pub const LYRICS_PROMPT_1: &'static str = "You are translating song lyrics into ";
pub const LYRICS_PROMPT_2: &'static str = ", in the spirit of \u{ab}\u{41c}\u{435}\u{442}\u{43e}\u{434} \u{447}\u{442}\u{435}\u{43d}\u{438}\u{44f} \u{418}\u{43b}\u{44c}\u{438} \u{424}\u{440}\u{430}\u{43d}\u{43a}\u{430}\u{bb} (Ilya Frank's reading method). Detect the source language of the lyrics on your own from the text.\n\nFor EACH line of the input lyrics, produce one entry in the \"lines\" array, in order. Empty input lines (stanza breaks) get an empty translation and no glosses. The number of output entries MUST equal the number of input lines.\n\nPer line:\n- \"translation\": a natural, close translation into ";
pub const LYRICS_PROMPT_3: &'static str = ". Preserve imagery; do not over-poeticize, do not flatten metaphors.\n- \"glosses\": 0\u{2013}6 entries for words or phrases a learner of the song's language whose native language is ";
pub const LYRICS_PROMPT_4: &'static str = " is unlikely to know \u{2014} idioms, slang, poetic register, cultural references, less common vocabulary. Skip cognates and trivial words. Each gloss:\n- \"fragment\": exact substring of the original line.\n- \"gloss\": the translation/gloss in ";
pub const LYRICS_PROMPT_5: &'static str = ".\n- \"note\": short clause (register, idiom, cultural context). Empty string if not applicable.\n\nReturn ONLY the JSON object that matches the schema. No markdown.";

/// The lyrics system prompt for target language `to`.
pub open spec fn lyrics_system_prompt(to: Seq<char>) -> Seq<char> {
    LYRICS_PROMPT_1@ + to + LYRICS_PROMPT_2@ + to + LYRICS_PROMPT_3@ + to + LYRICS_PROMPT_4@ + to + LYRICS_PROMPT_5@
}

/// The lyrics system prompt for target language `to`.
pub fn system_prompt(to: &str) -> (r: String)
    ensures
        r@ == lyrics_system_prompt(to@),
{
    let mut out = concat_str(LYRICS_PROMPT_1, to);
    out.append(LYRICS_PROMPT_2);
    out.append(to);
    out.append(LYRICS_PROMPT_3);
    out.append(to);
    out.append(LYRICS_PROMPT_4);
    out.append(to);
    out.append(LYRICS_PROMPT_5);
    out
}

/// The numbered lines of the request: `[i] text` per line, each ending in
/// a newline.
pub open spec fn numbered_lines(texts: Seq<Seq<char>>) -> Seq<char>
    decreases texts.len(),
{
    if texts.len() == 0 {
        Seq::empty()
    } else {
        numbered_lines(texts.drop_last()) + "["@ + decimal((texts.len() - 1) as nat) + "] "@ + texts.last() + "\n"@
    }
}

/// The texts of a sequence of lines.
pub open spec fn line_texts(lines: Seq<LyricsLine>) -> Seq<Seq<char>> {
    lines.map_values(|l: LyricsLine| l.text@)
}

/// The user message of a lyrics translation: the numbered lines.
pub fn user_message(lines: &[LyricsLine]) -> (r: String)
    ensures
        r@ == numbered_lines(line_texts(lines@)),
{
    let ghost ts = line_texts(lines@);
    let mut out = String::new();
    let mut i: usize = 0;
    while i < lines.len()
        invariant
            i <= lines@.len(),
            ts == line_texts(lines@),
            out@ == numbered_lines(ts.take(i as int)),
        decreases lines@.len() - i,
    {
        out.append("[");
        let n = decimal_string(i);
        out.append(n.as_str());
        out.append("] ");
        out.append(lines[i].text.as_str());
        out.append("\n");
        proof {
            assert(ts.take(i + 1).drop_last() =~= ts.take(i as int));
            assert(ts.take(i + 1).last() == lines@[i as int].text@);
        }
        i = i + 1;
    }
    assert(ts.take(lines@.len() as int) =~= ts);
    out
}

/// Checks that the model answered one entry per input line.
pub fn validate_alignment(expected: usize, got: usize) -> (r: Result<(), String>)
    ensures
        expected == got ==> r is Ok,
        expected != got ==> (r matches Err(m) && m@ == "Lyrics translation alignment error: expected "@ + decimal(
            expected as nat,
        ) + " lines, got "@ + decimal(got as nat)),
{
    if expected != got {
        let mut m = String::from_str("Lyrics translation alignment error: expected ");
        let e = decimal_string(expected);
        m.append(e.as_str());
        m.append(" lines, got ");
        let g = decimal_string(got);
        m.append(g.as_str());
        return Err(m);
    }
    Ok(())
}

/// Total UTF-8 length of the texts.
pub open spec fn total_text_len(texts: Seq<Seq<char>>) -> nat
    decreases texts.len(),
{
    if texts.len() == 0 {
        0
    } else {
        total_text_len(texts.drop_last()) + utf8_len(texts.last())
    }
}

proof fn lemma_total_text_len_prefix(texts: Seq<Seq<char>>, i: int)
    requires
        0 <= i <= texts.len(),
    ensures
        total_text_len(texts.take(i)) <= total_text_len(texts),
    decreases texts.len() - i,
{
    if i < texts.len() {
        lemma_total_text_len_prefix(texts, i + 1);
        assert(texts.take(i + 1).drop_last() =~= texts.take(i));
    } else {
        assert(texts.take(i) =~= texts);
    }
}

/// The response budget, in characters, used for the total stream timeout:
/// six times the lyrics' byte length plus 256.
pub fn stream_budget_chars(lines: &[LyricsLine]) -> (r: usize)
    requires
        total_text_len(line_texts(lines@)) * 6 + 256 <= usize::MAX,
    ensures
        r == total_text_len(line_texts(lines@)) * 6 + 256,
{
    let ghost ts = line_texts(lines@);
    let mut raw: usize = 0;
    let mut i: usize = 0;
    while i < lines.len()
        invariant
            i <= lines@.len(),
            ts == line_texts(lines@),
            raw == total_text_len(ts.take(i as int)),
            total_text_len(ts) * 6 + 256 <= usize::MAX,
        decreases lines@.len() - i,
    {
        proof {
            assert(ts.take(i + 1).drop_last() =~= ts.take(i as int));
            assert(ts.take(i + 1).last() == lines@[i as int].text@);
            lemma_total_text_len_prefix(ts, i + 1);
        }
        raw = raw + lines[i].text.as_str().len();
        i = i + 1;
    }
    assert(ts.take(lines@.len() as int) =~= ts);
    raw * RESPONSE_LENGTH_FACTOR + 256
}

/// The retry policy of a lyrics translation: two attempts in all, backing
/// off from two seconds, capped at ten.
pub fn lyrics_retry_config() -> (r: RetryConfig)
    ensures
        r.max_attempts == 2,
        r.base_delay_ms == 2000,
        r.max_delay_ms == 10_000,
{
    RetryConfig { max_attempts: 2, base_delay_ms: 2000, max_delay_ms: 10_000 }
}

} // verus!
