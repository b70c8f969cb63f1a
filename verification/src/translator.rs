//! Translation-side bookkeeping: stream time budgets, chunk accumulation,
//! the persisted model enumeration and the provider set.

use vstd::prelude::*;

use crate::text::{concat_str, contains_seq, str_contains};

verus! {

/// Timeout for a single translation request, in seconds.
pub const TRANSLATION_REQUEST_TIMEOUT_SECS: u64 = 120;

/// Idle timeout between two chunks of a translation stream, in seconds.
pub const TRANSLATION_STREAM_IDLE_TIMEOUT_SECS: u64 = 180;

/// Fixed part of the total stream budget, in milliseconds.
pub const TRANSLATION_TOTAL_TIMEOUT_BASE_MS: u64 = 180_000;

/// Per-input-character part of the total stream budget, in milliseconds.
pub const TRANSLATION_TOTAL_TIMEOUT_PER_CHAR_MS: u64 = 100;

/// The total time budget of a translation stream for an input of
/// `input_len` bytes, in milliseconds: a fixed base plus a per-byte share.
/// The length is taken modulo 2^32, as a 32-bit multiplier.
pub fn total_stream_timeout(input_len: usize) -> (ms: u64)
    ensures
        ms == TRANSLATION_TOTAL_TIMEOUT_BASE_MS + TRANSLATION_TOTAL_TIMEOUT_PER_CHAR_MS * (input_len as u32),
{
    let n: u32 = input_len as u32;
    assert(TRANSLATION_TOTAL_TIMEOUT_PER_CHAR_MS * n <= 100 * 0xffff_ffffu64) by (nonlinear_arith)
        requires
            n <= 0xffff_ffffu32,
            TRANSLATION_TOTAL_TIMEOUT_PER_CHAR_MS == 100,
    ;
    TRANSLATION_TOTAL_TIMEOUT_BASE_MS + TRANSLATION_TOTAL_TIMEOUT_PER_CHAR_MS * (n as u64)
}

/// The UTF-8 length of a character sequence.
pub open spec fn utf8_len(s: Seq<char>) -> nat {
    vstd::utf8::encode_utf8(s).len()
}

/// Collects the text of a streamed completion. Chunk errors are tolerated
/// once (the stream is retried); a second error fails the stream.
#[derive(Debug)]
pub struct StreamChunkAccumulator {
    provider: &'static str,
    full_content: String,
    saw_chunk_error: bool,
}

impl StreamChunkAccumulator {
    /// The provider name used in error messages.
    pub closed spec fn provider_name(&self) -> Seq<char> {
        self.provider@
    }

    /// The text collected so far.
    pub closed spec fn content(&self) -> Seq<char> {
        self.full_content@
    }

    /// Whether a chunk error has already been tolerated.
    pub closed spec fn saw_error(&self) -> bool {
        self.saw_chunk_error
    }

    /// An empty accumulator for `provider`.
    pub fn new(provider: &'static str) -> (r: Self)
        ensures
            r.provider_name() == provider@,
            r.content() == Seq::<char>::empty(),
            !r.saw_error(),
    {
        StreamChunkAccumulator { provider, full_content: String::new(), saw_chunk_error: false }
    }

    /// Feeds one stream event: `Ok(Some(text))` a chunk, `Ok(None)` the end of
    /// the stream, `Err(message)` a chunk error. Returns whether to keep
    /// reading. Any chunk, even an empty one, counts as a heartbeat; a
    /// non-empty one appends its text and records the new total length (in
    /// bytes) in `progress`. The first error is tolerated; the second fails
    /// with `"<provider> stream failed after retry: <message>"`.
    pub fn handle_result(&mut self, result: Result<Option<String>, String>, progress: &mut Vec<usize>) -> (r: Result<bool, String>)
        ensures
            final(self).provider_name() == old(self).provider_name(),
            match result {
                Ok(Some(text)) => {
                    &&& r == Ok::<bool, String>(true)
                    &&& final(self).content() == old(self).content() + text@
                    &&& final(self).saw_error() == old(self).saw_error()
                    &&& if text@.len() > 0 {
                        final(progress)@ == old(progress)@.push(utf8_len(final(self).content()) as usize)
                    } else {
                        final(progress)@ == old(progress)@
                    }
                },
                Ok(None) => {
                    &&& r == Ok::<bool, String>(false)
                    &&& final(self).content() == old(self).content()
                    &&& final(self).saw_error() == old(self).saw_error()
                    &&& final(progress)@ == old(progress)@
                },
                Err(e) => {
                    &&& final(self).content() == old(self).content()
                    &&& final(self).saw_error()
                    &&& final(progress)@ == old(progress)@
                    &&& if old(self).saw_error() {
                        r matches Err(m) && m@ == old(self).provider_name() + " stream failed after retry: "@ + e@
                    } else {
                        r == Ok::<bool, String>(true)
                    }
                },
            },
    {
        match result {
            Ok(Some(text)) => {
                if text.as_str().unicode_len() > 0 {
                    self.full_content.append(text.as_str());
                    progress.push(self.full_content.as_str().len());
                } else {
                    proof {
                        assert(self.full_content@ + text@ =~= self.full_content@);
                    }
                }
                Ok(true)
            },
            Ok(None) => Ok(false),
            Err(err) => {
                if !self.saw_chunk_error {
                    self.saw_chunk_error = true;
                    Ok(true)
                } else {
                    let head = concat_str(self.provider, " stream failed after retry: ");
                    Err(concat_str(head.as_str(), err.as_str()))
                }
            },
        }
    }

    /// The collected text, or `"<provider> returned empty content"` when the
    /// stream produced none.
    pub fn finish(self) -> (r: Result<String, String>)
        ensures
            self.content().len() == 0 ==> (r matches Err(m) && m@ == self.provider_name() + " returned empty content"@),
            self.content().len() > 0 ==> (r matches Ok(s) && s@ == self.content()),
    {
        if self.full_content.as_str().unicode_len() == 0 {
            return Err(concat_str(self.provider, " returned empty content"));
        }
        Ok(self.full_content)
    }
}

/// Errors of translator construction.
#[derive(Debug)]
pub enum TranslationErrors {
    UnknownModel,
}

impl TranslationErrors {
    /// The human-readable message of the error.
    pub fn message(&self) -> (r: &'static str)
        ensures
            r@ == "Unknown model"@,
    {
        "Unknown model"
    }
}

/// A translation model. Each model is persisted as its number (see
/// [`model_number`]); numbers are never reordered or reused.
#[derive(Debug, Clone, Copy, PartialEq, Eq, Structural, Hash)]
pub enum TranslationModel {
    Unknown,
    Gemini25Flash,
    Gemini25Pro,
    Gemini25FlashLight,
    OpenAIGpt5Mini,
    OpenAIGpt52,
    OpenAIGpt52Pro,
    OpenAIGpt5Nano,
    Gemini3Pro,
    Gemini3Flash,
    OpenAIGpt54,
    OpenAIGpt54Mini,
    Gemini31Pro,
    Gemini31FlashLite,
    Gemini35Flash,
    DeepSeekV4Flash,
    DeepSeekV4Pro,
}

/// The persisted number of a model.
pub open spec fn model_number(m: TranslationModel) -> usize {
    match m {
        TranslationModel::Unknown => 0,
        TranslationModel::Gemini25Flash => 1,
        TranslationModel::Gemini25Pro => 2,
        TranslationModel::Gemini25FlashLight => 3,
        TranslationModel::OpenAIGpt5Mini => 4,
        TranslationModel::OpenAIGpt52 => 5,
        TranslationModel::OpenAIGpt52Pro => 6,
        TranslationModel::OpenAIGpt5Nano => 7,
        TranslationModel::Gemini3Pro => 8,
        TranslationModel::Gemini3Flash => 9,
        TranslationModel::OpenAIGpt54 => 10,
        TranslationModel::OpenAIGpt54Mini => 11,
        TranslationModel::Gemini31Pro => 12,
        TranslationModel::Gemini31FlashLite => 13,
        TranslationModel::Gemini35Flash => 14,
        TranslationModel::DeepSeekV4Flash => 15,
        TranslationModel::DeepSeekV4Pro => 16,
    }
}

/// The model persisted as `n`; numbers outside `1..=16` read as `Unknown`.
pub open spec fn model_from_number(n: usize) -> TranslationModel {
    if n == 1 {
        TranslationModel::Gemini25Flash
    } else if n == 2 {
        TranslationModel::Gemini25Pro
    } else if n == 3 {
        TranslationModel::Gemini25FlashLight
    } else if n == 4 {
        TranslationModel::OpenAIGpt5Mini
    } else if n == 5 {
        TranslationModel::OpenAIGpt52
    } else if n == 6 {
        TranslationModel::OpenAIGpt52Pro
    } else if n == 7 {
        TranslationModel::OpenAIGpt5Nano
    } else if n == 8 {
        TranslationModel::Gemini3Pro
    } else if n == 9 {
        TranslationModel::Gemini3Flash
    } else if n == 10 {
        TranslationModel::OpenAIGpt54
    } else if n == 11 {
        TranslationModel::OpenAIGpt54Mini
    } else if n == 12 {
        TranslationModel::Gemini31Pro
    } else if n == 13 {
        TranslationModel::Gemini31FlashLite
    } else if n == 14 {
        TranslationModel::Gemini35Flash
    } else if n == 15 {
        TranslationModel::DeepSeekV4Flash
    } else if n == 16 {
        TranslationModel::DeepSeekV4Pro
    } else {
        TranslationModel::Unknown
    }
}

/// The provider serving a model, `None` for `Unknown`.
pub open spec fn model_provider(m: TranslationModel) -> Option<TranslationProvider> {
    match m {
        TranslationModel::Gemini25Flash
        | TranslationModel::Gemini25Pro
        | TranslationModel::Gemini25FlashLight
        | TranslationModel::Gemini3Pro
        | TranslationModel::Gemini3Flash
        | TranslationModel::Gemini31Pro
        | TranslationModel::Gemini31FlashLite
        | TranslationModel::Gemini35Flash => Some(TranslationProvider::Google),
        TranslationModel::OpenAIGpt52
        | TranslationModel::OpenAIGpt52Pro
        | TranslationModel::OpenAIGpt5Mini
        | TranslationModel::OpenAIGpt5Nano
        | TranslationModel::OpenAIGpt54
        | TranslationModel::OpenAIGpt54Mini => Some(TranslationProvider::Openai),
        TranslationModel::DeepSeekV4Flash | TranslationModel::DeepSeekV4Pro => Some(TranslationProvider::Deepseek),
        TranslationModel::Unknown => None,
    }
}

impl TranslationModel {
    /// The provider serving this model, `None` for `Unknown`.
    pub fn provider(&self) -> (r: Option<TranslationProvider>)
        ensures
            r == model_provider(*self),
    {
        match self {
            TranslationModel::Gemini25Flash
            | TranslationModel::Gemini25Pro
            | TranslationModel::Gemini25FlashLight
            | TranslationModel::Gemini3Pro
            | TranslationModel::Gemini3Flash
            | TranslationModel::Gemini31Pro
            | TranslationModel::Gemini31FlashLite
            | TranslationModel::Gemini35Flash => Some(TranslationProvider::Google),
            TranslationModel::OpenAIGpt52
            | TranslationModel::OpenAIGpt52Pro
            | TranslationModel::OpenAIGpt5Mini
            | TranslationModel::OpenAIGpt5Nano
            | TranslationModel::OpenAIGpt54
            | TranslationModel::OpenAIGpt54Mini => Some(TranslationProvider::Openai),
            TranslationModel::DeepSeekV4Flash | TranslationModel::DeepSeekV4Pro => Some(TranslationProvider::Deepseek),
            TranslationModel::Unknown => None,
        }
    }

    /// The model persisted as `n` (`Unknown` outside `1..=16`).
    pub fn from_number(n: usize) -> (r: TranslationModel)
        ensures
            r == model_from_number(n),
    {
        match n {
            1 => TranslationModel::Gemini25Flash,
            2 => TranslationModel::Gemini25Pro,
            3 => TranslationModel::Gemini25FlashLight,
            4 => TranslationModel::OpenAIGpt5Mini,
            5 => TranslationModel::OpenAIGpt52,
            6 => TranslationModel::OpenAIGpt52Pro,
            7 => TranslationModel::OpenAIGpt5Nano,
            8 => TranslationModel::Gemini3Pro,
            9 => TranslationModel::Gemini3Flash,
            10 => TranslationModel::OpenAIGpt54,
            11 => TranslationModel::OpenAIGpt54Mini,
            12 => TranslationModel::Gemini31Pro,
            13 => TranslationModel::Gemini31FlashLite,
            14 => TranslationModel::Gemini35Flash,
            15 => TranslationModel::DeepSeekV4Flash,
            16 => TranslationModel::DeepSeekV4Pro,
            _ => TranslationModel::Unknown,
        }
    }

    /// The persisted number of this model.
    pub fn number(&self) -> (r: usize)
        ensures
            r == model_number(*self),
    {
        match self {
            TranslationModel::Unknown => 0,
            TranslationModel::Gemini25Flash => 1,
            TranslationModel::Gemini25Pro => 2,
            TranslationModel::Gemini25FlashLight => 3,
            TranslationModel::OpenAIGpt5Mini => 4,
            TranslationModel::OpenAIGpt52 => 5,
            TranslationModel::OpenAIGpt52Pro => 6,
            TranslationModel::OpenAIGpt5Nano => 7,
            TranslationModel::Gemini3Pro => 8,
            TranslationModel::Gemini3Flash => 9,
            TranslationModel::OpenAIGpt54 => 10,
            TranslationModel::OpenAIGpt54Mini => 11,
            TranslationModel::Gemini31Pro => 12,
            TranslationModel::Gemini31FlashLite => 13,
            TranslationModel::Gemini35Flash => 14,
            TranslationModel::DeepSeekV4Flash => 15,
            TranslationModel::DeepSeekV4Pro => 16,
        }
    }
}

impl From<usize> for TranslationModel {
    fn from(value: usize) -> (r: TranslationModel) {
        TranslationModel::from_number(value)
    }
}

impl vstd::std_specs::convert::FromSpecImpl<usize> for TranslationModel {
    open spec fn obeys_from_spec() -> bool {
        true
    }

    open spec fn from_spec(v: usize) -> TranslationModel {
        model_from_number(v)
    }
}

impl From<TranslationModel> for usize {
    fn from(model: TranslationModel) -> (r: usize) {
        model.number()
    }
}

impl vstd::std_specs::convert::FromSpecImpl<TranslationModel> for usize {
    open spec fn obeys_from_spec() -> bool {
        true
    }

    open spec fn from_spec(v: TranslationModel) -> usize {
        model_number(v)
    }
}

/// Every model survives a round trip through its persisted number, and a
/// number maps back to itself exactly when it names a model.
pub proof fn law_model_number_round_trip(m: TranslationModel, n: usize)
    ensures
        model_from_number(model_number(m)) == m,
        1 <= n <= 16 ==> model_number(model_from_number(n)) == n,
        !(1 <= n <= 16) ==> model_from_number(n) == TranslationModel::Unknown,
{
}

/// A translation service provider.
#[derive(Debug, Clone, Copy, PartialEq, Eq, Structural, Hash)]
pub enum TranslationProvider {
    Google,
    Openai,
    Deepseek,
    Zai,
    Openrouter,
}

impl Default for TranslationProvider {
    fn default() -> (r: TranslationProvider)
        ensures
            r == TranslationProvider::Google,
    {
        TranslationProvider::Google
    }
}

/// The user-facing name of a provider.
pub open spec fn provider_display_name(p: TranslationProvider) -> Seq<char> {
    match p {
        TranslationProvider::Google => "Google"@,
        TranslationProvider::Openai => "OpenAI"@,
        TranslationProvider::Deepseek => "DeepSeek"@,
        TranslationProvider::Zai => "z.AI"@,
        TranslationProvider::Openrouter => "OpenRouter"@,
    }
}

impl TranslationProvider {
    /// The user-facing name of the provider.
    pub fn display_name(&self) -> (r: &'static str)
        ensures
            r@ == provider_display_name(*self),
    {
        match self {
            TranslationProvider::Google => "Google",
            TranslationProvider::Openai => "OpenAI",
            TranslationProvider::Deepseek => "DeepSeek",
            TranslationProvider::Zai => "z.AI",
            TranslationProvider::Openrouter => "OpenRouter",
        }
    }
}

/// The always-ready, always-empty chapter context: every paragraph is
/// translated without surrounding summaries or chapter text.
pub struct NoChapterContext;

/// Base URL of the DeepSeek OpenAI-compatible API.
pub const DEEPSEEK_BASE_URL: &'static str = "https://api.deepseek.com";

/// Base URL of the z.AI OpenAI-compatible API.
pub const ZAI_BASE_URL: &'static str = "https://api.z.ai/api/paas/v4";

/// Base URL of the OpenRouter OpenAI-compatible API.
pub const OPENROUTER_BASE_URL: &'static str = "https://openrouter.ai/api/v1";

/// The API name of a model served over the OpenAI-compatible API.
pub open spec fn openai_model_api_name(m: TranslationModel) -> Option<Seq<char>> {
    match m {
        TranslationModel::OpenAIGpt52 => Some("gpt-5.2"@),
        TranslationModel::OpenAIGpt52Pro => Some("gpt-5.2-pro"@),
        TranslationModel::OpenAIGpt5Mini => Some("gpt-5-mini"@),
        TranslationModel::OpenAIGpt5Nano => Some("gpt-5-nano"@),
        TranslationModel::OpenAIGpt54 => Some("gpt-5.4"@),
        TranslationModel::OpenAIGpt54Mini => Some("gpt-5.4-mini"@),
        TranslationModel::DeepSeekV4Flash => Some("deepseek-v4-flash"@),
        TranslationModel::DeepSeekV4Pro => Some("deepseek-v4-pro"@),
        _ => None,
    }
}

/// The API name of a model on the OpenAI-compatible API; `UnknownModel`
/// for models that API does not serve.
pub fn openai_model_name(m: TranslationModel) -> (r: Result<&'static str, TranslationErrors>)
    ensures
        match openai_model_api_name(m) {
            Some(name) => r matches Ok(s) && s@ == name,
            None => r matches Err(TranslationErrors::UnknownModel),
        },
{
    match m {
        TranslationModel::OpenAIGpt52 => Ok("gpt-5.2"),
        TranslationModel::OpenAIGpt52Pro => Ok("gpt-5.2-pro"),
        TranslationModel::OpenAIGpt5Mini => Ok("gpt-5-mini"),
        TranslationModel::OpenAIGpt5Nano => Ok("gpt-5-nano"),
        TranslationModel::OpenAIGpt54 => Ok("gpt-5.4"),
        TranslationModel::OpenAIGpt54Mini => Ok("gpt-5.4-mini"),
        TranslationModel::DeepSeekV4Flash => Ok("deepseek-v4-flash"),
        TranslationModel::DeepSeekV4Pro => Ok("deepseek-v4-pro"),
        _ => Err(TranslationErrors::UnknownModel),
    }
}

/// The base-URL override for an OpenAI-compatible provider; `None` keeps
/// the client's default (api.openai.com).
pub fn openai_compat_base_url(provider: TranslationProvider) -> (r: Option<&'static str>)
    ensures
        provider == TranslationProvider::Deepseek ==> (r matches Some(u) && u@ == DEEPSEEK_BASE_URL@),
        provider != TranslationProvider::Deepseek ==> r is None,
{
    match provider {
        TranslationProvider::Deepseek => Some(DEEPSEEK_BASE_URL),
        _ => None,
    }
}

/// Whether a failed translation attempt may succeed when retried: the
/// request, idle and total timeouts the translators emit ("timed out",
/// "timeout"). Anything else, such as an alignment error, is permanent.
pub open spec fn is_transient_translation_message(msg: Seq<char>) -> bool {
    contains_seq(msg, "timed out"@) || contains_seq(msg, "timeout"@)
}

/// Classifies a failed translation attempt by its message.
pub fn is_transient_translation_error(message: &str) -> (r: bool)
    ensures
        r == is_transient_translation_message(message@),
{
    str_contains(message, "timed out") || str_contains(message, "timeout")
}

/// The Gemini model a translation model runs on: one of the client's named
/// models, or a custom model name.
#[derive(Debug, Clone, Copy)]
pub enum GeminiModel {
    Gemini25Flash,
    Gemini25Pro,
    Gemini25FlashLite,
    Gemini3Pro,
    Gemini3Flash,
    Custom(&'static str),
}

/// The Gemini model of a translation model, `None` for models Gemini does
/// not serve.
pub open spec fn gemini_model_of(m: TranslationModel) -> Option<Result<GeminiModel, Seq<char>>> {
    match m {
        TranslationModel::Gemini25Flash => Some(Ok(GeminiModel::Gemini25Flash)),
        TranslationModel::Gemini25Pro => Some(Ok(GeminiModel::Gemini25Pro)),
        TranslationModel::Gemini25FlashLight => Some(Ok(GeminiModel::Gemini25FlashLite)),
        TranslationModel::Gemini3Pro => Some(Ok(GeminiModel::Gemini3Pro)),
        TranslationModel::Gemini3Flash => Some(Ok(GeminiModel::Gemini3Flash)),
        TranslationModel::Gemini31Pro => Some(Err("models/gemini-3.1-pro-preview"@)),
        TranslationModel::Gemini31FlashLite => Some(Err("models/gemini-3.1-flash-lite-preview"@)),
        TranslationModel::Gemini35Flash => Some(Err("models/gemini-3.5-flash"@)),
        _ => None,
    }
}

/// The Gemini model of a translation model; `UnknownModel` for models Gemini
/// does not serve.
pub fn gemini_model(m: TranslationModel) -> (r: Result<GeminiModel, TranslationErrors>)
    ensures
        match gemini_model_of(m) {
            Some(Ok(g)) => r matches Ok(x) && x == g,
            Some(Err(name)) => r matches Ok(GeminiModel::Custom(n)) && n@ == name,
            None => r matches Err(TranslationErrors::UnknownModel),
        },
{
    match m {
        TranslationModel::Gemini25Flash => Ok(GeminiModel::Gemini25Flash),
        TranslationModel::Gemini25Pro => Ok(GeminiModel::Gemini25Pro),
        TranslationModel::Gemini25FlashLight => Ok(GeminiModel::Gemini25FlashLite),
        TranslationModel::Gemini3Pro => Ok(GeminiModel::Gemini3Pro),
        TranslationModel::Gemini3Flash => Ok(GeminiModel::Gemini3Flash),
        TranslationModel::Gemini31Pro => Ok(GeminiModel::Custom("models/gemini-3.1-pro-preview")),
        TranslationModel::Gemini31FlashLite => Ok(GeminiModel::Custom("models/gemini-3.1-flash-lite-preview")),
        TranslationModel::Gemini35Flash => Ok(GeminiModel::Custom("models/gemini-3.5-flash")),
        _ => Err(TranslationErrors::UnknownModel),
    }
}

/// The thinking budget requested from a Gemini model: none at all for 2.5
/// Flash, the model's default otherwise.
pub fn thinking_budget(model: GeminiModel) -> (r: Option<i32>)
    ensures
        model is Gemini25Flash ==> r == Some(0i32),
        !(model is Gemini25Flash) ==> r is None,
{
    match model {
        GeminiModel::Gemini25Flash => Some(0),
        _ => None,
    }
}

/// The user message that asks for one paragraph.
pub fn paragraph_request(paragraph: &str) -> (r: String)
    ensures
        r@ == "Translate this paragraph: "@ + paragraph@,
{
    concat_str("Translate this paragraph: ", paragraph)
}

/// The instruction appended to a system prompt when the answer must be a
/// bare JSON object.
pub const JSON_ONLY_INSTRUCTION: &'static str = "\n\nReturn ONLY a single JSON object that matches the requested schema. Do not wrap it in markdown.";

/// The system prompt of an OpenAI-compatible request: the translation
/// prompt, the JSON-only instruction, and the schema inlined when the
/// provider does not enforce it (DeepSeek's JSON mode).
pub fn json_system_prompt(prompt: &str, schema_text: Option<&str>) -> (r: String)
    ensures
        r@ == prompt@ + JSON_ONLY_INSTRUCTION@ + match schema_text {
            Some(t) => "\n\nJSON schema for the response:\n"@ + t@,
            None => Seq::empty(),
        },
{
    let mut out = concat_str(prompt, JSON_ONLY_INSTRUCTION);
    let ghost head = out@;
    match schema_text {
        Some(t) => {
            out.append("\n\nJSON schema for the response:\n");
            out.append(t);
        },
        None => {
            assert(out@ =~= head + Seq::<char>::empty());
        },
    }
    out
}

} // verus!
