//! Model-catalog rules: list endpoints and their URLs, per-provider fallback
//! models, the legacy numeric model table and the effective model id.

use vstd::prelude::*;
use vstd::string::StringSliceAdditionalSpecFns;

use crate::text::{
    concat_str, contains_seq, is_blank, is_prefix, lemma_seq_lt_irreflexive, lemma_seq_lt_transitive, push_char, seq_lt, str_contains, str_eq, str_is_blank, str_less,
    str_starts_with,
};
use crate::translator::{
    TranslationProvider, DEEPSEEK_BASE_URL, OPENROUTER_BASE_URL, ZAI_BASE_URL,
};

verus! {

/// How long a cached model list stays fresh, in seconds.
pub const LIST_TTL_SECS: u64 = 86_400;

/// Timeout of one list request, in seconds.
pub const LIST_TIMEOUT_SECS: u64 = 10;

/// Most pages fetched for one list.
pub const LIST_MAX_PAGES: usize = 50;

/// Default list origin of the Gemini API.
pub const DEFAULT_GEMINI_LIST_BASE: &'static str = "https://generativelanguage.googleapis.com/v1beta/";

/// Default list origin of the OpenAI API.
pub const DEFAULT_OPENAI_LIST_BASE: &'static str = "https://api.openai.com/v1";

pub const FALLBACK_GOOGLE: &'static str = "models/gemini-3.7-flash";
pub const FALLBACK_OPENAI: &'static str = "gpt-5-mini";
pub const FALLBACK_DEEPSEEK: &'static str = "deepseek-v4-flash";
pub const FALLBACK_ZAI: &'static str = "glm-5.2";
pub const FALLBACK_OPENROUTER: &'static str = "~deepseek/deepseek-v4-flash-latest";

/// OpenRouter alias ids carry a leading `~`; this unprefixed form was never
/// valid and is migrated to [`FALLBACK_OPENROUTER`].
pub const DEPRECATED_OPENROUTER_FLASH_LATEST: &'static str = "deepseek/deepseek-v4-flash-latest";

/// `s` without its trailing `/` characters.
pub open spec fn trim_trailing_slashes(s: Seq<char>) -> Seq<char>
    decreases s.len(),
{
    if s.len() > 0 && s.last() == '/' {
        trim_trailing_slashes(s.drop_last())
    } else {
        s
    }
}

/// The `models` endpoint under `base` (trailing slashes of `base` dropped).
pub fn join_models_url(base: &str) -> (r: String)
    ensures
        r@ == trim_trailing_slashes(base@) + "/models"@,
{
    let mut n = base.unicode_len();
    assert(base@.take(n as int) =~= base@);
    while n > 0 && base.get_char(n - 1) == '/'
        invariant
            n <= base@.len(),
            trim_trailing_slashes(base@) == trim_trailing_slashes(base@.take(n as int)),
        decreases n,
    {
        assert(base@.take(n as int).drop_last() =~= base@.take(n - 1));
        n = n - 1;
    }
    let mut out = String::new();
    let mut i: usize = 0;
    while i < n
        invariant
            n <= base@.len(),
            i <= n,
            out@ == base@.take(i as int),
        decreases n - i,
    {
        push_char(&mut out, base.get_char(i));
        i = i + 1;
        assert(out@ =~= base@.take(i as int));
    }
    out.append("/models");
    out
}

/// `value` when it is present and non-empty, else `default`.
pub open spec fn nonempty_or_spec(value: Option<Seq<char>>, default: Seq<char>) -> Seq<char> {
    match value {
        Some(v) => if v.len() > 0 { v } else { default },
        None => default,
    }
}

/// The view of an optional string.
pub open spec fn opt_view(o: Option<String>) -> Option<Seq<char>> {
    match o {
        Some(s) => Some(s@),
        None => None,
    }
}

/// `value` when it is present and non-empty, else a copy of `default`.
pub fn nonempty_or(value: Option<String>, default: &str) -> (r: String)
    ensures
        r@ == nonempty_or_spec(opt_view(value), default@),
{
    match value {
        Some(v) => {
            if v.as_str().unicode_len() > 0 {
                v
            } else {
                String::from_str(default)
            }
        },
        None => String::from_str(default),
    }
}

/// The list origin used for `provider`.
pub open spec fn list_base_url_spec(
    provider: TranslationProvider,
    gemini: Option<Seq<char>>,
    openai: Option<Seq<char>>,
    deepseek: Option<Seq<char>>,
    zai: Option<Seq<char>>,
    openrouter: Option<Seq<char>>,
) -> Seq<char> {
    match provider {
        TranslationProvider::Google => nonempty_or_spec(gemini, DEFAULT_GEMINI_LIST_BASE@),
        TranslationProvider::Openai => nonempty_or_spec(openai, DEFAULT_OPENAI_LIST_BASE@),
        TranslationProvider::Deepseek => nonempty_or_spec(deepseek, DEEPSEEK_BASE_URL@),
        TranslationProvider::Zai => nonempty_or_spec(zai, ZAI_BASE_URL@),
        TranslationProvider::Openrouter => nonempty_or_spec(openrouter, OPENROUTER_BASE_URL@),
    }
}

/// List origin for a provider: its configured override (an empty value counts
/// as unset), else the provider's default.
pub fn list_base_url(
    provider: TranslationProvider,
    gemini_env: Option<String>,
    openai_env: Option<String>,
    deepseek_env: Option<String>,
    zai_env: Option<String>,
    openrouter_env: Option<String>,
) -> (r: String)
    ensures
        r@ == list_base_url_spec(
            provider,
            opt_view(gemini_env),
            opt_view(openai_env),
            opt_view(deepseek_env),
            opt_view(zai_env),
            opt_view(openrouter_env),
        ),
{
    match provider {
        TranslationProvider::Google => nonempty_or(gemini_env, DEFAULT_GEMINI_LIST_BASE),
        TranslationProvider::Openai => nonempty_or(openai_env, DEFAULT_OPENAI_LIST_BASE),
        TranslationProvider::Deepseek => nonempty_or(deepseek_env, DEEPSEEK_BASE_URL),
        TranslationProvider::Zai => nonempty_or(zai_env, ZAI_BASE_URL),
        TranslationProvider::Openrouter => nonempty_or(openrouter_env, OPENROUTER_BASE_URL),
    }
}

/// The file stem of a provider's cached list (the lowercase provider name).
pub open spec fn provider_file_stem_spec(provider: TranslationProvider) -> Seq<char> {
    match provider {
        TranslationProvider::Google => "google"@,
        TranslationProvider::Openai => "openai"@,
        TranslationProvider::Deepseek => "deepseek"@,
        TranslationProvider::Zai => "zai"@,
        TranslationProvider::Openrouter => "openrouter"@,
    }
}

/// The file stem of a provider's cached list.
pub fn provider_file_stem(provider: TranslationProvider) -> (r: &'static str)
    ensures
        r@ == provider_file_stem_spec(provider),
{
    match provider {
        TranslationProvider::Google => "google",
        TranslationProvider::Openai => "openai",
        TranslationProvider::Deepseek => "deepseek",
        TranslationProvider::Zai => "zai",
        TranslationProvider::Openrouter => "openrouter",
    }
}

/// Bytes left as they are by query-component encoding (RFC 3986 unreserved).
pub open spec fn is_unreserved(b: u8) -> bool {
    (65 <= b <= 90) || (97 <= b <= 122) || (48 <= b <= 57) || b == 45 || b == 95 || b == 46 || b == 126
}

/// The upper-case hexadecimal digit of `n < 16`.
pub open spec fn hex_digit(n: u8) -> char {
    seq!['0', '1', '2', '3', '4', '5', '6', '7', '8', '9', 'A', 'B', 'C', 'D', 'E', 'F'][n as int]
}

/// How one byte is written in a query component.
pub open spec fn encode_byte(b: u8) -> Seq<char> {
    if is_unreserved(b) {
        seq![b as char]
    } else {
        seq!['%', hex_digit(b / 16), hex_digit(b % 16)]
    }
}

/// Percent-encoding of a byte string, one byte at a time.
pub open spec fn percent_encoded(bytes: Seq<u8>) -> Seq<char>
    decreases bytes.len(),
{
    if bytes.len() == 0 {
        Seq::empty()
    } else {
        percent_encoded(bytes.drop_last()) + encode_byte(bytes.last())
    }
}

fn hex_char(n: u8) -> (c: char)
    requires
        n < 16,
    ensures
        c == hex_digit(n),
{
    match n {
        0 => '0',
        1 => '1',
        2 => '2',
        3 => '3',
        4 => '4',
        5 => '5',
        6 => '6',
        7 => '7',
        8 => '8',
        9 => '9',
        10 => 'A',
        11 => 'B',
        12 => 'C',
        13 => 'D',
        14 => 'E',
        _ => 'F',
    }
}

/// Percent-encodes the UTF-8 bytes of `s` for use as a URL query value:
/// unreserved bytes stay, every other byte becomes `%XX` (upper-case hex).
pub fn encode_query_component(s: &str) -> (r: String)
    ensures
        r@ == percent_encoded(s.spec_bytes()),
{
    let bytes = s.as_bytes();
    let mut out = String::new();
    let mut i: usize = 0;
    while i < bytes.len()
        invariant
            bytes@ == s.spec_bytes(),
            i <= bytes@.len(),
            out@ == percent_encoded(bytes@.take(i as int)),
        decreases bytes@.len() - i,
    {
        let b = bytes[i];
        let ghost before = out@;
        if (b >= 65 && b <= 90) || (b >= 97 && b <= 122) || (b >= 48 && b <= 57) || b == 45 || b == 95 || b == 46 || b == 126 {
            push_char(&mut out, b as char);
        } else {
            push_char(&mut out, '%');
            push_char(&mut out, hex_char(b / 16));
            push_char(&mut out, hex_char(b % 16));
        }
        proof {
            assert(bytes@.take(i + 1).drop_last() =~= bytes@.take(i as int));
            assert(bytes@.take(i + 1).last() == b);
            assert(out@ =~= before + encode_byte(b));
        }
        i = i + 1;
    }
    assert(bytes@.take(bytes@.len() as int) =~= bytes@);
    out
}

/// The Gemini list URL for one page: the key, then the page token if any,
/// both percent-encoded.
pub open spec fn gemini_list_url_spec(base: Seq<char>, key_bytes: Seq<u8>, token_bytes: Option<Seq<u8>>) -> Seq<char> {
    let head = trim_trailing_slashes(base) + "/models"@ + "?key="@ + percent_encoded(key_bytes);
    match token_bytes {
        Some(t) => head + "&pageToken="@ + percent_encoded(t),
        None => head,
    }
}

/// The UTF-8 bytes of an optional string.
pub open spec fn opt_bytes(o: Option<&str>) -> Option<Seq<u8>> {
    match o {
        Some(s) => Some(s.spec_bytes()),
        None => None,
    }
}

/// The Gemini list URL for one page.
pub fn gemini_list_url(base: &str, api_key: &str, page_token: Option<&str>) -> (r: String)
    ensures
        r@ == gemini_list_url_spec(base@, api_key.spec_bytes(), opt_bytes(page_token)),
{
    let mut url = join_models_url(base);
    url.append("?key=");
    let key = encode_query_component(api_key);
    url.append(key.as_str());
    match page_token {
        Some(token) => {
            url.append("&pageToken=");
            let t = encode_query_component(token);
            url.append(t.as_str());
        },
        None => {},
    }
    url
}

/// The OpenAI-compatible list URL for the page after model `after`.
pub open spec fn openai_list_url_spec(base: Seq<char>, after_bytes: Option<Seq<u8>>) -> Seq<char> {
    match after_bytes {
        Some(a) => trim_trailing_slashes(base) + "/models"@ + "?after="@ + percent_encoded(a),
        None => trim_trailing_slashes(base) + "/models"@,
    }
}

/// The OpenAI-compatible list URL, continuing after model `after` if given.
pub fn openai_list_url(base: &str, after: Option<&str>) -> (r: String)
    ensures
        r@ == openai_list_url_spec(base@, opt_bytes(after)),
{
    let mut url = join_models_url(base);
    match after {
        Some(id) => {
            url.append("?after=");
            let a = encode_query_component(id);
            url.append(a.as_str());
        },
        None => {},
    }
    url
}

/// One entry of a provider's model list.
#[derive(Debug, Clone, PartialEq, Eq)]
pub struct ListedModel {
    pub id: String,
    pub name: String,
    pub provider: TranslationProvider,
}

pub struct ListedModelView {
    pub id: Seq<char>,
    pub name: Seq<char>,
    pub provider: TranslationProvider,
}

impl View for ListedModel {
    type V = ListedModelView;

    open spec fn view(&self) -> ListedModelView {
        ListedModelView { id: self.id@, name: self.name@, provider: self.provider }
    }
}

/// The model id a provider falls back to.
pub open spec fn fallback_id(provider: TranslationProvider) -> Seq<char> {
    match provider {
        TranslationProvider::Google => FALLBACK_GOOGLE@,
        TranslationProvider::Openai => FALLBACK_OPENAI@,
        TranslationProvider::Deepseek => FALLBACK_DEEPSEEK@,
        TranslationProvider::Zai => FALLBACK_ZAI@,
        TranslationProvider::Openrouter => FALLBACK_OPENROUTER@,
    }
}

/// The fallback entry of a provider: its fallback id, named by that id.
pub open spec fn fallback_model(provider: TranslationProvider) -> ListedModelView {
    ListedModelView { id: fallback_id(provider), name: fallback_id(provider), provider }
}

fn fallback_id_str(provider: TranslationProvider) -> (r: &'static str)
    ensures
        r@ == fallback_id(provider),
{
    match provider {
        TranslationProvider::Google => FALLBACK_GOOGLE,
        TranslationProvider::Openai => FALLBACK_OPENAI,
        TranslationProvider::Deepseek => FALLBACK_DEEPSEEK,
        TranslationProvider::Zai => FALLBACK_ZAI,
        TranslationProvider::Openrouter => FALLBACK_OPENROUTER,
    }
}

/// The model offered for `provider` when no list can be had.
pub fn fallback_for(provider: TranslationProvider) -> (r: ListedModel)
    ensures
        r@ == fallback_model(provider),
{
    let id = fallback_id_str(provider);
    ListedModel { id: String::from_str(id), name: String::from_str(id), provider }
}

/// The fallback model of every provider, in provider order.
pub fn all_fallbacks() -> (r: Vec<ListedModel>)
    ensures
        r@.map_values(|m: ListedModel| m@) == seq![
            fallback_model(TranslationProvider::Google),
            fallback_model(TranslationProvider::Openai),
            fallback_model(TranslationProvider::Deepseek),
            fallback_model(TranslationProvider::Zai),
            fallback_model(TranslationProvider::Openrouter),
        ],
{
    let r = vec![
        fallback_for(TranslationProvider::Google),
        fallback_for(TranslationProvider::Openai),
        fallback_for(TranslationProvider::Deepseek),
        fallback_for(TranslationProvider::Zai),
        fallback_for(TranslationProvider::Openrouter),
    ];
    assert(r@.map_values(|m: ListedModel| m@) =~= seq![
        fallback_model(TranslationProvider::Google),
        fallback_model(TranslationProvider::Openai),
        fallback_model(TranslationProvider::Deepseek),
        fallback_model(TranslationProvider::Zai),
        fallback_model(TranslationProvider::Openrouter),
    ]);
    r
}

/// Number of entries of the legacy numeric model table.
pub const LEGACY_TABLE_LEN: u64 = 20;

/// The API id stored under legacy number `i` (empty for 0 and out of range).
pub open spec fn legacy_api_id(i: int) -> Seq<char> {
    if i == 1 {
        "models/gemini-2.5-flash"@
    } else if i == 2 {
        "models/gemini-2.5-pro"@
    } else if i == 3 {
        "models/gemini-2.5-flash-lite"@
    } else if i == 4 {
        "gpt-5-mini"@
    } else if i == 5 {
        "gpt-5.2"@
    } else if i == 6 {
        "gpt-5.2-pro"@
    } else if i == 7 {
        "gpt-5-nano"@
    } else if i == 8 {
        "models/gemini-3-pro-preview"@
    } else if i == 9 {
        "models/gemini-3-flash-preview"@
    } else if i == 10 {
        "gpt-5.4"@
    } else if i == 11 {
        "gpt-5.4-mini"@
    } else if i == 12 {
        "models/gemini-3.1-pro-preview"@
    } else if i == 13 {
        "models/gemini-3.1-flash-lite-preview"@
    } else if i == 14 {
        "models/gemini-3.5-flash"@
    } else if i == 15 {
        "deepseek-v4-flash"@
    } else if i == 16 {
        "deepseek-v4-pro"@
    } else if i == 17 {
        "glm-5.2"@
    } else if i == 18 {
        "models/gemini-3.6-flash"@
    } else if i == 19 {
        "models/gemini-3.7-flash"@
    } else {
        ""@
    }
}

fn legacy_api_id_str(i: u64) -> (r: &'static str)
    ensures
        r@ == legacy_api_id(i as int),
{
    match i {
        1 => "models/gemini-2.5-flash",
        2 => "models/gemini-2.5-pro",
        3 => "models/gemini-2.5-flash-lite",
        4 => "gpt-5-mini",
        5 => "gpt-5.2",
        6 => "gpt-5.2-pro",
        7 => "gpt-5-nano",
        8 => "models/gemini-3-pro-preview",
        9 => "models/gemini-3-flash-preview",
        10 => "gpt-5.4",
        11 => "gpt-5.4-mini",
        12 => "models/gemini-3.1-pro-preview",
        13 => "models/gemini-3.1-flash-lite-preview",
        14 => "models/gemini-3.5-flash",
        15 => "deepseek-v4-flash",
        16 => "deepseek-v4-pro",
        17 => "glm-5.2",
        18 => "models/gemini-3.6-flash",
        19 => "models/gemini-3.7-flash",
        _ => "",
    }
}

/// The API id a legacy numeric model id stands for; empty for 0 and for
/// numbers outside the table.
pub fn api_id_from_legacy(id: u64) -> (r: String)
    ensures
        r@ == legacy_api_id(id as int),
{
    String::from_str(legacy_api_id_str(id))
}

/// The legacy number of an API id: its index in the table, 0 when it is
/// empty or not in the table.
pub fn legacy_id_from_api(id: &str) -> (r: u64)
    ensures
        r < LEGACY_TABLE_LEN,
        r != 0 ==> id@.len() > 0 && legacy_api_id(r as int) == id@
            && forall|j: int| 1 <= j < r ==> legacy_api_id(j) != id@,
        r == 0 ==> id@.len() == 0 || forall|j: int| 1 <= j < LEGACY_TABLE_LEN ==> legacy_api_id(j) != id@,
{
    if id.unicode_len() == 0 {
        return 0;
    }
    let mut i: u64 = 1;
    while i < LEGACY_TABLE_LEN
        invariant
            1 <= i <= LEGACY_TABLE_LEN,
            id@.len() > 0,
            forall|j: int| 1 <= j < i ==> legacy_api_id(j) != id@,
        decreases LEGACY_TABLE_LEN - i,
    {
        if str_eq(legacy_api_id_str(i), id) {
            return i;
        }
        i = i + 1;
    }
    0
}

/// Law: the legacy numbers and their API ids correspond one to one: every
/// number of the table names a non-empty id that no other number names, so
/// `legacy_id_from_api(api_id_from_legacy(i))` gives `i` back.
pub proof fn law_legacy_table_round_trips(i: int)
    requires
        1 <= i < LEGACY_TABLE_LEN,
    ensures
        legacy_api_id(i).len() > 0,
        forall|j: int| 1 <= j < LEGACY_TABLE_LEN && j != i ==> legacy_api_id(j) != legacy_api_id(i),
{
    reveal_strlit("models/gemini-2.5-flash");
    reveal_strlit("models/gemini-2.5-pro");
    reveal_strlit("models/gemini-2.5-flash-lite");
    reveal_strlit("gpt-5-mini");
    reveal_strlit("gpt-5.2");
    reveal_strlit("gpt-5.2-pro");
    reveal_strlit("gpt-5-nano");
    reveal_strlit("models/gemini-3-pro-preview");
    reveal_strlit("models/gemini-3-flash-preview");
    reveal_strlit("gpt-5.4");
    reveal_strlit("gpt-5.4-mini");
    reveal_strlit("models/gemini-3.1-pro-preview");
    reveal_strlit("models/gemini-3.1-flash-lite-preview");
    reveal_strlit("models/gemini-3.5-flash");
    reveal_strlit("deepseek-v4-flash");
    reveal_strlit("deepseek-v4-pro");
    reveal_strlit("glm-5.2");
    reveal_strlit("models/gemini-3.6-flash");
    reveal_strlit("models/gemini-3.7-flash");
    assert forall|j: int| 1 <= j < LEGACY_TABLE_LEN && j != i implies legacy_api_id(j) != legacy_api_id(i) by {
        // Ids of equal length differ at one of these positions.
        let a = legacy_api_id(j);
        let b = legacy_api_id(i);
        if a == b {
            assert(a.len() == b.len());
            assert(a[1] == b[1] && a[6] == b[6] && a[14] == b[14] && a[15] == b[15] && a[16] == b[16]);
        }
    }
}

/// The model id to use for `provider` given the configured one.
pub open spec fn effective_model_id_spec(provider: TranslationProvider, config_model: Seq<char>) -> Seq<char> {
    if is_blank(config_model) {
        fallback_id(provider)
    } else if provider == TranslationProvider::Openrouter && config_model == DEPRECATED_OPENROUTER_FLASH_LATEST@ {
        FALLBACK_OPENROUTER@
    } else {
        config_model
    }
}

/// The model id to use: the provider's fallback when the configured one is
/// blank, the migrated alias for the deprecated OpenRouter id, else the
/// configured id unchanged.
pub fn effective_model_id(provider: TranslationProvider, config_model: &str) -> (r: String)
    ensures
        r@ == effective_model_id_spec(provider, config_model@),
{
    if str_is_blank(config_model) {
        return String::from_str(fallback_id_str(provider));
    }
    if provider == TranslationProvider::Openrouter && str_eq(config_model, DEPRECATED_OPENROUTER_FLASH_LATEST) {
        return String::from_str(FALLBACK_OPENROUTER);
    }
    String::from_str(config_model)
}

/// Adds the provider's fallback model to a list that lacks its id.
pub fn ensure_fallback(models: &mut Vec<ListedModel>, provider: TranslationProvider)
    ensures
        (exists|i: int| 0 <= i < old(models)@.len() && (#[trigger] old(models)@[i])@.id == fallback_id(provider))
            ==> final(models)@ == old(models)@,
        !(exists|i: int| 0 <= i < old(models)@.len() && (#[trigger] old(models)@[i])@.id == fallback_id(provider))
            ==> final(models)@.len() == old(models)@.len() + 1
                && final(models)@.take(old(models)@.len() as int) == old(models)@
                && final(models)@.last()@ == fallback_model(provider),
{
    let fallback = fallback_for(provider);
    let mut i: usize = 0;
    while i < models.len()
        invariant
            models@ == old(models)@,
            i <= models.len(),
            fallback@ == fallback_model(provider),
            forall|j: int| 0 <= j < i ==> (#[trigger] models@[j])@.id != fallback_id(provider),
        decreases models.len() - i,
    {
        if str_eq(models[i].id.as_str(), fallback.id.as_str()) {
            return;
        }
        i = i + 1;
    }
    models.push(fallback);
    assert(models@.take(old(models)@.len() as int) =~= old(models)@);
}

/// Whether a list cached at `fetched_at` is still fresh at `now` (both unix
/// seconds; a clock that went backwards reads as age 0).
pub fn cache_is_fresh(now: u64, fetched_at: u64) -> (r: bool)
    ensures
        r == ((if now >= fetched_at { now - fetched_at } else { 0 }) < LIST_TTL_SECS),
{
    let age = now.saturating_sub(fetched_at);
    age < LIST_TTL_SECS
}

/// `c` with an ASCII upper-case letter mapped to lower case.
pub open spec fn ascii_lower_char(c: char) -> char {
    if 'A' <= c <= 'Z' {
        ((c as u32) + 32) as char
    } else {
        c
    }
}

/// `s` with its ASCII letters in lower case, as `to_ascii_lowercase` gives it.
pub open spec fn ascii_lower(s: Seq<char>) -> Seq<char> {
    Seq::new(s.len(), |i: int| ascii_lower_char(s[i]))
}

/// `s` with its ASCII letters in lower case.
pub fn to_ascii_lowercase(s: &str) -> (r: String)
    ensures
        r@ == ascii_lower(s@),
{
    let n = s.unicode_len();
    let mut out = String::new();
    let mut i: usize = 0;
    while i < n
        invariant
            n == s@.len(),
            i <= n,
            out@ == ascii_lower(s@).take(i as int),
        decreases n - i,
    {
        let c = s.get_char(i);
        let d = if 'A' <= c && c <= 'Z' {
            let b: u8 = (c as u8) + 32;
            b as char
        } else {
            c
        };
        assert(d == ascii_lower_char(c));
        push_char(&mut out, d);
        assert(out@ =~= ascii_lower(s@).take(i + 1));
        i = i + 1;
    }
    assert(ascii_lower(s@).take(n as int) =~= ascii_lower(s@));
    out
}

/// The sort key of a listed model: its display name in ASCII lower case.
pub open spec fn display_key(m: ListedModelView) -> Seq<char> {
    ascii_lower(m.name)
}

/// Position of the first element of `s` from `j` on whose key sorts after
/// `k`.
pub open spec fn first_sorting_after(s: Seq<ListedModelView>, k: Seq<char>, j: int) -> int
    decreases s.len() - j,
{
    if j < 0 || j >= s.len() || seq_lt(k, display_key(s[j])) {
        j
    } else {
        first_sorting_after(s, k, j + 1)
    }
}

/// `s` stably sorted by display key: each model is placed after every
/// earlier model whose key does not sort after its own.
pub open spec fn sorted_by_display_name(s: Seq<ListedModelView>) -> Seq<ListedModelView>
    decreases s.len(),
{
    if s.len() == 0 {
        Seq::empty()
    } else {
        let r = sorted_by_display_name(s.drop_last());
        r.insert(first_sorting_after(r, display_key(s.last()), 0), s.last())
    }
}

/// Display keys never decrease along `s`.
pub open spec fn display_sorted(s: Seq<ListedModelView>) -> bool {
    forall|i: int, j: int| 0 <= i <= j < s.len() ==> !seq_lt(#[trigger] display_key(s[j]), #[trigger] display_key(s[i]))
}

proof fn lemma_first_sorting_after(s: Seq<ListedModelView>, k: Seq<char>, j: int)
    requires
        0 <= j <= s.len(),
    ensures
        j <= first_sorting_after(s, k, j) <= s.len(),
        forall|m: int| j <= m < first_sorting_after(s, k, j) ==> !seq_lt(k, #[trigger] display_key(s[m])),
        first_sorting_after(s, k, j) < s.len() ==> seq_lt(k, display_key(s[first_sorting_after(s, k, j)])),
    decreases s.len() - j,
{
    if j < s.len() && !seq_lt(k, display_key(s[j])) {
        lemma_first_sorting_after(s, k, j + 1);
    }
}

/// Sorting by display name orders the models by their lower-cased names and
/// keeps their number.
pub proof fn law_display_sort_is_sorted(s: Seq<ListedModelView>)
    ensures
        display_sorted(sorted_by_display_name(s)),
        sorted_by_display_name(s).len() == s.len(),
    decreases s.len(),
{
    if s.len() > 0 {
        let r = sorted_by_display_name(s.drop_last());
        law_display_sort_is_sorted(s.drop_last());
        let x = s.last();
        let kx = display_key(x);
        let pos = first_sorting_after(r, kx, 0);
        lemma_first_sorting_after(r, kx, 0);
        let out = r.insert(pos, x);
        assert forall|i: int, j: int| 0 <= i <= j < out.len() implies !seq_lt(
            #[trigger] display_key(out[j]),
            #[trigger] display_key(out[i]),
        ) by {
            if i < pos && j < pos {
                assert(out[i] == r[i] && out[j] == r[j]);
            } else if i < pos && j == pos {
                assert(out[i] == r[i] && out[j] == x);
            } else if i < pos {
                assert(out[i] == r[i] && out[j] == r[j - 1]);
            } else if i == pos && j == pos {
                lemma_seq_lt_irreflexive(kx);
            } else if i == pos {
                assert(out[i] == x && out[j] == r[j - 1]);
                assert(!seq_lt(display_key(r[j - 1]), display_key(r[pos])));
                if seq_lt(display_key(r[j - 1]), kx) {
                    lemma_seq_lt_transitive(display_key(r[j - 1]), kx, display_key(r[pos]));
                }
            } else {
                assert(out[i] == r[i - 1] && out[j] == r[j - 1]);
            }
        }
    }
}

/// The views of listed models.
pub open spec fn model_views(s: Seq<ListedModel>) -> Seq<ListedModelView> {
    s.map_values(|m: ListedModel| m@)
}

/// Sorts models by display name, ASCII case-insensitively, keeping the
/// order of equal names.
pub fn sort_by_display_name(models: &mut Vec<ListedModel>)
    ensures
        model_views(final(models)@) == sorted_by_display_name(model_views(old(models)@)),
{
    let ghost src = model_views(models@);
    let mut sorted: Vec<ListedModel> = Vec::new();
    let mut keys: Vec<String> = Vec::new();
    let ghost mut t: int = 0;
    while models.len() > 0
        invariant
            0 <= t <= src.len(),
            model_views(models@) == src.skip(t),
            model_views(sorted@) == sorted_by_display_name(src.take(t)),
            keys@.len() == sorted@.len(),
            forall|i: int| 0 <= i < keys@.len() ==> (#[trigger] keys@[i])@ == display_key(sorted@[i]@),
        decreases models@.len(),
    {
        proof {
            assert(model_views(models@).len() == models@.len());
            assert(t < src.len());
            assert(model_views(models@)[0] == models@[0]@);
            assert(src.skip(t)[0] == src[t]);
        }
        let ghost first = models@[0]@;
        let m = models.remove(0);
        assert(m@ == first);
        let key = to_ascii_lowercase(m.name.as_str());
        let ghost sv = model_views(sorted@);
        let mut j: usize = 0;
        while j < sorted.len() && !str_less(key.as_str(), keys[j].as_str())
            invariant
                j <= sorted@.len(),
                keys@.len() == sorted@.len(),
                sv == model_views(sorted@),
                key@ == display_key(m@),
                forall|i: int| 0 <= i < keys@.len() ==> (#[trigger] keys@[i])@ == display_key(sorted@[i]@),
                first_sorting_after(sv, key@, 0) == first_sorting_after(sv, key@, j as int),
            decreases sorted@.len() - j,
        {
            assert(keys@[j as int]@ == display_key(sv[j as int]));
            j = j + 1;
        }
        if j < sorted.len() {
            assert(keys@[j as int]@ == display_key(sv[j as int]));
        }
        let ghost mv = m@;
        let ghost old_keys = keys@;
        let ghost old_sorted = sorted@;
        sorted.insert(j, m);
        keys.insert(j, key);
        proof {
            assert(src.take(t + 1).drop_last() =~= src.take(t));
            assert(src.take(t + 1).last() == mv);
            assert(model_views(sorted@) =~= sv.insert(j as int, mv));
            assert(model_views(models@) =~= src.skip(t + 1)) by {
                assert(src.skip(t + 1) =~= src.skip(t).drop_first());
            }
            assert forall|i: int| 0 <= i < keys@.len() implies (#[trigger] keys@[i])@ == display_key(sorted@[i]@) by {
                if i < j {
                    assert(keys@[i] == old_keys[i]);
                    assert(sorted@[i] == old_sorted[i]);
                } else if i > j {
                    assert(keys@[i] == old_keys[i - 1]);
                    assert(sorted@[i] == old_sorted[i - 1]);
                }
            }
            t = t + 1;
        }
    }
    proof {
        assert(src.take(t) =~= src);
    }
    *models = sorted;
}

/// A model entry of the Gemini list response.
#[derive(Debug, Clone)]
pub struct GeminiModelEntry {
    /// `name`, when it is a string.
    pub name: Option<String>,
    /// `supportedGenerationMethods`, when it is an array (each element when it
    /// is a string).
    pub supported_generation_methods: Option<Vec<Option<String>>>,
    /// `displayName`, when it is a string.
    pub display_name: Option<String>,
}

/// Name fragments of Gemini models that cannot translate text.
pub open spec fn gemini_excluded(id: Seq<char>) -> bool {
    contains_seq(id, "embedding"@) || contains_seq(id, "imagen"@) || contains_seq(id, "veo"@)
        || contains_seq(id, "-image"@) || contains_seq(id, "aqa"@) || contains_seq(id, "tts"@)
}

fn is_gemini_excluded(id: &str) -> (r: bool)
    ensures
        r == gemini_excluded(id@),
{
    str_contains(id, "embedding") || str_contains(id, "imagen") || str_contains(id, "veo") || str_contains(id, "-image")
        || str_contains(id, "aqa") || str_contains(id, "tts")
}

/// The element is the string `generateContent`.
pub open spec fn is_generate_content(o: Option<String>) -> bool {
    match o {
        Some(m) => m@ == "generateContent"@,
        None => false,
    }
}

/// Some element is the string `generateContent`.
pub open spec fn supports_generate(methods: Seq<Option<String>>) -> bool {
    exists|i: int| 0 <= i < methods.len() && is_generate_content(#[trigger] methods[i])
}

/// The listed model a Gemini entry yields, if any: it needs a name, a
/// method list offering `generateContent`, and a name free of the excluded
/// fragments; it is named by its display name when that is non-empty.
pub open spec fn gemini_listed(e: GeminiModelEntry) -> Option<ListedModelView> {
    match (e.name, e.supported_generation_methods) {
        (Some(id), Some(methods)) => if supports_generate(methods@) && !gemini_excluded(id@) {
            Some(ListedModelView {
                id: id@,
                name: match e.display_name {
                    Some(d) => if d@.len() > 0 { d@ } else { id@ },
                    None => id@,
                },
                provider: TranslationProvider::Google,
            })
        } else {
            None
        },
        _ => None,
    }
}

/// The listed models a sequence of entries yields, in order.
pub open spec fn gemini_listed_all(es: Seq<GeminiModelEntry>) -> Seq<ListedModelView>
    decreases es.len(),
{
    if es.len() == 0 {
        Seq::empty()
    } else {
        match gemini_listed(es.last()) {
            Some(m) => gemini_listed_all(es.drop_last()).push(m),
            None => gemini_listed_all(es.drop_last()),
        }
    }
}

fn offers_generate(methods: &Vec<Option<String>>) -> (r: bool)
    ensures
        r == supports_generate(methods@),
{
    let mut i: usize = 0;
    while i < methods.len()
        invariant
            i <= methods@.len(),
            forall|k: int| 0 <= k < i ==> !is_generate_content(#[trigger] methods@[k]),
        decreases methods@.len() - i,
    {
        match &methods[i] {
            Some(m) => {
                if str_eq(m.as_str(), "generateContent") {
                    assert(is_generate_content(methods@[i as int]));
                    return true;
                }
            },
            None => {},
        }
        i = i + 1;
    }
    false
}

/// The chat-capable models of a Gemini list response (`None`: the response
/// has no model array), sorted by display name.
pub fn filter_gemini_models(models: &Option<Vec<GeminiModelEntry>>) -> (r: Vec<ListedModel>)
    ensures
        match models {
            Some(es) => model_views(r@) == sorted_by_display_name(gemini_listed_all(es@)),
            None => r@.len() == 0,
        },
{
    let es = match models {
        Some(es) => es,
        None => {
            return Vec::new();
        },
    };
    let mut out: Vec<ListedModel> = Vec::new();
    let mut i: usize = 0;
    while i < es.len()
        invariant
            i <= es@.len(),
            model_views(out@) == gemini_listed_all(es@.take(i as int)),
        decreases es@.len() - i,
    {
        let e = &es[i];
        proof {
            assert(es@.take(i + 1).drop_last() =~= es@.take(i as int));
            assert(es@.take(i + 1).last() == es@[i as int]);
        }
        match (&e.name, &e.supported_generation_methods) {
            (Some(id), Some(methods)) => {
                if offers_generate(methods) && !is_gemini_excluded(id.as_str()) {
                    let name = match &e.display_name {
                        Some(d) => {
                            if d.as_str().unicode_len() > 0 {
                                d.clone()
                            } else {
                                id.clone()
                            }
                        },
                        None => id.clone(),
                    };
                    let ghost prev = out@;
                    out.push(ListedModel { id: id.clone(), name, provider: TranslationProvider::Google });
                    assert(model_views(out@) =~= model_views(prev).push(out@.last()@));
                }
            },
            _ => {},
        }
        i = i + 1;
    }
    assert(es@.take(es@.len() as int) =~= es@);
    sort_by_display_name(&mut out);
    out
}

/// Id prefixes of OpenAI-compatible models that cannot translate text.
pub open spec fn openai_excluded(id: Seq<char>) -> bool {
    is_prefix("text-embedding-"@, id) || is_prefix("embedding-"@, id) || is_prefix("whisper-"@, id)
        || is_prefix("tts-"@, id) || is_prefix("dall-e-"@, id) || is_prefix("gpt-image"@, id)
        || is_prefix("chatgpt-image"@, id) || is_prefix("omni-moderation"@, id) || is_prefix("moderation-"@, id)
        || is_prefix("sora-"@, id) || is_prefix("computer-use"@, id) || is_prefix("babbage"@, id)
        || is_prefix("davinci"@, id) || is_prefix("curie"@, id) || is_prefix("ada"@, id)
        || is_prefix("gpt-4o-transcribe"@, id) || is_prefix("gpt-4o-mini-transcribe"@, id)
        || is_prefix("gpt-4o-mini-tts"@, id) || is_prefix("gpt-realtime"@, id)
}

fn is_openai_excluded(id: &str) -> (r: bool)
    ensures
        r == openai_excluded(id@),
{
    str_starts_with(id, "text-embedding-") || str_starts_with(id, "embedding-") || str_starts_with(id, "whisper-")
        || str_starts_with(id, "tts-") || str_starts_with(id, "dall-e-") || str_starts_with(id, "gpt-image")
        || str_starts_with(id, "chatgpt-image") || str_starts_with(id, "omni-moderation") || str_starts_with(id, "moderation-")
        || str_starts_with(id, "sora-") || str_starts_with(id, "computer-use") || str_starts_with(id, "babbage")
        || str_starts_with(id, "davinci") || str_starts_with(id, "curie") || str_starts_with(id, "ada")
        || str_starts_with(id, "gpt-4o-transcribe") || str_starts_with(id, "gpt-4o-mini-transcribe")
        || str_starts_with(id, "gpt-4o-mini-tts") || str_starts_with(id, "gpt-realtime")
}

/// The listed models an OpenAI-compatible `data` array yields (each entry's
/// `id` when it is a string), in order.
pub open spec fn openai_listed_all(ids: Seq<Option<String>>, provider: TranslationProvider) -> Seq<ListedModelView>
    decreases ids.len(),
{
    if ids.len() == 0 {
        Seq::empty()
    } else {
        let rest = openai_listed_all(ids.drop_last(), provider);
        match ids.last() {
            Some(id) => if !openai_excluded(id@) {
                rest.push(ListedModelView { id: id@, name: id@, provider })
            } else {
                rest
            },
            None => rest,
        }
    }
}

/// The chat-capable models of an OpenAI-compatible list response (`None`:
/// the response has no `data` array), named by their ids and sorted.
pub fn filter_openai_compat_models(ids: &Option<Vec<Option<String>>>, provider: TranslationProvider) -> (r: Vec<ListedModel>)
    ensures
        match ids {
            Some(v) => model_views(r@) == sorted_by_display_name(openai_listed_all(v@, provider)),
            None => r@.len() == 0,
        },
{
    let v = match ids {
        Some(v) => v,
        None => {
            return Vec::new();
        },
    };
    let mut out: Vec<ListedModel> = Vec::new();
    let mut i: usize = 0;
    while i < v.len()
        invariant
            i <= v@.len(),
            model_views(out@) == openai_listed_all(v@.take(i as int), provider),
        decreases v@.len() - i,
    {
        proof {
            assert(v@.take(i + 1).drop_last() =~= v@.take(i as int));
            assert(v@.take(i + 1).last() == v@[i as int]);
        }
        match &v[i] {
            Some(id) => {
                if !is_openai_excluded(id.as_str()) {
                    let ghost prev = out@;
                    out.push(ListedModel { id: id.clone(), name: id.clone(), provider });
                    assert(model_views(out@) =~= model_views(prev).push(out@.last()@));
                }
            },
            None => {},
        }
        i = i + 1;
    }
    assert(v@.take(v@.len() as int) =~= v@);
    sort_by_display_name(&mut out);
    out
}

/// A present, non-empty string; an empty one counts as absent.
pub open spec fn nonempty_view(o: Option<Seq<char>>) -> Option<Seq<char>> {
    match o {
        Some(s) => if s.len() > 0 { Some(s) } else { None },
        None => None,
    }
}

/// Whether an API key was given: present and non-empty.
pub fn api_key_usable(api_key: Option<&str>) -> (r: bool)
    ensures
        r == (match api_key {
            Some(k) => k@.len() > 0,
            None => false,
        }),
{
    match api_key {
        Some(k) => k.unicode_len() > 0,
        None => false,
    }
}

/// The page token of the next Gemini list request: the response's
/// `nextPageToken` when it is a non-empty string; `None` ends the listing.
pub fn next_gemini_page(next_page_token: Option<String>) -> (r: Option<String>)
    ensures
        opt_view(r) == nonempty_view(opt_view(next_page_token)),
{
    match next_page_token {
        Some(t) => {
            if t.as_str().unicode_len() > 0 {
                Some(t)
            } else {
                None
            }
        },
        None => None,
    }
}

/// The cursor of the next OpenAI-compatible list request: when the response
/// says `has_more`, the id of its last row if that is a non-empty string;
/// `None` ends the listing.
pub fn next_openai_cursor(has_more: Option<bool>, last_id: Option<String>) -> (r: Option<String>)
    ensures
        opt_view(r) == (if has_more == Some(true) { nonempty_view(opt_view(last_id)) } else { None::<Seq<char>> }),
{
    match has_more {
        Some(true) => next_gemini_page(last_id),
        _ => None,
    }
}

/// Whether some model of `s` has the id `id`.
pub open spec fn lists_id(s: Seq<ListedModelView>, id: Seq<char>) -> bool {
    exists|i: int| 0 <= i < s.len() && (#[trigger] s[i]).id == id
}

/// `s` with the provider's fallback model appended when no model has its id.
pub open spec fn with_fallback(s: Seq<ListedModelView>, provider: TranslationProvider) -> Seq<ListedModelView> {
    if lists_id(s, fallback_id(provider)) {
        s
    } else {
        s.push(fallback_model(provider))
    }
}

/// Completes a freshly fetched list: the fallback model is added when
/// missing, then the list is sorted by display name.
pub fn finish_live_list(models: &mut Vec<ListedModel>, provider: TranslationProvider)
    ensures
        model_views(final(models)@) == sorted_by_display_name(with_fallback(model_views(old(models)@), provider)),
{
    let ghost before = model_views(models@);
    ensure_fallback(models, provider);
    proof {
        if lists_id(before, fallback_id(provider)) {
            let i = choose|i: int| 0 <= i < before.len() && (#[trigger] before[i]).id == fallback_id(provider);
            assert(old(models)@[i]@.id == fallback_id(provider));
        } else {
            assert forall|i: int| 0 <= i < old(models)@.len() implies (#[trigger] old(models)@[i])@.id != fallback_id(provider) by {
                assert(before[i].id == old(models)@[i]@.id);
            }
            assert(models@ =~= old(models)@.push(models@.last()));
        }
        assert(model_views(models@) =~= with_fallback(before, provider));
    }
    sort_by_display_name(models);
}

/// The list offered once a live fetch settled: the fetched list, else the
/// cached one however old, else the fallback model alone.
pub fn settle_models(fetched: Option<Vec<ListedModel>>, cached: Option<Vec<ListedModel>>, provider: TranslationProvider) -> (r: Vec<ListedModel>)
    ensures
        match fetched {
            Some(f) => r@ == f@,
            None => match cached {
                Some(c) => r@ == c@,
                None => model_views(r@) == seq![fallback_model(provider)],
            },
        },
{
    match fetched {
        Some(f) => f,
        None => match cached {
            Some(c) => c,
            None => {
                let r = vec![fallback_for(provider)];
                assert(model_views(r@) =~= seq![fallback_model(provider)]);
                r
            },
        },
    }
}

/// The entry is named `id` and offers `generateContent`.
pub open spec fn entry_offers_model(e: GeminiModelEntry, id: Seq<char>) -> bool {
    &&& e.name matches Some(n) && n@ == id
    &&& e.supported_generation_methods matches Some(ms) && supports_generate(ms@)
}

/// The row's id is the string `id`.
pub open spec fn names_id(o: Option<String>, id: Seq<char>) -> bool {
    o matches Some(n) && n@ == id
}

proof fn lemma_sorted_members(s: Seq<ListedModelView>)
    ensures
        sorted_by_display_name(s).len() == s.len(),
        forall|k: int| 0 <= k < s.len() ==> s.contains(#[trigger] sorted_by_display_name(s)[k]),
    decreases s.len(),
{
    if s.len() > 0 {
        let d = s.drop_last();
        lemma_sorted_members(d);
        let r = sorted_by_display_name(d);
        let x = s.last();
        let pos = first_sorting_after(r, display_key(x), 0);
        lemma_first_sorting_after(r, display_key(x), 0);
        r.insert_ensures(pos, x);
        let out = r.insert(pos, x);
        assert forall|k: int| 0 <= k < s.len() implies s.contains(#[trigger] sorted_by_display_name(s)[k]) by {
            if k < pos {
                assert(out[k] == r[k]);
                let m = choose|m: int| 0 <= m < d.len() && d[m] == r[k];
                assert(s[m] == d[m]);
            } else if k == pos {
                assert(s[s.len() - 1] == x);
            } else {
                assert(out[k] == r[k - 1]);
                let m = choose|m: int| 0 <= m < d.len() && d[m] == r[k - 1];
                assert(s[m] == d[m]);
            }
        }
    }
}

/// Every model a Gemini list yields is a Google model free of the excluded
/// fragments, named by an entry offering `generateContent`.
proof fn lemma_gemini_listed_facts(es: Seq<GeminiModelEntry>)
    ensures
        forall|k: int| 0 <= k < gemini_listed_all(es).len() ==> {
            let m = #[trigger] gemini_listed_all(es)[k];
            &&& !contains_seq(m.id, "embedding"@)
            &&& !contains_seq(m.id, "imagen"@)
            &&& !contains_seq(m.id, "veo"@)
            &&& !contains_seq(m.id, "-image"@)
            &&& !contains_seq(m.id, "aqa"@)
            &&& !contains_seq(m.id, "tts"@)
            &&& m.provider == TranslationProvider::Google
            &&& exists|j: int| 0 <= j < es.len() && entry_offers_model(#[trigger] es[j], m.id)
        },
    decreases es.len(),
{
    if es.len() > 0 {
        let d = es.drop_last();
        lemma_gemini_listed_facts(d);
        let prev = gemini_listed_all(d);
        let cur = gemini_listed_all(es);
        assert forall|k: int| 0 <= k < cur.len() implies {
            let m = #[trigger] cur[k];
            &&& !contains_seq(m.id, "embedding"@)
            &&& !contains_seq(m.id, "imagen"@)
            &&& !contains_seq(m.id, "veo"@)
            &&& !contains_seq(m.id, "-image"@)
            &&& !contains_seq(m.id, "aqa"@)
            &&& !contains_seq(m.id, "tts"@)
            &&& m.provider == TranslationProvider::Google
            &&& exists|j: int| 0 <= j < es.len() && entry_offers_model(#[trigger] es[j], m.id)
        } by {
            if k < prev.len() {
                assert(cur[k] == prev[k]);
                let j = choose|j: int| 0 <= j < d.len() && entry_offers_model(#[trigger] d[j], prev[k].id);
                assert(es[j] == d[j]);
            } else {
                assert(es[es.len() - 1] == es.last());
            }
        }
    }
}

/// Law: the Gemini model list offers only models that can translate text:
/// each listed model is named by an entry that offers `generateContent`,
/// and no listed id contains `embedding`, `imagen`, `veo`, `-image`, `aqa`
/// or `tts`.
pub proof fn law_gemini_list_keeps_only_text_models(es: Seq<GeminiModelEntry>)
    ensures
        forall|k: int| 0 <= k < sorted_by_display_name(gemini_listed_all(es)).len() ==> {
            let m = #[trigger] sorted_by_display_name(gemini_listed_all(es))[k];
            &&& !contains_seq(m.id, "embedding"@)
            &&& !contains_seq(m.id, "imagen"@)
            &&& !contains_seq(m.id, "veo"@)
            &&& !contains_seq(m.id, "-image"@)
            &&& !contains_seq(m.id, "aqa"@)
            &&& !contains_seq(m.id, "tts"@)
            &&& m.provider == TranslationProvider::Google
            &&& exists|j: int| 0 <= j < es.len() && entry_offers_model(#[trigger] es[j], m.id)
        },
{
    let l = gemini_listed_all(es);
    lemma_sorted_members(l);
    lemma_gemini_listed_facts(es);
    assert forall|k: int| 0 <= k < sorted_by_display_name(l).len() implies {
        let m = #[trigger] sorted_by_display_name(l)[k];
            &&& !contains_seq(m.id, "embedding"@)
            &&& !contains_seq(m.id, "imagen"@)
            &&& !contains_seq(m.id, "veo"@)
            &&& !contains_seq(m.id, "-image"@)
            &&& !contains_seq(m.id, "aqa"@)
            &&& !contains_seq(m.id, "tts"@)
        &&& m.provider == TranslationProvider::Google
        &&& exists|j: int| 0 <= j < es.len() && entry_offers_model(#[trigger] es[j], m.id)
    } by {
        let m = sorted_by_display_name(l)[k];
        assert(l.contains(m));
        let q = choose|q: int| 0 <= q < l.len() && l[q] == m;
        assert(l[q] == m);
    }
}

proof fn lemma_openai_listed_facts(ids: Seq<Option<String>>, provider: TranslationProvider)
    ensures
        forall|k: int| 0 <= k < openai_listed_all(ids, provider).len() ==> {
            let m = #[trigger] openai_listed_all(ids, provider)[k];
            &&& !is_prefix("text-embedding-"@, m.id)
            &&& !is_prefix("embedding-"@, m.id)
            &&& !is_prefix("whisper-"@, m.id)
            &&& !is_prefix("tts-"@, m.id)
            &&& !is_prefix("dall-e-"@, m.id)
            &&& !is_prefix("gpt-image"@, m.id)
            &&& !is_prefix("chatgpt-image"@, m.id)
            &&& !is_prefix("omni-moderation"@, m.id)
            &&& !is_prefix("moderation-"@, m.id)
            &&& !is_prefix("sora-"@, m.id)
            &&& !is_prefix("computer-use"@, m.id)
            &&& !is_prefix("babbage"@, m.id)
            &&& !is_prefix("davinci"@, m.id)
            &&& !is_prefix("curie"@, m.id)
            &&& !is_prefix("ada"@, m.id)
            &&& !is_prefix("gpt-4o-transcribe"@, m.id)
            &&& !is_prefix("gpt-4o-mini-transcribe"@, m.id)
            &&& !is_prefix("gpt-4o-mini-tts"@, m.id)
            &&& !is_prefix("gpt-realtime"@, m.id)
            &&& m.provider == provider
            &&& m.name == m.id
            &&& exists|j: int| 0 <= j < ids.len() && names_id(#[trigger] ids[j], m.id)
        },
    decreases ids.len(),
{
    if ids.len() > 0 {
        let d = ids.drop_last();
        lemma_openai_listed_facts(d, provider);
        let prev = openai_listed_all(d, provider);
        let cur = openai_listed_all(ids, provider);
        assert forall|k: int| 0 <= k < cur.len() implies {
            let m = #[trigger] cur[k];
            &&& !is_prefix("text-embedding-"@, m.id)
            &&& !is_prefix("embedding-"@, m.id)
            &&& !is_prefix("whisper-"@, m.id)
            &&& !is_prefix("tts-"@, m.id)
            &&& !is_prefix("dall-e-"@, m.id)
            &&& !is_prefix("gpt-image"@, m.id)
            &&& !is_prefix("chatgpt-image"@, m.id)
            &&& !is_prefix("omni-moderation"@, m.id)
            &&& !is_prefix("moderation-"@, m.id)
            &&& !is_prefix("sora-"@, m.id)
            &&& !is_prefix("computer-use"@, m.id)
            &&& !is_prefix("babbage"@, m.id)
            &&& !is_prefix("davinci"@, m.id)
            &&& !is_prefix("curie"@, m.id)
            &&& !is_prefix("ada"@, m.id)
            &&& !is_prefix("gpt-4o-transcribe"@, m.id)
            &&& !is_prefix("gpt-4o-mini-transcribe"@, m.id)
            &&& !is_prefix("gpt-4o-mini-tts"@, m.id)
            &&& !is_prefix("gpt-realtime"@, m.id)
            &&& m.provider == provider
            &&& m.name == m.id
            &&& exists|j: int| 0 <= j < ids.len() && names_id(#[trigger] ids[j], m.id)
        } by {
            if k < prev.len() {
                assert(cur[k] == prev[k]);
                let j = choose|j: int| 0 <= j < d.len() && names_id(#[trigger] d[j], prev[k].id);
                assert(ids[j] == d[j]);
            } else {
                assert(ids[ids.len() - 1] == ids.last());
            }
        }
    }
}

/// Law: an OpenAI-compatible model list offers only chat models: each
/// listed model is a listed id, named by itself, and no listed id starts
/// with an embedding, speech, image, moderation, video, legacy-completion or
/// realtime prefix.
pub proof fn law_openai_list_keeps_only_chat_models(ids: Seq<Option<String>>, provider: TranslationProvider)
    ensures
        forall|k: int| 0 <= k < sorted_by_display_name(openai_listed_all(ids, provider)).len() ==> {
            let m = #[trigger] sorted_by_display_name(openai_listed_all(ids, provider))[k];
            &&& !is_prefix("text-embedding-"@, m.id)
            &&& !is_prefix("embedding-"@, m.id)
            &&& !is_prefix("whisper-"@, m.id)
            &&& !is_prefix("tts-"@, m.id)
            &&& !is_prefix("dall-e-"@, m.id)
            &&& !is_prefix("gpt-image"@, m.id)
            &&& !is_prefix("chatgpt-image"@, m.id)
            &&& !is_prefix("omni-moderation"@, m.id)
            &&& !is_prefix("moderation-"@, m.id)
            &&& !is_prefix("sora-"@, m.id)
            &&& !is_prefix("computer-use"@, m.id)
            &&& !is_prefix("babbage"@, m.id)
            &&& !is_prefix("davinci"@, m.id)
            &&& !is_prefix("curie"@, m.id)
            &&& !is_prefix("ada"@, m.id)
            &&& !is_prefix("gpt-4o-transcribe"@, m.id)
            &&& !is_prefix("gpt-4o-mini-transcribe"@, m.id)
            &&& !is_prefix("gpt-4o-mini-tts"@, m.id)
            &&& !is_prefix("gpt-realtime"@, m.id)
            &&& m.provider == provider
            &&& m.name == m.id
            &&& exists|j: int| 0 <= j < ids.len() && names_id(#[trigger] ids[j], m.id)
        },
{
    let l = openai_listed_all(ids, provider);
    lemma_sorted_members(l);
    lemma_openai_listed_facts(ids, provider);
    assert forall|k: int| 0 <= k < sorted_by_display_name(l).len() implies {
        let m = #[trigger] sorted_by_display_name(l)[k];
            &&& !is_prefix("text-embedding-"@, m.id)
            &&& !is_prefix("embedding-"@, m.id)
            &&& !is_prefix("whisper-"@, m.id)
            &&& !is_prefix("tts-"@, m.id)
            &&& !is_prefix("dall-e-"@, m.id)
            &&& !is_prefix("gpt-image"@, m.id)
            &&& !is_prefix("chatgpt-image"@, m.id)
            &&& !is_prefix("omni-moderation"@, m.id)
            &&& !is_prefix("moderation-"@, m.id)
            &&& !is_prefix("sora-"@, m.id)
            &&& !is_prefix("computer-use"@, m.id)
            &&& !is_prefix("babbage"@, m.id)
            &&& !is_prefix("davinci"@, m.id)
            &&& !is_prefix("curie"@, m.id)
            &&& !is_prefix("ada"@, m.id)
            &&& !is_prefix("gpt-4o-transcribe"@, m.id)
            &&& !is_prefix("gpt-4o-mini-transcribe"@, m.id)
            &&& !is_prefix("gpt-4o-mini-tts"@, m.id)
            &&& !is_prefix("gpt-realtime"@, m.id)
        &&& m.provider == provider
        &&& m.name == m.id
        &&& exists|j: int| 0 <= j < ids.len() && names_id(#[trigger] ids[j], m.id)
    } by {
        let m = sorted_by_display_name(l)[k];
        assert(l.contains(m));
        let q = choose|q: int| 0 <= q < l.len() && l[q] == m;
        assert(l[q] == m);
    }
}

} // verus!
