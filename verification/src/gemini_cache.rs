//! Naming, fingerprinting and composition of the Gemini prompt caches, one
//! per (model, languages, book, chapter).

use std::hash::Hasher;

use vstd::prelude::*;

use crate::select::opt_string_view;
use crate::text::{concat_str, contains_seq, decimal, decimal_string, lowercase_of, str_contains, to_lowercase};

verus! {

/// Lifetime of a server-side cache, in seconds; refreshed on every use.
pub const DEFAULT_CACHE_TTL_SECS: u64 = 86_400;

/// What a chapter cache is keyed by: model number, source and target
/// languages (ISO 639-3 codes), book id (its hyphenated text form) and
/// chapter.
#[derive(Debug, Clone, PartialEq, Eq, Hash)]
pub struct CacheKey {
    pub model: usize,
    pub from: String,
    pub to: String,
    pub book_id: String,
    pub chapter_id: usize,
}

/// Cached payload: the system instruction, and the per-chapter reference
/// material (`None` when there is no chapter context).
pub struct CacheContent {
    pub system_instruction: String,
    pub user_reference_material: Option<String>,
}

pub const REFERENCE_SUMMARIES_HEADER: &'static str = "Summaries of prior chapters in this book (for cross-chapter context only \u{2014} do not translate them):\n\n";
pub const REFERENCE_CHAPTER_HEADER: &'static str = "Full text of the current chapter (use as surrounding context; the specific paragraph to translate will follow in a separate message):\n\n";

/// The reference material of a chapter: the prior summaries and the chapter
/// text, each under its header when non-empty; `None` when both are empty.
pub open spec fn reference_material(prior: Seq<char>, chapter: Seq<char>) -> Option<Seq<char>> {
    if prior.len() == 0 && chapter.len() == 0 {
        None
    } else {
        let a = if prior.len() > 0 { REFERENCE_SUMMARIES_HEADER@ + prior + "\n\n"@ } else { Seq::empty() };
        let b = if chapter.len() > 0 { REFERENCE_CHAPTER_HEADER@ + chapter } else { Seq::empty() };
        Some(a + b)
    }
}

/// Composes the per-chapter reference material a cache holds.
pub fn build_reference_material(prior_summaries: &str, chapter_text: &str) -> (r: Option<String>)
    ensures
        match reference_material(prior_summaries@, chapter_text@) {
            Some(m) => r matches Some(s) && s@ == m,
            None => r is None,
        },
{
    let p = prior_summaries.unicode_len();
    let c = chapter_text.unicode_len();
    if p == 0 && c == 0 {
        return None;
    }
    let mut out = String::new();
    if p > 0 {
        out.append(REFERENCE_SUMMARIES_HEADER);
        out.append(prior_summaries);
        out.append("\n\n");
    }
    let ghost mid = out@;
    if c > 0 {
        out.append(REFERENCE_CHAPTER_HEADER);
        out.append(chapter_text);
    }
    proof {
        if c > 0 {
            assert(out@ =~= mid + (REFERENCE_CHAPTER_HEADER@ + chapter_text@));
        } else {
            assert(out@ =~= mid + Seq::<char>::empty());
        }
        if p == 0 {
            assert(mid =~= Seq::<char>::empty());
        }
    }
    Some(out)
}

/// The FNV-1a offset basis (64 bits).
pub const FNV_OFFSET: u64 = 0xcbf29ce484222325;

/// The FNV-1a prime (64 bits).
pub const FNV_PRIME: u64 = 0x100000001b3;

/// The 64-bit FNV-1a hash of `bytes`: starting from the offset basis, each
/// byte is xored in and the state multiplied by the prime, modulo 2^64.
pub open spec fn fnv1a(bytes: Seq<u8>) -> u64
    decreases bytes.len(),
{
    if bytes.len() == 0 {
        FNV_OFFSET
    } else {
        (((fnv1a(bytes.drop_last()) ^ (bytes.last() as u64)) as int * FNV_PRIME as int) % 0x1_0000_0000_0000_0000) as u64
    }
}

/// `FnvHasher` (fnv): a default hasher fed `bytes` once, then finished;
/// its source xors each byte in and multiplies by the prime with wrapping.
#[verifier::external_body]
fn fnv_hash(bytes: &[u8]) -> (r: u64)
    ensures
        r == fnv1a(bytes@),
{
    let mut h = fnv::FnvHasher::default();
    h.write(bytes);
    h.finish()
}

/// The bytes a cache's content is fingerprinted over: the system
/// instruction, a unit separator (0x1F), then the reference material if any.
pub open spec fn fingerprint_input(system: Seq<char>, reference: Option<Seq<char>>) -> Seq<u8> {
    vstd::utf8::encode_utf8(system) + seq![0x1Fu8] + match reference {
        Some(r) => vstd::utf8::encode_utf8(r),
        None => Seq::empty(),
    }
}

fn append_bytes(out: &mut Vec<u8>, bytes: &[u8])
    ensures
        final(out)@ == old(out)@ + bytes@,
{
    let mut i: usize = 0;
    while i < bytes.len()
        invariant
            i <= bytes@.len(),
            out@ == old(out)@ + bytes@.take(i as int),
        decreases bytes@.len() - i,
    {
        out.push(bytes[i]);
        assert(out@ =~= old(out)@ + bytes@.take(i + 1));
        i = i + 1;
    }
    assert(bytes@.take(bytes@.len() as int) =~= bytes@);
}

/// The fingerprint stored beside a cache entry, so that a change of either
/// the prompt or the reference material invalidates it.
pub fn fingerprint_of(content: &CacheContent) -> (r: u64)
    ensures
        r == fnv1a(fingerprint_input(content.system_instruction@, opt_string_view(content.user_reference_material))),
{
    let mut bytes: Vec<u8> = Vec::new();
    append_bytes(&mut bytes, content.system_instruction.as_str().as_bytes());
    bytes.push(0x1F);
    match &content.user_reference_material {
        Some(r) => append_bytes(&mut bytes, r.as_str().as_bytes()),
        None => {},
    }
    proof {
        assert(bytes@ =~= fingerprint_input(content.system_instruction@, opt_string_view(content.user_reference_material)));
    }
    fnv_hash(bytes.as_slice())
}

/// `prefix` followed by the key's parts, dash-separated, the chapter
/// prefixed by `c`.
pub open spec fn key_name(prefix: Seq<char>, key: CacheKey) -> Seq<char> {
    prefix + decimal(key.model as nat) + "-"@ + key.from@ + "-"@ + key.to@ + "-"@ + key.book_id@ + "-c"@ + decimal(
        key.chapter_id as nat,
    )
}

fn key_name_string(prefix: &str, key: &CacheKey) -> (r: String)
    ensures
        r@ == key_name(prefix@, *key),
{
    let mut out = String::from_str(prefix);
    let m = decimal_string(key.model);
    out.append(m.as_str());
    out.append("-");
    out.append(key.from.as_str());
    out.append("-");
    out.append(key.to.as_str());
    out.append("-");
    out.append(key.book_id.as_str());
    out.append("-c");
    let c = decimal_string(key.chapter_id);
    out.append(c.as_str());
    out
}

/// The name a cache is persisted under on disk.
pub fn disk_key(key: &CacheKey) -> (r: String)
    ensures
        r@ == key_name("flts-gemini-"@, *key),
{
    key_name_string("flts-gemini-", key)
}

/// The display name of a server-side cache.
pub fn cache_display_name(key: &CacheKey) -> (r: String)
    ensures
        r@ == key_name("flts-"@, *key),
{
    key_name_string("flts-", key)
}

/// Whether a failed request says the cached content it referenced is gone:
/// an HTTP 403 or 404 whose description mentions `cachedcontent` in any
/// case.
pub open spec fn is_cache_missing_spec(code: u16, description: Option<Seq<char>>) -> bool {
    (code == 403 || code == 404) && match description {
        Some(d) => contains_seq(lowercase_of(d), "cachedcontent"@),
        None => false,
    }
}

/// Classifies a failed Gemini response (its status and description).
pub fn is_cache_missing(code: u16, description: Option<&str>) -> (r: bool)
    ensures
        r == is_cache_missing_spec(code, match description {
            Some(d) => Some(d@),
            None => None,
        }),
{
    if code != 403 && code != 404 {
        return false;
    }
    match description {
        Some(d) => {
            let lower = to_lowercase(d);
            str_contains(lower.as_str(), "cachedcontent")
        },
        None => false,
    }
}

} // verus!
