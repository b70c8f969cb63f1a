//! The LRClib lyrics source: endpoint resolution, failure classification and
//! the LRC file format.

use vstd::prelude::*;

use crate::catalog::trim_trailing_slashes;
use crate::lyrics::{line_views, Lyrics, LyricsLine};
use crate::retry::RetryConfig;
use crate::text::{
    char_is_white_space, digits_value, is_digit, is_prefix, is_white_space, line_bounds, lines_of,
    parse_decimal, parse_unsigned, push_char, str_starts_with, trim_start_ws, trim_ws,
    trimmed_substring, delimits,
};

verus! {

/// The default lyrics endpoint.
pub const LRCLIB_BASE: &'static str = "https://lrclib.net/api/get";

/// Timeout of one LRClib request, in seconds.
pub const REQUEST_TIMEOUT_SECS: u64 = 10;

/// The lyrics endpoint under a configured origin: an origin that is absent
/// or empty means the default endpoint; otherwise `/api/get` is appended to
/// the origin without its trailing slashes.
pub open spec fn get_url_for(env_origin: Option<Seq<char>>) -> Seq<char> {
    match env_origin {
        Some(o) => if o.len() > 0 { trim_trailing_slashes(o) + "/api/get"@ } else { LRCLIB_BASE@ },
        None => LRCLIB_BASE@,
    }
}

/// Resolves the lyrics endpoint from the configured origin.
pub fn resolve_get_url(env_origin: Option<String>) -> (r: String)
    ensures
        r@ == get_url_for(match env_origin {
            Some(s) => Some(s@),
            None => None,
        }),
{
    match env_origin {
        Some(origin) => {
            if origin.as_str().unicode_len() > 0 {
                let mut out = crate::control::rest_base_url(origin.as_str());
                out.append("/api/get");
                out
            } else {
                String::from_str(LRCLIB_BASE)
            }
        },
        None => String::from_str(LRCLIB_BASE),
    }
}

/// What the HTTP client reports of a failed request.
#[derive(Debug, Clone, Copy)]
pub struct TransportFailure {
    pub is_timeout: bool,
    pub is_connect: bool,
    pub is_request: bool,
}

/// `s` up to its first white-space character.
pub open spec fn take_until_ws(s: Seq<char>) -> Seq<char>
    decreases s.len(),
{
    if s.len() == 0 || is_white_space(s[0]) {
        Seq::empty()
    } else {
        seq![s[0]] + take_until_ws(s.drop_first())
    }
}

/// The first white-space separated word of `s` (empty when there is none).
pub open spec fn first_word(s: Seq<char>) -> Seq<char> {
    take_until_ws(trim_start_ws(s))
}

/// The status code a message of the form `LRClib HTTP <code> ...` carries.
pub open spec fn status_in_message(msg: Seq<char>) -> Option<nat> {
    let prefix = "LRClib HTTP "@;
    if is_prefix(prefix, msg) {
        let w = first_word(msg.skip(prefix.len() as int));
        if w.len() > 0 {
            parse_unsigned(w, 65535)
        } else {
            None
        }
    } else {
        None
    }
}

/// Whether a failed fetch may succeed when retried: transport timeouts,
/// connection and request failures, and HTTP 408, 429 and 5xx statuses.
pub open spec fn is_transient_spec(transport: Option<TransportFailure>, msg: Seq<char>) -> bool {
    match transport {
        Some(t) => t.is_timeout || t.is_connect || t.is_request,
        None => match status_in_message(msg) {
            Some(code) => code == 408 || code == 429 || (500 <= code <= 599),
            None => false,
        },
    }
}

proof fn lemma_take_until_ws(s: Seq<char>, i: int)
    requires
        0 <= i <= s.len(),
        forall|k: int| 0 <= k < i ==> !is_white_space(#[trigger] s[k]),
        i == s.len() || is_white_space(s[i]),
    ensures
        take_until_ws(s) == s.take(i),
    decreases i,
{
    if i > 0 {
        lemma_take_until_ws(s.drop_first(), i - 1);
        assert(seq![s[0]] + s.drop_first().take(i - 1) =~= s.take(i));
    } else {
        assert(s.take(0) =~= Seq::<char>::empty());
    }
}

proof fn lemma_trim_start_skip(s: Seq<char>, a: int)
    requires
        0 <= a <= s.len(),
        forall|k: int| 0 <= k < a ==> is_white_space(#[trigger] s[k]),
        a == s.len() || !is_white_space(s[a]),
    ensures
        trim_start_ws(s) == s.skip(a),
    decreases a,
{
    if a > 0 {
        lemma_trim_start_skip(s.drop_first(), a - 1);
        assert(s.drop_first().skip(a - 1) =~= s.skip(a));
    } else {
        assert(s.skip(0) =~= s);
    }
}

/// Classifies a failed fetch as transient (worth a retry) or permanent.
pub fn is_transient(transport: Option<TransportFailure>, message: &str) -> (r: bool)
    ensures
        r == is_transient_spec(transport, message@),
{
    match transport {
        Some(t) => t.is_timeout || t.is_connect || t.is_request,
        None => {
            if !str_starts_with(message, "LRClib HTTP ") {
                return false;
            }
            proof {
                reveal_strlit("LRClib HTTP ");
            }
            let n = message.unicode_len();
            let start: usize = 12;
            let ghost rest = message@.skip(12);
            let mut a = start;
            while a < n && char_is_white_space(message.get_char(a))
                invariant
                    start <= a <= n,
                    n == message@.len(),
                    rest == message@.skip(12),
                    forall|k: int| 0 <= k < a - 12 ==> is_white_space(#[trigger] rest[k]),
                decreases n - a,
            {
                a = a + 1;
            }
            let mut b = a;
            while b < n && !char_is_white_space(message.get_char(b))
                invariant
                    start <= a <= b <= n,
                    n == message@.len(),
                    forall|k: int| a <= k < b ==> !is_white_space(#[trigger] message@[k]),
                decreases n - b,
            {
                b = b + 1;
            }
            proof {
                lemma_trim_start_skip(rest, a - 12);
                let t = rest.skip(a - 12);
                assert forall|k: int| 0 <= k < b - a implies !is_white_space(#[trigger] t[k]) by {
                    assert(t[k] == message@[a + k]);
                }
                lemma_take_until_ws(t, b - a);
                assert(t.take(b - a) =~= message@.subrange(a as int, b as int));
            }
            if a == b {
                return false;
            }
            match parse_decimal(message, a, b, 65535) {
                Some(code) => code == 408 || code == 429 || (code >= 500 && code <= 599),
                None => false,
            }
        },
    }
}

/// Number of consecutive ASCII digits of `s` from position `i`.
pub open spec fn digit_run(s: Seq<char>, i: int) -> nat
    decreases s.len() - i,
{
    if 0 <= i < s.len() && is_digit(s[i]) {
        1 + digit_run(s, i + 1)
    } else {
        0
    }
}

/// The time tag `[mm:ss]`, `[mm:ss.f]`, `[mm:ss.ff]` or `[mm:ss.fff]` (one
/// to three minute digits, one or two second digits) starting at `p`, as its
/// time in ms and the position just after it.
pub open spec fn tag_at(s: Seq<char>, p: int) -> Option<(u32, int)> {
    let a = p + 1;
    let n1 = digit_run(s, a);
    let b = a + n1 + 1;
    let n2 = digit_run(s, b);
    let c = b + n2;
    if 0 <= p && p < s.len() && s[p] == '[' && 1 <= n1 <= 3 && a + n1 < s.len() && s[a + n1] == ':'
        && 1 <= n2 <= 2 && c < s.len() {
        let base = digits_value(s.subrange(a, a + n1)) * 60000 + digits_value(s.subrange(b, c)) * 1000;
        if s[c] == ']' {
            Some((base as u32, c + 1))
        } else if s[c] == '.' {
            let n3 = digit_run(s, c + 1);
            if 1 <= n3 <= 3 && c + 1 + n3 < s.len() && s[c + 1 + n3] == ']' {
                let f = digits_value(s.subrange(c + 1, c + 1 + n3));
                let frac = if n3 == 1 { f * 100 } else if n3 == 2 { f * 10 } else { f };
                Some(((base + frac) as u32, c + 2 + n3))
            } else {
                None
            }
        } else {
            None
        }
    } else {
        None
    }
}

/// The times of the consecutive tags that open `s` at `p`, and where they
/// end.
pub open spec fn tags_from(s: Seq<char>, p: int) -> (Seq<u32>, int)
    decreases s.len() - p,
{
    match tag_at(s, p) {
        Some((t, e)) => if p < e <= s.len() {
            let (ts, end) = tags_from(s, e);
            (seq![t] + ts, end)
        } else {
            (Seq::empty(), p)
        },
        None => (Seq::empty(), p),
    }
}

/// The entries one LRC line yields: one per leading time tag, each with the
/// trimmed rest of the line; an untagged line yields one untimed entry.
pub open spec fn line_entries(line: Seq<char>) -> Seq<(Option<u32>, Seq<char>)> {
    let (times, end) = tags_from(line, 0);
    let text = trim_ws(line.subrange(end, line.len() as int));
    if times.len() == 0 {
        seq![(None::<u32>, text)]
    } else {
        times.map_values(|t: u32| (Some(t), text))
    }
}

/// The entries of a sequence of LRC lines, in order.
pub open spec fn entries_of(lines: Seq<Seq<char>>) -> Seq<(Option<u32>, Seq<char>)>
    decreases lines.len(),
{
    if lines.len() == 0 {
        Seq::empty()
    } else {
        entries_of(lines.drop_last()) + line_entries(lines.last())
    }
}

/// The time of the nearest timed entry before position `i` (0 when there
/// is none).
pub open spec fn last_time_before(es: Seq<(Option<u32>, Seq<char>)>, i: int) -> u32
    decreases i,
{
    if i <= 0 {
        0
    } else {
        match es[i - 1].0 {
            Some(t) => t,
            None => last_time_before(es, i - 1),
        }
    }
}

/// The sort key of entry `i`: its own time, or for an untimed entry the
/// time of the nearest timed entry before it, so that it stays with its
/// stanza.
pub open spec fn sort_key(es: Seq<(Option<u32>, Seq<char>)>, i: int) -> u32 {
    match es[i].0 {
        Some(t) => t,
        None => last_time_before(es, i),
    }
}

/// The entries paired with their sort keys.
pub open spec fn keyed_entries(es: Seq<(Option<u32>, Seq<char>)>) -> Seq<(u32, (Option<u32>, Seq<char>))> {
    Seq::new(es.len(), |i: int| (sort_key(es, i), es[i]))
}

/// Position of the first element of `s` from `j` on whose key exceeds `k`.
pub open spec fn first_greater<L>(s: Seq<(u32, L)>, k: u32, j: int) -> int
    decreases s.len() - j,
{
    if j < 0 || j >= s.len() || s[j].0 > k {
        j
    } else {
        first_greater(s, k, j + 1)
    }
}

/// `s` sorted by key, stably: each element is placed after every earlier
/// element whose key is not greater.
pub open spec fn stable_sorted<L>(s: Seq<(u32, L)>) -> Seq<(u32, L)>
    decreases s.len(),
{
    if s.len() == 0 {
        Seq::empty()
    } else {
        let r = stable_sorted(s.drop_last());
        r.insert(first_greater(r, s.last().0, 0), s.last())
    }
}

/// The entries of an LRC text, keyed and stably sorted by time.
pub open spec fn lrc_lines(raw: Seq<char>) -> Seq<(Option<u32>, Seq<char>)> {
    stable_sorted(keyed_entries(entries_of(lines_of(raw)))).map_values(|p: (u32, (Option<u32>, Seq<char>))| p.1)
}

/// `10^n`.
pub open spec fn pow10(n: nat) -> nat
    decreases n,
{
    if n == 0 {
        1
    } else {
        10 * pow10((n - 1) as nat)
    }
}

proof fn lemma_digits_value_lt(s: Seq<char>)
    requires
        forall|i: int| 0 <= i < s.len() ==> is_digit(#[trigger] s[i]),
    ensures
        digits_value(s) < pow10(s.len()),
    decreases s.len(),
{
    if s.len() > 0 {
        assert(is_digit(s[s.len() - 1]));
        lemma_digits_value_lt(s.drop_last());
    }
}

proof fn lemma_digit_run(s: Seq<char>, i: int)
    requires
        0 <= i <= s.len(),
    ensures
        i + digit_run(s, i) <= s.len(),
        forall|k: int| i <= k < i + digit_run(s, i) ==> is_digit(#[trigger] s[k]),
        i + digit_run(s, i) < s.len() ==> !is_digit(s[i + digit_run(s, i)]),
    decreases s.len() - i,
{
    if i < s.len() && is_digit(s[i]) {
        lemma_digit_run(s, i + 1);
    }
}

/// Number of consecutive ASCII digits of `s` from position `i`.
fn digit_run_at(s: &str, i: usize) -> (n: usize)
    requires
        i <= s@.len(),
    ensures
        n == digit_run(s@, i as int),
{
    let len = s.unicode_len();
    let mut j = i;
    while j < len && s.get_char(j) >= '0' && s.get_char(j) <= '9'
        invariant
            i <= j <= len,
            len == s@.len(),
            digit_run(s@, i as int) == (j - i) + digit_run(s@, j as int),
        decreases len - j,
    {
        j = j + 1;
    }
    j - i
}

/// The value of the digits `s[lo..hi]`, at most three of them.
fn small_digits_value(s: &str, lo: usize, hi: usize) -> (v: u32)
    requires
        lo <= hi <= s@.len(),
        hi - lo <= 3,
        forall|k: int| lo <= k < hi ==> is_digit(#[trigger] s@[k]),
    ensures
        v == digits_value(s@.subrange(lo as int, hi as int)),
        v < 1000,
{
    let mut acc: u32 = 0;
    let mut j = lo;
    while j < hi
        invariant
            lo <= j <= hi <= s@.len(),
            hi - lo <= 3,
            forall|k: int| lo <= k < hi ==> is_digit(#[trigger] s@[k]),
            acc == digits_value(s@.subrange(lo as int, j as int)),
            acc < pow10((j - lo) as nat),
        decreases hi - j,
    {
        let c = s.get_char(j);
        assert(is_digit(s@[j as int]));
        assert(s@.subrange(lo as int, j + 1).drop_last() =~= s@.subrange(lo as int, j as int));
        assert(pow10((j - lo) as nat) <= 100) by {
            reveal_with_fuel(pow10, 3);
        }
        acc = acc * 10 + ((c as u32) - ('0' as u32));
        j = j + 1;
    }
    assert(pow10((hi - lo) as nat) <= 1000) by {
        reveal_with_fuel(pow10, 4);
    }
    acc
}

/// The time tag starting at `p`, if there is one (see [`tag_at`]).
pub fn parse_tag(line: &str, p: usize) -> (r: Option<(u32, usize)>)
    requires
        p <= line@.len(),
    ensures
        match tag_at(line@, p as int) {
            Some((t, e)) => r matches Some((rt, re)) && rt == t && re as int == e && p < e <= line@.len(),
            None => r is None,
        },
{
    let len = line.unicode_len();
    if p >= len || line.get_char(p) != '[' {
        return None;
    }
    let a = p + 1;
    let n1 = digit_run_at(line, a);
    proof {
        lemma_digit_run(line@, a as int);
    }
    if n1 < 1 || n1 > 3 || a + n1 >= len || line.get_char(a + n1) != ':' {
        return None;
    }
    let b = a + n1 + 1;
    let n2 = digit_run_at(line, b);
    proof {
        lemma_digit_run(line@, b as int);
    }
    if n2 < 1 || n2 > 2 || b + n2 >= len {
        return None;
    }
    let c = b + n2;
    let mm = small_digits_value(line, a, a + n1);
    let ss = small_digits_value(line, b, c);
    let base: u32 = mm * 60000 + ss * 1000;
    let close = line.get_char(c);
    if close == ']' {
        return Some((base, c + 1));
    }
    if close != '.' {
        return None;
    }
    let n3 = digit_run_at(line, c + 1);
    proof {
        lemma_digit_run(line@, c + 1);
    }
    if n3 < 1 || n3 > 3 || c + 1 + n3 >= len || line.get_char(c + 1 + n3) != ']' {
        return None;
    }
    let f = small_digits_value(line, c + 1, c + 1 + n3);
    let frac: u32 = if n3 == 1 {
        f * 100
    } else if n3 == 2 {
        f * 10
    } else {
        f
    };
    Some((base + frac, c + 2 + n3))
}

/// The times of the tags opening `line`, and where they end.
pub fn parse_tags(line: &str) -> (r: (Vec<u32>, usize))
    ensures
        r.0@ == tags_from(line@, 0).0,
        r.1 == tags_from(line@, 0).1,
        r.1 <= line@.len(),
{
    let mut times: Vec<u32> = Vec::new();
    let mut p: usize = 0;
    loop
        invariant
            p <= line@.len(),
            tags_from(line@, 0).0 == times@ + tags_from(line@, p as int).0,
            tags_from(line@, 0).1 == tags_from(line@, p as int).1,
        decreases line@.len() - p,
    {
        match parse_tag(line, p) {
            Some((t, e)) => {
                proof {
                    assert(tag_at(line@, p as int) == Some((t, e as int)));
                    assert(p < e <= line@.len());
                    assert(tags_from(line@, p as int) == (seq![t] + tags_from(line@, e as int).0, tags_from(line@, e as int).1));
                    assert(tags_from(line@, p as int).0 =~= seq![t] + tags_from(line@, e as int).0);
                    assert(times@ + tags_from(line@, p as int).0 =~= times@.push(t) + tags_from(line@, e as int).0);
                }
                times.push(t);
                p = e;
            },
            None => {
                assert(times@ + tags_from(line@, p as int).0 =~= times@);
                return (times, p);
            },
        }
    }
}

/// The entries of one LRC line (see [`line_entries`]).
fn parse_lrc_line(line: &str, out: &mut Vec<LyricsLine>)
    ensures
        line_views(final(out)@) == line_views(old(out)@) + line_entries(line@),
{
    let (times, end) = parse_tags(line);
    let len = line.unicode_len();
    let text = trimmed_substring(line, end, len);
    let ghost before = line_views(out@);
    if times.len() == 0 {
        out.push(LyricsLine { time_ms: None, text });
        assert(line_views(out@) =~= before + line_entries(line@));
        return;
    }
    let mut i: usize = 0;
    while i < times.len()
        invariant
            i <= times@.len(),
            times@.len() > 0,
            times@ == tags_from(line@, 0).0,
            text@ == trim_ws(line@.subrange(tags_from(line@, 0).1, line@.len() as int)),
            line_views(out@) == before + times@.take(i as int).map_values(|t: u32| (Some(t), text@)),
        decreases times@.len() - i,
    {
        let ghost prev = out@;
        out.push(LyricsLine { time_ms: Some(times[i]), text: text.clone() });
        proof {
            assert(line_views(out@) =~= line_views(prev).push((Some(times@[i as int]), text@)));
            assert(times@.take(i + 1).map_values(|t: u32| (Some(t), text@)) =~= times@.take(i as int).map_values(|t: u32| (Some(t), text@)).push((Some(times@[i as int]), text@)));
        }
        i = i + 1;
    }
    assert(times@.take(times@.len() as int) =~= times@);
}

/// The views of keyed lines.
pub open spec fn keyed_views(s: Seq<(u32, LyricsLine)>) -> Seq<(u32, (Option<u32>, Seq<char>))> {
    s.map_values(|p: (u32, LyricsLine)| (p.0, p.1@))
}

/// Inserts `x` into `sorted` after every element whose key is not greater.
fn insert_stable(sorted: &mut Vec<(u32, LyricsLine)>, x: (u32, LyricsLine))
    ensures
        keyed_views(final(sorted)@) == keyed_views(old(sorted)@).insert(
            first_greater(keyed_views(old(sorted)@), x.0, 0),
            (x.0, x.1@),
        ),
{
    let ghost sv = keyed_views(sorted@);
    let mut j: usize = 0;
    while j < sorted.len() && sorted[j].0 <= x.0
        invariant
            j <= sorted@.len(),
            sv == keyed_views(sorted@),
            first_greater(sv, x.0, 0) == first_greater(sv, x.0, j as int),
        decreases sorted@.len() - j,
    {
        j = j + 1;
    }
    let ghost k = x.0;
    let ghost v = x.1@;
    sorted.insert(j, x);
    proof {
        assert(keyed_views(sorted@) =~= sv.insert(j as int, (k, v)));
    }
}

/// Parses LRC text: `[mm:ss.xx]` tags at the start of a line. A line with
/// several tags yields one line per tag, each with the line's trimmed text;
/// untagged lines (and metadata) yield one untimed line. The result is
/// sorted by time, stably, an untimed line keyed by the nearest timed line
/// before it so that it stays with its stanza.
pub fn parse_lrc(raw: &str) -> (r: Vec<LyricsLine>)
    ensures
        line_views(r@) == lrc_lines(raw@),
{
    let bounds = line_bounds(raw);
    let ghost ls = lines_of(raw@);
    let mut entries: Vec<LyricsLine> = Vec::new();
    let mut k: usize = 0;
    while k < bounds.len()
        invariant
            ls == lines_of(raw@),
            bounds@.len() == ls.len(),
            forall|m: int| 0 <= m < bounds@.len() ==> delimits(raw@, #[trigger] bounds@[m], ls[m]),
            k <= bounds@.len(),
            line_views(entries@) == entries_of(ls.take(k as int)),
        decreases bounds@.len() - k,
    {
        let (lo, hi) = bounds[k];
        proof {
            assert(delimits(raw@, bounds@[k as int], ls[k as int]));
        }
        let line = crate::text::substring(raw, lo, hi);
        parse_lrc_line(line.as_str(), &mut entries);
        proof {
            assert(ls.take(k + 1).drop_last() =~= ls.take(k as int));
            assert(ls.take(k + 1).last() == ls[k as int]);
        }
        k = k + 1;
    }
    proof {
        assert(ls.take(ls.len() as int) =~= ls);
    }
    let ghost es = entries_of(ls);
    let ghost keyed = keyed_entries(es);
    let mut sorted: Vec<(u32, LyricsLine)> = Vec::new();
    let mut last: u32 = 0;
    let mut i: usize = 0;
    while i < entries.len()
        invariant
            es == line_views(entries@),
            keyed == keyed_entries(es),
            i <= entries@.len(),
            last == last_time_before(es, i as int),
            keyed_views(sorted@) == stable_sorted(keyed.take(i as int)),
        decreases entries@.len() - i,
    {
        let e = &entries[i];
        let key = match e.time_ms {
            Some(t) => t,
            None => last,
        };
        proof {
            assert(es[i as int] == e@);
            assert(key == sort_key(es, i as int));
            assert(keyed.take(i + 1).drop_last() =~= keyed.take(i as int));
            assert(keyed.take(i + 1).last() == (key, e@));
        }
        insert_stable(&mut sorted, (key, LyricsLine { time_ms: e.time_ms, text: e.text.clone() }));
        last = key;
        i = i + 1;
    }
    proof {
        assert(keyed.take(keyed.len() as int) =~= keyed);
    }
    let ghost sv = keyed_views(sorted@);
    let mut out: Vec<LyricsLine> = Vec::new();
    let ghost mut taken: int = 0;
    while sorted.len() > 0
        invariant
            0 <= taken <= sv.len(),
            keyed_views(sorted@) == sv.skip(taken),
            line_views(out@) == sv.take(taken).map_values(|p: (u32, (Option<u32>, Seq<char>))| p.1),
        decreases sorted@.len(),
    {
        proof {
            assert(keyed_views(sorted@).len() == sorted@.len());
            assert(taken < sv.len());
            assert(keyed_views(sorted@)[0] == (sorted@[0].0, sorted@[0].1@));
        }
        let (_, line) = sorted.remove(0);
        proof {
            assert(sv.skip(taken)[0] == sv[taken]);
            assert(sv.skip(taken + 1) =~= sv.skip(taken).drop_first());
            assert(sv.take(taken + 1).map_values(|p: (u32, (Option<u32>, Seq<char>))| p.1) =~= sv.take(taken).map_values(|p: (u32, (Option<u32>, Seq<char>))| p.1).push(sv[taken].1));
        }
        let ghost prev = out@;
        out.push(line);
        proof {
            assert(line_views(out@) =~= line_views(prev).push(sv[taken].1));
            taken = taken + 1;
        }
    }
    proof {
        assert(sv.take(taken) =~= sv);
    }
    out
}

/// Keys never decrease along `s`.
pub open spec fn keys_sorted<L>(s: Seq<(u32, L)>) -> bool {
    forall|i: int, j: int| 0 <= i <= j < s.len() ==> s[i].0 <= s[j].0
}

proof fn lemma_first_greater<L>(s: Seq<(u32, L)>, k: u32, j: int)
    requires
        0 <= j <= s.len(),
    ensures
        j <= first_greater(s, k, j) <= s.len(),
        forall|m: int| j <= m < first_greater(s, k, j) ==> s[m].0 <= k,
        first_greater(s, k, j) < s.len() ==> s[first_greater(s, k, j)].0 > k,
    decreases s.len() - j,
{
    if j < s.len() && s[j].0 <= k {
        lemma_first_greater(s, k, j + 1);
    }
}

/// Stable sorting by key yields keys in non-decreasing order and keeps the
/// length.
pub proof fn law_stable_sorted_is_sorted<L>(s: Seq<(u32, L)>)
    ensures
        keys_sorted(stable_sorted(s)),
        stable_sorted(s).len() == s.len(),
    decreases s.len(),
{
    if s.len() > 0 {
        let r = stable_sorted(s.drop_last());
        law_stable_sorted_is_sorted(s.drop_last());
        let x = s.last();
        let pos = first_greater(r, x.0, 0);
        lemma_first_greater(r, x.0, 0);
        let out = r.insert(pos, x);
        r.insert_ensures(pos, x);
        assert forall|i: int, j: int| 0 <= i <= j < out.len() implies out[i].0 <= out[j].0 by {
            if i < pos && j < pos {
            } else if i < pos && j == pos {
            } else if i < pos {
                assert(out[j] == r[j - 1]);
            } else if i == pos && j == pos {
            } else if i == pos {
                assert(out[j] == r[j - 1]);
                assert(r[pos].0 > x.0);
                assert(r[pos].0 <= r[j - 1].0);
            } else {
                assert(out[i] == r[i - 1]);
                assert(out[j] == r[j - 1]);
            }
        }
    }
}

/// On input whose keys already never decrease, stable sorting changes
/// nothing: an ordered LRC file keeps its line order.
pub proof fn law_stable_sorted_noop_on_sorted<L>(s: Seq<(u32, L)>)
    requires
        keys_sorted(s),
    ensures
        stable_sorted(s) == s,
    decreases s.len(),
{
    if s.len() > 0 {
        let d = s.drop_last();
        assert(keys_sorted(d));
        law_stable_sorted_noop_on_sorted(d);
        let x = s.last();
        lemma_first_greater(d, x.0, 0);
        let pos = first_greater(d, x.0, 0);
        if pos < d.len() {
            assert(d[pos].0 <= x.0);
        }
        assert(pos == d.len());
        assert(d.insert(pos, x) =~= s);
    }
}

/// The timed entries of `es` never go back in time.
pub open spec fn times_ordered(es: Seq<(Option<u32>, Seq<char>)>) -> bool {
    forall|i: int, j: int| 0 <= i <= j < es.len() && (#[trigger] es[i]).0 is Some && (#[trigger] es[j]).0 is Some
        ==> es[i].0->0 <= es[j].0->0
}

/// Law: an untimed entry (a stanza break or untagged line) is keyed by the
/// time of the nearest timed entry before it, and by 0 when none precedes
/// it.
pub proof fn law_untimed_key_is_nearest_time_before(es: Seq<(Option<u32>, Seq<char>)>, i: int)
    requires
        0 <= i < es.len(),
        es[i].0 is None,
    ensures
        forall|m: int| 0 <= m < i && (#[trigger] es[m]).0 is Some
            && (forall|k: int| m < k < i ==> es[k].0 is None) ==> sort_key(es, i) == es[m].0->0,
        (forall|k: int| 0 <= k < i ==> (#[trigger] es[k]).0 is None) ==> sort_key(es, i) == 0,
{
    assert forall|m: int| 0 <= m < i && (#[trigger] es[m]).0 is Some
        && (forall|k: int| m < k < i ==> es[k].0 is None) implies last_time_before(es, i) == es[m].0->0 by {
        lemma_last_time_before_nearest(es, i, m);
    }
    if forall|k: int| 0 <= k < i ==> (#[trigger] es[k]).0 is None {
        lemma_last_time_before_none(es, i);
    }
}

proof fn lemma_last_time_before_nearest(es: Seq<(Option<u32>, Seq<char>)>, i: int, m: int)
    requires
        0 <= m < i <= es.len(),
        es[m].0 is Some,
        forall|k: int| m < k < i ==> (#[trigger] es[k]).0 is None,
    ensures
        last_time_before(es, i) == es[m].0->0,
    decreases i,
{
    if i - 1 > m {
        assert(es[i - 1].0 is None);
        lemma_last_time_before_nearest(es, i - 1, m);
    }
}

proof fn lemma_last_time_before_none(es: Seq<(Option<u32>, Seq<char>)>, i: int)
    requires
        0 <= i <= es.len(),
        forall|k: int| 0 <= k < i ==> (#[trigger] es[k]).0 is None,
    ensures
        last_time_before(es, i) == 0,
    decreases i,
{
    if i > 0 {
        assert(es[i - 1].0 is None);
        lemma_last_time_before_none(es, i - 1);
    }
}

proof fn lemma_last_time_before_bounds(es: Seq<(Option<u32>, Seq<char>)>, i: int)
    requires
        0 <= i <= es.len(),
        times_ordered(es),
    ensures
        last_time_before(es, i) == 0 || exists|m: int| 0 <= m < i && (#[trigger] es[m]).0 == Some(last_time_before(es, i)),
        forall|m: int| 0 <= m < i && (#[trigger] es[m]).0 is Some ==> es[m].0->0 <= last_time_before(es, i),
    decreases i,
{
    if i > 0 {
        lemma_last_time_before_bounds(es, i - 1);
        match es[i - 1].0 {
            Some(t) => {
                assert(es[i - 1].0 == Some(last_time_before(es, i)));
                assert forall|m: int| 0 <= m < i && (#[trigger] es[m]).0 is Some implies es[m].0->0 <= last_time_before(es, i) by {
                    if m < i - 1 {
                        assert(es[m].0->0 <= es[i - 1].0->0);
                    }
                }
            },
            None => {
                if last_time_before(es, i) != 0 {
                    let m = choose|m: int| 0 <= m < i - 1 && (#[trigger] es[m]).0 == Some(last_time_before(es, i - 1));
                    assert(es[m].0 == Some(last_time_before(es, i)));
                }
            },
        }
    }
}

proof fn lemma_keys_sorted_when_times_ordered(es: Seq<(Option<u32>, Seq<char>)>)
    requires
        times_ordered(es),
    ensures
        keys_sorted(keyed_entries(es)),
{
    let ks = keyed_entries(es);
    assert forall|i: int, j: int| 0 <= i <= j < ks.len() implies ks[i].0 <= ks[j].0 by {
        lemma_last_time_before_bounds(es, i);
        lemma_last_time_before_bounds(es, j);
        assert(ks[i].0 == sort_key(es, i));
        assert(ks[j].0 == sort_key(es, j));
        // Every timed entry up to `j` is no later than `j`'s key.
        assert forall|m: int| 0 <= m <= j && (#[trigger] es[m]).0 is Some implies es[m].0->0 <= sort_key(es, j) by {
            if es[j].0 is Some {
                assert(es[m].0->0 <= es[j].0->0);
            }
        }
        // `i`'s key is 0 or the time of a timed entry up to `i`.
        if es[i].0 is None && sort_key(es, i) != 0 {
            let m = choose|m: int| 0 <= m < i && (#[trigger] es[m]).0 == Some(last_time_before(es, i));
            assert(es[m].0->0 <= sort_key(es, j));
        }
    }
}

/// Law: LRC text whose timed lines never go back in time comes out in
/// input order: each stanza break stays after the stanza it closes.
pub proof fn law_ordered_lrc_keeps_input_order(raw: Seq<char>)
    requires
        times_ordered(entries_of(lines_of(raw))),
    ensures
        lrc_lines(raw) == entries_of(lines_of(raw)),
{
    let es = entries_of(lines_of(raw));
    let ks = keyed_entries(es);
    lemma_keys_sorted_when_times_ordered(es);
    law_stable_sorted_noop_on_sorted(ks);
    assert(ks.map_values(|p: (u32, (Option<u32>, Seq<char>))| p.1) =~= es);
}

/// The untimed lines of plain lyrics, one per line of the text.
pub open spec fn plain_lines(raw: Seq<char>) -> Seq<(Option<u32>, Seq<char>)> {
    lines_of(raw).map_values(|l: Seq<char>| (None::<u32>, l))
}

/// The lyrics an LRClib answer yields: the synced lyrics when non-empty
/// (parsed as LRC), else the plain lyrics when non-empty (one untimed line
/// per line), else nothing.
pub fn lyrics_from_response(track_id: &str, synced: Option<String>, plain: Option<String>) -> (r: Option<Lyrics>)
    ensures
        match (synced, plain) {
            (Some(s), _) if s@.len() > 0 => r matches Some(l) && l.synced && l.track_id@ == track_id@
                && line_views(l.lines@) == lrc_lines(s@),
            (_, Some(p)) if p@.len() > 0 => r matches Some(l) && !l.synced && l.track_id@ == track_id@
                && line_views(l.lines@) == plain_lines(p@),
            _ => r is None,
        },
{
    match &synced {
        Some(s) => {
            if s.as_str().unicode_len() > 0 {
                let lines = parse_lrc(s.as_str());
                return Some(Lyrics { track_id: String::from_str(track_id), lines, synced: true });
            }
        },
        None => {},
    }
    match &plain {
        Some(p) => {
            if p.as_str().unicode_len() > 0 {
                let bounds = line_bounds(p.as_str());
                let ghost ls = lines_of(p@);
                let mut lines: Vec<LyricsLine> = Vec::new();
                let mut k: usize = 0;
                while k < bounds.len()
                    invariant
                        ls == lines_of(p@),
                        bounds@.len() == ls.len(),
                        forall|m: int| 0 <= m < bounds@.len() ==> delimits(p@, #[trigger] bounds@[m], ls[m]),
                        k <= bounds@.len(),
                        line_views(lines@) == plain_lines(p@).take(k as int),
                    decreases bounds@.len() - k,
                {
                    let (lo, hi) = bounds[k];
                    proof {
                        assert(delimits(p@, bounds@[k as int], ls[k as int]));
                    }
                    let text = crate::text::substring(p.as_str(), lo, hi);
                    let ghost prev = lines@;
                    lines.push(LyricsLine { time_ms: None, text });
                    proof {
                        assert(line_views(lines@) =~= line_views(prev).push((None::<u32>, ls[k as int])));
                        assert(plain_lines(p@).take(k + 1) =~= plain_lines(p@).take(k as int).push((None::<u32>, ls[k as int])));
                    }
                    k = k + 1;
                }
                assert(plain_lines(p@).take(bounds@.len() as int) =~= plain_lines(p@));
                return Some(Lyrics { track_id: String::from_str(track_id), lines, synced: false });
            }
        },
        None => {},
    }
    None
}

/// The retry policy of an LRClib fetch: three attempts in all, backing off
/// from 400 ms, capped at four seconds.
pub fn lrclib_retry_config() -> (r: RetryConfig)
    ensures
        r.max_attempts == 3,
        r.base_delay_ms == 400,
        r.max_delay_ms == 4_000,
{
    RetryConfig { max_attempts: 3, base_delay_ms: 400, max_delay_ms: 4_000 }
}

} // verus!
