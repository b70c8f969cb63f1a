//! Character-sequence utilities: lexicographic order, searching, trimming.

use vstd::prelude::*;

verus! {

/// Strict lexicographic order on character sequences, by code point.
pub open spec fn seq_lt(a: Seq<char>, b: Seq<char>) -> bool
    decreases a.len(),
{
    if a.len() == 0 {
        b.len() > 0
    } else if b.len() == 0 {
        false
    } else if a[0] != b[0] {
        a[0] < b[0]
    } else {
        seq_lt(a.drop_first(), b.drop_first())
    }
}

/// `seq_lt` is irreflexive.
pub proof fn lemma_seq_lt_irreflexive(a: Seq<char>)
    ensures
        !seq_lt(a, a),
    decreases a.len(),
{
    if a.len() > 0 {
        lemma_seq_lt_irreflexive(a.drop_first());
    }
}

/// `seq_lt` is transitive.
pub proof fn lemma_seq_lt_transitive(a: Seq<char>, b: Seq<char>, c: Seq<char>)
    requires
        seq_lt(a, b),
        seq_lt(b, c),
    ensures
        seq_lt(a, c),
    decreases a.len(),
{
    if a.len() > 0 && b.len() > 0 && c.len() > 0 {
        if a[0] == b[0] && b[0] == c[0] {
            lemma_seq_lt_transitive(a.drop_first(), b.drop_first(), c.drop_first());
        }
    }
}

/// Any two distinct sequences are ordered one way or the other.
pub proof fn lemma_seq_lt_total(a: Seq<char>, b: Seq<char>)
    ensures
        a == b || seq_lt(a, b) || seq_lt(b, a),
    decreases a.len(),
{
    if a.len() > 0 && b.len() > 0 {
        if a[0] == b[0] {
            lemma_seq_lt_total(a.drop_first(), b.drop_first());
            if a.drop_first() == b.drop_first() {
                assert(a =~= seq![a[0]] + a.drop_first());
                assert(b =~= seq![b[0]] + b.drop_first());
            }
        } else {
            assert(a[0] < b[0] || b[0] < a[0]);
        }
    } else if a.len() == 0 && b.len() == 0 {
        assert(a =~= b);
    }
}

/// `seq_lt` is asymmetric.
pub proof fn lemma_seq_lt_asymmetric(a: Seq<char>, b: Seq<char>)
    requires
        seq_lt(a, b),
    ensures
        !seq_lt(b, a),
{
    if seq_lt(b, a) {
        lemma_seq_lt_transitive(a, b, a);
        lemma_seq_lt_irreflexive(a);
    }
}

/// Membership in a prefix grown by one element.
pub proof fn lemma_take_succ_contains<A>(s: Seq<A>, i: int)
    requires
        0 <= i < s.len(),
    ensures
        forall|x: A| #[trigger] s.take(i + 1).contains(x) <==> (s.take(i).contains(x) || x == s[i]),
{
    assert forall|x: A| #[trigger] s.take(i + 1).contains(x) <==> (s.take(i).contains(x) || x == s[i]) by {
        if s.take(i + 1).contains(x) {
            let j = choose|j: int| 0 <= j < i + 1 && #[trigger] s.take(i + 1)[j] == x;
            if j < i {
                assert(s.take(i)[j] == x);
            }
        }
        if s.take(i).contains(x) {
            let j = choose|j: int| 0 <= j < i && #[trigger] s.take(i)[j] == x;
            assert(s.take(i + 1)[j] == x);
        }
        if x == s[i] {
            assert(s.take(i + 1)[i] == x);
        }
    }
}

/// `p` is a prefix of `s`.
pub open spec fn is_prefix(p: Seq<char>, s: Seq<char>) -> bool {
    p.len() <= s.len() && s.subrange(0, p.len() as int) == p
}

/// `p` is a suffix of `s`.
pub open spec fn is_suffix(p: Seq<char>, s: Seq<char>) -> bool {
    p.len() <= s.len() && s.subrange(s.len() - p.len(), s.len() as int) == p
}

/// Whether `s` begins with `p`.
pub fn str_starts_with(s: &str, p: &str) -> (r: bool)
    ensures
        r == is_prefix(p@, s@),
{
    let x = chars_of(s);
    let y = chars_of(p);
    if y.len() > x.len() {
        return false;
    }
    let mut i: usize = 0;
    while i < y.len()
        invariant
            x@ == s@,
            y@ == p@,
            y.len() <= x.len(),
            i <= y.len(),
            forall|j: int| 0 <= j < i ==> x@[j] == y@[j],
        decreases y.len() - i,
    {
        if x[i] != y[i] {
            assert(s@.subrange(0, p@.len() as int)[i as int] != p@[i as int]);
            return false;
        }
        i = i + 1;
    }
    assert(s@.subrange(0, p@.len() as int) =~= p@);
    true
}

/// Whether `s` ends with `p`.
pub fn str_ends_with(s: &str, p: &str) -> (r: bool)
    ensures
        r == is_suffix(p@, s@),
{
    let x = chars_of(s);
    let y = chars_of(p);
    if y.len() > x.len() {
        return false;
    }
    let off = x.len() - y.len();
    let mut i: usize = 0;
    while i < y.len()
        invariant
            x@ == s@,
            y@ == p@,
            y.len() <= x.len(),
            off == x.len() - y.len(),
            i <= y.len(),
            forall|j: int| 0 <= j < i ==> x@[off + j] == y@[j],
        decreases y.len() - i,
    {
        if x[off + i] != y[i] {
            assert(s@.subrange(s@.len() - p@.len(), s@.len() as int)[i as int] != p@[i as int]);
            return false;
        }
        i = i + 1;
    }
    assert(s@.subrange(s@.len() - p@.len(), s@.len() as int) =~= p@);
    true
}

/// `String::push` (std): appends one character to the string.
#[verifier::external_body]
pub(crate) fn push_char(s: &mut String, c: char)
    ensures
        final(s)@ == old(s)@.push(c),
{
    s.push(c);
}

/// A fresh string holding `a` followed by `b`.
pub fn concat_str(a: &str, b: &str) -> (r: String)
    ensures
        r@ == a@ + b@,
{
    let mut out = String::from_str(a);
    out.append(b);
    out
}

/// `base` joined with the relative path component `part`, a separator added
/// only where `base` is non-empty and does not already end in one.
pub open spec fn path_join(base: Seq<char>, part: Seq<char>) -> Seq<char> {
    if base.len() == 0 {
        part
    } else if base.last() == '/' {
        base + part
    } else {
        base + seq!['/'] + part
    }
}

/// Joins a relative path component onto `base`.
pub fn join_path(base: &str, part: &str) -> (r: String)
    ensures
        r@ == path_join(base@, part@),
{
    let n = base.unicode_len();
    if n == 0 {
        return String::from_str(part);
    }
    let mut out = String::from_str(base);
    if base.get_char(n - 1) != '/' {
        out.append("/");
        proof {
            reveal_strlit("/");
        }
    }
    out.append(part);
    out
}

/// The characters of a string, in order.
pub fn chars_of(s: &str) -> (r: Vec<char>)
    ensures
        r@ == s@,
{
    let n = s.unicode_len();
    let mut out: Vec<char> = Vec::new();
    let mut i: usize = 0;
    while i < n
        invariant
            n == s@.len(),
            i <= n,
            out@ == s@.take(i as int),
        decreases n - i,
    {
        let c = s.get_char(i);
        out.push(c);
        i = i + 1;
        assert(out@ =~= s@.take(i as int));
    }
    assert(out@ =~= s@);
    out
}

/// Whether `a` sorts strictly before `b`.
pub fn str_less(a: &str, b: &str) -> (r: bool)
    ensures
        r == seq_lt(a@, b@),
{
    let x = chars_of(a);
    let y = chars_of(b);
    let mut i: usize = 0;
    assert(a@.skip(0) =~= a@);
    assert(b@.skip(0) =~= b@);
    while i < x.len() && i < y.len()
        invariant
            x@ == a@,
            y@ == b@,
            i <= x.len(),
            i <= y.len(),
            seq_lt(a@, b@) == seq_lt(a@.skip(i as int), b@.skip(i as int)),
        decreases x.len() - i,
    {
        if x[i] != y[i] {
            return x[i] < y[i];
        }
        assert(a@.skip(i as int).drop_first() =~= a@.skip(i + 1));
        assert(b@.skip(i as int).drop_first() =~= b@.skip(i + 1));
        i = i + 1;
    }
    i == x.len() && i < y.len()
}

/// Whether two strings hold the same characters.
pub fn str_eq(a: &str, b: &str) -> (r: bool)
    ensures
        r == (a@ == b@),
{
    let x = chars_of(a);
    let y = chars_of(b);
    if x.len() != y.len() {
        return false;
    }
    let mut i: usize = 0;
    while i < x.len()
        invariant
            x@ == a@,
            y@ == b@,
            x.len() == y.len(),
            i <= x.len(),
            forall|j: int| 0 <= j < i ==> x@[j] == y@[j],
        decreases x.len() - i,
    {
        if x[i] != y[i] {
            return false;
        }
        i = i + 1;
    }
    assert(a@ =~= b@);
    true
}

/// The Unicode `White_Space` characters, as `char::is_whitespace` tests.
pub open spec fn is_white_space(c: char) -> bool {
    ('\u{9}' <= c <= '\u{d}') || c == ' ' || c == '\u{85}' || c == '\u{a0}' || c == '\u{1680}'
        || ('\u{2000}' <= c <= '\u{200a}') || c == '\u{2028}' || c == '\u{2029}' || c == '\u{202f}'
        || c == '\u{205f}' || c == '\u{3000}'
}

/// Whether `c` is a Unicode white-space character.
pub fn char_is_white_space(c: char) -> (r: bool)
    ensures
        r == is_white_space(c),
{
    ('\u{9}' <= c && c <= '\u{d}') || c == ' ' || c == '\u{85}' || c == '\u{a0}' || c == '\u{1680}'
        || ('\u{2000}' <= c && c <= '\u{200a}') || c == '\u{2028}' || c == '\u{2029}' || c == '\u{202f}'
        || c == '\u{205f}' || c == '\u{3000}'
}

/// `s` holds nothing but white space (its trimmed form is empty).
pub open spec fn is_blank(s: Seq<char>) -> bool {
    forall|i: int| 0 <= i < s.len() ==> is_white_space(#[trigger] s[i])
}

/// Whether `s` is empty once trimmed of white space.
pub fn str_is_blank(s: &str) -> (r: bool)
    ensures
        r == is_blank(s@),
{
    let n = s.unicode_len();
    let mut i: usize = 0;
    while i < n
        invariant
            n == s@.len(),
            i <= n,
            forall|j: int| 0 <= j < i ==> is_white_space(#[trigger] s@[j]),
        decreases n - i,
    {
        if !char_is_white_space(s.get_char(i)) {
            return false;
        }
        i = i + 1;
    }
    true
}

/// `s` without its leading white space.
pub open spec fn trim_start_ws(s: Seq<char>) -> Seq<char>
    decreases s.len(),
{
    if s.len() > 0 && is_white_space(s[0]) {
        trim_start_ws(s.drop_first())
    } else {
        s
    }
}

/// `s` without its trailing white space.
pub open spec fn trim_end_ws(s: Seq<char>) -> Seq<char>
    decreases s.len(),
{
    if s.len() > 0 && is_white_space(s.last()) {
        trim_end_ws(s.drop_last())
    } else {
        s
    }
}

/// `s` without leading and trailing white space, as `str::trim` gives it.
pub open spec fn trim_ws(s: Seq<char>) -> Seq<char> {
    trim_end_ws(trim_start_ws(s))
}

/// A fresh string holding `s[lo..hi]`.
pub fn substring(s: &str, lo: usize, hi: usize) -> (r: String)
    requires
        lo <= hi <= s@.len(),
    ensures
        r@ == s@.subrange(lo as int, hi as int),
{
    let mut out = String::new();
    let mut i: usize = lo;
    while i < hi
        invariant
            lo <= i <= hi <= s@.len(),
            out@ == s@.subrange(lo as int, i as int),
        decreases hi - i,
    {
        push_char(&mut out, s.get_char(i));
        i = i + 1;
        assert(out@ =~= s@.subrange(lo as int, i as int));
    }
    out
}

/// `s[lo..hi]` with surrounding white space removed.
pub fn trimmed_substring(s: &str, lo: usize, hi: usize) -> (r: String)
    requires
        lo <= hi <= s@.len(),
    ensures
        r@ == trim_ws(s@.subrange(lo as int, hi as int)),
{
    let ghost whole = s@.subrange(lo as int, hi as int);
    let mut a: usize = lo;
    assert(s@.subrange(a as int, hi as int) =~= whole);
    while a < hi && char_is_white_space(s.get_char(a))
        invariant
            lo <= a <= hi <= s@.len(),
            trim_start_ws(whole) == trim_start_ws(s@.subrange(a as int, hi as int)),
        decreases hi - a,
    {
        assert(s@.subrange(a as int, hi as int).drop_first() =~= s@.subrange(a + 1, hi as int));
        a = a + 1;
    }
    assert(trim_start_ws(whole) == s@.subrange(a as int, hi as int));
    let mut b: usize = hi;
    while b > a && char_is_white_space(s.get_char(b - 1))
        invariant
            lo <= a <= b <= hi <= s@.len(),
            trim_ws(whole) == trim_end_ws(s@.subrange(a as int, b as int)),
        decreases b - a,
    {
        assert(s@.subrange(a as int, b as int).drop_last() =~= s@.subrange(a as int, b - 1));
        b = b - 1;
    }
    substring(s, a, b)
}

/// Index of the first `'\n'` at or after `i` (the length when there is none).
pub open spec fn line_end(s: Seq<char>, i: int) -> int
    decreases s.len() - i,
{
    if i >= s.len() || s[i] == '\n' {
        i
    } else {
        line_end(s, i + 1)
    }
}

/// The lines of `s` from position `i` on: split at `'\n'`, each line without
/// its terminator (and without a `'\r'` that precedes a `'\n'`); a final line
/// terminator starts no further line.
pub open spec fn lines_from(s: Seq<char>, i: int) -> Seq<Seq<char>>
    decreases s.len() - i,
{
    if i < 0 || i >= s.len() {
        Seq::empty()
    } else {
        let j = line_end(s, i);
        proof {
            lemma_line_end_bounds(s, i);
        }
        let raw = s.subrange(i, j);
        let line = if j < s.len() && raw.len() > 0 && raw.last() == '\r' {
            raw.drop_last()
        } else {
            raw
        };
        if j < s.len() {
            seq![line] + lines_from(s, j + 1)
        } else {
            seq![line]
        }
    }
}

/// The lines of `s`, as `str::lines` yields them.
pub open spec fn lines_of(s: Seq<char>) -> Seq<Seq<char>> {
    lines_from(s, 0)
}

pub proof fn lemma_line_end_bounds(s: Seq<char>, i: int)
    requires
        0 <= i <= s.len(),
    ensures
        i <= line_end(s, i) <= s.len(),
        line_end(s, i) < s.len() ==> s[line_end(s, i)] == '\n',
        forall|k: int| i <= k < line_end(s, i) ==> s[k] != '\n',
    decreases s.len() - i,
{
    if i < s.len() && s[i] != '\n' {
        lemma_line_end_bounds(s, i + 1);
    }
}

/// `b` delimits `line` within `s`.
pub open spec fn delimits(s: Seq<char>, b: (usize, usize), line: Seq<char>) -> bool {
    b.0 <= b.1 <= s.len() && line == s.subrange(b.0 as int, b.1 as int)
}

/// The line boundaries of `s`: for each line, its start and its end (the
/// end excludes the terminator and a `'\r'` before it).
pub fn line_bounds(s: &str) -> (r: Vec<(usize, usize)>)
    ensures
        r@.len() == lines_of(s@).len(),
        forall|k: int| 0 <= k < r@.len() ==> delimits(s@, #[trigger] r@[k], lines_of(s@)[k]),
{
    let n = s.unicode_len();
    let mut out: Vec<(usize, usize)> = Vec::new();
    let mut i: usize = 0;
    while i < n
        invariant
            n == s@.len(),
            i <= n,
            out@.len() + lines_from(s@, i as int).len() == lines_of(s@).len(),
            forall|k: int| 0 <= k < out@.len() ==> delimits(s@, #[trigger] out@[k], lines_of(s@)[k]),
            forall|k: int| 0 <= k < lines_from(s@, i as int).len() ==> lines_of(s@)[out@.len() + k] == #[trigger] lines_from(s@, i as int)[k],
        decreases n - i,
    {
        let mut j: usize = i;
        while j < n && s.get_char(j) != '\n'
            invariant
                n == s@.len(),
                i <= j <= n,
                line_end(s@, i as int) == line_end(s@, j as int),
            decreases n - j,
        {
            j = j + 1;
        }
        let mut e: usize = j;
        if j < n && j > i && s.get_char(j - 1) == '\r' {
            e = j - 1;
        }
        proof {
            let tail = lines_from(s@, i as int);
            let raw = s@.subrange(i as int, j as int);
            assert(line_end(s@, i as int) == j);
            lemma_line_end_bounds(s@, i as int);
            assert(lines_of(s@)[out@.len() + 0int] == tail[0]);
            if j < n && j > i && s@[j - 1] == '\r' {
                assert(raw.last() == '\r');
                assert(raw.drop_last() =~= s@.subrange(i as int, e as int));
            }
            assert(tail[0] == s@.subrange(i as int, e as int));
            assert forall|k: int| 0 <= k < lines_from(s@, j + 1).len() implies lines_of(s@)[out@.len() + 1 + k] == #[trigger] lines_from(s@, j + 1)[k] by {
                assert(tail[k + 1] == lines_from(s@, j + 1)[k]);
            }
        }
        let ghost old_out = out@;
        out.push((i, e));
        proof {
            assert(delimits(s@, out@[old_out.len() as int], lines_of(s@)[old_out.len() as int]));
            assert forall|k: int| 0 <= k < out@.len() implies delimits(s@, #[trigger] out@[k], lines_of(s@)[k]) by {
                if k < old_out.len() {
                    assert(out@[k] == old_out[k]);
                }
            }
        }
        if j < n {
            i = j + 1;
        } else {
            i = j;
        }
    }
    out
}

/// Value of a run of ASCII digits.
pub open spec fn digits_value(s: Seq<char>) -> nat
    decreases s.len(),
{
    if s.len() == 0 {
        0
    } else {
        digits_value(s.drop_last()) * 10 + ((s.last() as nat) - ('0' as nat)) as nat
    }
}

/// `c` is an ASCII decimal digit.
pub open spec fn is_digit(c: char) -> bool {
    '0' <= c <= '9'
}

/// Every character of `s` is an ASCII decimal digit.
pub open spec fn all_digits(s: Seq<char>) -> bool {
    forall|i: int| 0 <= i < s.len() ==> is_digit(#[trigger] s[i])
}

/// What `str::parse` gives for an unsigned integer type whose largest value
/// is `max`: an optional leading `+`, then one or more ASCII digits whose
/// value is at most `max`.
pub open spec fn parse_unsigned(s: Seq<char>, max: nat) -> Option<nat> {
    let d = if s.len() > 0 && s[0] == '+' { s.drop_first() } else { s };
    if d.len() > 0 && all_digits(d) && digits_value(d) <= max {
        Some(digits_value(d))
    } else {
        None
    }
}

/// Parses `s[lo..hi]` as an unsigned decimal no larger than `max`.
pub fn parse_decimal(s: &str, lo: usize, hi: usize, max: u64) -> (r: Option<u64>)
    requires
        lo <= hi <= s@.len(),
    ensures
        match parse_unsigned(s@.subrange(lo as int, hi as int), max as nat) {
            Some(v) => r == Some(v as u64),
            None => r is None,
        },
{
    let ghost whole = s@.subrange(lo as int, hi as int);
    let mut start = lo;
    if lo < hi && s.get_char(lo) == '+' {
        start = lo + 1;
    }
    let ghost d = s@.subrange(start as int, hi as int);
    assert(d =~= (if whole.len() > 0 && whole[0] == '+' { whole.drop_first() } else { whole }));
    if start == hi {
        return None;
    }
    let mut acc: u64 = 0;
    let mut i: usize = start;
    while i < hi
        invariant
            lo <= start <= i <= hi <= s@.len(),
            start < hi,
            d == s@.subrange(start as int, hi as int),
            whole == s@.subrange(lo as int, hi as int),
            d == (if whole.len() > 0 && whole[0] == '+' { whole.drop_first() } else { whole }),
            all_digits(s@.subrange(start as int, i as int)),
            acc == digits_value(s@.subrange(start as int, i as int)),
            acc <= max,
        decreases hi - i,
    {
        let c = s.get_char(i);
        assert(s@.subrange(start as int, i + 1).drop_last() =~= s@.subrange(start as int, i as int));
        if c < '0' || c > '9' {
            assert(d[i - start] == c);
            return None;
        }
        let digit: u64 = (c as u64) - ('0' as u64);
        assert(digits_value(s@.subrange(start as int, i + 1)) == acc * 10 + digit);
        assert(all_digits(s@.subrange(start as int, i + 1)));
        if digit > max || acc > (max - digit) / 10 {
            proof {
                assert(acc * 10 + digit > max) by (nonlinear_arith)
                    requires
                        digit > max || acc > (max - digit) / 10,
                        digit <= 9,
                ;
                assert(d.take(i + 1 - start) =~= s@.subrange(start as int, i + 1));
                lemma_digits_prefix_bound(d, (i + 1 - start) as int);
            }
            return None;
        }
        assert(acc * 10 + digit <= max) by (nonlinear_arith)
            requires
                digit <= max,
                acc <= (max - digit) / 10,
        ;
        acc = acc * 10 + digit;
        i = i + 1;
    }
    assert(s@.subrange(start as int, hi as int) =~= d);
    Some(acc)
}

/// The value of digits only grows with more digits.
proof fn lemma_digits_prefix_bound(d: Seq<char>, k: int)
    requires
        0 <= k <= d.len(),
        all_digits(d.take(k)),
    ensures
        all_digits(d) ==> digits_value(d) >= digits_value(d.take(k)),
    decreases d.len() - k,
{
    if k < d.len() && all_digits(d) {
        assert(all_digits(d.take(k + 1)));
        lemma_digits_prefix_bound(d, k + 1);
        assert(d.take(k + 1).drop_last() =~= d.take(k));
        if k + 1 == d.len() {
            assert(d.take(k + 1) =~= d);
        }
    } else if k == d.len() {
        assert(d.take(k) =~= d);
    }
}

/// `p` occurs in `s` starting at position `i`.
pub open spec fn occurs_at(s: Seq<char>, p: Seq<char>, i: int) -> bool {
    0 <= i && i + p.len() <= s.len() && s.subrange(i, i + p.len()) == p
}

/// `p` occurs somewhere in `s`.
pub open spec fn contains_seq(s: Seq<char>, p: Seq<char>) -> bool {
    exists|i: int| #[trigger] occurs_at(s, p, i)
}

/// Whether `p` occurs in `s`.
pub fn str_contains(s: &str, p: &str) -> (r: bool)
    ensures
        r == contains_seq(s@, p@),
{
    let x = chars_of(s);
    let y = chars_of(p);
    if y.len() > x.len() {
        proof {
            assert forall|i: int| !#[trigger] occurs_at(s@, p@, i) by {}
        }
        return false;
    }
    let mut i: usize = 0;
    while i <= x.len() - y.len()
        invariant
            x@ == s@,
            y@ == p@,
            y.len() <= x.len(),
            i <= x.len() - y.len() + 1,
            forall|k: int| 0 <= k < i ==> !#[trigger] occurs_at(s@, p@, k),
        decreases x.len() - y.len() + 1 - i,
    {
        let mut j: usize = 0;
        while j < y.len() && x[i + j] == y[j]
            invariant
                x@ == s@,
                y@ == p@,
                i + y.len() <= x.len(),
                j <= y.len(),
                forall|m: int| 0 <= m < j ==> x@[i + m] == y@[m],
            decreases y.len() - j,
        {
            j = j + 1;
        }
        if j == y.len() {
            assert(s@.subrange(i as int, i + p@.len()) =~= p@);
            assert(occurs_at(s@, p@, i as int));
            return true;
        }
        assert(s@.subrange(i as int, i + p@.len())[j as int] != p@[j as int]);
        i = i + 1;
    }
    proof {
        assert forall|k: int| !#[trigger] occurs_at(s@, p@, k) by {
            if 0 <= k < i {
            }
        }
    }
    false
}

/// The ASCII digit of `d < 10`.
pub open spec fn digit_char(d: nat) -> char {
    seq!['0', '1', '2', '3', '4', '5', '6', '7', '8', '9'][d as int]
}

/// The decimal representation of `n`, without leading zeros.
pub open spec fn decimal(n: nat) -> Seq<char>
    decreases n,
{
    if n < 10 {
        seq![digit_char(n)]
    } else {
        decimal(n / 10).push(digit_char(n % 10))
    }
}

fn digit_to_char(d: usize) -> (c: char)
    requires
        d < 10,
    ensures
        c == digit_char(d as nat),
{
    match d {
        0 => '0',
        1 => '1',
        2 => '2',
        3 => '3',
        4 => '4',
        5 => '5',
        6 => '6',
        7 => '7',
        8 => '8',
        _ => '9',
    }
}

/// The decimal representation of `n`.
pub fn decimal_string(n: usize) -> (r: String)
    ensures
        r@ == decimal(n as nat),
    decreases n,
{
    if n < 10 {
        let mut out = String::new();
        push_char(&mut out, digit_to_char(n));
        assert(out@ =~= seq![digit_char(n as nat)]);
        out
    } else {
        let mut out = decimal_string(n / 10);
        push_char(&mut out, digit_to_char(n % 10));
        out
    }
}

/// The lower-case mapping of a string, as `str::to_lowercase` computes it.
pub uninterp spec fn lowercase_of(s: Seq<char>) -> Seq<char>;

/// `str::to_lowercase` (std): the Unicode lower-case mapping of `s`, a
/// function of `s` alone.
#[verifier::external_body]
pub(crate) fn to_lowercase(s: &str) -> (r: String)
    ensures
        r@ == lowercase_of(s@),
{
    s.to_lowercase()
}

} // verus!
