//! Byte-level text scanning: line breaks, whitespace-separated tokens,
//! decimal digits, and comparison of strings.

use vstd::prelude::*;
use vstd::utf8::encode_utf8;

verus! {

/// True when a carriage return followed by a line feed starts at `i`.
pub open spec fn is_crlf_at(s: Seq<u8>, i: int) -> bool {
    0 <= i && i + 1 < s.len() && s[i] == 13 && s[i + 1] == 10
}

/// Position of the first line break at or after `i`, or `s.len()` when
/// there is none.
pub open spec fn find_crlf(s: Seq<u8>, i: int) -> int
    decreases s.len() - i,
{
    if i < 0 || i + 1 >= s.len() {
        s.len() as int
    } else if is_crlf_at(s, i) {
        i
    } else {
        find_crlf(s, i + 1)
    }
}

pub proof fn lemma_find_crlf_range(s: Seq<u8>, i: int)
    requires
        0 <= i,
    ensures
        i <= find_crlf(s, i) <= s.len() || find_crlf(s, i) == s.len(),
        find_crlf(s, i) < s.len() ==> is_crlf_at(s, find_crlf(s, i)) && find_crlf(s, i) + 2
            <= s.len(),
        forall|j: int| i <= j < find_crlf(s, i) ==> !is_crlf_at(s, j),
    decreases s.len() - i,
{
    if i + 1 < s.len() && !is_crlf_at(s, i) {
        lemma_find_crlf_range(s, i + 1);
    }
}

/// The pieces of `s` between the line breaks `\r\n`, in order. Like the
/// standard library's splitting of text on a pattern, an input without a
/// break gives one piece and a trailing break gives an empty last piece.
pub open spec fn split_crlf(s: Seq<u8>) -> Seq<Seq<u8>>
    decreases s.len(),
{
    let k = find_crlf(s, 0);
    if k >= s.len() {
        seq![s]
    } else {
        proof {
            lemma_find_crlf_range(s, 0);
        }
        seq![s.take(k)] + split_crlf(s.skip(k + 2))
    }
}

/// `s` ends with a line break.
pub open spec fn ends_with_crlf(s: Seq<u8>) -> bool {
    s.len() >= 2 && s[s.len() - 2] == 13 && s[s.len() - 1] == 10
}

/// The last piece of a split is empty exactly when the text is empty or
/// ends with a line break.
pub proof fn lemma_split_crlf_last(s: Seq<u8>)
    ensures
        split_crlf(s).len() >= 1,
        split_crlf(s).last().len() == 0 <==> (s.len() == 0 || ends_with_crlf(s)),
    decreases s.len(),
{
    lemma_find_crlf_range(s, 0);
    let k = find_crlf(s, 0);
    if k >= s.len() {
        if ends_with_crlf(s) {
            assert(is_crlf_at(s, s.len() - 2));
        }
    } else {
        let t = s.skip(k + 2);
        lemma_split_crlf_last(t);
        assert(split_crlf(s).last() == split_crlf(t).last());
        if t.len() >= 2 {
            assert(t[t.len() - 2] == s[s.len() - 2]);
            assert(t[t.len() - 1] == s[s.len() - 1]);
        } else if t.len() == 1 {
            assert(s[s.len() - 2] == s[k + 1]);
        }
    }
}

/// A line with no line break in it, followed by one, splits into the line
/// and an empty last piece.
pub proof fn lemma_split_crlf_one_line(l: Seq<u8>)
    requires
        forall|j: int| 0 <= j < l.len() - 1 ==> !(#[trigger] l[j] == 13 && l[j + 1] == 10),
    ensures
        split_crlf(l + seq![13u8, 10u8]) == seq![l, Seq::<u8>::empty()],
{
    let s = l + seq![13u8, 10u8];
    lemma_find_crlf_range(s, 0);
    let k = find_crlf(s, 0);
    assert(is_crlf_at(s, l.len() as int));
    if k > l.len() {
        assert(!is_crlf_at(s, l.len() as int));
    }
    if k < l.len() {
        assert(is_crlf_at(s, k));
        if k + 1 < l.len() {
            assert(l[k] == 13 && l[k + 1] == 10);
        } else {
            assert(s[k + 1] == 13);
        }
    }
    assert(k == l.len());
    assert(s.take(k) =~= l);
    assert(s.skip(k + 2) =~= Seq::<u8>::empty());
    let e = Seq::<u8>::empty();
    assert(find_crlf(e, 0) == 0);
    assert(split_crlf(e) =~= seq![e]);
}

/// The pieces of `lines` joined with `\r\n` between them.
pub open spec fn join_crlf(lines: Seq<Seq<u8>>) -> Seq<u8>
    decreases lines.len(),
{
    if lines.len() == 0 {
        seq![]
    } else if lines.len() == 1 {
        lines[0]
    } else {
        lines[0] + seq![13u8, 10u8] + join_crlf(lines.skip(1))
    }
}

/// A range `[start, end)` of byte positions.
pub type Span = (usize, usize);

/// The bytes a span selects.
pub open spec fn span_bytes(s: Seq<u8>, r: Span) -> Seq<u8> {
    s.subrange(r.0 as int, r.1 as int)
}

/// The bytes each span selects.
pub open spec fn spans_bytes(s: Seq<u8>, rs: Seq<Span>) -> Seq<Seq<u8>> {
    rs.map_values(|r: Span| span_bytes(s, r))
}

pub proof fn lemma_find_crlf_shift(s: Seq<u8>, start: int, i: int)
    requires
        0 <= start <= i,
        start <= s.len(),
    ensures
        find_crlf(s.skip(start), i - start) == find_crlf(s, i) - start,
    decreases s.len() - i,
{
    let t = s.skip(start);
    if i + 1 < s.len() && !is_crlf_at(s, i) {
        lemma_find_crlf_shift(s, start, i + 1);
    }
    if i + 1 < s.len() {
        assert(is_crlf_at(t, i - start) == is_crlf_at(s, i));
    }
}

/// Split `s` on `\r\n`, returning the span of every piece.
pub fn split_lines(s: &[u8]) -> (r: Vec<Span>)
    ensures
        spans_bytes(s@, r@) == split_crlf(s@),
        forall|k: int| 0 <= k < r.len() ==> (#[trigger] r[k]).0 <= r[k].1 <= s.len(),
        forall|k: int| 0 <= k < r.len() ==> ((#[trigger] r[k]).1 == s.len() || is_crlf_at(s@, r[k].1 as int)),
        r.len() >= 1,
        r[0].0 == 0,
        r[r.len() - 1].1 == s.len(),
        forall|k: int| 0 <= k < r.len() - 1 ==> #[trigger] r[k + 1].0 == r[k].1 + 2,
{
    let mut r: Vec<Span> = Vec::new();
    let mut start: usize = 0;
    let n = s.len();
    proof {
        assert(s@.skip(0) =~= s@);
        assert(spans_bytes(s@, r@) + split_crlf(s@) =~= split_crlf(s@));
    }
    loop
        invariant
            n == s.len(),
            start <= n,
            split_crlf(s@) == spans_bytes(s@, r@) + split_crlf(s@.skip(start as int)),
            forall|k: int| 0 <= k < r.len() ==> (#[trigger] r[k]).0 <= r[k].1 <= s.len(),
            forall|k: int|
                0 <= k < r.len() ==> ((#[trigger] r[k]).1 == s.len() || is_crlf_at(s@, r[k].1 as int)),
            r.len() == 0 ==> start == 0,
            r.len() > 0 ==> r[0].0 == 0 && start == r[r.len() - 1].1 + 2,
            forall|k: int| 0 <= k < r.len() - 1 ==> #[trigger] r[k + 1].0 == r[k].1 + 2,
        decreases n - start,
    {
        let mut i = start;
        proof {
            assert(s@.skip(start as int).skip(0) =~= s@.skip(start as int));
        }
        while n > 0 && i < n - 1 && !(s[i] == 13 && s[i + 1] == 10)
            invariant
                n == s.len(),
                start <= i <= n,
                find_crlf(s@, start as int) == find_crlf(s@, i as int),
            decreases n - i,
        {
            i = i + 1;
        }
        proof {
            lemma_find_crlf_shift(s@, start as int, start as int);
            lemma_find_crlf_range(s@, i as int);
        }
        let ghost t = s@.skip(start as int);
        if n == 0 || i >= n - 1 {
            proof {
                assert(find_crlf(t, 0) == n - start);
                assert(split_crlf(t) == seq![t]);
                assert(span_bytes(s@, (start, n)) =~= t);
                assert(spans_bytes(s@, r@.push((start, n))) =~= spans_bytes(s@, r@).push(t));
                assert(spans_bytes(s@, r@) + split_crlf(t) =~= spans_bytes(s@, r@).push(t));
            }
            r.push((start, n));
            return r;
        }
        proof {
            assert(find_crlf(t, 0) == i - start);
            assert(split_crlf(t) == seq![t.take(i - start)] + split_crlf(t.skip(i - start + 2)));
            assert(t.skip(i - start + 2) =~= s@.skip(i + 2));
            assert(span_bytes(s@, (start, i)) =~= t.take(i - start));
            assert(spans_bytes(s@, r@.push((start, i))) =~= spans_bytes(s@, r@).push(
                t.take(i - start),
            ));
            assert(spans_bytes(s@, r@) + split_crlf(t) =~= spans_bytes(s@, r@).push(
                t.take(i - start),
            ) + split_crlf(s@.skip(i + 2)));
        }
        r.push((start, i));
        start = i + 2;
    }
}


/// Length of the UTF-8 encoding of a whitespace character (in the sense of
/// `char::is_whitespace`) starting at byte `i`, or `0` when none starts there.
/// These are U+0009 to U+000D, U+0020, U+0085, U+00A0, U+1680, U+2000 to
/// U+200A, U+2028, U+2029, U+202F, U+205F and U+3000.
pub open spec fn ws_len(s: Seq<u8>, i: int) -> int {
    if 0 <= i < s.len() {
        let b = s[i];
        if b == 9 || b == 10 || b == 11 || b == 12 || b == 13 || b == 32 {
            1
        } else if b == 0xc2 && i + 1 < s.len() && (s[i + 1] == 0x85 || s[i + 1] == 0xa0) {
            2
        } else if i + 2 < s.len() && ((b == 0xe1 && s[i + 1] == 0x9a && s[i + 2] == 0x80) || (b
            == 0xe2 && s[i + 1] == 0x80 && ((0x80 <= s[i + 2] && s[i + 2] <= 0x8a) || s[i + 2]
            == 0xa8 || s[i + 2] == 0xa9 || s[i + 2] == 0xaf)) || (b == 0xe2 && s[i + 1] == 0x81
            && s[i + 2] == 0x9f) || (b == 0xe3 && s[i + 1] == 0x80 && s[i + 2] == 0x80)) {
            3
        } else {
            0
        }
    } else {
        0
    }
}

/// End of the run of non-whitespace bytes that starts at `i`.
pub open spec fn token_end(s: Seq<u8>, i: int) -> int
    decreases s.len() - i,
{
    if i < 0 || i >= s.len() || ws_len(s, i) > 0 {
        i
    } else {
        token_end(s, i + 1)
    }
}

pub proof fn lemma_token_end(s: Seq<u8>, i: int)
    requires
        0 <= i,
    ensures
        i <= token_end(s, i),
        token_end(s, i) <= s.len() || token_end(s, i) == i,
        token_end(s, i) < s.len() ==> ws_len(s, token_end(s, i)) > 0,
        forall|j: int| i <= j < token_end(s, i) ==> ws_len(s, j) == 0,
        i < s.len() && ws_len(s, i) == 0 ==> i < token_end(s, i),
    decreases s.len() - i,
{
    if i < s.len() && ws_len(s, i) == 0 {
        lemma_token_end(s, i + 1);
    }
}

/// The whitespace-separated words of `s` from position `i` on, in order,
/// without empty words.
pub open spec fn tokens_from(s: Seq<u8>, i: int) -> Seq<Seq<u8>>
    decreases s.len() - i,
{
    if i < 0 || i >= s.len() {
        seq![]
    } else if ws_len(s, i) > 0 {
        tokens_from(s, i + ws_len(s, i))
    } else {
        proof {
            lemma_token_end(s, i);
        }
        seq![s.subrange(i, token_end(s, i))] + tokens_from(s, token_end(s, i))
    }
}

/// The whitespace-separated words of `s`, like `str::split_whitespace`.
pub open spec fn tokens(s: Seq<u8>) -> Seq<Seq<u8>> {
    tokens_from(s, 0)
}

/// Whether a whole whitespace character ends right before position `a`.
pub open spec fn follows_whitespace(s: Seq<u8>, a: int) -> bool {
    ||| ws_len(s, a - 1) == 1
    ||| ws_len(s, a - 2) == 2
    ||| ws_len(s, a - 3) == 3
}

/// `ws_len` computed on the first `end` bytes of `s`.
pub fn ws_len_at(s: &[u8], end: usize, i: usize) -> (r: usize)
    requires
        end <= s.len(),
    ensures
        r == ws_len(s@.subrange(0, end as int), i as int),
        r <= 3,
{
    let ghost t = s@.subrange(0, end as int);
    if i >= end {
        return 0;
    }
    let b = s[i];
    if b == 9 || b == 10 || b == 11 || b == 12 || b == 13 || b == 32 {
        return 1;
    }
    if b == 0xc2 && i + 1 < end && (s[i + 1] == 0x85 || s[i + 1] == 0xa0) {
        return 2;
    }
    if end - i > 2 {
        let b1 = s[i + 1];
        let b2 = s[i + 2];
        if (b == 0xe1 && b1 == 0x9a && b2 == 0x80) || (b == 0xe2 && b1 == 0x80 && ((0x80 <= b2
            && b2 <= 0x8a) || b2 == 0xa8 || b2 == 0xa9 || b2 == 0xaf)) || (b == 0xe2 && b1 == 0x81
            && b2 == 0x9f) || (b == 0xe3 && b1 == 0x80 && b2 == 0x80) {
            return 3;
        }
    }
    0
}

/// Split the first `end` bytes of `s` into whitespace-separated words,
/// returning the span of every word.
pub fn split_tokens(s: &[u8], end: usize) -> (r: Vec<Span>)
    requires
        end <= s.len(),
    ensures
        spans_bytes(s@, r@) == tokens(s@.subrange(0, end as int)),
        forall|k: int| 0 <= k < r.len() ==> (#[trigger] r[k]).0 < r[k].1 <= end,
        forall|k: int|
            0 <= k < r.len() ==> ((#[trigger] r[k]).1 == end || ws_len(
                s@.subrange(0, end as int),
                r[k].1 as int,
            ) > 0),
        forall|k: int|
            0 <= k < r.len() ==> ((#[trigger] r[k]).0 == 0 || follows_whitespace(
                s@.subrange(0, end as int),
                r[k].0 as int,
            )),
{
    let ghost t = s@.subrange(0, end as int);
    let mut r: Vec<Span> = Vec::new();
    let mut i: usize = 0;
    let mut after_ws = false;
    proof {
        assert(spans_bytes(s@, r@) + tokens_from(t, 0) =~= tokens(t));
    }
    while i < end
        invariant
            end <= s.len(),
            t == s@.subrange(0, end as int),
            i <= end,
            tokens(t) == spans_bytes(s@, r@) + tokens_from(t, i as int),
            i == 0 || follows_whitespace(t, i as int) || !after_ws,
            after_ws ==> (i == 0 || follows_whitespace(t, i as int)),
            forall|k: int| 0 <= k < r.len() ==> (#[trigger] r[k]).0 < r[k].1 <= i,
            forall|k: int| 0 <= k < r.len() ==> ((#[trigger] r[k]).1 == end || ws_len(t, r[k].1 as int) > 0),
            forall|k: int| 0 <= k < r.len() ==> ((#[trigger] r[k]).0 == 0 || follows_whitespace(t, r[k].0 as int)),
            i == 0 || ws_len(t, i as int) > 0 || after_ws || i == end,
        decreases end - i,
    {
        let w = ws_len_at(s, end, i);
        if w > 0 {
            proof {
                assert(tokens_from(t, i as int) == tokens_from(t, i + w));
            }
            i = i + w;
            after_ws = true;
        } else {
            let start = i;
            let mut j = i;
            proof {
                lemma_token_end(t, i as int);
            }
            while j < end && ws_len_at(s, end, j) == 0
                invariant
                    end <= s.len(),
                    t == s@.subrange(0, end as int),
                    start <= j <= end,
                    token_end(t, start as int) == token_end(t, j as int),
                decreases end - j,
            {
                j = j + 1;
            }
            proof {
                lemma_token_end(t, j as int);
                assert(token_end(t, j as int) == j);
                assert(span_bytes(s@, (start, j)) =~= t.subrange(start as int, j as int));
                assert(tokens_from(t, start as int) == seq![t.subrange(start as int, j as int)]
                    + tokens_from(t, j as int));
                assert(spans_bytes(s@, r@.push((start, j))) =~= spans_bytes(s@, r@).push(
                    t.subrange(start as int, j as int),
                ));
                assert(spans_bytes(s@, r@) + tokens_from(t, start as int) =~= spans_bytes(
                    s@,
                    r@.push((start, j)),
                ) + tokens_from(t, j as int));
            }
            r.push((start, j));
            i = j;
            after_ws = false;
        }
    }
    proof {
        assert(tokens_from(t, i as int) =~= Seq::<Seq<u8>>::empty());
        assert(spans_bytes(s@, r@) + tokens_from(t, i as int) =~= spans_bytes(s@, r@));
    }
    r
}


/// Joining consecutive pieces of a split gives back the text between the
/// first piece's start and the last piece's end.
pub proof fn lemma_join_spans(s: Seq<u8>, r: Seq<Span>, i: int, j: int)
    requires
        0 <= i < j <= r.len(),
        forall|k: int| 0 <= k < r.len() ==> (#[trigger] r[k]).0 <= r[k].1 <= s.len(),
        forall|k: int| 0 <= k < r.len() ==> ((#[trigger] r[k]).1 == s.len() || is_crlf_at(s, r[k].1 as int)),
        forall|k: int| 0 <= k < r.len() - 1 ==> #[trigger] r[k + 1].0 == r[k].1 + 2,
    ensures
        r[i].0 <= r[j - 1].1,
        join_crlf(spans_bytes(s, r.subrange(i, j))) == s.subrange(r[i].0 as int, r[j - 1].1 as int),
    decreases j - i,
{
    let ps = spans_bytes(s, r.subrange(i, j));
    if j - i == 1 {
        assert(ps.len() == 1);
    } else {
        lemma_join_spans(s, r, i + 1, j);
        assert(ps.skip(1) =~= spans_bytes(s, r.subrange(i + 1, j)));
        let a = r[i];
        let b = r[i + 1];
        assert(r[i + 1].0 == r[i].1 + 2);
        assert(a.1 < s.len());
        assert(s.subrange(a.0 as int, r[j - 1].1 as int) =~= s.subrange(a.0 as int, a.1 as int)
            + seq![13u8, 10u8] + s.subrange(b.0 as int, r[j - 1].1 as int));
    }
}

/// True when `b` is an ASCII decimal digit.
pub open spec fn is_digit(b: u8) -> bool {
    48 <= b <= 57
}

/// True when every byte of `d` is an ASCII decimal digit.
pub open spec fn all_digits(d: Seq<u8>) -> bool {
    forall|i: int| 0 <= i < d.len() ==> is_digit(#[trigger] d[i])
}

/// The number written in decimal by the digits `d`.
pub open spec fn digits_value(d: Seq<u8>) -> nat
    decreases d.len(),
{
    if d.len() == 0 {
        0
    } else {
        digits_value(d.drop_last()) * 10 + (d.last() - 48) as nat
    }
}

/// The digits of an unsigned number, after an optional leading `+`.
pub open spec fn unsigned_digits(s: Seq<u8>) -> Seq<u8> {
    if s.len() > 0 && s[0] == 43 {
        s.skip(1)
    } else {
        s
    }
}

/// What `str::parse` gives for an unsigned integer type whose largest value
/// is `bound`: an optional `+` followed by at least one decimal digit, with
/// a value no larger than `bound`.
pub open spec fn parse_unsigned(s: Seq<u8>, bound: nat) -> Option<nat> {
    let d = unsigned_digits(s);
    if d.len() > 0 && all_digits(d) && digits_value(d) <= bound {
        Some(digits_value(d))
    } else {
        None
    }
}

/// What `str::parse::<i64>` gives: an optional sign followed by at least
/// one decimal digit, with a value inside the range of `i64`.
pub open spec fn parse_i64(s: Seq<u8>) -> Option<int> {
    if s.len() > 0 && s[0] == 45 {
        let d = s.skip(1);
        if d.len() > 0 && all_digits(d) && digits_value(d) <= 0x8000_0000_0000_0000 {
            Some(-(digits_value(d) as int))
        } else {
            None
        }
    } else {
        match parse_unsigned(s, 0x7fff_ffff_ffff_ffff) {
            Some(v) => Some(v as int),
            None => None,
        }
    }
}

pub proof fn lemma_digits_prefix(d: Seq<u8>, i: int)
    requires
        0 <= i < d.len(),
    ensures
        digits_value(d.take(i + 1)) == digits_value(d.take(i)) * 10 + (d[i] - 48) as nat,
{
    assert(d.take(i + 1).drop_last() =~= d.take(i));
}

pub proof fn lemma_digits_grow(d: Seq<u8>, i: int)
    requires
        0 <= i <= d.len(),
        all_digits(d),
    ensures
        digits_value(d.take(i)) <= digits_value(d),
    decreases d.len() - i,
{
    if i < d.len() {
        lemma_digits_grow(d, i + 1);
        lemma_digits_prefix(d, i);
        assert(is_digit(d[i]));
    } else {
        assert(d.take(i) =~= d);
    }
}

/// Value of the decimal digits `s[a..b]` if they are all digits, none of
/// them is missing and the value is at most `bound`.
fn digits_at(s: &[u8], a: usize, b: usize, bound: u64) -> (r: Option<u64>)
    requires
        a <= b <= s.len(),
    ensures
        ({
            let d = s@.subrange(a as int, b as int);
            match r {
                Some(v) => d.len() > 0 && all_digits(d) && digits_value(d) <= bound && v
                    == digits_value(d),
                None => !(d.len() > 0 && all_digits(d) && digits_value(d) <= bound),
            }
        }),
{
    let ghost d = s@.subrange(a as int, b as int);
    if a == b {
        return None;
    }
    let mut v: u64 = 0;
    let mut i = a;
    proof {
        assert(d.take(0).len() == 0);
    }
    while i < b
        invariant
            a <= i <= b <= s.len(),
            d == s@.subrange(a as int, b as int),
            all_digits(d.take(i - a)),
            v == digits_value(d.take(i - a)),
            v <= bound,
        decreases b - i,
    {
        let c = s[i];
        if c < 48 || c > 57 {
            assert(!is_digit(d[i - a]));
            return None;
        }
        proof {
            lemma_digits_prefix(d, i - a);
            assert(d.take(i - a + 1).drop_last() =~= d.take(i - a));
            assert forall|k: int| 0 <= k < d.take(i - a + 1).len() implies is_digit(
                #[trigger] d.take(i - a + 1)[k],
            ) by {
                if k < i - a {
                    assert(d.take(i - a + 1)[k] == d.take(i - a)[k]);
                }
            }
        }
        let nv: u128 = (v as u128) * 10 + ((c - 48) as u128);
        if nv > bound as u128 {
            proof {
                if all_digits(d) {
                    lemma_digits_grow(d, i - a + 1);
                }
            }
            return None;
        }
        v = nv as u64;
        i = i + 1;
    }
    assert(d.take(i - a) =~= d);
    Some(v)
}

/// `str::parse` for an unsigned type with largest value `bound`, applied to
/// the bytes `s[a..b]`.
pub fn parse_unsigned_at(s: &[u8], a: usize, b: usize, bound: u64) -> (r: Option<u64>)
    requires
        a <= b <= s.len(),
    ensures
        match parse_unsigned(s@.subrange(a as int, b as int), bound as nat) {
            Some(v) => r == Some(v as u64),
            None => r is None,
        },
{
    let ghost t = s@.subrange(a as int, b as int);
    if a < b && s[a] == 43 {
        assert(s@.subrange(a + 1, b as int) =~= t.skip(1));
        digits_at(s, a + 1, b, bound)
    } else {
        digits_at(s, a, b, bound)
    }
}

/// Whether `str::parse::<i64>` accepts the bytes `s[a..b]`.
pub fn parses_as_i64(s: &[u8], a: usize, b: usize) -> (r: bool)
    requires
        a <= b <= s.len(),
    ensures
        r == parse_i64(s@.subrange(a as int, b as int)) is Some,
{
    let ghost t = s@.subrange(a as int, b as int);
    if a < b && s[a] == 45 {
        assert(s@.subrange(a + 1, b as int) =~= t.skip(1));
        match digits_at(s, a + 1, b, 0x8000_0000_0000_0000) {
            Some(_) => true,
            None => false,
        }
    } else {
        match parse_unsigned_at(s, a, b, 0x7fff_ffff_ffff_ffff) {
            Some(_) => true,
            None => false,
        }
    }
}

/// Whether the bytes `s[a..b]` equal `w`.
pub fn bytes_equal(s: &[u8], a: usize, b: usize, w: &[u8]) -> (r: bool)
    requires
        a <= b <= s.len(),
    ensures
        r == (s@.subrange(a as int, b as int) == w@),
{
    if b - a != w.len() {
        assert(s@.subrange(a as int, b as int).len() != w@.len());
        return false;
    }
    let mut i: usize = 0;
    while i < w.len()
        invariant
            a <= b <= s.len(),
            b - a == w.len(),
            i <= w.len(),
            forall|k: int| 0 <= k < i ==> s@[a + k] == w@[k],
        decreases w.len() - i,
    {
        if s[a + i] != w[i] {
            assert(s@.subrange(a as int, b as int)[i as int] != w@[i as int]);
            return false;
        }
        i = i + 1;
    }
    assert(s@.subrange(a as int, b as int) =~= w@);
    true
}

/// Whether two strings hold the same characters.
pub fn str_eq(a: &str, b: &str) -> (r: bool)
    ensures
        r == (a@ == b@),
{
    let ab = a.as_bytes();
    let bb = b.as_bytes();
    proof {
        vstd::utf8::encode_utf8_decode_utf8(a@);
        vstd::utf8::encode_utf8_decode_utf8(b@);
    }
    if ab.len() != bb.len() {
        return false;
    }
    let mut i: usize = 0;
    while i < ab.len()
        invariant
            i <= ab@.len(),
            ab@.len() == bb@.len(),
            ab@ == encode_utf8(a@),
            bb@ == encode_utf8(b@),
            forall|j: int| 0 <= j < i ==> ab@[j] == bb@[j],
        decreases ab@.len() - i,
    {
        if ab[i] != bb[i] {
            return false;
        }
        i = i + 1;
    }
    assert(ab@ =~= bb@);
    true
}

} // verus!
