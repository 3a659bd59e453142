use vstd::prelude::*;
use vstd::string::StringSliceAdditionalSpecFns;
use vstd::utf8::{encode_utf8, is_char_boundary, is_char_boundary_iff_not_is_continuation_byte, encode_utf8_valid_utf8};

use crate::protocol::{lemma_after_char, lemma_encode_utf8_concat, lead_width, reports, Outcome, ParsedResponse};
use crate::text::{
    bytes_equal, follows_whitespace, join_crlf, lemma_join_spans, parse_unsigned, parse_unsigned_at,
    span_bytes, spans_bytes, split_crlf, split_lines, split_tokens, tokens, ws_len, Span,
};

verus! {

/// The word `OK`.
pub open spec fn word_ok() -> Seq<u8> {
    seq![79u8, 75u8]
}

/// The word `STORED`.
pub open spec fn word_stored() -> Seq<u8> {
    seq![83u8, 84u8, 79u8, 82u8, 69u8, 68u8]
}

/// The word `DELETED`.
pub open spec fn word_deleted() -> Seq<u8> {
    seq![68u8, 69u8, 76u8, 69u8, 84u8, 69u8, 68u8]
}

/// The word `END`.
pub open spec fn word_end() -> Seq<u8> {
    seq![69u8, 78u8, 68u8]
}

/// The word `EXISTS`.
pub open spec fn word_exists() -> Seq<u8> {
    seq![69u8, 88u8, 73u8, 83u8, 84u8, 83u8]
}

/// The word `NOT_FOUND`.
pub open spec fn word_not_found() -> Seq<u8> {
    seq![78u8, 79u8, 84u8, 95u8, 70u8, 79u8, 85u8, 78u8, 68u8]
}

/// The word `NOT_STORED`.
pub open spec fn word_not_stored() -> Seq<u8> {
    seq![78u8, 79u8, 84u8, 95u8, 83u8, 84u8, 79u8, 82u8, 69u8, 68u8]
}

/// The word `VALUE`.
pub open spec fn word_value() -> Seq<u8> {
    seq![86u8, 65u8, 76u8, 85u8, 69u8]
}

/// The word `ERROR`.
pub open spec fn word_error() -> Seq<u8> {
    seq![69u8, 82u8, 82u8, 79u8, 82u8]
}

/// The word `VERSION`.
pub open spec fn word_version() -> Seq<u8> {
    seq![86u8, 69u8, 82u8, 83u8, 73u8, 79u8, 78u8]
}

/// The word `CLIENT_ERROR`.
pub open spec fn word_client_error() -> Seq<u8> {
    seq![67u8, 76u8, 73u8, 69u8, 78u8, 84u8, 95u8, 69u8, 82u8, 82u8, 79u8, 82u8]
}

/// The word `SERVER_ERROR`.
pub open spec fn word_server_error() -> Seq<u8> {
    seq![83u8, 69u8, 82u8, 86u8, 69u8, 82u8, 95u8, 69u8, 82u8, 82u8, 79u8, 82u8]
}

/// The words joined with single spaces between them.
pub open spec fn join_space(ws: Seq<Seq<u8>>) -> Seq<u8>
    decreases ws.len(),
{
    if ws.len() == 0 {
        seq![]
    } else if ws.len() == 1 {
        ws[0]
    } else {
        ws[0] + seq![32u8] + join_space(ws.skip(1))
    }
}

pub proof fn lemma_join_space_push(ws: Seq<Seq<u8>>, w: Seq<u8>)
    requires
        ws.len() > 0,
    ensures
        join_space(ws.push(w)) == join_space(ws) + seq![32u8] + w,
    decreases ws.len(),
{
    if ws.len() == 1 {
        assert(ws.push(w).skip(1) =~= seq![w]);
        assert(join_space(seq![w]) == w);
        assert(join_space(ws.push(w)) == ws[0] + seq![32u8] + w);
    } else {
        lemma_join_space_push(ws.skip(1), w);
        assert(ws.push(w).skip(1) =~= ws.skip(1).push(w));
        assert(join_space(ws.push(w)) == ws[0] + seq![32u8] + join_space(ws.skip(1).push(w)));
        assert(ws[0] + seq![32u8] + (join_space(ws.skip(1)) + seq![32u8] + w) =~= (ws[0]
            + seq![32u8] + join_space(ws.skip(1))) + seq![32u8] + w);
    }
}

/// The memcache parser fails on a complete response whose first line holds
/// no word at all (the empty response among them).
pub open spec fn memcache_parse_panics(s: Seq<u8>) -> bool {
    let all = split_crlf(s);
    all.last().len() == 0 && tokens(all[0]).len() == 0
}

/// The classification of a memcache response `s`.
///
/// A response is incomplete unless it ends with a line break. A one-line
/// response is judged by its words: the success words give `Ok`, the
/// not-found words give `Miss`, `ERROR` an error holding the whole response,
/// a lone number (an `incr` or `decr` reply) `Ok`, `VERSION` followed by words
/// the version made of those words, and `CLIENT_ERROR` or `SERVER_ERROR` an
/// error. A multi-line response must be a `VALUE key flags bytes [cas]` reply
/// ending in `END`, and is a hit when its data has exactly `bytes` bytes.
pub open spec fn memcache_outcome(s: Seq<u8>) -> Outcome {
    let all = split_crlf(s);
    if all.last().len() != 0 {
        Outcome::Incomplete
    } else {
        let lines = all.drop_last();
        let t = tokens(lines[0]);
        if lines.len() == 1 {
            if lines[0].len() + 2 != s.len() {
                Outcome::Incomplete
            } else if t.len() == 1 {
                let w = t[0];
                if w == word_ok() || w == word_stored() || w == word_deleted() {
                    Outcome::Okay
                } else if w == word_end() || w == word_exists() || w == word_not_found() || w
                    == word_not_stored() {
                    Outcome::Miss
                } else if w == word_value() {
                    Outcome::Incomplete
                } else if w == word_error() {
                    Outcome::Error(s)
                } else if parse_unsigned(w, u64::MAX as nat) is Some {
                    Outcome::Okay
                } else {
                    Outcome::Unknown
                }
            } else if t[0] == word_value() {
                Outcome::Incomplete
            } else if t[0] == word_version() {
                Outcome::Version(join_space(t.skip(1)))
            } else if t[0] == word_client_error() || t[0] == word_server_error() {
                Outcome::Error(s)
            } else {
                Outcome::Unknown
            }
        } else if t[0] == word_value() {
            if t.len() < 4 {
                Outcome::Incomplete
            } else if t.len() == 5 && parse_unsigned(t[4], u64::MAX as nat) is None {
                Outcome::Invalid
            } else if parse_unsigned(t[2], u32::MAX as nat) is None {
                Outcome::Invalid
            } else if lines.last() != word_end() {
                Outcome::Incomplete
            } else {
                let data = join_crlf(lines.subrange(1, lines.len() - 1));
                match parse_unsigned(t[3], usize::MAX as nat) {
                    Some(b) => if data.len() == b {
                        Outcome::Hit
                    } else if data.len() > b {
                        Outcome::Invalid
                    } else {
                        Outcome::Incomplete
                    },
                    None => Outcome::Invalid,
                }
            }
        } else {
            Outcome::Unknown
        }
    }
}

/// A response that is not empty and does not end with a line break is
/// incomplete, whatever it holds.
pub proof fn lemma_memcache_incomplete_without_crlf(s: Seq<u8>)
    requires
        s.len() > 0,
        !crate::text::ends_with_crlf(s),
    ensures
        memcache_outcome(s) == Outcome::Incomplete,
{
    crate::text::lemma_split_crlf_last(s);
}

/// A complete response of one line holding a single word is told by that
/// word: `OK`, `STORED` and `DELETED` are fine; `END`, `EXISTS`,
/// `NOT_FOUND` and `NOT_STORED` are misses; `ERROR` is an error holding
/// the whole response; a number (an `incr` or `decr` reply) is fine; any
/// other word but `VALUE` is unknown.
pub proof fn lemma_memcache_one_word(l: Seq<u8>)
    requires
        forall|j: int| 0 <= j < l.len() - 1 ==> !(#[trigger] l[j] == 13 && l[j + 1] == 10),
        tokens(l).len() == 1,
    ensures
        ({
            let s = l + seq![13u8, 10u8];
            let w = tokens(l)[0];
            let o = memcache_outcome(s);
            &&& (w == seq![79u8, 75u8] || w == seq![83u8, 84u8, 79u8, 82u8, 69u8, 68u8] || w
                == seq![68u8, 69u8, 76u8, 69u8, 84u8, 69u8, 68u8]) ==> o == Outcome::Okay
            &&& (w == seq![69u8, 78u8, 68u8] || w == seq![69u8, 88u8, 73u8, 83u8, 84u8, 83u8] || w
                == seq![78u8, 79u8, 84u8, 95u8, 70u8, 79u8, 85u8, 78u8, 68u8] || w == seq![
                78u8,
                79u8,
                84u8,
                95u8,
                83u8,
                84u8,
                79u8,
                82u8,
                69u8,
                68u8,
            ]) ==> o == Outcome::Miss
            &&& w == seq![69u8, 82u8, 82u8, 79u8, 82u8] ==> o == Outcome::Error(s)
            &&& (w != word_ok() && w != word_stored() && w != word_deleted() && w != word_end()
                && w != word_exists() && w != word_not_found() && w != word_not_stored() && w
                != word_value() && w != word_error()) ==> o == (if parse_unsigned(
                w,
                u64::MAX as nat,
            ) is Some {
                Outcome::Okay
            } else {
                Outcome::Unknown
            })
        }),
{
    crate::text::lemma_split_crlf_one_line(l);
    let s = l + seq![13u8, 10u8];
    assert(split_crlf(s).drop_last() =~= seq![l]);
    let w = tokens(l)[0];
    assert(w == seq![69u8, 82u8, 82u8, 79u8, 82u8] ==> w == word_error());
    assert(w == seq![79u8, 75u8] ==> w != word_value());
}

fn is_ok(s: &[u8], t: Span) -> (r: bool)
    requires
        t.0 <= t.1 <= s.len(),
    ensures
        r == (span_bytes(s@, t) == word_ok()),
{
    let w: [u8; 2] = [79, 75];
    assert(w@ =~= word_ok());
    bytes_equal(s, t.0, t.1, w.as_slice())
}

fn is_stored(s: &[u8], t: Span) -> (r: bool)
    requires
        t.0 <= t.1 <= s.len(),
    ensures
        r == (span_bytes(s@, t) == word_stored()),
{
    let w: [u8; 6] = [83, 84, 79, 82, 69, 68];
    assert(w@ =~= word_stored());
    bytes_equal(s, t.0, t.1, w.as_slice())
}

fn is_deleted(s: &[u8], t: Span) -> (r: bool)
    requires
        t.0 <= t.1 <= s.len(),
    ensures
        r == (span_bytes(s@, t) == word_deleted()),
{
    let w: [u8; 7] = [68, 69, 76, 69, 84, 69, 68];
    assert(w@ =~= word_deleted());
    bytes_equal(s, t.0, t.1, w.as_slice())
}

fn is_end(s: &[u8], t: Span) -> (r: bool)
    requires
        t.0 <= t.1 <= s.len(),
    ensures
        r == (span_bytes(s@, t) == word_end()),
{
    let w: [u8; 3] = [69, 78, 68];
    assert(w@ =~= word_end());
    bytes_equal(s, t.0, t.1, w.as_slice())
}

fn is_exists(s: &[u8], t: Span) -> (r: bool)
    requires
        t.0 <= t.1 <= s.len(),
    ensures
        r == (span_bytes(s@, t) == word_exists()),
{
    let w: [u8; 6] = [69, 88, 73, 83, 84, 83];
    assert(w@ =~= word_exists());
    bytes_equal(s, t.0, t.1, w.as_slice())
}

fn is_not_found(s: &[u8], t: Span) -> (r: bool)
    requires
        t.0 <= t.1 <= s.len(),
    ensures
        r == (span_bytes(s@, t) == word_not_found()),
{
    let w: [u8; 9] = [78, 79, 84, 95, 70, 79, 85, 78, 68];
    assert(w@ =~= word_not_found());
    bytes_equal(s, t.0, t.1, w.as_slice())
}

fn is_not_stored(s: &[u8], t: Span) -> (r: bool)
    requires
        t.0 <= t.1 <= s.len(),
    ensures
        r == (span_bytes(s@, t) == word_not_stored()),
{
    let w: [u8; 10] = [78, 79, 84, 95, 83, 84, 79, 82, 69, 68];
    assert(w@ =~= word_not_stored());
    bytes_equal(s, t.0, t.1, w.as_slice())
}

fn is_value(s: &[u8], t: Span) -> (r: bool)
    requires
        t.0 <= t.1 <= s.len(),
    ensures
        r == (span_bytes(s@, t) == word_value()),
{
    let w: [u8; 5] = [86, 65, 76, 85, 69];
    assert(w@ =~= word_value());
    bytes_equal(s, t.0, t.1, w.as_slice())
}

fn is_error(s: &[u8], t: Span) -> (r: bool)
    requires
        t.0 <= t.1 <= s.len(),
    ensures
        r == (span_bytes(s@, t) == word_error()),
{
    let w: [u8; 5] = [69, 82, 82, 79, 82];
    assert(w@ =~= word_error());
    bytes_equal(s, t.0, t.1, w.as_slice())
}

fn is_version(s: &[u8], t: Span) -> (r: bool)
    requires
        t.0 <= t.1 <= s.len(),
    ensures
        r == (span_bytes(s@, t) == word_version()),
{
    let w: [u8; 7] = [86, 69, 82, 83, 73, 79, 78];
    assert(w@ =~= word_version());
    bytes_equal(s, t.0, t.1, w.as_slice())
}

fn is_client_error(s: &[u8], t: Span) -> (r: bool)
    requires
        t.0 <= t.1 <= s.len(),
    ensures
        r == (span_bytes(s@, t) == word_client_error()),
{
    let w: [u8; 12] = [67, 76, 73, 69, 78, 84, 95, 69, 82, 82, 79, 82];
    assert(w@ =~= word_client_error());
    bytes_equal(s, t.0, t.1, w.as_slice())
}

fn is_server_error(s: &[u8], t: Span) -> (r: bool)
    requires
        t.0 <= t.1 <= s.len(),
    ensures
        r == (span_bytes(s@, t) == word_server_error()),
{
    let w: [u8; 12] = [83, 69, 82, 86, 69, 82, 95, 69, 82, 82, 79, 82];
    assert(w@ =~= word_server_error());
    bytes_equal(s, t.0, t.1, w.as_slice())
}


/// The words `toks[from..]` of `response` joined with single spaces.
fn join_words(response: &str, toks: &Vec<Span>, from: usize) -> (v: String)
    requires
        from < toks.len(),
        forall|k: int| 0 <= k < toks.len() ==> (#[trigger] toks[k]).0 <= toks[k].1 <= response.spec_bytes().len(),
        forall|k: int| 0 <= k < toks.len() ==> is_char_boundary(response.spec_bytes(), (#[trigger] toks[k]).0 as int),
        forall|k: int| 0 <= k < toks.len() ==> ((#[trigger] toks[k]).1 == response.spec_bytes().len()
            || !vstd::utf8::is_continuation_byte(response.spec_bytes()[toks[k].1 as int])),
    ensures
        encode_utf8(v@) == join_space(spans_bytes(response.spec_bytes(), toks@).skip(from as int)),
{
    let ghost s = response.spec_bytes();
    let ghost words = spans_bytes(s, toks@);
    let mut v = String::new();
    let mut k = from;
    proof {
        reveal_strlit(" ");
        let sp = seq![' '];
        assert(sp.drop_first() =~= Seq::<char>::empty());
        assert((' ' as u32) == 32);
        assert((32u32 & 0x7Fu32) == 32u32) by (bit_vector);
        assert(vstd::utf8::encode_scalar(32) =~= seq![32u8]);
        assert(sp[0] as u32 == 32);
        assert(encode_utf8(sp.drop_first()) =~= Seq::<u8>::empty());
        assert(encode_utf8(sp) == vstd::utf8::encode_scalar(sp[0] as u32) + encode_utf8(sp.drop_first()));
        assert(encode_utf8(sp) =~= seq![32u8]);
    }
    while k < toks.len()
        invariant
            from <= k <= toks.len(),
            s == response.spec_bytes(),
            words == spans_bytes(s, toks@),
            forall|j: int| 0 <= j < toks.len() ==> (#[trigger] toks[j]).0 <= toks[j].1 <= s.len(),
            forall|j: int| 0 <= j < toks.len() ==> is_char_boundary(s, (#[trigger] toks[j]).0 as int),
            forall|j: int| 0 <= j < toks.len() ==> ((#[trigger] toks[j]).1 == s.len()
                || !vstd::utf8::is_continuation_byte(s[toks[j].1 as int])),
            k == from ==> v@ == Seq::<char>::empty(),
            k > from ==> encode_utf8(v@) == join_space(words.subrange(from as int, k as int)),
            encode_utf8(seq![' ']) == seq![32u8],
            " "@ == seq![' '],
        decreases toks.len() - k,
    {
        let (a, b) = toks[k];
        let (_, rest) = response.split_at(a);
        proof {
            encode_utf8_valid_utf8(rest@);
            assert(rest.spec_bytes() =~= s.subrange(a as int, s.len() as int));
            if b < s.len() {
                assert(rest.spec_bytes()[b - a] == s[b as int]);
                is_char_boundary_iff_not_is_continuation_byte(rest.spec_bytes(), b - a);
            } else {
                vstd::utf8::is_char_boundary_start_end_of_seq(rest.spec_bytes());
            }
        }
        let (word, _) = rest.split_at(b - a);
        let ghost old_v = v@;
        proof {
            assert(word.spec_bytes() =~= words[k as int]);
            assert(words.subrange(from as int, k as int + 1) =~= words.subrange(from as int, k as int).push(words[k as int]));
        }
        if k > from {
            v.append(" ");
            proof {
                lemma_encode_utf8_concat(old_v, seq![' ']);
                lemma_join_space_push(words.subrange(from as int, k as int), words[k as int]);
            }
        } else {
            proof {
                assert(words.subrange(from as int, k as int + 1) =~= seq![words[k as int]]);
                assert(encode_utf8(old_v) =~= Seq::<u8>::empty());
            }
        }
        let ghost mid_v = v@;
        v.append(word);
        proof {
            lemma_encode_utf8_concat(mid_v, word@);
            if k > from {
                assert(encode_utf8(v@) =~= join_space(words.subrange(from as int, k as int)) + seq![32u8] + words[k as int]);
            } else {
                assert(encode_utf8(v@) =~= encode_utf8(mid_v) + words[k as int]);
                assert(mid_v =~= Seq::<char>::empty());
                assert(encode_utf8(v@) =~= words[k as int]);
            }
        }
        k = k + 1;
    }
    proof {
        assert(words.subrange(from as int, toks.len() as int) =~= words.skip(from as int));
    }
    v
}


/// Words found by `split_tokens` in a prefix of a string that ends at a line
/// break start and end on character boundaries.
proof fn lemma_token_boundaries(s: Seq<u8>, toks: Seq<Span>, end: int)
    requires
        vstd::utf8::valid_utf8(s),
        0 <= end <= s.len(),
        end == s.len() || s[end] == 13,
        forall|k: int| 0 <= k < toks.len() ==> (#[trigger] toks[k]).0 < toks[k].1 <= end,
        forall|k: int|
            0 <= k < toks.len() ==> ((#[trigger] toks[k]).1 == end || ws_len(
                s.subrange(0, end),
                toks[k].1 as int,
            ) > 0),
        forall|k: int|
            0 <= k < toks.len() ==> ((#[trigger] toks[k]).0 == 0 || follows_whitespace(
                s.subrange(0, end),
                toks[k].0 as int,
            )),
    ensures
        forall|k: int| 0 <= k < toks.len() ==> is_char_boundary(s, (#[trigger] toks[k]).0 as int),
        forall|k: int|
            0 <= k < toks.len() ==> ((#[trigger] toks[k]).1 == s.len()
                || !vstd::utf8::is_continuation_byte(s[toks[k].1 as int])),
{
    let t = s.subrange(0, end);
    vstd::utf8::is_char_boundary_start_end_of_seq(s);
    assert forall|k: int| 0 <= k < toks.len() implies is_char_boundary(s, (#[trigger] toks[k]).0 as int) by {
        let a = toks[k].0 as int;
        if a != 0 {
            let q = if ws_len(t, a - 1) == 1 {
                a - 1
            } else if ws_len(t, a - 2) == 2 {
                a - 2
            } else {
                a - 3
            };
            assert(t[q] == s[q]);
            assert(lead_width(s[q]) == a - q);
            lemma_after_char(s, q);
            is_char_boundary_iff_not_is_continuation_byte(s, a);
        }
    }
    assert forall|k: int|
        0 <= k < toks.len() implies ((#[trigger] toks[k]).1 == s.len()
            || !vstd::utf8::is_continuation_byte(s[toks[k].1 as int])) by {
        let b = toks[k].1 as int;
        if b < end {
            assert(t[b] == s[b]);
        }
    }
}

/// Classify a memcache response.
pub fn parse_response(response: &str) -> (r: ParsedResponse)
    requires
        !memcache_parse_panics(response.spec_bytes()),
    ensures
        reports(r, memcache_outcome(response.spec_bytes())),
{
    let s = response.as_bytes();
    let ghost sb = s@;
    let all = split_lines(s);
    let ghost lines0 = split_crlf(sb);
    let n = all.len();
    let last = all[n - 1];
    proof {
        assert(lines0.last() == span_bytes(sb, all@[n - 1]));
    }
    if last.0 != last.1 {
        return ParsedResponse::Incomplete;
    }
    let first = all[0];
    let toks = split_tokens(s, first.1);
    let ghost lines = lines0.drop_last();
    let ghost t = tokens(lines0[0]);
    proof {
        assert(lines0[0] == span_bytes(sb, all@[0]));
        assert(span_bytes(sb, all@[0]) =~= sb.subrange(0, first.1 as int));
        assert(n >= 2) by {
            if n == 1 {
                assert(sb.len() == 0);
            }
        }
        assert(lines[0] == lines0[0]);
        assert(t == spans_bytes(sb, toks@));
        assert(toks.len() > 0);
    }
    let w = toks[0];
    proof {
        assert(t[0] == span_bytes(sb, w));
    }
    if n - 1 == 1 {
        if first.1 - first.0 + 2 != s.len() {
            return ParsedResponse::Incomplete;
        }
        if toks.len() == 1 {
            if is_ok(s, w) || is_stored(s, w) || is_deleted(s, w) {
                return ParsedResponse::Okay;
            }
            if is_end(s, w) || is_exists(s, w) || is_not_found(s, w) || is_not_stored(s, w) {
                return ParsedResponse::Miss;
            }
            if is_value(s, w) {
                return ParsedResponse::Incomplete;
            }
            if is_error(s, w) {
                return ParsedResponse::Error(response.to_owned());
            }
            if parse_unsigned_at(s, w.0, w.1, u64::MAX).is_some() {
                return ParsedResponse::Okay;
            }
            return ParsedResponse::Unknown;
        }
        if is_value(s, w) {
            return ParsedResponse::Incomplete;
        }
        if is_version(s, w) {
            proof {
                vstd::utf8::encode_utf8_valid_utf8(response@);
                lemma_token_boundaries(sb, toks@, first.1 as int);
            }
            let v = join_words(response, &toks, 1);
            return ParsedResponse::Version(v);
        }
        if is_client_error(s, w) || is_server_error(s, w) {
            return ParsedResponse::Error(response.to_owned());
        }
        return ParsedResponse::Unknown;
    }
    if !is_value(s, w) {
        return ParsedResponse::Unknown;
    }
    if toks.len() < 4 {
        return ParsedResponse::Incomplete;
    }
    proof {
        assert(t[2] == span_bytes(sb, toks@[2]));
        assert(t[3] == span_bytes(sb, toks@[3]));
    }
    if toks.len() == 5 {
        proof {
            assert(t[4] == span_bytes(sb, toks@[4]));
        }
        if parse_unsigned_at(s, toks[4].0, toks[4].1, u64::MAX).is_none() {
            return ParsedResponse::Invalid;
        }
    }
    if parse_unsigned_at(s, toks[2].0, toks[2].1, u32::MAX as u64).is_none() {
        return ParsedResponse::Invalid;
    }
    let last_line = all[n - 2];
    proof {
        assert(lines.last() == span_bytes(sb, all@[n - 2]));
    }
    if !is_end(s, last_line) {
        return ParsedResponse::Incomplete;
    }
    let data_len: usize = if n - 2 > 1 {
        proof {
            lemma_join_spans(sb, all@, 1, n - 2);
            assert(lines.subrange(1, lines.len() - 1) =~= spans_bytes(sb, all@.subrange(1, n - 2)));
        }
        all[n - 3].1 - all[1].0
    } else {
        proof {
            assert(lines.subrange(1, lines.len() - 1) =~= Seq::<Seq<u8>>::empty());
        }
        0
    };
    match parse_unsigned_at(s, toks[3].0, toks[3].1, usize::MAX as u64) {
        Some(b) => {
            if data_len == b as usize {
                ParsedResponse::Hit
            } else if data_len > b as usize {
                ParsedResponse::Invalid
            } else {
                ParsedResponse::Incomplete
            }
        },
        None => ParsedResponse::Invalid,
    }
}

} // verus!
