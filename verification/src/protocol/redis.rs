use vstd::prelude::*;
use vstd::string::StringSliceAdditionalSpecFns;
use vstd::utf8::is_continuation_byte;

use crate::protocol::{reports, Outcome, Parse, ParsedResponse};
use crate::text::{
    bytes_equal, ends_with_crlf, join_crlf, lemma_join_spans, lemma_split_crlf_last,
    lemma_split_crlf_one_line, parse_i64, parse_unsigned, parse_unsigned_at,
    parses_as_i64, span_bytes, spans_bytes, split_crlf, split_lines,
};

verus! {

/// The text `OK`.
pub open spec fn text_ok() -> Seq<u8> {
    seq![79u8, 75u8]
}

/// The text `PONG`.
pub open spec fn text_pong() -> Seq<u8> {
    seq![80u8, 79u8, 78u8, 71u8]
}

/// The text `-1`.
pub open spec fn text_minus_one() -> Seq<u8> {
    seq![45u8, 49u8]
}

/// Classifying a redis response fails when the response is complete and its
/// first line is empty or starts with a character of more than one byte.
pub open spec fn redis_parse_panics(s: Seq<u8>) -> bool {
    let all = split_crlf(s);
    let first = all[0];
    all.last().len() == 0 && (first.len() == 0 || (first.len() > 1 && is_continuation_byte(first[1])))
}

/// The classification of a redis (RESP) response `s`.
///
/// A response is incomplete unless it ends with a line break. The first byte
/// of the first line gives the type: a simple string `+` is `Ok` for `OK`
/// and `PONG`, an error `-` carries the rest of the line, an integer `:` is
/// `Ok` when the rest of the line is an `i64`, a bulk string `$` is a miss
/// for length `-1` and otherwise a hit when the lines after the first hold
/// exactly that many bytes, and an array `*` is a miss for `-1` when
/// `nil_array_is_miss` holds and is unknown otherwise.
pub open spec fn redis_classify(s: Seq<u8>, nil_array_is_miss: bool) -> Outcome {
    let all = split_crlf(s);
    if all.last().len() != 0 {
        Outcome::Incomplete
    } else {
        let lines = all.drop_last();
        let first = lines[0];
        let tag = first[0];
        let msg = first.skip(1);
        if tag == 43 {
            if msg == text_ok() || msg == text_pong() {
                Outcome::Okay
            } else {
                Outcome::Invalid
            }
        } else if tag == 45 {
            Outcome::Error(msg)
        } else if tag == 58 {
            if parse_i64(msg) is Some {
                Outcome::Okay
            } else {
                Outcome::Invalid
            }
        } else if tag == 36 {
            if msg == text_minus_one() {
                Outcome::Miss
            } else {
                match parse_unsigned(msg, usize::MAX as nat) {
                    Some(b) => {
                        let data = join_crlf(lines.skip(1));
                        if data.len() == b {
                            Outcome::Hit
                        } else if data.len() < b {
                            Outcome::Incomplete
                        } else {
                            Outcome::Invalid
                        }
                    },
                    None => Outcome::Invalid,
                }
            }
        } else if tag == 42 {
            if nil_array_is_miss && msg == text_minus_one() {
                Outcome::Miss
            } else {
                Outcome::Unknown
            }
        } else {
            Outcome::Invalid
        }
    }
}

/// A response that is not empty and does not end with a line break is
/// incomplete, whatever it holds.
pub proof fn lemma_redis_incomplete_without_crlf(s: Seq<u8>, nil_array_is_miss: bool)
    requires
        s.len() > 0,
        !ends_with_crlf(s),
    ensures
        redis_classify(s, nil_array_is_miss) == Outcome::Incomplete,
{
    lemma_split_crlf_last(s);
}

/// A complete response of one line is told by its first byte: `-` is an
/// error that carries the rest of the line; `+` is fine for `OK` and
/// `PONG` and invalid for any other text; `:` is fine exactly when the rest
/// is an `i64`, and invalid otherwise; `$-1` is a miss; `*` is unknown,
/// except `*-1` where a nil array counts as a miss; any other first byte is
/// invalid.
pub proof fn lemma_redis_one_line(l: Seq<u8>, nil_array_is_miss: bool)
    requires
        l.len() >= 1,
        forall|j: int| 0 <= j < l.len() - 1 ==> !(#[trigger] l[j] == 13 && l[j + 1] == 10),
    ensures
        ({
            let o = redis_classify(l + seq![13u8, 10u8], nil_array_is_miss);
            let rest = l.skip(1);
            &&& l[0] == 45 ==> o == Outcome::Error(rest)
            &&& l[0] == 43 ==> o == (if rest == seq![79u8, 75u8] || rest == seq![
                80u8,
                79u8,
                78u8,
                71u8,
            ] {
                Outcome::Okay
            } else {
                Outcome::Invalid
            })
            &&& l[0] == 58 ==> o == (if parse_i64(rest) is Some {
                Outcome::Okay
            } else {
                Outcome::Invalid
            })
            &&& l == seq![36u8, 45u8, 49u8] ==> o == Outcome::Miss
            &&& l[0] == 42 ==> o == (if nil_array_is_miss && rest == seq![45u8, 49u8] {
                Outcome::Miss
            } else {
                Outcome::Unknown
            })
            &&& (l[0] != 43 && l[0] != 45 && l[0] != 58 && l[0] != 36 && l[0] != 42) ==> o
                == Outcome::Invalid
        }),
{
    lemma_split_crlf_one_line(l);
    let s = l + seq![13u8, 10u8];
    let all = split_crlf(s);
    assert(all.drop_last() =~= seq![l]);
    if l == seq![36u8, 45u8, 49u8] {
        assert(l.skip(1) =~= text_minus_one());
    }
}

/// The classification of a redis response, with `*-1` a miss.
pub open spec fn redis_outcome(s: Seq<u8>) -> Outcome {
    redis_classify(s, true)
}

pub(crate) fn classify(response: &str, nil_array_is_miss: bool) -> (r: ParsedResponse)
    requires
        !redis_parse_panics(response.spec_bytes()),
    ensures
        reports(r, redis_classify(response.spec_bytes(), nil_array_is_miss)),
{
    let s = response.as_bytes();
    let ghost sb = s@;
    let all = split_lines(s);
    let ghost lines0 = split_crlf(sb);
    let n = all.len();
    let last = all[n - 1];
    proof {
        assert(lines0.last() == span_bytes(sb, all@[n - 1]));
    }
    if last.0 != last.1 {
        return ParsedResponse::Incomplete;
    }
    let first = all[0];
    let end = first.1;
    let ghost line = lines0[0];
    proof {
        assert(line == span_bytes(sb, all@[0]));
        assert(line =~= sb.subrange(0, end as int));
        assert(end > 0);
        assert(n >= 2) by {
            if n == 1 {
                assert(sb.len() == 0);
            }
        }
        assert(lines0.drop_last()[0] == line);
        assert(line.skip(1) =~= sb.subrange(1, end as int));
    }
    let tag = s[0];
    if tag == 43 {
        let ok: [u8; 2] = [79, 75];
        let pong: [u8; 4] = [80, 79, 78, 71];
        assert(ok@ =~= text_ok());
        assert(pong@ =~= text_pong());
        if bytes_equal(s, 1, end, ok.as_slice()) || bytes_equal(s, 1, end, pong.as_slice()) {
            ParsedResponse::Okay
        } else {
            ParsedResponse::Invalid
        }
    } else if tag == 45 {
        proof {
            vstd::utf8::encode_utf8_valid_utf8(response@);
            vstd::utf8::is_char_boundary_start_end_of_seq(sb);
            if end < sb.len() {
                vstd::utf8::is_char_boundary_iff_not_is_continuation_byte(sb, end as int);
            }
        }
        let (line_str, _) = response.split_at(end);
        proof {
            vstd::utf8::encode_utf8_valid_utf8(line_str@);
            let lb = line_str.spec_bytes();
            assert(lb =~= line);
            vstd::utf8::is_char_boundary_start_end_of_seq(lb);
            if end > 1 {
                vstd::utf8::is_char_boundary_iff_not_is_continuation_byte(lb, 1);
            }
        }
        let (_, msg) = line_str.split_at(1);
        ParsedResponse::Error(msg.to_owned())
    } else if tag == 58 {
        if parses_as_i64(s, 1, end) {
            ParsedResponse::Okay
        } else {
            ParsedResponse::Invalid
        }
    } else if tag == 36 {
        let minus_one: [u8; 2] = [45, 49];
        assert(minus_one@ =~= text_minus_one());
        if bytes_equal(s, 1, end, minus_one.as_slice()) {
            return ParsedResponse::Miss;
        }
        match parse_unsigned_at(s, 1, end, usize::MAX as u64) {
            Some(b) => {
                let data_len: usize = if n - 1 > 1 {
                    proof {
                        lemma_join_spans(sb, all@, 1, n - 1);
                        assert(lines0.drop_last().skip(1) =~= spans_bytes(sb, all@.subrange(1, n - 1)));
                    }
                    all[n - 2].1 - all[1].0
                } else {
                    proof {
                        assert(lines0.drop_last().skip(1) =~= Seq::<Seq<u8>>::empty());
                    }
                    0
                };
                if data_len == b as usize {
                    ParsedResponse::Hit
                } else if data_len < b as usize {
                    ParsedResponse::Incomplete
                } else {
                    ParsedResponse::Invalid
                }
            },
            None => ParsedResponse::Invalid,
        }
    } else if tag == 42 {
        let minus_one: [u8; 2] = [45, 49];
        assert(minus_one@ =~= text_minus_one());
        if nil_array_is_miss && bytes_equal(s, 1, end, minus_one.as_slice()) {
            ParsedResponse::Miss
        } else {
            ParsedResponse::Unknown
        }
    } else {
        ParsedResponse::Invalid
    }
}

/// Classify a redis response.
pub fn parse_response(response: &str) -> (r: ParsedResponse)
    requires
        !redis_parse_panics(response.spec_bytes()),
    ensures
        reports(r, redis_outcome(response.spec_bytes())),
{
    classify(response, true)
}

/// A redis response held as borrowed text.
pub struct Response<'a> {
    pub response: &'a str,
}

impl<'a> Parse for Response<'a> {
    open spec fn parse_defined(&self) -> bool {
        !redis_parse_panics(self.response.spec_bytes())
    }

    open spec fn outcome(&self) -> Outcome {
        redis_outcome(self.response.spec_bytes())
    }

    fn parse(&self) -> (r: ParsedResponse) {
        parse_response(self.response)
    }
}

} // verus!
