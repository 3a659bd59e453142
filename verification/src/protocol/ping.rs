use vstd::prelude::*;
use vstd::string::StringSliceAdditionalSpecFns;

use crate::protocol::{Outcome, Parse, ParsedResponse};
use crate::text::{bytes_equal, span_bytes, spans_bytes, split_crlf, split_lines, split_tokens, tokens};

verus! {

/// The text `PONG`.
pub open spec fn text_pong() -> Seq<u8> {
    seq![80u8, 79u8, 78u8, 71u8]
}

/// The text `+PONG`.
pub open spec fn text_plus_pong() -> Seq<u8> {
    seq![43u8, 80u8, 79u8, 78u8, 71u8]
}

/// The classification of a ping response: incomplete without a final line
/// break, `Ok` for a single line holding just `PONG` or `+PONG`, and unknown
/// otherwise.
pub open spec fn ping_outcome(s: Seq<u8>) -> Outcome {
    let all = split_crlf(s);
    if all.last().len() != 0 {
        Outcome::Incomplete
    } else {
        let lines = all.drop_last();
        let t = tokens(lines[0]);
        if lines.len() == 1 {
            if lines[0].len() + 2 != s.len() {
                Outcome::Incomplete
            } else if t.len() == 1 && (t[0] == text_pong() || t[0] == text_plus_pong()) {
                Outcome::Okay
            } else {
                Outcome::Unknown
            }
        } else {
            Outcome::Unknown
        }
    }
}

/// A ping response held as borrowed text.
pub struct Response<'a> {
    pub response: &'a str,
}

impl<'a> Parse for Response<'a> {
    /// Classifying fails only on the empty response.
    open spec fn parse_defined(&self) -> bool {
        self.response.spec_bytes().len() > 0
    }

    open spec fn outcome(&self) -> Outcome {
        ping_outcome(self.response.spec_bytes())
    }

    fn parse(&self) -> (r: ParsedResponse) {
        let s = self.response.as_bytes();
        let ghost sb = s@;
        let all = split_lines(s);
        let ghost lines0 = split_crlf(sb);
        let n = all.len();
        let last = all[n - 1];
        proof {
            assert(lines0.last() == span_bytes(sb, all@[n - 1]));
        }
        if last.0 != last.1 {
            return ParsedResponse::Incomplete;
        }
        let first = all[0];
        let toks = split_tokens(s, first.1);
        proof {
            assert(lines0[0] == span_bytes(sb, all@[0]));
            assert(span_bytes(sb, all@[0]) =~= sb.subrange(0, first.1 as int));
            assert(n >= 2);
            assert(lines0.drop_last()[0] == lines0[0]);
            assert(tokens(lines0[0]) == spans_bytes(sb, toks@));
        }
        if n - 1 == 1 {
            if first.1 - first.0 + 2 != s.len() {
                return ParsedResponse::Incomplete;
            }
            if toks.len() == 1 {
                let w = toks[0];
                proof {
                    assert(tokens(lines0[0])[0] == span_bytes(sb, w));
                }
                let pong: [u8; 4] = [80, 79, 78, 71];
                let plus_pong: [u8; 5] = [43, 80, 79, 78, 71];
                assert(pong@ =~= text_pong());
                assert(plus_pong@ =~= text_plus_pong());
                if bytes_equal(s, w.0, w.1, pong.as_slice()) || bytes_equal(
                    s,
                    w.0,
                    w.1,
                    plus_pong.as_slice(),
                ) {
                    return ParsedResponse::Okay;
                }
            }
        }
        ParsedResponse::Unknown
    }
}

} // verus!
