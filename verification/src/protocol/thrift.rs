use vstd::prelude::*;

use crate::protocol::{Outcome, Parse, ParsedResponse};
use crate::trusted::read_u32_be;
use crate::wire::be_value32;

verus! {

/// The frame length announced by the first four bytes of `s`.
pub open spec fn frame_length(s: Seq<u8>) -> nat {
    be_value32(s[0], s[1], s[2], s[3])
}

/// Classifying a framed thrift response fails when the announced frame
/// length is so large that adding the four header bytes overflows.
pub open spec fn thrift_parse_panics(s: Seq<u8>) -> bool {
    s.len() > 4 && frame_length(s) + 4 > u32::MAX
}

/// The classification of a framed thrift response: `Ok` when it is longer
/// than its four-byte header and its length (taken modulo 2^32) is the
/// announced frame length plus the header, incomplete otherwise.
pub open spec fn thrift_outcome(s: Seq<u8>) -> Outcome {
    if s.len() > 4 && (s.len() as u32) as nat == frame_length(s) + 4 {
        Outcome::Okay
    } else {
        Outcome::Incomplete
    }
}

/// A framed thrift response held as borrowed bytes.
pub struct Response<'a> {
    pub response: &'a [u8],
}

impl<'a> Parse for Response<'a> {
    open spec fn parse_defined(&self) -> bool {
        !thrift_parse_panics(self.response@)
    }

    open spec fn outcome(&self) -> Outcome {
        thrift_outcome(self.response@)
    }

    fn parse(&self) -> (r: ParsedResponse) {
        let bytes = self.response.len();
        if bytes > 4 {
            let length = read_u32_be(self.response);
            if bytes as u32 == length + 4 {
                return ParsedResponse::Okay;
            }
        }
        ParsedResponse::Incomplete
    }
}

} // verus!
