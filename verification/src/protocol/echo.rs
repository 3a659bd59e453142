use vstd::prelude::*;
use vstd::utf8::{encode_utf8, is_ascii_chars};

use crate::protocol::{reports, Outcome, Parse, ParsedResponse};
use crate::trusted::{checksum_ieee, crc32_ieee};
use crate::wire::be32;

verus! {

/// The text `bad crc`.
pub open spec fn text_bad_crc() -> Seq<u8> {
    seq![98u8, 97u8, 100u8, 32u8, 99u8, 114u8, 99u8]
}

/// The classification of an echo response `s` given the checksum of its
/// payload: a response is its payload, a four-byte big-endian checksum and
/// a line break. Up to six bytes, or without the final line break, it is
/// incomplete; with a matching checksum it is `Ok`, and otherwise an error.
pub open spec fn echo_outcome(s: Seq<u8>, checksum: u32) -> Outcome {
    if s.len() <= 6 {
        Outcome::Incomplete
    } else if s[s.len() - 2] != 13 || s[s.len() - 1] != 10 {
        Outcome::Incomplete
    } else if s.subrange(s.len() - 6, s.len() - 2) == be32(checksum) {
        Outcome::Okay
    } else {
        Outcome::Error(text_bad_crc())
    }
}

/// The payload of an echo response: everything before its checksum.
pub open spec fn echo_payload(s: Seq<u8>) -> Seq<u8> {
    if s.len() >= 6 {
        s.take(s.len() - 6)
    } else {
        s
    }
}

/// Classify an echo response, given the checksum of its payload.
pub fn classify_echo(response: &[u8], checksum: u32) -> (r: ParsedResponse)
    ensures
        reports(r, echo_outcome(response@, checksum)),
{
    let n = response.len();
    if n <= 6 {
        return ParsedResponse::Incomplete;
    }
    if response[n - 2] != 13 || response[n - 1] != 10 {
        return ParsedResponse::Incomplete;
    }
    let expected: [u8; 4] = [
        (checksum >> 24u32) as u8,
        (checksum >> 16u32) as u8,
        (checksum >> 8u32) as u8,
        checksum as u8,
    ];
    if response[n - 6] == expected[0] && response[n - 5] == expected[1] && response[n - 4]
        == expected[2] && response[n - 3] == expected[3] {
        assert(response@.subrange(n - 6, n - 2) =~= be32(checksum));
        ParsedResponse::Okay
    } else {
        assert(response@.subrange(n - 6, n - 2) != be32(checksum)) by {
            let sub = response@.subrange(n - 6, n - 2);
            if sub == be32(checksum) {
                assert(sub[0] == expected@[0]);
                assert(sub[1] == expected@[1]);
                assert(sub[2] == expected@[2]);
                assert(sub[3] == expected@[3]);
            }
        }
        let msg = String::from_str("bad crc");
        proof {
            reveal_strlit("bad crc");
            assert(is_ascii_chars(msg@));
            vstd::utf8::is_ascii_chars_encode_utf8(msg@);
            assert(encode_utf8(msg@) =~= text_bad_crc());
        }
        ParsedResponse::Error(msg)
    }
}

/// An echo response held as borrowed bytes.
pub struct Response<'a> {
    pub response: &'a [u8],
}

impl<'a> Parse for Response<'a> {
    open spec fn parse_defined(&self) -> bool {
        true
    }

    open spec fn outcome(&self) -> Outcome {
        echo_outcome(self.response@, crc32_ieee(echo_payload(self.response@)))
    }

    fn parse(&self) -> (r: ParsedResponse) {
        let n = self.response.len();
        if n <= 6 {
            return ParsedResponse::Incomplete;
        }
        let payload = self.response.split_at(n - 6).0;
        let checksum = checksum_ieee(payload);
        classify_echo(self.response, checksum)
    }
}

} // verus!
