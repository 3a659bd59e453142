//! Classification of protocol responses.

use vstd::prelude::*;
use vstd::utf8::{
    encode_utf8, is_continuation_byte, is_leading_byte_width_1, is_leading_byte_width_2,
    is_leading_byte_width_3, length_of_first_scalar, pop_first_scalar, valid_utf8,
};

pub mod echo;
pub mod memcache;
pub mod ping;
pub mod redis;
pub mod redis_owned;
pub mod thrift;

verus! {

/// What a response buffer holds, as far as the load generator cares.
#[derive(PartialEq, Eq, Debug)]
pub enum ParsedResponse {
    Error(String),
    Hit,
    Incomplete,
    Invalid,
    Miss,
    Okay,
    Unknown,
    Version(String),
}

/// Anything that can classify the response it holds.
pub trait Parse {
    /// Whether classifying this response completes.
    spec fn parse_defined(&self) -> bool;

    /// The classification of this response.
    spec fn outcome(&self) -> Outcome;

    fn parse(&self) -> (r: ParsedResponse)
        requires
            self.parse_defined(),
        ensures
            reports(r, self.outcome()),
    ;
}

/// The classification of a response, with the text of an error or version
/// given as its UTF-8 bytes.
pub enum Outcome {
    Error(Seq<u8>),
    Hit,
    Incomplete,
    Invalid,
    Miss,
    Okay,
    Unknown,
    Version(Seq<u8>),
}

/// `r` is the response value that stands for `o`.
pub open spec fn reports(r: ParsedResponse, o: Outcome) -> bool {
    match o {
        Outcome::Error(b) => r matches ParsedResponse::Error(e) && encode_utf8(e@) == b,
        Outcome::Hit => r is Hit,
        Outcome::Incomplete => r is Incomplete,
        Outcome::Invalid => r is Invalid,
        Outcome::Miss => r is Miss,
        Outcome::Okay => r is Okay,
        Outcome::Unknown => r is Unknown,
        Outcome::Version(b) => r matches ParsedResponse::Version(e) && encode_utf8(e@) == b,
    }
}

/// Width of the UTF-8 encoding whose leading byte is `b`.
pub open spec fn lead_width(b: u8) -> int {
    if is_leading_byte_width_1(b) {
        1
    } else if is_leading_byte_width_2(b) {
        2
    } else if is_leading_byte_width_3(b) {
        3
    } else {
        4
    }
}

/// In valid UTF-8, the byte after a whole character is never a
/// continuation byte.
pub proof fn lemma_after_char(s: Seq<u8>, q: int)
    requires
        valid_utf8(s),
        0 <= q,
        q + lead_width(s[q]) < s.len(),
        !is_continuation_byte(s[q]),
    ensures
        !is_continuation_byte(s[q + lead_width(s[q])]),
    decreases s.len(),
{
    reveal_with_fuel(valid_utf8, 2);
    let l = length_of_first_scalar(s);
    let rest = pop_first_scalar(s);
    assert(valid_utf8(rest));
    assert(1 <= l <= 4 && l <= s.len());
    assert(rest.len() == s.len() - l);
    assert(forall|k: int| 1 <= k < l ==> is_continuation_byte(#[trigger] s[k]));
    if q == 0 {
        assert(l == lead_width(s[0]));
        assert(rest.len() > 0);
        assert(rest[0] == s[l]);
    } else {
        assert(q >= l);
        assert(rest[q - l] == s[q]);
        lemma_after_char(rest, q - l);
        assert(rest[q - l + lead_width(s[q])] == s[q + lead_width(s[q])]);
    }
}

pub proof fn lemma_encode_utf8_concat(a: Seq<char>, b: Seq<char>)
    ensures
        encode_utf8(a + b) == encode_utf8(a) + encode_utf8(b),
    decreases a.len(),
{
    if a.len() > 0 {
        lemma_encode_utf8_concat(a.drop_first(), b);
        assert((a + b).drop_first() =~= a.drop_first() + b);
        assert(encode_utf8(a + b) =~= encode_utf8(a) + encode_utf8(b));
    } else {
        assert(a + b =~= b);
        assert(encode_utf8(a) =~= Seq::<u8>::empty());
        assert(encode_utf8(a) + encode_utf8(b) =~= encode_utf8(b));
    }
}

} // verus!
