use vstd::prelude::*;
use vstd::utf8::encode_utf8;

use crate::protocol::redis::{classify, redis_classify, redis_parse_panics};
use crate::protocol::{Outcome, Parse, ParsedResponse};

verus! {

/// A redis response held as owned text. Arrays are always reported as
/// unknown by this parser.
pub struct Response {
    pub response: String,
}

impl Parse for Response {
    open spec fn parse_defined(&self) -> bool {
        !redis_parse_panics(encode_utf8(self.response@))
    }

    open spec fn outcome(&self) -> Outcome {
        redis_classify(encode_utf8(self.response@), false)
    }

    fn parse(&self) -> (r: ParsedResponse) {
        classify(self.response.as_str(), false)
    }
}

} // verus!
