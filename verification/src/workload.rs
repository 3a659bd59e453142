//! The decisions of a request-generating workload: which protocol it
//! speaks, how fast it sends, how its parameters are filled, and which
//! request it sends next. Waiting between requests and queueing them for
//! the connections are left to the caller.

use vstd::prelude::*;
use vstd::utf8::{decode_utf8, encode_utf8, valid_utf8};

use crate::request::memcache::{self, storage_request};
use crate::request::thrift::{self, framed_call};
use crate::request::{decimal, digit_char, push_decimal};
use crate::text::str_eq;
use crate::trusted::{pad_right_truncating, random_alphanumeric, string_from_utf8};

verus! {

/// Nanoseconds in a second.
pub const ONE_SECOND: u64 = 1_000_000_000;

/// The capacity of the rate limiter's token bucket.
pub const BUCKET_SIZE: usize = 10_000;

/// The protocols a workload can speak.
#[derive(Debug, PartialEq, Eq, Copy, Clone)]
pub enum Protocol {
    Echo,
    Memcache,
    Ping,
    Redis,
    Thrift,
    Unknown,
}

/// The protocol of a name, if the name is known.
pub open spec fn protocol_named(name: Seq<char>) -> Option<Protocol> {
    if name == "echo"@ {
        Some(Protocol::Echo)
    } else if name == "memcache"@ {
        Some(Protocol::Memcache)
    } else if name == "ping"@ {
        Some(Protocol::Ping)
    } else if name == "redis"@ {
        Some(Protocol::Redis)
    } else if name == "thrift"@ {
        Some(Protocol::Thrift)
    } else {
        None
    }
}

impl Protocol {
    /// The protocol named `protocol`, or an error for an unknown name.
    pub fn new(protocol: &str) -> (r: Result<Protocol, &'static str>)
        ensures
            match r {
                Ok(p) => protocol_named(protocol@) == Some(p),
                Err(e) => protocol_named(protocol@) is None && e@ == "unknown protocol"@,
            },
    {
        if str_eq(protocol, "echo") {
            Ok(Protocol::Echo)
        } else if str_eq(protocol, "memcache") {
            Ok(Protocol::Memcache)
        } else if str_eq(protocol, "ping") {
            Ok(Protocol::Ping)
        } else if str_eq(protocol, "redis") {
            Ok(Protocol::Redis)
        } else if str_eq(protocol, "thrift") {
            Ok(Protocol::Thrift)
        } else {
            Err("unknown protocol")
        }
    }
}

/// The nanoseconds between requests at `rate` requests a second: zero
/// for an unlimited rate of zero, and for rates above a billion.
pub fn rate_to_interval(rate: u64) -> (r: u64)
    ensures
        r == (if rate == 0 {
            0
        } else {
            ONE_SECOND / rate
        }),
{
    if rate == 0 {
        return 0;
    }
    let interval = ONE_SECOND / rate;
    if interval < 1 {
        return 0;
    }
    interval
}

/// `s` fitted to `width` characters: cut to its first `width` characters
/// when it is as long, else preceded by copies of `fill`.
pub open spec fn fit_right(s: Seq<char>, width: nat, fill: char) -> Seq<char> {
    if s.len() >= width {
        s.take(width as int)
    } else {
        Seq::new((width - s.len()) as nat, |i: int| fill) + s
    }
}

/// The text of a static parameter: the decimal seed fitted to `size`
/// characters with leading zeros.
pub open spec fn seeded_text(size: nat, seed: nat) -> Seq<char> {
    fit_right(decimal(seed), size, '0')
}

/// An ASCII letter or digit, as a byte.
pub open spec fn is_alphanumeric(b: u8) -> bool {
    (48 <= b <= 57) || (65 <= b <= 90) || (97 <= b <= 122)
}

/// `size` random letters and digits.
pub fn random_string(size: usize) -> (r: String)
    ensures
        r@.len() == size,
        forall|i: int| 0 <= i < size ==> is_alphanumeric(#[trigger] r@[i] as u8),
        vstd::utf8::is_ascii_chars(r@),
{
    random_alphanumeric(size)
}

/// The text of a static parameter of `size` characters made from `seed`.
pub fn seeded_string(size: usize, seed: usize) -> (r: String)
    ensures
        r@ == seeded_text(size as nat, seed as nat),
{
    let mut s = String::new();
    push_decimal(&mut s, seed as u64);
    proof {
        lemma_decimal_digits(seed as nat);
    }
    let r = pad_right_truncating(s.as_str(), size, '0');
    assert(r@ =~= seeded_text(size as nat, seed as nat));
    r
}

/// Every character of a decimal rendering is a digit.
pub proof fn lemma_decimal_digits(n: nat)
    ensures
        forall|i: int| 0 <= i < decimal(n).len() ==> '0' <= #[trigger] decimal(n)[i] <= '9',
    decreases n,
{
    if n >= 10 {
        lemma_decimal_digits(n / 10);
        let d = digit_char(n % 10);
        assert('0' <= d <= '9');
        assert(decimal(n) == decimal(n / 10).push(d));
    } else {
        assert('0' <= digit_char(n) <= '9');
    }
}

/// How a parameter's value is made.
#[derive(Clone, Debug)]
pub enum Parameter {
    /// `size` random letters and digits, made anew on every request when
    /// `regenerate` holds and once otherwise.
    Random { size: usize, regenerate: bool },
    /// The seed in decimal, fitted to `size` characters.
    Static { size: usize, seed: usize },
}

impl Default for Parameter {
    fn default() -> (p: Parameter)
        ensures
            p == (Parameter::Static { size: 1, seed: 0 }),
    {
        Parameter::Static { size: 1, seed: 0 }
    }
}

/// What to do before a workload starts.
pub enum Preparation {
    /// Empty the cache.
    Flush,
    /// Store the keys that will be read, so that reads hit.
    Hit,
}

/// A request chosen by a workload. Memcache and thrift requests come
/// encoded; the others name the command and carry its arguments.
#[derive(Debug)]
pub enum Query {
    Bytes(Vec<u8>),
    Echo(Vec<u8>),
    Ping,
    RedisFlushAll,
    RedisGet(String),
    RedisSet(String, String),
    RedisHget(String, String),
    RedisHset(String, String, String),
}

/// The value bytes of a parameter after filling: static ones are their
/// seeded text; random ones, when made anew, are `size` letters and digits;
/// otherwise the old bytes stay.
pub open spec fn filled(p: Parameter, old_value: Seq<u8>, new_value: Seq<u8>, force: bool) -> bool {
    match p {
        Parameter::Static { size, seed } => new_value == encode_utf8(
            seeded_text(size as nat, seed as nat),
        ),
        Parameter::Random { size, regenerate } => if regenerate || force {
            &&& new_value.len() == size
            &&& forall|i: int| 0 <= i < size ==> is_alphanumeric(#[trigger] new_value[i])
        } else {
            new_value == old_value
        },
    }
}

/// Whether a request can be built at all: the command must belong to the
/// protocol and the values it reads must exist.
pub open spec fn query_defined(protocol: Protocol, command: Seq<char>, n_values: nat) -> bool {
    match protocol {
        Protocol::Echo => command == "echo"@ && n_values >= 1,
        Protocol::Memcache => if command == "set"@ || command == "add"@ {
            n_values >= 2
        } else if command == "get"@ || command == "gets"@ {
            n_values >= 1
        } else {
            false
        },
        Protocol::Ping => command == "ping"@,
        Protocol::Redis => if command == "set"@ {
            n_values >= 2
        } else if command == "get"@ {
            n_values >= 1
        } else if command == "hset"@ {
            n_values >= 3
        } else {
            command == "hget"@ && n_values >= 2
        },
        Protocol::Thrift => command == "ping"@,
        Protocol::Unknown => false,
    }
}

/// The text a value's bytes spell.
pub open spec fn text(b: Seq<u8>) -> Seq<char> {
    decode_utf8(b)
}

/// The memcache storage request of `cmd` with the key and value given by
/// two value byte strings.
pub open spec fn memcache_storage(cmd: Seq<char>, key: Seq<u8>, value: Seq<u8>) -> Seq<u8> {
    encode_utf8(storage_request(cmd, text(key), text(value), value.len(), None, None))
}

/// The request a workload sends for `protocol` and `command` given its
/// values.
pub open spec fn query_is(q: Query, protocol: Protocol, command: Seq<char>, vals: Seq<Seq<u8>>) -> bool {
    match protocol {
        Protocol::Echo => q matches Query::Echo(v) && v@ == vals[0],
        Protocol::Memcache => q matches Query::Bytes(b) && b@ == (if command == "set"@ {
            memcache_storage("set"@, vals[0], vals[1])
        } else if command == "add"@ {
            memcache_storage("add"@, vals[0], vals[1])
        } else if command == "get"@ {
            encode_utf8(memcache::keyed_request("get"@, text(vals[0])))
        } else {
            encode_utf8(memcache::keyed_request("gets"@, text(vals[0])))
        }),
        Protocol::Ping => q is Ping,
        Protocol::Redis => if command == "set"@ {
            q matches Query::RedisSet(k, v) && k@ == text(vals[0]) && v@ == text(vals[1])
        } else if command == "get"@ {
            q matches Query::RedisGet(k) && k@ == text(vals[0])
        } else if command == "hset"@ {
            q matches Query::RedisHset(a, b, c) && a@ == text(vals[0]) && b@ == text(vals[1]) && c@
                == text(vals[2])
        } else {
            q matches Query::RedisHget(a, b) && a@ == text(vals[0]) && b@ == text(vals[1])
        },
        Protocol::Thrift => q matches Query::Bytes(b) && b@ == framed_call(
            encode_utf8("ping"@),
            0,
            seq![],
        ),
        Protocol::Unknown => false,
    }
}

/// The request that prepares a server for a workload.
pub open spec fn prepared_is(
    q: Option<Query>,
    preparation: Preparation,
    protocol: Protocol,
    command: Seq<char>,
    vals: Seq<Seq<u8>>,
) -> bool {
    match preparation {
        Preparation::Flush => match protocol {
            Protocol::Memcache => q matches Some(Query::Bytes(b)) && b@ == encode_utf8(
                "flush_all\r\n"@,
            ),
            Protocol::Redis => q matches Some(Query::RedisFlushAll),
            _ => q is None,
        },
        Preparation::Hit => if command == "get"@ {
            match protocol {
                Protocol::Memcache => q matches Some(Query::Bytes(b)) && b@ == memcache_storage(
                    "set"@,
                    vals[0],
                    vals[1],
                ),
                Protocol::Redis => q matches Some(Query::RedisFlushAll),
                _ => q is None,
            }
        } else {
            q is None
        },
    }
}

/// A workload: a protocol and command, a rate, and parameters whose values
/// fill the requests.
pub struct Workload {
    protocol: Protocol,
    command: String,
    rate: u64,
    parameters: Vec<Parameter>,
    values: Vec<Vec<u8>>,
}

impl Workload {
    /// The protocol spoken.
    pub closed spec fn spec_protocol(&self) -> Protocol {
        self.protocol
    }

    /// The command sent.
    pub closed spec fn spec_command(&self) -> Seq<char> {
        self.command@
    }

    /// Requests a second, zero for no limit.
    pub closed spec fn spec_rate(&self) -> u64 {
        self.rate
    }

    /// The parameters, in order.
    pub closed spec fn spec_parameters(&self) -> Seq<Parameter> {
        self.parameters@
    }

    /// The current values: one for each parameter, then possibly more.
    pub closed spec fn spec_values(&self) -> Seq<Seq<u8>> {
        self.values@.map_values(|v: Vec<u8>| v@)
    }

    /// Each parameter has a value, and every value is text.
    pub open spec fn wf(&self) -> bool {
        &&& self.spec_parameters().len() <= self.spec_values().len()
        &&& forall|i: int|
            0 <= i < self.spec_values().len() ==> valid_utf8(#[trigger] self.spec_values()[i])
    }

    /// A workload without parameters.
    pub fn new(protocol: Protocol, command: String, rate: Option<u64>) -> (w: Workload)
        ensures
            w.wf(),
            w.spec_protocol() == protocol,
            w.spec_command() == command@,
            w.spec_rate() == match rate {
                Some(r) => r,
                None => 0,
            },
            w.spec_parameters().len() == 0,
            w.spec_values().len() == 0,
    {
        let r = match rate {
            Some(r) => r,
            None => 0,
        };
        let w = Workload {
            protocol,
            command,
            rate: r,
            parameters: Vec::new(),
            values: Vec::new(),
        };
        assert(w.spec_values() =~= Seq::<Seq<u8>>::empty());
        w
    }

    /// Requests a second, zero for no limit.
    pub fn rate(&self) -> (r: u64)
        ensures
            r == self.spec_rate(),
    {
        self.rate
    }

    /// The nanoseconds between requests.
    pub fn interval(&self) -> (r: u64)
        ensures
            r == (if self.spec_rate() == 0 {
                0
            } else {
                ONE_SECOND / self.spec_rate()
            }),
    {
        rate_to_interval(self.rate)
    }

    /// Adds a parameter, with an empty value until values are generated.
    pub fn add_param(&mut self, parameter: Parameter)
        requires
            old(self).wf(),
            old(self).spec_parameters().len() == old(self).spec_values().len(),
        ensures
            final(self).wf(),
            final(self).spec_protocol() == old(self).spec_protocol(),
            final(self).spec_command() == old(self).spec_command(),
            final(self).spec_rate() == old(self).spec_rate(),
            final(self).spec_parameters() == old(self).spec_parameters().push(parameter),
            final(self).spec_values() == old(self).spec_values().push(Seq::<u8>::empty()),
    {
        self.parameters.push(parameter);
        self.values.push(Vec::new());
        proof {
            assert(self.spec_values() =~= old(self).spec_values().push(Seq::<u8>::empty()));
            assert(valid_utf8(Seq::<u8>::empty())) by {
                assert(encode_utf8(Seq::<char>::empty()) =~= Seq::<u8>::empty());
                vstd::utf8::encode_utf8_valid_utf8(Seq::<char>::empty());
            }
        }
    }

    /// Fills the values of the parameters: static ones always, random ones
    /// when they regenerate or when `force` holds.
    pub fn generate_values(&mut self, force: bool)
        requires
            old(self).wf(),
        ensures
            final(self).wf(),
            final(self).spec_protocol() == old(self).spec_protocol(),
            final(self).spec_command() == old(self).spec_command(),
            final(self).spec_rate() == old(self).spec_rate(),
            final(self).spec_parameters() == old(self).spec_parameters(),
            final(self).spec_values().len() == old(self).spec_values().len(),
            forall|i: int|
                0 <= i < old(self).spec_parameters().len() ==> filled(
                    old(self).spec_parameters()[i],
                    old(self).spec_values()[i],
                    #[trigger] final(self).spec_values()[i],
                    force,
                ),
            forall|i: int|
                old(self).spec_parameters().len() <= i < old(self).spec_values().len()
                    ==> #[trigger] final(self).spec_values()[i] == old(self).spec_values()[i],
    {
        let n = self.parameters.len();
        let mut i: usize = 0;
        while i < n
            invariant
                n == self.spec_parameters().len(),
                i <= n,
                self.wf(),
                self.spec_protocol() == old(self).spec_protocol(),
                self.spec_command() == old(self).spec_command(),
                self.spec_rate() == old(self).spec_rate(),
                self.spec_parameters() == old(self).spec_parameters(),
                self.spec_values().len() == old(self).spec_values().len(),
                forall|j: int|
                    0 <= j < i ==> filled(
                        old(self).spec_parameters()[j],
                        old(self).spec_values()[j],
                        #[trigger] self.spec_values()[j],
                        force,
                    ),
                forall|j: int|
                    i <= j < old(self).spec_values().len() ==> #[trigger] self.spec_values()[j]
                        == old(self).spec_values()[j],
            decreases n - i,
        {
            let (random, size, regenerate, seed) = match &self.parameters[i] {
                Parameter::Random { size, regenerate } => (true, *size, *regenerate, 0),
                Parameter::Static { size, seed } => (false, *size, false, *seed),
            };
            let ghost before = self.spec_values();
            if random {
                if regenerate || force {
                    let s = random_string(size);
                    let bytes = s.as_str().as_bytes_vec();
                    proof {
                        vstd::utf8::is_ascii_chars_encode_utf8(s@);
                        vstd::utf8::encode_utf8_valid_utf8(s@);
                        assert forall|k: int| 0 <= k < size implies is_alphanumeric(
                            #[trigger] bytes@[k],
                        ) by {
                            assert(s@[k] as u8 == bytes@[k]);
                        }
                    }
                    self.values.set(i, bytes);
                    proof {
                        assert(self.spec_values() =~= before.update(i as int, bytes@));
                    }
                }
            } else {
                let s = seeded_string(size, seed);
                let bytes = s.as_str().as_bytes_vec();
                proof {
                    vstd::utf8::encode_utf8_valid_utf8(s@);
                }
                self.values.set(i, bytes);
                proof {
                    assert(self.spec_values() =~= before.update(i as int, bytes@));
                }
            }
            i = i + 1;
        }
    }

    /// The text of value `i`.
    fn value_text(&self, i: usize) -> (r: String)
        requires
            self.wf(),
            i < self.spec_values().len(),
        ensures
            r@ == text(self.spec_values()[i as int]),
            encode_utf8(r@) == self.spec_values()[i as int],
    {
        let bytes = self.values[i].clone();
        assert(bytes@ == self.spec_values()[i as int]);
        let r = string_from_utf8(bytes);
        proof {
            vstd::utf8::encode_utf8_decode_utf8(r@);
        }
        r
    }

    /// Whether the command belongs to the protocol and the values it reads
    /// exist.
    pub fn can_query(&self) -> (r: bool)
        ensures
            r == query_defined(self.spec_protocol(), self.spec_command(), self.spec_values().len()),
    {
        let c = self.command.as_str();
        let n = self.values.len();
        assert(n == self.spec_values().len());
        match self.protocol {
            Protocol::Echo => str_eq(c, "echo") && n >= 1,
            Protocol::Memcache => if str_eq(c, "set") || str_eq(c, "add") {
                n >= 2
            } else if str_eq(c, "get") || str_eq(c, "gets") {
                n >= 1
            } else {
                false
            },
            Protocol::Ping => str_eq(c, "ping"),
            Protocol::Redis => if str_eq(c, "set") {
                n >= 2
            } else if str_eq(c, "get") {
                n >= 1
            } else if str_eq(c, "hset") {
                n >= 3
            } else {
                str_eq(c, "hget") && n >= 2
            },
            Protocol::Thrift => str_eq(c, "ping"),
            Protocol::Unknown => false,
        }
    }

    /// The request for the current values.
    fn build_query(&self) -> (q: Query)
        requires
            self.wf(),
            query_defined(self.spec_protocol(), self.spec_command(), self.spec_values().len()),
        ensures
            query_is(q, self.spec_protocol(), self.spec_command(), self.spec_values()),
    {
        let c = self.command.as_str();
        match self.protocol {
            Protocol::Echo => {
                let v = self.values[0].clone();
                assert(v@ == self.spec_values()[0]);
                Query::Echo(v)
            },
            Protocol::Memcache => {
                if str_eq(c, "set") || str_eq(c, "add") {
                    let key = self.value_text(0);
                    let value = self.value_text(1);
                    let value_len = self.values[1].len();
                    assert(value_len == self.spec_values()[1].len());
                    let r = if str_eq(c, "set") {
                        memcache::set(key.as_str(), value.as_str(), None, None)
                    } else {
                        memcache::add(key.as_str(), value.as_str(), None, None)
                    };
                    Query::Bytes(r.as_str().as_bytes_vec())
                } else {
                    let key = self.value_text(0);
                    let r = if str_eq(c, "get") {
                        memcache::get(key.as_str())
                    } else {
                        memcache::gets(key.as_str())
                    };
                    Query::Bytes(r.as_str().as_bytes_vec())
                }
            },
            Protocol::Ping => Query::Ping,
            Protocol::Redis => {
                if str_eq(c, "set") {
                    Query::RedisSet(self.value_text(0), self.value_text(1))
                } else if str_eq(c, "get") {
                    Query::RedisGet(self.value_text(0))
                } else if str_eq(c, "hset") {
                    Query::RedisHset(self.value_text(0), self.value_text(1), self.value_text(2))
                } else {
                    Query::RedisHget(self.value_text(0), self.value_text(1))
                }
            },
            Protocol::Thrift => Query::Bytes(thrift::ping()),
            Protocol::Unknown => Query::Ping,
        }
    }

    /// Refreshes the values that regenerate, then chooses the next request.
    pub fn next_query(&mut self) -> (q: Query)
        requires
            old(self).wf(),
            query_defined(
                old(self).spec_protocol(),
                old(self).spec_command(),
                old(self).spec_values().len(),
            ),
        ensures
            final(self).wf(),
            final(self).spec_protocol() == old(self).spec_protocol(),
            final(self).spec_command() == old(self).spec_command(),
            final(self).spec_rate() == old(self).spec_rate(),
            final(self).spec_parameters() == old(self).spec_parameters(),
            final(self).spec_values().len() == old(self).spec_values().len(),
            forall|i: int|
                0 <= i < old(self).spec_parameters().len() ==> filled(
                    old(self).spec_parameters()[i],
                    old(self).spec_values()[i],
                    #[trigger] final(self).spec_values()[i],
                    false,
                ),
            forall|i: int|
                old(self).spec_parameters().len() <= i < old(self).spec_values().len()
                    ==> #[trigger] final(self).spec_values()[i] == old(self).spec_values()[i],
            query_is(q, final(self).spec_protocol(), final(self).spec_command(), final(self).spec_values()),
    {
        self.generate_values(false);
        self.build_query()
    }

    /// The request that prepares the server, if the protocol and preparation
    /// call for one. Preparing memcache reads stores the first value under
    /// the key of the first value, adding an empty second value if needed.
    pub fn prepare(&mut self, preparation: Preparation) -> (q: Option<Query>)
        requires
            old(self).wf(),
            preparation is Hit && old(self).spec_command() == "get"@ && old(self).spec_protocol()
                == Protocol::Memcache ==> old(self).spec_values().len() >= 1,
        ensures
            final(self).wf(),
            final(self).spec_protocol() == old(self).spec_protocol(),
            final(self).spec_command() == old(self).spec_command(),
            final(self).spec_rate() == old(self).spec_rate(),
            final(self).spec_parameters() == old(self).spec_parameters(),
            final(self).spec_values() == (if preparation is Hit && old(self).spec_command() == "get"@
                && old(self).spec_protocol() == Protocol::Memcache && old(self).spec_values().len() < 2 {
                old(self).spec_values().push(Seq::<u8>::empty())
            } else {
                old(self).spec_values()
            }),
            prepared_is(q, preparation, old(self).spec_protocol(), old(self).spec_command(), final(self).spec_values()),
    {
        match preparation {
            Preparation::Flush => {
                match self.protocol {
                    Protocol::Memcache => {
                        let r = memcache::flush_all();
                        Some(Query::Bytes(r.as_str().as_bytes_vec()))
                    },
                    Protocol::Redis => Some(Query::RedisFlushAll),
                    _ => None,
                }
            },
            Preparation::Hit => {
                if str_eq(self.command.as_str(), "get") {
                    match self.protocol {
                        Protocol::Memcache => {
                            if self.values.len() < 2 {
                                self.values.push(Vec::new());
                                proof {
                                    assert(self.spec_values() =~= old(self).spec_values().push(Seq::<u8>::empty()));
                                    assert(encode_utf8(Seq::<char>::empty()) =~= Seq::<u8>::empty());
                                    vstd::utf8::encode_utf8_valid_utf8(Seq::<char>::empty());
                                }
                            }
                            let key = self.value_text(0);
                            let value = self.value_text(1);
                            let value_len = self.values[1].len();
                            assert(value_len == self.spec_values()[1].len());
                            let r = memcache::set(key.as_str(), value.as_str(), None, None);
                            Some(Query::Bytes(r.as_str().as_bytes_vec()))
                        },
                        Protocol::Redis => Some(Query::RedisFlushAll),
                        _ => None,
                    }
                } else {
                    None
                }
            },
        }
    }
}

} // verus!
