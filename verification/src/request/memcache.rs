//! Requests of the memcache text protocol.

use vstd::prelude::*;

use crate::request::{crlf, decimal, push_crlf, push_decimal, push_space, space};

verus! {

/// The number an optional field stands for: its value, or zero when absent.
pub open spec fn or_zero(o: Option<u32>) -> nat {
    match o {
        Some(v) => v as nat,
        None => 0,
    }
}

/// A storage request: the command, the key, the flags, the expiry time and
/// the length in bytes of the value, separated by spaces, then the value on
/// a line of its own.
pub open spec fn storage_request(
    cmd: Seq<char>,
    key: Seq<char>,
    value: Seq<char>,
    value_len: nat,
    exptime: Option<u32>,
    flags: Option<u32>,
) -> Seq<char> {
    cmd + space() + key + space() + decimal(or_zero(flags)) + space() + decimal(or_zero(exptime))
        + space() + decimal(value_len) + crlf() + value + crlf()
}

/// A check-and-set request: a storage request whose header line also carries
/// the unique value the item must still have.
pub open spec fn cas_request(
    key: Seq<char>,
    value: Seq<char>,
    value_len: nat,
    exptime: Option<u32>,
    flags: Option<u32>,
    unique: nat,
) -> Seq<char> {
    "cas"@ + space() + key + space() + decimal(or_zero(flags)) + space() + decimal(
        or_zero(exptime),
    ) + space() + decimal(value_len) + space() + decimal(unique) + crlf() + value + crlf()
}

/// A request of a command word, a key and a number on one line.
pub open spec fn keyed_number_request(cmd: Seq<char>, key: Seq<char>, n: nat) -> Seq<char> {
    cmd + space() + key + space() + decimal(n) + crlf()
}

/// A request of a command word and a key on one line.
pub open spec fn keyed_request(cmd: Seq<char>, key: Seq<char>) -> Seq<char> {
    cmd + space() + key + crlf()
}

fn optional_or_zero(o: Option<u32>) -> (r: u64)
    ensures
        r == or_zero(o),
{
    match o {
        Some(v) => v as u64,
        None => 0,
    }
}

fn storage(cmd: &str, key: &str, value: &str, exptime: Option<u32>, flags: Option<u32>) -> (r:
    String)
    ensures
        r@ == storage_request(cmd@, key@, value@, value.len() as nat, exptime, flags),
{
    let mut s = String::new();
    s.append(cmd);
    push_space(&mut s);
    s.append(key);
    push_space(&mut s);
    push_decimal(&mut s, optional_or_zero(flags));
    push_space(&mut s);
    push_decimal(&mut s, optional_or_zero(exptime));
    push_space(&mut s);
    let len = value.len();
    push_decimal(&mut s, len as u64);
    push_crlf(&mut s);
    s.append(value);
    push_crlf(&mut s);
    s
}

fn keyed_number(cmd: &str, key: &str, n: u64) -> (r: String)
    ensures
        r@ == keyed_number_request(cmd@, key@, n as nat),
{
    let mut s = String::new();
    s.append(cmd);
    push_space(&mut s);
    s.append(key);
    push_space(&mut s);
    push_decimal(&mut s, n);
    push_crlf(&mut s);
    s
}

fn keyed(cmd: &str, key: &str) -> (r: String)
    ensures
        r@ == keyed_request(cmd@, key@),
{
    let mut s = String::new();
    s.append(cmd);
    push_space(&mut s);
    s.append(key);
    push_crlf(&mut s);
    s
}

/// A request to change the server's verbosity.
pub fn verbosity(level: usize) -> (r: String)
    ensures
        r@ == "verbosity"@ + space() + decimal(level as nat) + crlf(),
{
    let mut s = String::new();
    s.append("verbosity");
    push_space(&mut s);
    push_decimal(&mut s, level as u64);
    push_crlf(&mut s);
    s
}

/// A request for the server's version.
pub fn version() -> (r: String)
    ensures
        r@ == "version\r\n"@,
{
    "version\r\n".to_owned()
}

/// A request to close the connection.
pub fn quit() -> (r: String)
    ensures
        r@ == "quit\r\n"@,
{
    "quit\r\n".to_owned()
}

/// A request to store `value` under `key`; absent flags and expiry time are
/// sent as zero.
pub fn set(key: &str, value: &str, exptime: Option<u32>, flags: Option<u32>) -> (r: String)
    ensures
        r@ == storage_request("set"@, key@, value@, value.len() as nat, exptime, flags),
{
    storage("set", key, value, exptime, flags)
}

/// A request to store `value` under `key` if the item still carries the
/// unique value `unique`.
pub fn cas(key: &str, value: &str, exptime: Option<u32>, flags: Option<u32>, unique: u64) -> (r:
    String)
    ensures
        r@ == cas_request(key@, value@, value.len() as nat, exptime, flags, unique as nat),
{
    let mut s = String::new();
    s.append("cas");
    push_space(&mut s);
    s.append(key);
    push_space(&mut s);
    push_decimal(&mut s, optional_or_zero(flags));
    push_space(&mut s);
    push_decimal(&mut s, optional_or_zero(exptime));
    push_space(&mut s);
    let len = value.len();
    push_decimal(&mut s, len as u64);
    push_space(&mut s);
    push_decimal(&mut s, unique);
    push_crlf(&mut s);
    s.append(value);
    push_crlf(&mut s);
    s
}

/// A request to store `value` under `key` only if the key is not stored yet.
pub fn add(key: &str, value: &str, exptime: Option<u32>, flags: Option<u32>) -> (r: String)
    ensures
        r@ == storage_request("add"@, key@, value@, value.len() as nat, exptime, flags),
{
    storage("add", key, value, exptime, flags)
}

/// A request to store `value` under `key` only if the key is stored already.
pub fn replace(key: &str, value: &str, exptime: Option<u32>, flags: Option<u32>) -> (r: String)
    ensures
        r@ == storage_request("replace"@, key@, value@, value.len() as nat, exptime, flags),
{
    storage("replace", key, value, exptime, flags)
}

/// A request to add `value` after the data stored under `key`.
pub fn append(key: &str, value: &str, exptime: Option<u32>, flags: Option<u32>) -> (r: String)
    ensures
        r@ == storage_request("append"@, key@, value@, value.len() as nat, exptime, flags),
{
    storage("append", key, value, exptime, flags)
}

/// A request to add `value` before the data stored under `key`.
pub fn prepend(key: &str, value: &str, exptime: Option<u32>, flags: Option<u32>) -> (r: String)
    ensures
        r@ == storage_request("prepend"@, key@, value@, value.len() as nat, exptime, flags),
{
    storage("prepend", key, value, exptime, flags)
}

/// A request to increment the number stored under `key` by `value`.
pub fn incr(key: &str, value: u64) -> (r: String)
    ensures
        r@ == keyed_number_request("incr"@, key@, value as nat),
{
    keyed_number("incr", key, value)
}

/// A request to decrement the number stored under `key` by `value`.
pub fn decr(key: &str, value: u64) -> (r: String)
    ensures
        r@ == keyed_number_request("decr"@, key@, value as nat),
{
    keyed_number("decr", key, value)
}

/// A request to set a new expiry time on `key`; an absent time is sent as
/// zero.
pub fn touch(key: &str, exptime: Option<u32>) -> (r: String)
    ensures
        r@ == keyed_number_request("touch"@, key@, or_zero(exptime)),
{
    keyed_number("touch", key, optional_or_zero(exptime))
}

/// A request for the value stored under `key`.
pub fn get(key: &str) -> (r: String)
    ensures
        r@ == keyed_request("get"@, key@),
{
    keyed("get", key)
}

/// A request for the value and unique value stored under `key`.
pub fn gets(key: &str) -> (r: String)
    ensures
        r@ == keyed_request("gets"@, key@),
{
    keyed("gets", key)
}

/// A request to remove `key`.
pub fn delete(key: &str) -> (r: String)
    ensures
        r@ == keyed_request("delete"@, key@),
{
    keyed("delete", key)
}

/// A request to invalidate every stored item.
pub fn flush_all() -> (r: String)
    ensures
        r@ == "flush_all\r\n"@,
{
    "flush_all\r\n".to_owned()
}

} // verus!
