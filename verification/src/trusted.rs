//! The calls this library makes into other crates and into parts of the
//! standard library that carry no specification. Each item states what the
//! called function does; nothing here is proved.

use vstd::prelude::*;
use vstd::utf8::{encode_utf8, valid_utf8};

use byteorder::{ByteOrder, WriteBytesExt};

use crate::wire::{be16, be32, be64, be_value32};
use crate::workload::is_alphanumeric;

verus! {

/// The CRC-32 (IEEE 802.3 polynomial) checksum of `bytes`, as computed by
/// `crc::crc32::checksum_ieee`.
pub uninterp spec fn crc32_ieee(bytes: Seq<u8>) -> u32;

/// Calls `crc::crc32::checksum_ieee`. The contract only names the result:
/// the checksum is a function of the bytes alone.
#[verifier::external_body]
pub(crate) fn checksum_ieee(bytes: &[u8]) -> (r: u32)
    ensures
        r == crc32_ieee(bytes@),
{
    crc::crc32::checksum_ieee(bytes)
}

/// Calls `byteorder::BigEndian::read_u32`, which reads the first four bytes
/// of `buf` as a big-endian number (and panics on a shorter buffer, which the
/// contract rules out).
#[verifier::external_body]
pub(crate) fn read_u32_be(buf: &[u8]) -> (r: u32)
    requires
        buf.len() >= 4,
    ensures
        r == be_value32(buf[0], buf[1], buf[2], buf[3]),
{
    byteorder::BigEndian::read_u32(buf)
}

/// Calls `String::from_utf8` on bytes that are valid UTF-8, for which it
/// returns the string whose encoding they are.
#[verifier::external_body]
pub(crate) fn string_from_utf8(bytes: Vec<u8>) -> (r: String)
    requires
        valid_utf8(bytes@),
    ensures
        encode_utf8(r@) == bytes@,
{
    String::from_utf8(bytes).unwrap()
}

/// Calls `WriteBytesExt::write_i16::<BigEndian>` on a vector, which appends
/// the two big-endian bytes of `n` (writing to a vector does not fail).
#[verifier::external_body]
pub(crate) fn push_be_i16(buf: &mut Vec<u8>, n: i16)
    ensures
        final(buf)@ == old(buf)@ + be16(n as u16),
{
    buf.write_i16::<byteorder::BigEndian>(n).unwrap()
}

/// Calls `WriteBytesExt::write_i32::<BigEndian>` on a vector, which appends
/// the four big-endian bytes of `n`.
#[verifier::external_body]
pub(crate) fn push_be_i32(buf: &mut Vec<u8>, n: i32)
    ensures
        final(buf)@ == old(buf)@ + be32(n as u32),
{
    buf.write_i32::<byteorder::BigEndian>(n).unwrap()
}

/// Calls `WriteBytesExt::write_i64::<BigEndian>` on a vector, which appends
/// the eight big-endian bytes of `n`.
#[verifier::external_body]
pub(crate) fn push_be_i64(buf: &mut Vec<u8>, n: i64)
    ensures
        final(buf)@ == old(buf)@ + be64(n as u64),
{
    buf.write_i64::<byteorder::BigEndian>(n).unwrap()
}

/// Calls `WriteBytesExt::write_u64::<BigEndian>` on a vector, which appends
/// the eight big-endian bytes of `n`.
#[verifier::external_body]
pub(crate) fn push_be_u64(buf: &mut Vec<u8>, n: u64)
    ensures
        final(buf)@ == old(buf)@ + be64(n),
{
    buf.write_u64::<byteorder::BigEndian>(n).unwrap()
}

/// Calls `BigEndian::write_i32` on the first four bytes of `buf`, which
/// overwrites them with the big-endian bytes of `n` (it panics on a shorter
/// buffer, which the contract rules out).
#[verifier::external_body]
pub(crate) fn overwrite_be_i32_prefix(buf: &mut Vec<u8>, n: i32)
    requires
        old(buf).len() >= 4,
    ensures
        final(buf)@ == be32(n as u32) + old(buf)@.subrange(4, old(buf)@.len() as int),
{
    byteorder::BigEndian::write_i32(&mut buf[..4], n)
}

/// Calls `time::precise_time_ns`, the nanoseconds elapsed since an
/// unspecified epoch. The result depends on the clock, so nothing is stated
/// of it.
#[verifier::external_body]
pub(crate) fn precise_time_ns() -> u64 {
    time::precise_time_ns()
}

/// Calls `PadStr::pad` of the `pad` crate with right alignment and
/// truncation on a string of decimal digits, whose display width is its
/// length: a string at least `width` long is cut to its first `width`
/// characters, a shorter one is preceded by copies of `fill` up to `width`.
#[verifier::external_body]
pub(crate) fn pad_right_truncating(s: &str, width: usize, fill: char) -> (r: String)
    requires
        forall|i: int| 0 <= i < s@.len() ==> '0' <= #[trigger] s@[i] <= '9',
    ensures
        r@ == (if s@.len() >= width {
            s@.take(width as int)
        } else {
            Seq::new((width - s@.len()) as nat, |i: int| fill) + s@
        }),
{
    pad::PadStr::pad(s, width, fill, pad::Alignment::Right, true)
}

/// Calls `rand::thread_rng().gen_ascii_chars()` and collects `size`
/// characters. Each is drawn from the ASCII letters and digits; which ones
/// come out is left open.
#[verifier::external_body]
pub(crate) fn random_alphanumeric(size: usize) -> (r: String)
    ensures
        r@.len() == size,
        forall|i: int| 0 <= i < size ==> is_alphanumeric(#[trigger] r@[i] as u8),
        vstd::utf8::is_ascii_chars(r@),
{
    rand::Rng::gen_ascii_chars(&mut rand::thread_rng()).take(size).collect()
}

/// Calls `time::now_utc` and gives the wall-clock time as seconds since
/// the Unix epoch with the nanoseconds of the second, and the second of the
/// minute. The values depend on the clock; what is stated are the ranges
/// the `time` crate documents for the nanoseconds and the second.
#[verifier::external_body]
pub(crate) fn utc_now() -> (r: (i64, i32, i32))
    ensures
        0 <= r.1 < 1_000_000_000,
        0 <= r.2 <= 60,
{
    let tm = time::now_utc();
    let ts = tm.to_timespec();
    (ts.sec, tm.tm_nsec, tm.tm_sec)
}

} // verus!
