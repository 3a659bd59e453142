//! Requests of the thrift binary protocol, framed: a four-byte big-endian
//! length, then the message.

use vstd::prelude::*;
use vstd::utf8::encode_utf8;

use crate::trusted::{overwrite_be_i32_prefix, push_be_i16, push_be_i32, push_be_i64, push_be_u64};
use crate::protocol::thrift::{frame_length, thrift_outcome, thrift_parse_panics};
use crate::protocol::Outcome;
use crate::text::str_eq;
use crate::wire::{be16, be32, be64, lemma_be32_value};

verus! {

/// The type byte that ends a struct or a message.
pub const STOP: u8 = 0;

/// The type byte of a void value.
pub const VOID: u8 = 1;

/// The type byte of a boolean.
pub const BOOL: u8 = 2;

/// The type byte of a byte.
pub const BYTE: u8 = 3;

/// The type byte of a double.
pub const DOUBLE: u8 = 4;

/// The type byte of a 16-bit integer.
pub const I16: u8 = 6;

/// The type byte of a 32-bit integer.
pub const I32: u8 = 8;

/// The type byte of a 64-bit integer.
pub const I64: u8 = 10;

/// The type byte of a string.
pub const STRING: u8 = 11;

/// The type byte of a struct.
pub const STRUCT: u8 = 12;

/// The type byte of a map.
pub const MAP: u8 = 13;

/// The type byte of a set.
pub const SET: u8 = 14;

/// The type byte of a list.
pub const LIST: u8 = 15;

/// A value of a thrift call's payload. A double is carried as its IEEE-754
/// bit pattern, which is what goes on the wire.
#[derive(Clone, Debug)]
pub enum Value {
    Stop,
    Void,
    Bool(bool),
    Byte(u8),
    Double(u64),
    Int16(i16),
    Int32(i32),
    Int64(i64),
    String(String),
    Struct,
    /// A map header.
    MapHeader,
    /// A set header.
    SetHeader,
    /// A list header: the element type's name and the number of elements.
    List(String, i32),
}

/// One element of a thrift call's payload: a value, and the field id under
/// which it is written, if any.
#[derive(Clone, Debug)]
pub struct Parameter {
    pub id: Option<i16>,
    pub value: Value,
}

/// A parameter with the field id `id`.
pub fn mk_param(id: i16, value: Value) -> (p: Parameter)
    ensures
        p.id == Some(id),
        p.value == value,
{
    Parameter { id: Some(id), value }
}

/// The field header of a value: its type byte and its id, when it has one.
pub open spec fn field_header(ty: u8, id: Option<i16>) -> Seq<u8> {
    match id {
        Some(i) => seq![ty] + be16(i as u16),
        None => seq![],
    }
}

/// A string on the wire: its length in bytes as a 32-bit integer, then its
/// bytes.
pub open spec fn string_bytes(b: Seq<u8>) -> Seq<u8> {
    be32((b.len() as i32) as u32) + b
}

/// The type byte of a list's elements, named `string` or `struct`.
pub open spec fn element_type(name: Seq<char>) -> u8 {
    if name == "string"@ {
        STRING
    } else {
        STRUCT
    }
}

/// A list's element-type byte is the thrift type of its elements: 11
/// (STRING) for a list named `string` and 12 (STRUCT) for one named
/// `struct`, so the two kinds of list are told apart on the wire.
pub proof fn lemma_element_type_names()
    ensures
        element_type("string"@) == 11u8,
        element_type("struct"@) == 12u8,
{
    reveal_strlit("string");
    reveal_strlit("struct");
    assert("struct"@[3] != "string"@[3]);
}

/// A list parameter that can be written goes on the wire as the LIST type
/// (15), its field id, the element type (12 for structs, 11 for strings)
/// and its length: eight bytes, with the element type fourth.
pub proof fn lemma_list_param_bytes(p: Parameter)
    requires
        p.value is List,
        writable(p),
    ensures
        encode_param(p).len() == 8,
        encode_param(p)[0] == 15u8,
        encode_param(p)[3] == (if p.value->List_0@ == "struct"@ {
            12u8
        } else {
            11u8
        }),
{
    lemma_element_type_names();
    reveal_strlit("string");
    reveal_strlit("struct");
    assert("struct"@[3] != "string"@[3]);
}

/// A parameter can be written: struct, map, set and list headers need a
/// field id, and a list's elements are strings or structs.
pub open spec fn writable(p: Parameter) -> bool {
    match p.value {
        Value::Struct | Value::MapHeader | Value::SetHeader => p.id is Some,
        Value::List(name, _) => p.id is Some && (name@ == "string"@ || name@ == "struct"@),
        _ => true,
    }
}

/// The bytes of one parameter.
pub open spec fn encode_param(p: Parameter) -> Seq<u8> {
    match p.value {
        Value::Stop => seq![STOP],
        Value::Void => seq![VOID],
        Value::Bool(b) => field_header(BOOL, p.id) + seq![
            if b {
                1u8
            } else {
                0u8
            },
        ],
        Value::Byte(v) => field_header(BYTE, p.id) + seq![v],
        Value::Double(bits) => field_header(DOUBLE, p.id) + be64(bits),
        Value::Int16(v) => field_header(I16, p.id) + be16(v as u16),
        Value::Int32(v) => field_header(I32, p.id) + be32(v as u32),
        Value::Int64(v) => field_header(I64, p.id) + be64(v as u64),
        Value::String(s) => field_header(STRING, p.id) + string_bytes(encode_utf8(s@)),
        Value::Struct => field_header(STRUCT, p.id),
        Value::MapHeader => field_header(MAP, p.id),
        Value::SetHeader => field_header(SET, p.id),
        Value::List(name, len) => field_header(LIST, p.id) + seq![element_type(name@)] + be32(
            len as u32,
        ),
    }
}

/// The bytes of a payload: its parameters' bytes, in order.
pub open spec fn encode_params(ps: Seq<Parameter>) -> Seq<u8>
    decreases ps.len(),
{
    if ps.len() == 0 {
        seq![]
    } else {
        encode_params(ps.drop_last()) + encode_param(ps.last())
    }
}

/// The protocol header: version 1 of the strict binary protocol, message
/// type call.
pub open spec fn protocol_header_bytes() -> Seq<u8> {
    seq![128u8, 1u8, 0u8, 1u8]
}

/// A call message: the protocol header, the method name, the sequence id,
/// the payload and a stop byte.
pub open spec fn message_body(method: Seq<u8>, sequence_id: i32, ps: Seq<Parameter>) -> Seq<u8> {
    protocol_header_bytes() + string_bytes(method) + be32(sequence_id as u32) + encode_params(ps)
        + seq![STOP]
}

/// A framed call: the length of the message as a 32-bit integer, then the
/// message.
pub open spec fn framed_call(method: Seq<u8>, sequence_id: i32, ps: Seq<Parameter>) -> Seq<u8> {
    be32((message_body(method, sequence_id, ps).len() as i32) as u32) + message_body(
        method,
        sequence_id,
        ps,
    )
}

/// A request under construction: four bytes reserved for the frame length,
/// then the message written so far.
#[derive(Clone)]
pub struct Buffer {
    buffer: Vec<u8>,
}

impl View for Buffer {
    type V = Seq<u8>;

    closed spec fn view(&self) -> Seq<u8> {
        self.buffer@
    }
}

impl Buffer {
    /// An empty request: four zero bytes where the frame length goes.
    pub fn new() -> (b: Buffer)
        ensures
            b@ == seq![0u8, 0u8, 0u8, 0u8],
    {
        let buffer = vec![0u8, 0u8, 0u8, 0u8];
        Buffer { buffer }
    }

    /// The bytes of the request.
    pub fn into_vec(self) -> (v: Vec<u8>)
        ensures
            v@ == self@,
    {
        self.buffer
    }

    /// Appends the protocol header.
    pub fn protocol_header(&mut self) -> (r: &Self)
        ensures
            final(self)@ == old(self)@ + protocol_header_bytes(),
            r@ == final(self)@,
    {
        self.buffer.push(128);
        self.buffer.push(1);
        self.buffer.push(0);
        self.buffer.push(1);
        assert(self.buffer@ =~= old(self)@ + protocol_header_bytes());
        self
    }

    /// Writes the length of what follows the first four bytes into them.
    pub fn frame(&mut self) -> (r: &Self)
        requires
            old(self)@.len() >= 4,
        ensures
            final(self)@ == be32(((old(self)@.len() - 4) as i32) as u32) + old(self)@.subrange(
                4,
                old(self)@.len() as int,
            ),
            r@ == final(self)@,
    {
        let bytes = self.buffer.len() - 4;
        overwrite_be_i32_prefix(&mut self.buffer, bytes as i32);
        self
    }

    /// Appends the method name.
    pub fn method_name(&mut self, method: &str) -> (r: &Self)
        ensures
            final(self)@ == old(self)@ + string_bytes(encode_utf8(method@)),
            r@ == final(self)@,
    {
        self.write_str(method);
        self
    }

    /// Appends the sequence id.
    pub fn sequence_id(&mut self, id: i32) -> (r: &Self)
        ensures
            final(self)@ == old(self)@ + be32(id as u32),
            r@ == final(self)@,
    {
        self.write_i32(id);
        self
    }

    /// Appends a stop byte.
    pub fn stop(&mut self) -> (r: &Self)
        ensures
            final(self)@ == old(self)@ + seq![STOP],
            r@ == final(self)@,
    {
        self.write_byte(STOP);
        self
    }

    fn write_i16(&mut self, value: i16)
        ensures
            final(self)@ == old(self)@ + be16(value as u16),
    {
        push_be_i16(&mut self.buffer, value)
    }

    fn write_i32(&mut self, value: i32)
        ensures
            final(self)@ == old(self)@ + be32(value as u32),
    {
        push_be_i32(&mut self.buffer, value)
    }

    fn write_i64(&mut self, value: i64)
        ensures
            final(self)@ == old(self)@ + be64(value as u64),
    {
        push_be_i64(&mut self.buffer, value)
    }

    fn write_f64_bits(&mut self, bits: u64)
        ensures
            final(self)@ == old(self)@ + be64(bits),
    {
        push_be_u64(&mut self.buffer, bits)
    }

    fn write_byte(&mut self, b: u8)
        ensures
            final(self)@ == old(self)@ + seq![b],
    {
        self.buffer.push(b);
        assert(self.buffer@ =~= old(self)@ + seq![b]);
    }

    fn write_bool(&mut self, b: bool)
        ensures
            final(self)@ == old(self)@ + seq![
                if b {
                    1u8
                } else {
                    0u8
                },
            ],
    {
        if b {
            self.write_byte(1)
        } else {
            self.write_byte(0)
        }
    }

    fn write_str(&mut self, string: &str)
        ensures
            final(self)@ == old(self)@ + string_bytes(encode_utf8(string@)),
    {
        let bytes = string.as_bytes();
        let len = bytes.len();
        self.write_i32(len as i32);
        let ghost mid = self@;
        let mut i: usize = 0;
        while i < len
            invariant
                i <= len,
                len == bytes@.len(),
                self@ == mid + bytes@.take(i as int),
            decreases len - i,
        {
            self.buffer.push(bytes[i]);
            assert(bytes@.take(i + 1) =~= bytes@.take(i as int).push(bytes@[i as int]));
            i = i + 1;
        }
        assert(bytes@.take(len as int) =~= bytes@);
        assert(self@ =~= old(self)@ + string_bytes(encode_utf8(string@)));
    }

    fn write_header(&mut self, ty: u8, id: Option<i16>)
        ensures
            final(self)@ == old(self)@ + field_header(ty, id),
    {
        match id {
            Some(i) => {
                self.write_byte(ty);
                self.write_i16(i);
                assert(self@ =~= old(self)@ + field_header(ty, id));
            },
            None => {
                assert(self@ =~= old(self)@ + field_header(ty, id));
            },
        }
    }

    fn write_param(&mut self, p: &Parameter)
        requires
            writable(*p),
        ensures
            final(self)@ == old(self)@ + encode_param(*p),
    {
        match &p.value {
            Value::Stop => {
                self.write_byte(STOP);
            },
            Value::Void => {
                self.write_byte(VOID);
            },
            Value::Bool(val) => {
                self.write_header(BOOL, p.id);
                self.write_bool(*val);
            },
            Value::Byte(val) => {
                self.write_header(BYTE, p.id);
                self.write_byte(*val);
            },
            Value::Double(bits) => {
                self.write_header(DOUBLE, p.id);
                self.write_f64_bits(*bits);
            },
            Value::Int16(val) => {
                self.write_header(I16, p.id);
                self.write_i16(*val);
            },
            Value::Int32(val) => {
                self.write_header(I32, p.id);
                self.write_i32(*val);
            },
            Value::Int64(val) => {
                self.write_header(I64, p.id);
                self.write_i64(*val);
            },
            Value::String(val) => {
                self.write_header(STRING, p.id);
                self.write_str(val.as_str());
            },
            Value::Struct => {
                self.write_header(STRUCT, p.id);
            },
            Value::MapHeader => {
                self.write_header(MAP, p.id);
            },
            Value::SetHeader => {
                self.write_header(SET, p.id);
            },
            Value::List(name, len) => {
                self.write_header(LIST, p.id);
                let ty = list_element_type(name.as_str());
                self.write_byte(ty);
                self.write_i32(*len);
            },
        }
        assert(self@ =~= old(self)@ + encode_param(*p));
    }
}

/// The type byte of the list element type named `name`.
fn list_element_type(name: &str) -> (t: u8)
    requires
        name@ == "string"@ || name@ == "struct"@,
    ensures
        t == element_type(name@),
{
    if str_eq(name, "string") {
        STRING
    } else {
        STRUCT
    }
}

/// A framed call of `method` with the sequence id and the payload given.
pub fn generic(method: &str, sequence_id: i32, payload: &Vec<Parameter>) -> (r: Vec<u8>)
    requires
        forall|i: int| 0 <= i < payload@.len() ==> writable(#[trigger] payload@[i]),
    ensures
        r@ == framed_call(encode_utf8(method@), sequence_id, payload@),
{
    let mut buffer = Buffer::new();
    let _ = buffer.protocol_header();
    let _ = buffer.method_name(method);
    let _ = buffer.sequence_id(sequence_id);
    let ghost head = buffer@;
    let mut i: usize = 0;
    while i < payload.len()
        invariant
            i <= payload@.len(),
            forall|k: int| 0 <= k < payload@.len() ==> writable(#[trigger] payload@[k]),
            buffer@ == head + encode_params(payload@.take(i as int)),
        decreases payload@.len() - i,
    {
        buffer.write_param(&payload[i]);
        assert(payload@.take(i + 1).drop_last() =~= payload@.take(i as int));
        i = i + 1;
    }
    assert(payload@.take(payload@.len() as int) =~= payload@);
    let _ = buffer.stop();
    let ghost body = buffer@.subrange(4, buffer@.len() as int);
    assert(body =~= message_body(encode_utf8(method@), sequence_id, payload@));
    let _ = buffer.frame();
    buffer.into_vec()
}

/// A framed call announces the length of the message that follows it, so
/// the classifier of framed responses takes it as one complete frame
/// (whenever the message length fits the signed 32-bit length field).
pub proof fn lemma_framed_call_is_complete_frame(
    method: Seq<u8>,
    sequence_id: i32,
    ps: Seq<Parameter>,
)
    requires
        message_body(method, sequence_id, ps).len() <= i32::MAX,
    ensures
        frame_length(framed_call(method, sequence_id, ps)) == message_body(
            method,
            sequence_id,
            ps,
        ).len(),
        !thrift_parse_panics(framed_call(method, sequence_id, ps)),
        thrift_outcome(framed_call(method, sequence_id, ps)) == Outcome::Okay,
{
    let body = message_body(method, sequence_id, ps);
    let n = body.len();
    let x = (n as i32) as u32;
    assert(x == n);
    lemma_be32_value(x);
    let f = framed_call(method, sequence_id, ps);
    assert(f[0] == be32(x)[0] && f[1] == be32(x)[1] && f[2] == be32(x)[2] && f[3] == be32(x)[3]);
    assert(f.len() == n + 4);
}

/// A framed call of `ping`, with sequence id zero and no payload.
pub fn ping() -> (r: Vec<u8>)
    ensures
        r@ == framed_call(encode_utf8("ping"@), 0, seq![]),
{
    let payload: Vec<Parameter> = Vec::new();
    generic("ping", 0, &payload)
}

} // verus!
