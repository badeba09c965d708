//! The fixed twelve-byte header of a DNS message.

use vstd::prelude::*;

use crate::proto::decoder::{spec_read_u16, Decode, Decoder, ReadStep};
use crate::proto::encoder::{
    be_bytes_u16, lemma_write_bytes_effect, lemma_write_read_u16, spec_write_bytes, valid_state, Encode,
    EncodeState, Encoder, WriteStep,
};
use crate::proto::CodecError;

verus! {

/// [RFC 1035](https://www.rfc-editor.org/rfc/rfc1035#section-4.1.1)
///
/// ```text
///   0  1  2  3  4  5  6  7  8  9 10 11 12 13 14 15
/// +--+--+--+--+--+--+--+--+--+--+--+--+--+--+--+--+
/// |                      ID                       |
/// +--+--+--+--+--+--+--+--+--+--+--+--+--+--+--+--+
/// |                     FLAGS                     |
/// +--+--+--+--+--+--+--+--+--+--+--+--+--+--+--+--+
/// |                    QDCOUNT                    |
/// +--+--+--+--+--+--+--+--+--+--+--+--+--+--+--+--+
/// |                    ANCOUNT                    |
/// +--+--+--+--+--+--+--+--+--+--+--+--+--+--+--+--+
/// |                    NSCOUNT                    |
/// +--+--+--+--+--+--+--+--+--+--+--+--+--+--+--+--+
/// |                    ARCOUNT                    |
/// +--+--+--+--+--+--+--+--+--+--+--+--+--+--+--+--+
/// ```
#[derive(Debug, PartialEq, Eq, Structural)]
pub struct Header {
    pub id: u16,
    pub flags: Flags,
}

impl Header {
    /// The size of the header on the wire, counts included.
    pub fn size(&self) -> (r: usize)
        ensures
            r == 12,
    {
        12
    }
}

impl View for Header {
    type V = Header;

    open spec fn view(&self) -> Header {
        *self
    }
}

/// [RFC 1035](https://www.rfc-editor.org/rfc/rfc1035#section-4.1.1)
/// [RFC 2535](https://www.rfc-editor.org/rfc/rfc2535#section-6.1)
///
/// ```text
///   0  1  2  3  4  5  6  7  8  9 10 11 12 13 14 15
/// +--+--+--+--+--+--+--+--+--+--+--+--+--+--+--+--+
/// |QR|   Opcode  |AA|TC|RD|RA| Z|AD|CD|   RCODE   |
/// +--+--+--+--+--+--+--+--+--+--+--+--+--+--+--+--+
/// ```
#[derive(Debug, PartialEq, Eq, Structural)]
pub struct Flags {
    pub message_type: MessageType,
    pub op_code: OpCode,
    pub authorative_answer: bool,
    pub truncation: bool,
    pub recursion_desired: bool,
    pub recursion_available: bool,
    pub authentic_data: bool,
    pub checking_disabled: bool,
    pub response_code: RCode,
}

impl View for Flags {
    type V = Flags;

    open spec fn view(&self) -> Flags {
        *self
    }
}

/// Whether bit `i` (counted from the least significant) of `f` is set.
pub open spec fn bit(f: u16, i: u16) -> bool {
    (f >> i) & 1u16 == 1u16
}

/// The flags that decoding reads from the 16-bit flags word, bit by bit as the
/// layout above places them; the reserved bit 6 (`Z`) is not read.
pub open spec fn flags_of_bits(f: u16) -> Flags {
    Flags {
        message_type: if bit(f, 15) {
            MessageType::Response
        } else {
            MessageType::Question
        },
        op_code: opcode_of_code(((f >> 11u16) & 0xfu16) as u8),
        authorative_answer: bit(f, 10),
        truncation: bit(f, 9),
        recursion_desired: bit(f, 8),
        recursion_available: bit(f, 7),
        authentic_data: bit(f, 5),
        checking_disabled: bit(f, 4),
        response_code: rcode_of_code((f & 0xfu16) as u8),
    }
}

/// 1 for `true`, 0 for `false`.
pub open spec fn bool_bit(b: bool) -> u16 {
    if b {
        1
    } else {
        0
    }
}

/// 0 for a question, 1 for a response.
pub open spec fn message_type_bit(t: MessageType) -> u16 {
    match t {
        MessageType::Question => 0,
        MessageType::Response => 1,
    }
}

/// The flags word that encoding writes, each field at its place in the layout
/// above: the operation and the response code cut to their four bits, the
/// reserved bit 6 (`Z`) clear.
pub open spec fn bits_of_flags(fl: Flags) -> u16 {
    (message_type_bit(fl.message_type) << 15u16) | (((code_of_opcode(fl.op_code) as u16) & 0xfu16)
        << 11u16) | (bool_bit(fl.authorative_answer) << 10u16) | (bool_bit(fl.truncation) << 9u16)
        | (bool_bit(fl.recursion_desired) << 8u16) | (bool_bit(fl.recursion_available) << 7u16) | (
    bool_bit(fl.authentic_data) << 5u16) | (bool_bit(fl.checking_disabled) << 4u16) | ((
    code_of_rcode(fl.response_code) as u16) & 0xfu16)
}

fn bool_to_bit(b: bool) -> (r: u16)
    ensures
        r == bool_bit(b),
{
    if b {
        1
    } else {
        0
    }
}

/// Decoding the flags word at `pos`.
pub open spec fn spec_decode_flags(data: Seq<u8>, pos: int) -> ReadStep<Flags> {
    match spec_read_u16(data, pos) {
        (Ok(f), p) => (Ok(flags_of_bits(f)), p),
        (Err(e), p) => (Err(e), p),
    }
}

/// Decoding a header's id and flags at `pos`.
pub open spec fn spec_decode_header(data: Seq<u8>, pos: int) -> ReadStep<Header> {
    match spec_read_u16(data, pos) {
        (Err(e), p) => (Err(e), p),
        (Ok(id), p) => match spec_decode_flags(data, p) {
            (Ok(flags), q) => (Ok(Header { id, flags }), q),
            (Err(e), q) => (Err(e), q),
        },
    }
}

/// Writing the flags word.
pub open spec fn spec_encode_flags(fl: Flags, st: EncodeState) -> WriteStep {
    spec_write_bytes(st, be_bytes_u16(bits_of_flags(fl)))
}

/// Writing a header's id and flags.
pub open spec fn spec_encode_header(h: Header, st: EncodeState) -> WriteStep {
    match spec_write_bytes(st, be_bytes_u16(h.id)) {
        (Err(e), s) => (Err(e), s),
        (Ok(()), s) => spec_encode_flags(h.flags, s),
    }
}

impl<'a> Decode<'a> for Flags {
    open spec fn spec_decode(data: Seq<u8>, pos: int) -> Option<ReadStep<Flags>> {
        Some(spec_decode_flags(data, pos))
    }

    fn decode(decoder: &mut Decoder<'a>) -> (r: Result<Self, CodecError>) {
        let flags = decoder.read_u16()?;
        let message_type = if (flags >> 15u16) & 1u16 == 1u16 {
            MessageType::Response
        } else {
            MessageType::Question
        };
        Ok(Flags {
            message_type,
            op_code: (((flags >> 11u16) & 0xfu16) as u8).into(),
            authorative_answer: (flags >> 10u16) & 1u16 == 1u16,
            truncation: (flags >> 9u16) & 1u16 == 1u16,
            recursion_desired: (flags >> 8u16) & 1u16 == 1u16,
            recursion_available: (flags >> 7u16) & 1u16 == 1u16,
            authentic_data: (flags >> 5u16) & 1u16 == 1u16,
            checking_disabled: (flags >> 4u16) & 1u16 == 1u16,
            response_code: RCode::from((flags & 0xfu16) as u8),
        })
    }
}

impl<'a> Encode<'a> for Flags {
    open spec fn spec_encode(self, st: EncodeState) -> Option<WriteStep> {
        Some(spec_encode_flags(self, st))
    }

    fn encode(self, encoder: &mut Encoder<'a>) -> (r: Result<(), CodecError>) {
        let ghost fl = self;
        let message_type: u16 = match self.message_type {
            MessageType::Question => 0,
            MessageType::Response => 1,
        };
        let op_code = u8::from(self.op_code) as u16;
        let aa = bool_to_bit(self.authorative_answer);
        let ad = bool_to_bit(self.authentic_data);
        let tc = bool_to_bit(self.truncation);
        let rd = bool_to_bit(self.recursion_desired);
        let ra = bool_to_bit(self.recursion_available);
        let cd = bool_to_bit(self.checking_disabled);
        let rcode = u8::from(self.response_code) as u16;
        let mut flags: u16 = 0;
        flags |= message_type << 15u16;
        flags |= (op_code & 0xfu16) << 11u16;
        flags |= aa << 10u16;
        flags |= tc << 9u16;
        flags |= rd << 8u16;
        flags |= ra << 7u16;
        flags |= ad << 5u16;
        flags |= cd << 4u16;
        flags |= rcode & 0xfu16;
        assert(flags == (message_type << 15u16) | ((op_code & 0xfu16) << 11u16) | (aa << 10u16) | (
        tc << 9u16) | (rd << 8u16) | (ra << 7u16) | (ad << 5u16) | (cd << 4u16) | (rcode & 0xfu16))
            by (bit_vector)
            requires
                flags == 0u16 | (message_type << 15u16) | ((op_code & 0xfu16) << 11u16) | (aa
                    << 10u16) | (tc << 9u16) | (rd << 8u16) | (ra << 7u16) | (ad << 5u16) | (cd
                    << 4u16) | (rcode & 0xfu16),
        ;
        assert(flags == bits_of_flags(fl));
        encoder.write_u16(flags)
    }
}

impl<'a> Encode<'a> for Header {
    open spec fn spec_encode(self, st: EncodeState) -> Option<WriteStep> {
        Some(spec_encode_header(self, st))
    }

    fn encode(self, encoder: &mut Encoder<'a>) -> (r: Result<(), CodecError>) {
        encoder.write_u16(self.id)?;
        self.flags.encode(encoder)?;
        Ok(())
    }
}

impl<'a> Decode<'a> for Header {
    open spec fn spec_decode(data: Seq<u8>, pos: int) -> Option<ReadStep<Header>> {
        Some(spec_decode_header(data, pos))
    }

    fn decode(decoder: &mut Decoder<'a>) -> (r: Result<Self, CodecError>) {
        let id = decoder.read_u16()?;
        let flags = Flags::decode(decoder)?;
        Ok(Header { id, flags })
    }
}

#[derive(Debug, PartialEq, Eq, Structural)]
pub enum MessageType {
    Question,
    Response,
}

#[derive(Debug, Clone, PartialEq, Eq, Structural)]
pub enum OpCode {
    Query,
    Status,
    Notify,
    Update,
    Unknown(u8),
}

/// The operation a 4-bit code stands for.
pub open spec fn opcode_of_code(value: u8) -> OpCode {
    match value {
        0 => OpCode::Query,
        2 => OpCode::Status,
        4 => OpCode::Notify,
        5 => OpCode::Update,
        _ => OpCode::Unknown(value),
    }
}

/// The code of an operation.
pub open spec fn code_of_opcode(op: OpCode) -> u8 {
    match op {
        OpCode::Query => 0,
        OpCode::Status => 2,
        OpCode::Notify => 4,
        OpCode::Update => 5,
        OpCode::Unknown(x) => x,
    }
}

/// An operation that decoding can produce: `Unknown` holds only codes without a variant.
pub open spec fn canonical_opcode(op: OpCode) -> bool {
    match op {
        OpCode::Unknown(x) => opcode_of_code(x) == op,
        _ => true,
    }
}

impl From<u8> for OpCode {
    fn from(value: u8) -> (r: Self)
        ensures
            r == opcode_of_code(value),
    {
        match value {
            0 => Self::Query,
            2 => Self::Status,
            4 => Self::Notify,
            5 => Self::Update,
            _ => Self::Unknown(value),
        }
    }
}

impl vstd::std_specs::convert::FromSpecImpl<u8> for OpCode {
    open spec fn obeys_from_spec() -> bool {
        true
    }

    open spec fn from_spec(v: u8) -> Self {
        opcode_of_code(v)
    }
}

impl From<OpCode> for u8 {
    fn from(val: OpCode) -> (r: Self)
        ensures
            r == code_of_opcode(val),
    {
        match val {
            OpCode::Query => 0,
            OpCode::Status => 2,
            OpCode::Notify => 4,
            OpCode::Update => 5,
            OpCode::Unknown(x) => x,
        }
    }
}

impl vstd::std_specs::convert::FromSpecImpl<OpCode> for u8 {
    open spec fn obeys_from_spec() -> bool {
        true
    }

    open spec fn from_spec(v: OpCode) -> Self {
        code_of_opcode(v)
    }
}

/// Reading a code into an operation and writing the operation back gives the same code.
pub proof fn lemma_opcode_code_roundtrip(value: u8)
    ensures
        code_of_opcode(opcode_of_code(value)) == value,
{
}

/// An operation that decoding can produce is read back from its own code.
pub proof fn lemma_opcode_roundtrip(op: OpCode)
    requires
        canonical_opcode(op),
    ensures
        opcode_of_code(code_of_opcode(op)) == op,
{
}

/// Flags written and read back come back as they were, for an operation with a
/// 4-bit code of its own and a response code below 16 of its own.
pub proof fn lemma_flags_write_read(f: Flags)
    requires
        canonical_opcode(f.op_code),
        code_of_opcode(f.op_code) < 16,
        canonical_rcode(f.response_code),
        code_of_rcode(f.response_code) < 16,
    ensures
        flags_of_bits(bits_of_flags(f)) == f,
{
    let m = message_type_bit(f.message_type);
    let o = code_of_opcode(f.op_code) as u16;
    let aa = bool_bit(f.authorative_answer);
    let tc = bool_bit(f.truncation);
    let rd = bool_bit(f.recursion_desired);
    let ra = bool_bit(f.recursion_available);
    let ad = bool_bit(f.authentic_data);
    let cd = bool_bit(f.checking_disabled);
    let rc = code_of_rcode(f.response_code) as u16;
    let w = bits_of_flags(f);
    assert({
        &&& (w >> 15u16) & 1u16 == m
        &&& (w >> 11u16) & 0xfu16 == o
        &&& (w >> 10u16) & 1u16 == aa
        &&& (w >> 9u16) & 1u16 == tc
        &&& (w >> 8u16) & 1u16 == rd
        &&& (w >> 7u16) & 1u16 == ra
        &&& (w >> 5u16) & 1u16 == ad
        &&& (w >> 4u16) & 1u16 == cd
        &&& w & 0xfu16 == rc
    }) by (bit_vector)
        requires
            m <= 1u16,
            o < 16u16,
            aa <= 1u16,
            tc <= 1u16,
            rd <= 1u16,
            ra <= 1u16,
            ad <= 1u16,
            cd <= 1u16,
            rc < 16u16,
            w == (m << 15u16) | ((o & 0xfu16) << 11u16) | (aa << 10u16) | (tc << 9u16) | (rd
                << 8u16) | (ra << 7u16) | (ad << 5u16) | (cd << 4u16) | (rc & 0xfu16),
    ;
}

/// A flags word read and written back comes back as it was, but for the
/// reserved bit 6 (`Z`), which comes back clear.
pub proof fn lemma_flags_read_write(w: u16)
    ensures
        bits_of_flags(flags_of_bits(w)) == w & 0xffbfu16,
{
    let f = flags_of_bits(w);
    let m = message_type_bit(f.message_type);
    let o = ((w >> 11u16) & 0xfu16) as u8;
    let rc = (w & 0xfu16) as u8;
    assert(code_of_opcode(opcode_of_code(o)) == o);
    assert(code_of_rcode(rcode_of_code(rc)) == rc);
    let aa = bool_bit(f.authorative_answer);
    let tc = bool_bit(f.truncation);
    let rd = bool_bit(f.recursion_desired);
    let ra = bool_bit(f.recursion_available);
    let ad = bool_bit(f.authentic_data);
    let cd = bool_bit(f.checking_disabled);
    assert(m == (w >> 15u16) & 1u16 && aa == (w >> 10u16) & 1u16 && tc == (w >> 9u16) & 1u16 && rd == (w >> 8u16) & 1u16 && ra
        == (w >> 7u16) & 1u16 && ad == (w >> 5u16) & 1u16 && cd == (w >> 4u16) & 1u16) by {
        assert(((w >> 15u16) & 1u16 == 1u16) || ((w >> 15u16) & 1u16 == 0u16)) by (bit_vector);
        assert(((w >> 10u16) & 1u16 == 1u16) || ((w >> 10u16) & 1u16 == 0u16)) by (bit_vector);
        assert(((w >> 9u16) & 1u16 == 1u16) || ((w >> 9u16) & 1u16 == 0u16)) by (bit_vector);
        assert(((w >> 8u16) & 1u16 == 1u16) || ((w >> 8u16) & 1u16 == 0u16)) by (bit_vector);
        assert(((w >> 7u16) & 1u16 == 1u16) || ((w >> 7u16) & 1u16 == 0u16)) by (bit_vector);
        assert(((w >> 5u16) & 1u16 == 1u16) || ((w >> 5u16) & 1u16 == 0u16)) by (bit_vector);
        assert(((w >> 4u16) & 1u16 == 1u16) || ((w >> 4u16) & 1u16 == 0u16)) by (bit_vector);
    }
    assert(((m << 15u16) | ((((w >> 11u16) & 0xfu16) as u8 as u16 & 0xfu16) << 11u16) | (aa
        << 10u16) | (tc << 9u16) | (rd << 8u16) | (ra << 7u16) | (ad << 5u16) | (cd << 4u16) | ((
    w & 0xfu16) as u8 as u16 & 0xfu16)) == w & 0xffbfu16) by (bit_vector)
        requires
            m == (w >> 15u16) & 1u16,
            aa == (w >> 10u16) & 1u16,
            tc == (w >> 9u16) & 1u16,
            rd == (w >> 8u16) & 1u16,
            ra == (w >> 7u16) & 1u16,
            ad == (w >> 5u16) & 1u16,
            cd == (w >> 4u16) & 1u16,
    ;
}

/// A header written from a valid state is read back from where it was written:
/// its id as it was, its flags as `flags_of_bits(bits_of_flags(..))` makes them,
/// which is the header itself where the operation and the response code have
/// 4-bit codes of their own.
pub proof fn lemma_header_write_read(h: Header, st: EncodeState)
    requires
        valid_state(st),
        spec_encode_header(h, st).0 is Ok,
    ensures
        spec_decode_header(spec_encode_header(h, st).1.bytes, st.pos) == (
            Ok::<Header, CodecError>(
                Header { id: h.id, flags: flags_of_bits(bits_of_flags(h.flags)) },
            ),
            st.pos + 4,
        ),
        canonical_opcode(h.flags.op_code) && code_of_opcode(h.flags.op_code) < 16 && canonical_rcode(
            h.flags.response_code,
        ) && code_of_rcode(h.flags.response_code) < 16 ==> flags_of_bits(bits_of_flags(h.flags))
            == h.flags,
{
    if canonical_opcode(h.flags.op_code) && code_of_opcode(h.flags.op_code) < 16 && canonical_rcode(
        h.flags.response_code,
    ) && code_of_rcode(h.flags.response_code) < 16 {
        lemma_flags_write_read(h.flags);
    }
    let run0 = be_bytes_u16(h.id);
    let s1 = spec_write_bytes(st, run0).1;
    let run1 = be_bytes_u16(bits_of_flags(h.flags));
    let s2 = spec_write_bytes(s1, run1).1;
    lemma_write_bytes_effect(st, run0);
    lemma_write_read_u16(st, h.id);
    lemma_write_bytes_effect(s1, run1);
    lemma_write_read_u16(s1, bits_of_flags(h.flags));
    assert(s2.bytes[st.pos] == s1.bytes[st.pos]);
    assert(s2.bytes[st.pos + 1] == s1.bytes[st.pos + 1]);
}

#[derive(Debug, PartialEq, Eq, Structural)]
pub enum RCode {
    /// [RFC 1035](https://www.rfc-editor.org/rfc/rfc1035#section-4.1.1)
    NoError,
    /// [RFC 1035](https://www.rfc-editor.org/rfc/rfc1035#section-4.1.1)
    FormatErr,
    /// [RFC 1035](https://www.rfc-editor.org/rfc/rfc1035#section-4.1.1)
    ServFail,
    /// [RFC 1035](https://www.rfc-editor.org/rfc/rfc1035#section-4.1.1)
    NXDomain,
    /// [RFC 1035](https://www.rfc-editor.org/rfc/rfc1035#section-4.1.1)
    NotImp,
    /// [RFC 1035](https://www.rfc-editor.org/rfc/rfc1035#section-4.1.1)
    Refused,
    Unknown(u8),
}

/// The response code a number stands for.
pub open spec fn rcode_of_code(value: u8) -> RCode {
    match value {
        0 => RCode::NoError,
        1 => RCode::FormatErr,
        2 => RCode::ServFail,
        3 => RCode::NXDomain,
        4 => RCode::NotImp,
        5 => RCode::Refused,
        _ => RCode::Unknown(value),
    }
}

/// The number of a response code.
pub open spec fn code_of_rcode(rc: RCode) -> u8 {
    match rc {
        RCode::NoError => 0,
        RCode::FormatErr => 1,
        RCode::ServFail => 2,
        RCode::NXDomain => 3,
        RCode::NotImp => 4,
        RCode::Refused => 5,
        RCode::Unknown(x) => x,
    }
}

/// A response code that conversion from a number can produce.
pub open spec fn canonical_rcode(rc: RCode) -> bool {
    match rc {
        RCode::Unknown(x) => rcode_of_code(x) == rc,
        _ => true,
    }
}

impl From<u8> for RCode {
    fn from(value: u8) -> (r: Self)
        ensures
            r == rcode_of_code(value),
    {
        match value {
            0 => Self::NoError,
            1 => Self::FormatErr,
            2 => Self::ServFail,
            3 => Self::NXDomain,
            4 => Self::NotImp,
            5 => Self::Refused,
            other => Self::Unknown(other),
        }
    }
}

impl vstd::std_specs::convert::FromSpecImpl<u8> for RCode {
    open spec fn obeys_from_spec() -> bool {
        true
    }

    open spec fn from_spec(v: u8) -> Self {
        rcode_of_code(v)
    }
}

impl From<RCode> for u8 {
    fn from(val: RCode) -> (r: Self)
        ensures
            r == code_of_rcode(val),
    {
        match val {
            RCode::NoError => 0,
            RCode::FormatErr => 1,
            RCode::ServFail => 2,
            RCode::NXDomain => 3,
            RCode::NotImp => 4,
            RCode::Refused => 5,
            RCode::Unknown(x) => x,
        }
    }
}

impl vstd::std_specs::convert::FromSpecImpl<RCode> for u8 {
    open spec fn obeys_from_spec() -> bool {
        true
    }

    open spec fn from_spec(v: RCode) -> Self {
        code_of_rcode(v)
    }
}

/// Reading a number into a response code and writing the code back gives the same number.
pub proof fn lemma_rcode_code_roundtrip(value: u8)
    ensures
        code_of_rcode(rcode_of_code(value)) == value,
{
}

/// A response code that conversion can produce is read back from its own number.
pub proof fn lemma_rcode_roundtrip(rc: RCode)
    requires
        canonical_rcode(rc),
    ensures
        rcode_of_code(code_of_rcode(rc)) == rc,
{
}

/// The RFC 1035 numbers of the response codes: 0 to 5 are `NoError`,
/// `FormatErr`, `ServFail`, `NXDomain`, `NotImp` and `Refused` in that order,
/// each written back as its number; any other number stays `Unknown`.
pub proof fn lemma_rcode_numbers(v: u8)
    ensures
        rcode_of_code(0) == RCode::NoError,
        rcode_of_code(1) == RCode::FormatErr,
        rcode_of_code(2) == RCode::ServFail,
        rcode_of_code(3) == RCode::NXDomain,
        rcode_of_code(4) == RCode::NotImp,
        rcode_of_code(5) == RCode::Refused,
        code_of_rcode(RCode::NoError) == 0,
        code_of_rcode(RCode::FormatErr) == 1,
        code_of_rcode(RCode::ServFail) == 2,
        code_of_rcode(RCode::NXDomain) == 3,
        code_of_rcode(RCode::NotImp) == 4,
        code_of_rcode(RCode::Refused) == 5,
        v > 5 ==> rcode_of_code(v) == RCode::Unknown(v),
        code_of_rcode(RCode::Unknown(v)) == v,
{
}

/// The numbers of the operations: 0 is `Query` (RFC 1035), 2 `Status`
/// (RFC 1035), 4 `Notify` (RFC 1996) and 5 `Update` (RFC 2136), each written
/// back as its number; any other number stays `Unknown`.
pub proof fn lemma_opcode_numbers(v: u8)
    ensures
        opcode_of_code(0) == OpCode::Query,
        opcode_of_code(2) == OpCode::Status,
        opcode_of_code(4) == OpCode::Notify,
        opcode_of_code(5) == OpCode::Update,
        code_of_opcode(OpCode::Query) == 0,
        code_of_opcode(OpCode::Status) == 2,
        code_of_opcode(OpCode::Notify) == 4,
        code_of_opcode(OpCode::Update) == 5,
        v != 0 && v != 2 && v != 4 && v != 5 ==> opcode_of_code(v) == OpCode::Unknown(v),
        code_of_opcode(OpCode::Unknown(v)) == v,
{
}

} // verus!
