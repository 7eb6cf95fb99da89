//! The fixed 12-byte header section of RFC 1035 section 4.1: a 16-bit id,
//! two bit-packed control bytes, and four 16-bit entry counts, all
//! big-endian.

use crate::error::DnsError;
use crate::wire::{
    lemma_u16_round_trip, push_u16_be, read_u16_be, u16_be_bytes, u16_hi, u16_join, u16_lo,
};
use vstd::prelude::*;

verus! {

/// The kind of query in a message (a 4-bit field). Set by the originator of
/// a query and copied into the response. The values 3-15 are reserved for
/// future use; decoding folds them all to [`OpCode::Reserved`], whose
/// canonical wire value on re-encoding is 3. Round-trip equality therefore
/// holds only up to this folding, a deliberate lossy simplification.
#[derive(Debug, Clone, Copy, PartialEq, Eq, Structural)]
pub enum OpCode {
    /// 0: a standard query (QUERY)
    Query,
    /// 1: an inverse query (IQUERY)
    Iquery,
    /// 2: a server status request (STATUS)
    Status,
    /// 3-15: reserved for future use
    Reserved,
}

/// The status of a response (a 4-bit field). The values 6-15 are reserved
/// for future use; decoding folds them all to [`RCode::Reserved`], whose
/// canonical wire value on re-encoding is 6, as with [`OpCode`].
#[derive(Debug, Clone, Copy, PartialEq, Eq, Structural)]
pub enum RCode {
    /// 0: no error condition
    NoError,
    /// 1: format error - the server was unable to interpret the query
    FormatError,
    /// 2: server failure - a problem with the name server
    ServerFailure,
    /// 3: name error - the domain name referenced in the query does not exist
    NameError,
    /// 4: not implemented - the server does not support the requested kind of query
    NotImplemented,
    /// 5: refused - the server refuses to perform the operation for policy reasons
    Refused,
    /// 6-15: reserved for future use
    Reserved,
}

/// The unpacked third byte of the header: bit 7 the query/response flag,
/// bits 6-3 the opcode, bit 2 authoritative-answer, bit 1 truncation,
/// bit 0 recursion-desired.
#[derive(Debug, Clone, Copy, PartialEq, Eq, Structural)]
pub struct DnsHeaderThirdByte {
    /// (QR) `false` for a query packet, `true` for a response packet.
    pub query_response_ind: bool,
    /// (OPCODE) the kind of query in this message (4 bits).
    pub operation_code: OpCode,
    /// (AA) `true` if the responding server owns the queried domain.
    pub authoritative_answer: bool,
    /// (TC) `true` if the message is larger than 512 bytes. Always `false`
    /// in UDP responses.
    pub truncation: bool,
    /// (RD) set by the sender when the server should resolve recursively.
    pub recursion_desired: bool,
}

/// The unpacked fourth byte of the header: bit 7 recursion-available,
/// bits 6-4 the reserved Z field, bits 3-0 the response code.
#[derive(Debug, Clone, Copy, PartialEq, Eq, Structural)]
pub struct DnsHeaderFourthByte {
    /// (RA) set by a server to say that recursion is available.
    pub recursion_available: bool,
    /// (Z) reserved at inception, used by DNSSEC queries; a 3-bit value.
    pub reserved: u8,
    /// (RCODE) the status of the response (4 bits).
    pub response_code: RCode,
}

/// The header of a DNS message: id, the two packed control bytes, and the
/// entry counts of the four sections that follow.
#[derive(Debug, Clone, Copy, PartialEq, Eq, Structural)]
pub struct DnsHeader {
    /// (ID) random id assigned to query packets; responses reply with the
    /// same id.
    pub packet_id: u16,
    /// The packed flag-and-opcode byte.
    pub third_byte: DnsHeaderThirdByte,
    /// The packed flag-and-rcode byte.
    pub fourth_byte: DnsHeaderFourthByte,
    /// (QDCOUNT) number of entries in the question section.
    pub question_count: u16,
    /// (ANCOUNT) number of records in the answer section.
    pub answer_record_count: u16,
    /// (NSCOUNT) number of records in the authority section.
    pub authority_record_count: u16,
    /// (ARCOUNT) number of records in the additional section.
    pub additional_record_count: u16,
}

/// The canonical 4-bit wire value of an opcode.
pub open spec fn opcode_num(op: OpCode) -> u8 {
    match op {
        OpCode::Query => 0,
        OpCode::Iquery => 1,
        OpCode::Status => 2,
        OpCode::Reserved => 3,
    }
}

/// The opcode a 4-bit wire value stands for; 3-15 fold to `Reserved`.
pub open spec fn opcode_of(v: u8) -> OpCode {
    if v == 0 {
        OpCode::Query
    } else if v == 1 {
        OpCode::Iquery
    } else if v == 2 {
        OpCode::Status
    } else {
        OpCode::Reserved
    }
}

/// The canonical 4-bit wire value of a response code.
pub open spec fn rcode_num(rc: RCode) -> u8 {
    match rc {
        RCode::NoError => 0,
        RCode::FormatError => 1,
        RCode::ServerFailure => 2,
        RCode::NameError => 3,
        RCode::NotImplemented => 4,
        RCode::Refused => 5,
        RCode::Reserved => 6,
    }
}

/// The response code a 4-bit wire value stands for; 6-15 fold to `Reserved`.
pub open spec fn rcode_of(v: u8) -> RCode {
    if v == 0 {
        RCode::NoError
    } else if v == 1 {
        RCode::FormatError
    } else if v == 2 {
        RCode::ServerFailure
    } else if v == 3 {
        RCode::NameError
    } else if v == 4 {
        RCode::NotImplemented
    } else if v == 5 {
        RCode::Refused
    } else {
        RCode::Reserved
    }
}

/// The value of one flag bit: `v` when set, 0 when clear.
pub open spec fn flag_bit(b: bool, v: u8) -> u8 {
    if b {
        v
    } else {
        0
    }
}

/// The packed third byte of a header.
pub open spec fn spec_third_byte(t: DnsHeaderThirdByte) -> u8 {
    (flag_bit(t.query_response_ind, 0x80) + opcode_num(t.operation_code) * 8 + flag_bit(
        t.authoritative_answer,
        4,
    ) + flag_bit(t.truncation, 2) + flag_bit(t.recursion_desired, 1)) as u8
}

/// The unpacked form of a third byte.
pub open spec fn spec_parse_third_byte(b: u8) -> DnsHeaderThirdByte {
    DnsHeaderThirdByte {
        query_response_ind: (b >> 7) == 1,
        operation_code: opcode_of((b & 0x78) >> 3),
        authoritative_answer: ((b & 4) >> 2) == 1,
        truncation: ((b & 2) >> 1) == 1,
        recursion_desired: (b & 1) == 1,
    }
}

/// The packed fourth byte of a header. Meaningful only when the reserved Z
/// field fits its 3 bits, which [`fourth_byte_wf`] states.
pub open spec fn spec_fourth_byte(f: DnsHeaderFourthByte) -> u8 {
    (flag_bit(f.recursion_available, 0x80) + f.reserved * 16 + rcode_num(f.response_code)) as u8
}

/// The unpacked form of a fourth byte.
pub open spec fn spec_parse_fourth_byte(b: u8) -> DnsHeaderFourthByte {
    DnsHeaderFourthByte {
        recursion_available: (b >> 7) == 1,
        reserved: (b & 0x70) >> 4,
        response_code: rcode_of(b & 0xf),
    }
}

/// A structurally valid fourth byte: the reserved Z value fits its 3 bits.
pub open spec fn fourth_byte_wf(f: DnsHeaderFourthByte) -> bool {
    f.reserved <= 7
}

/// A structurally valid header: its one invariant is that of the fourth
/// byte. The counts carry no constraint of their own; when decoding they
/// are trusted to bound the entries that follow the header, and malformed
/// counts surface as a decode error of the message codec.
pub open spec fn header_wf(h: DnsHeader) -> bool {
    fourth_byte_wf(h.fourth_byte)
}

/// The 12 wire bytes of a header.
pub open spec fn spec_header_bytes(h: DnsHeader) -> Seq<u8> {
    seq![
        u16_hi(h.packet_id),
        u16_lo(h.packet_id),
        spec_third_byte(h.third_byte),
        spec_fourth_byte(h.fourth_byte),
        u16_hi(h.question_count),
        u16_lo(h.question_count),
        u16_hi(h.answer_record_count),
        u16_lo(h.answer_record_count),
        u16_hi(h.authority_record_count),
        u16_lo(h.authority_record_count),
        u16_hi(h.additional_record_count),
        u16_lo(h.additional_record_count),
    ]
}

/// The header read from the first 12 bytes of a buffer.
pub open spec fn spec_parse_header(b: Seq<u8>) -> DnsHeader
    recommends
        b.len() >= 12,
{
    DnsHeader {
        packet_id: u16_join(b[0], b[1]),
        third_byte: spec_parse_third_byte(b[2]),
        fourth_byte: spec_parse_fourth_byte(b[3]),
        question_count: u16_join(b[4], b[5]),
        answer_record_count: u16_join(b[6], b[7]),
        authority_record_count: u16_join(b[8], b[9]),
        additional_record_count: u16_join(b[10], b[11]),
    }
}

impl DnsHeaderThirdByte {
    /// Unpacks the third control byte.
    pub fn from_byte(b: u8) -> (r: DnsHeaderThirdByte)
        ensures
            r == spec_parse_third_byte(b),
    {
        let opcode_val = (b & 0x78) >> 3u8;
        let operation_code = if opcode_val == 0 {
            OpCode::Query
        } else if opcode_val == 1 {
            OpCode::Iquery
        } else if opcode_val == 2 {
            OpCode::Status
        } else {
            OpCode::Reserved
        };
        DnsHeaderThirdByte {
            query_response_ind: (b >> 7u8) == 1,
            operation_code,
            authoritative_answer: ((b & 4) >> 2u8) == 1,
            truncation: ((b & 2) >> 1u8) == 1,
            recursion_desired: (b & 1) == 1,
        }
    }

    /// Packs this value back into its control byte.
    pub fn to_byte(&self) -> (r: u8)
        ensures
            r == spec_third_byte(*self),
    {
        let mut value: u8 = 0;
        if self.query_response_ind {
            value = value + 0x80;
        }
        let opcode_val: u8 = match self.operation_code {
            OpCode::Query => 0,
            OpCode::Iquery => 1,
            OpCode::Status => 2,
            OpCode::Reserved => 3,
        };
        value = value + opcode_val * 8;
        if self.authoritative_answer {
            value = value + 4;
        }
        if self.truncation {
            value = value + 2;
        }
        if self.recursion_desired {
            value = value + 1;
        }
        value
    }
}

impl DnsHeaderFourthByte {
    /// Unpacks the fourth control byte. The reserved field read from 3 bits
    /// always satisfies the well-formedness bound.
    pub fn from_byte(b: u8) -> (r: DnsHeaderFourthByte)
        ensures
            r == spec_parse_fourth_byte(b),
            fourth_byte_wf(r),
    {
        let reserved = (b & 0x70) >> 4u8;
        let rcode_val = b & 0xf;
        let response_code = if rcode_val == 0 {
            RCode::NoError
        } else if rcode_val == 1 {
            RCode::FormatError
        } else if rcode_val == 2 {
            RCode::ServerFailure
        } else if rcode_val == 3 {
            RCode::NameError
        } else if rcode_val == 4 {
            RCode::NotImplemented
        } else if rcode_val == 5 {
            RCode::Refused
        } else {
            RCode::Reserved
        };
        proof {
            assert((b & 0x70) >> 4u8 <= 7) by (bit_vector);
        }
        DnsHeaderFourthByte { recursion_available: (b >> 7u8) == 1, reserved, response_code }
    }

    /// Packs this value back into its control byte.
    pub fn to_byte(&self) -> (r: u8)
        requires
            fourth_byte_wf(*self),
        ensures
            r == spec_fourth_byte(*self),
    {
        let mut value: u8 = 0;
        if self.recursion_available {
            value = value + 0x80;
        }
        value = value + self.reserved * 16;
        let rcode_val: u8 = match self.response_code {
            RCode::NoError => 0,
            RCode::FormatError => 1,
            RCode::ServerFailure => 2,
            RCode::NameError => 3,
            RCode::NotImplemented => 4,
            RCode::Refused => 5,
            RCode::Reserved => 6,
        };
        value + rcode_val
    }
}

impl DnsHeader {
    /// Decodes a header from exactly 12 bytes: the id, the two control
    /// bytes, then the four counts, all big-endian. A slice of any other
    /// length is malformed.
    pub fn from_bytes(bytes: &[u8]) -> (r: Result<DnsHeader, DnsError>)
        ensures
            bytes@.len() == 12 ==> r == Ok::<DnsHeader, DnsError>(spec_parse_header(bytes@)),
            bytes@.len() != 12 ==> r == Err::<DnsHeader, DnsError>(DnsError::MalformedHeader),
            r matches Ok(h) ==> header_wf(h),
    {
        if bytes.len() != 12 {
            return Err(DnsError::MalformedHeader);
        }
        let packet_id = read_u16_be(bytes[0], bytes[1]);
        let third_byte = DnsHeaderThirdByte::from_byte(bytes[2]);
        let fourth_byte = DnsHeaderFourthByte::from_byte(bytes[3]);
        let question_count = read_u16_be(bytes[4], bytes[5]);
        let answer_record_count = read_u16_be(bytes[6], bytes[7]);
        let authority_record_count = read_u16_be(bytes[8], bytes[9]);
        let additional_record_count = read_u16_be(bytes[10], bytes[11]);
        Ok(
            DnsHeader {
                packet_id,
                third_byte,
                fourth_byte,
                question_count,
                answer_record_count,
                authority_record_count,
                additional_record_count,
            },
        )
    }

    /// Encodes this header as its 12 wire bytes; the total inverse of
    /// [`DnsHeader::from_bytes`] for all fields except the opcode/rcode
    /// folding noted on [`OpCode`] and [`RCode`].
    pub fn to_bytes(&self) -> (r: Vec<u8>)
        requires
            header_wf(*self),
        ensures
            r@ == spec_header_bytes(*self),
            r@.len() == 12,
    {
        let mut out: Vec<u8> = Vec::new();
        push_u16_be(&mut out, self.packet_id);
        out.push(self.third_byte.to_byte());
        out.push(self.fourth_byte.to_byte());
        push_u16_be(&mut out, self.question_count);
        push_u16_be(&mut out, self.answer_record_count);
        push_u16_be(&mut out, self.authority_record_count);
        push_u16_be(&mut out, self.additional_record_count);
        proof {
            assert(out@ =~= spec_header_bytes(*self));
        }
        out
    }
}

/// Unpacking the packed third byte recovers every field exactly: the
/// canonical opcode values survive the fold.
pub proof fn lemma_third_byte_round_trip(t: DnsHeaderThirdByte)
    ensures
        spec_parse_third_byte(spec_third_byte(t)) == t,
{
    let q: u8 = flag_bit(t.query_response_ind, 1);
    let o: u8 = opcode_num(t.operation_code);
    let a: u8 = flag_bit(t.authoritative_answer, 1);
    let tc: u8 = flag_bit(t.truncation, 1);
    let rd: u8 = flag_bit(t.recursion_desired, 1);
    let b: u8 = spec_third_byte(t);
    assert(b == (q * 0x80 + o * 8 + a * 4 + tc * 2 + rd) as u8);
    assert((b >> 7) == q && ((b & 0x78) >> 3) == o && ((b & 4) >> 2) == a && ((b & 2) >> 1) == tc
        && (b & 1) == rd) by (bit_vector)
        requires
            b == (q * 0x80 + o * 8 + a * 4 + tc * 2 + rd) as u8,
            q <= 1,
            o <= 3,
            a <= 1,
            tc <= 1,
            rd <= 1,
    ;
    assert(opcode_of(o) == t.operation_code);
}

/// Unpacking the packed fourth byte recovers every field exactly, provided
/// the reserved Z value fits its 3 bits.
pub proof fn lemma_fourth_byte_round_trip(f: DnsHeaderFourthByte)
    requires
        fourth_byte_wf(f),
    ensures
        spec_parse_fourth_byte(spec_fourth_byte(f)) == f,
{
    let ra: u8 = flag_bit(f.recursion_available, 1);
    let z: u8 = f.reserved;
    let rc: u8 = rcode_num(f.response_code);
    let b: u8 = spec_fourth_byte(f);
    assert(b == (ra * 0x80 + z * 16 + rc) as u8);
    assert((b >> 7) == ra && ((b & 0x70) >> 4) == z && (b & 0xf) == rc) by (bit_vector)
        requires
            b == (ra * 0x80 + z * 16 + rc) as u8,
            ra <= 1,
            z <= 7,
            rc <= 6,
    ;
    assert(rcode_of(rc) == f.response_code);
}

/// Decoding the encoding of any well-formed header reconstructs it exactly.
/// The one caveat of the wire format - opcode values 3-15 and rcode values
/// 6-15 folding to their `Reserved` canonical forms - cannot be observed
/// here, because the header value already carries the canonical forms.
pub proof fn lemma_header_round_trip(h: DnsHeader)
    requires
        header_wf(h),
    ensures
        spec_parse_header(spec_header_bytes(h)) == h,
{
    lemma_u16_round_trip(h.packet_id);
    lemma_u16_round_trip(h.question_count);
    lemma_u16_round_trip(h.answer_record_count);
    lemma_u16_round_trip(h.authority_record_count);
    lemma_u16_round_trip(h.additional_record_count);
    lemma_third_byte_round_trip(h.third_byte);
    lemma_fourth_byte_round_trip(h.fourth_byte);
}

} // verus!
