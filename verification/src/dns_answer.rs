//! The resource-record entry of RFC 1035 section 4.1.3, as it appears in
//! the answer section: a name, fixed-width type/class/ttl/rdLength fields,
//! and `rdLength` bytes of record data.

use crate::dns_class::{lemma_qclass_round_trip, qclass_num, qclass_of, QClass};
use crate::dns_label::{
    decode_name, encode_name, lemma_decode_name_ok, lemma_name_round_trip, name_view, name_wf,
    spec_decode_name, spec_name_bytes, DnsLabel, LabelV, MAX_POINTER_HOPS,
};
use crate::dns_question::{clone_bytes, clone_name, DnsQuestion};
use crate::dns_type::{lemma_qtype_round_trip, qtype_num, qtype_of, QType};
use crate::error::DnsError;
use crate::wire::{
    lemma_u16_round_trip, lemma_u32_round_trip, push_u16_be, push_u32_be, read_u16_be, read_u32_be,
    u16_be_bytes, u16_join, u32_be_bytes, u32_join,
};
use vstd::prelude::*;
use vstd::slice::slice_to_vec;

verus! {

/// One record of the answer section. In reality only a subset of the type
/// and class tables can appear in answers; the codec accepts the full
/// tables for both, as it does for questions.
#[derive(Debug, PartialEq, Eq)]
pub struct DnsAnswer {
    /// The name the record answers for.
    pub r_name: Vec<DnsLabel>,
    /// The record type.
    pub r_type: QType,
    /// The record class.
    pub r_class: QClass,
    /// How many seconds the record may be cached before re-querying.
    pub ttl: u32,
    /// The length of the record data in bytes.
    pub rd_length: u16,
    /// The record data, specific to the record type; `rd_length` bytes.
    pub r_data: Vec<u8>,
}

/// The mathematical value of an answer record.
pub ghost struct AnswerV {
    /// The name's labels.
    pub r_name: Seq<LabelV>,
    /// The record type.
    pub r_type: QType,
    /// The record class.
    pub r_class: QClass,
    /// The cache lifetime in seconds.
    pub ttl: u32,
    /// The declared record-data length.
    pub rd_length: u16,
    /// The record-data bytes.
    pub r_data: Seq<u8>,
}

impl View for DnsAnswer {
    type V = AnswerV;

    open spec fn view(&self) -> AnswerV {
        AnswerV {
            r_name: name_view(self.r_name@),
            r_type: self.r_type,
            r_class: self.r_class,
            ttl: self.ttl,
            rd_length: self.rd_length,
            r_data: self.r_data@,
        }
    }
}

impl Clone for DnsAnswer {
    /// A clone carries the same value.
    fn clone(&self) -> (r: Self)
        ensures
            r@ == self@,
    {
        let r = DnsAnswer {
            r_name: clone_name(&self.r_name),
            r_type: self.r_type,
            r_class: self.r_class,
            ttl: self.ttl,
            rd_length: self.rd_length,
            r_data: clone_bytes(&self.r_data),
        };
        r
    }
}

/// The wire bytes of an answer record: the name, then type, class, ttl and
/// data length big-endian, then the record data.
pub open spec fn spec_answer_bytes(a: AnswerV) -> Seq<u8> {
    spec_name_bytes(a.r_name) + u16_be_bytes(qtype_num(a.r_type)) + u16_be_bytes(
        qclass_num(a.r_class),
    ) + u32_be_bytes(a.ttl) + u16_be_bytes(a.rd_length) + a.r_data
}

/// The record decoded from `buf` at `pos`, with the position just past it.
/// After the name and the fixed-width fields, exactly `rd_length` raw bytes
/// of record data are read; a buffer that ends before them is exhausted.
pub open spec fn spec_decode_record(buf: Seq<u8>, pos: int) -> Result<(AnswerV, int), DnsError> {
    match spec_decode_name(buf, pos, MAX_POINTER_HOPS as nat) {
        Err(e) => Err(e),
        Ok((r_name, p)) => if p + 2 > buf.len() {
            Err(DnsError::UnexpectedEof)
        } else {
            match qtype_of(u16_join(buf[p], buf[p + 1])) {
                None => Err(DnsError::UnknownQType),
                Some(r_type) => if p + 4 > buf.len() {
                    Err(DnsError::UnexpectedEof)
                } else {
                    match qclass_of(u16_join(buf[p + 2], buf[p + 3])) {
                        None => Err(DnsError::UnknownQClass),
                        Some(r_class) => if p + 8 > buf.len() {
                            Err(DnsError::UnexpectedEof)
                        } else {
                            let ttl = u32_join(buf[p + 4], buf[p + 5], buf[p + 6], buf[p + 7]);
                            if p + 10 > buf.len() {
                                Err(DnsError::UnexpectedEof)
                            } else {
                                let rd_length = u16_join(buf[p + 8], buf[p + 9]);
                                if p + 10 + rd_length > buf.len() {
                                    Err(DnsError::UnexpectedEof)
                                } else {
                                    let r_data = buf.subrange(p + 10, p + 10 + rd_length);
                                    Ok(
                                        (
                                            AnswerV {
                                                r_name,
                                                r_type,
                                                r_class,
                                                ttl,
                                                rd_length,
                                                r_data,
                                            },
                                            p + 10 + rd_length,
                                        ),
                                    )
                                }
                            }
                        },
                    }
                },
            }
        },
    }
}

/// A structurally valid answer record: its name is well-formed and its
/// declared data length counts the data bytes exactly.
pub open spec fn answer_wf(a: AnswerV) -> bool {
    &&& name_wf(a.r_name)
    &&& a.r_data.len() == a.rd_length
}

/// The round-trip law for answer records: wherever the encoding of a
/// well-formed record sits whole in a buffer, decoding the buffer at that
/// position yields exactly that record, and stops exactly past its bytes.
pub proof fn lemma_record_round_trip(buf: Seq<u8>, pos: int, a: AnswerV)
    requires
        answer_wf(a),
        0 <= pos,
        pos + spec_answer_bytes(a).len() <= buf.len(),
        buf.subrange(pos, pos + spec_answer_bytes(a).len() as int) == spec_answer_bytes(a),
    ensures
        spec_decode_record(buf, pos) == Ok::<(AnswerV, int), DnsError>(
            (a, pos + spec_answer_bytes(a).len() as int),
        ),
{
    let ab = spec_answer_bytes(a);
    let nb = spec_name_bytes(a.r_name);
    let tb = u16_be_bytes(qtype_num(a.r_type));
    let cb = u16_be_bytes(qclass_num(a.r_class));
    let lb = u32_be_bytes(a.ttl);
    let rb = u16_be_bytes(a.rd_length);
    assert(ab.len() == nb.len() + 10 + a.r_data.len());
    assert forall|j: int| 0 <= j < ab.len() implies buf[pos + j] == ab[j] by {
        assert(buf.subrange(pos, pos + ab.len() as int)[j] == buf[pos + j]);
    }
    assert(buf.subrange(pos, pos + nb.len() as int) == nb) by {
        let sub = buf.subrange(pos, pos + nb.len() as int);
        assert forall|j: int| 0 <= j < nb.len() implies sub[j] == nb[j] by {
            assert(sub[j] == buf[pos + j]);
            assert(ab[j] == nb[j]);
        }
        assert(sub =~= nb);
    }
    lemma_name_round_trip(buf, pos, a.r_name, MAX_POINTER_HOPS as nat);
    let p = pos + nb.len() as int;
    assert(ab[nb.len() as int] == tb[0]);
    assert(ab[nb.len() as int + 1] == tb[1]);
    assert(ab[nb.len() as int + 2] == cb[0]);
    assert(ab[nb.len() as int + 3] == cb[1]);
    assert(ab[nb.len() as int + 4] == lb[0]);
    assert(ab[nb.len() as int + 5] == lb[1]);
    assert(ab[nb.len() as int + 6] == lb[2]);
    assert(ab[nb.len() as int + 7] == lb[3]);
    assert(ab[nb.len() as int + 8] == rb[0]);
    assert(ab[nb.len() as int + 9] == rb[1]);
    lemma_u16_round_trip(qtype_num(a.r_type));
    lemma_qtype_round_trip(a.r_type);
    lemma_u16_round_trip(qclass_num(a.r_class));
    lemma_qclass_round_trip(a.r_class);
    lemma_u32_round_trip(a.ttl);
    lemma_u16_round_trip(a.rd_length);
    assert(u16_join(buf[p], buf[p + 1]) == qtype_num(a.r_type));
    assert(u16_join(buf[p + 2], buf[p + 3]) == qclass_num(a.r_class));
    assert(u32_join(buf[p + 4], buf[p + 5], buf[p + 6], buf[p + 7]) == a.ttl);
    assert(u16_join(buf[p + 8], buf[p + 9]) == a.rd_length);
    assert(buf.subrange(p + 10, p + 10 + a.rd_length as int) == a.r_data) by {
        let sub = buf.subrange(p + 10, p + 10 + a.rd_length as int);
        assert forall|j: int| 0 <= j < a.r_data.len() implies sub[j] == a.r_data[j] by {
            assert(sub[j] == buf[p + 10 + j]);
            assert(ab[nb.len() as int + 10 + j] == a.r_data[j]);
        }
        assert(sub =~= a.r_data);
    }
    assert(AnswerV {
        r_name: a.r_name,
        r_type: a.r_type,
        r_class: a.r_class,
        ttl: a.ttl,
        rd_length: a.rd_length,
        r_data: a.r_data,
    } == a);
}

impl DnsAnswer {
    /// Decodes an answer record from `buf` at the absolute position `pos`.
    /// Returns the record and the position just past its bytes.
    pub fn decode(buf: &[u8], pos: usize) -> (r: Result<(DnsAnswer, usize), DnsError>)
        ensures
            (match r {
                Ok((a, end)) => spec_decode_record(buf@, pos as int) == Ok::<
                    (AnswerV, int),
                    DnsError,
                >((a@, end as int)) && answer_wf(a@) && pos < end <= buf@.len(),
                Err(e) => spec_decode_record(buf@, pos as int) == Err::<(AnswerV, int), DnsError>(
                    e,
                ),
            }),
    {
        let (r_name, p) = match decode_name(buf, pos) {
            Ok(v) => v,
            Err(e) => {
                return Err(e);
            },
        };
        proof {
            lemma_decode_name_ok(buf@, pos as int, MAX_POINTER_HOPS as nat);
        }
        if buf.len() - p < 2 {
            return Err(DnsError::UnexpectedEof);
        }
        let r_type = match QType::from_u16(read_u16_be(buf[p], buf[p + 1])) {
            Ok(t) => t,
            Err(e) => {
                return Err(e);
            },
        };
        if buf.len() - p < 4 {
            return Err(DnsError::UnexpectedEof);
        }
        let r_class = match QClass::from_u16(read_u16_be(buf[p + 2], buf[p + 3])) {
            Ok(c) => c,
            Err(e) => {
                return Err(e);
            },
        };
        if buf.len() - p < 8 {
            return Err(DnsError::UnexpectedEof);
        }
        let ttl = read_u32_be(buf[p + 4], buf[p + 5], buf[p + 6], buf[p + 7]);
        if buf.len() - p < 10 {
            return Err(DnsError::UnexpectedEof);
        }
        let rd_length = read_u16_be(buf[p + 8], buf[p + 9]);
        if (rd_length as usize) > buf.len() - (p + 10) {
            return Err(DnsError::UnexpectedEof);
        }
        let r_data = slice_to_vec(&buf[p + 10..p + 10 + rd_length as usize]);
        Ok(
            (
                DnsAnswer { r_name, r_type, r_class, ttl, rd_length, r_data },
                p + 10 + rd_length as usize,
            ),
        )
    }

    /// Encodes this record as its wire bytes, the structural inverse of
    /// [`DnsAnswer::decode`]; names are never compressed on encoding.
    pub fn encode(&self) -> (r: Vec<u8>)
        ensures
            r@ == spec_answer_bytes(self@),
    {
        let mut out = encode_name(&self.r_name);
        push_u16_be(&mut out, self.r_type.to_u16());
        push_u16_be(&mut out, self.r_class.to_u16());
        push_u32_be(&mut out, self.ttl);
        push_u16_be(&mut out, self.rd_length);
        let ghost prefix = out@;
        for j in 0..self.r_data.len()
            invariant
                out@ == prefix + self.r_data@.take(j as int),
        {
            out.push(self.r_data[j]);
            proof {
                assert(out@ =~= prefix + self.r_data@.take(j + 1));
            }
        }
        proof {
            assert(self.r_data@.take(self.r_data@.len() as int) =~= self.r_data@);
            assert(out@ =~= spec_answer_bytes(self@));
        }
        out
    }

    /// The skeleton of an answer to a question: the question's name, type
    /// and class copied over, with empty record data and a zero ttl, for
    /// the caller to fill.
    pub fn from_question(question: DnsQuestion) -> (r: DnsAnswer)
        ensures
            r@.r_name == question@.q_name,
            r@.r_type == question@.q_type,
            r@.r_class == question@.q_class,
            r@.ttl == 0,
            r@.rd_length == 0,
            r@.r_data == Seq::<u8>::empty(),
    {
        let r = DnsAnswer {
            r_name: question.q_name,
            r_type: question.q_type,
            r_class: question.q_class,
            ttl: 0,
            rd_length: 0,
            r_data: Vec::new(),
        };
        proof {
            assert(r.r_data@ =~= Seq::<u8>::empty());
        }
        r
    }
}

} // verus!
