//! The question-section entry of RFC 1035 section 4.1.2: a name followed by
//! a 16-bit type and a 16-bit class.

use crate::dns_class::{lemma_qclass_round_trip, qclass_num, qclass_of, QClass};
use crate::dns_label::{
    decode_name, encode_name, lemma_decode_name_ok, lemma_name_round_trip, name_view, name_wf,
    spec_decode_name, spec_name_bytes, DnsLabel, LabelV, MAX_POINTER_HOPS,
};
use crate::dns_type::{lemma_qtype_round_trip, qtype_num, qtype_of, QType};
use crate::error::DnsError;
use crate::wire::{lemma_u16_round_trip, push_u16_be, read_u16_be, u16_be_bytes, u16_join};
use vstd::prelude::*;

verus! {

/// One entry of the question section: the queried name, type and class.
#[derive(Debug, PartialEq, Eq)]
pub struct DnsQuestion {
    /// The queried domain name.
    pub q_name: Vec<DnsLabel>,
    /// The queried record type.
    pub q_type: QType,
    /// The queried record class.
    pub q_class: QClass,
}

/// The mathematical value of a question.
pub ghost struct QuestionV {
    /// The queried name's labels.
    pub q_name: Seq<LabelV>,
    /// The queried record type.
    pub q_type: QType,
    /// The queried record class.
    pub q_class: QClass,
}

impl View for DnsQuestion {
    type V = QuestionV;

    open spec fn view(&self) -> QuestionV {
        QuestionV { q_name: name_view(self.q_name@), q_type: self.q_type, q_class: self.q_class }
    }
}

impl Clone for DnsQuestion {
    /// A clone carries the same value.
    fn clone(&self) -> (r: Self)
        ensures
            r@ == self@,
    {
        let r = DnsQuestion {
            q_name: clone_name(&self.q_name),
            q_type: self.q_type,
            q_class: self.q_class,
        };
        r
    }
}

/// Clones a name label by label.
pub fn clone_name(name: &Vec<DnsLabel>) -> (r: Vec<DnsLabel>)
    ensures
        name_view(r@) == name_view(name@),
{
    let mut r: Vec<DnsLabel> = Vec::new();
    for i in 0..name.len()
        invariant
            r@.len() == i,
            forall|k: int| 0 <= k < i ==> #[trigger] r@[k]@ == name@[k]@,
    {
        let l = &name[i];
        r.push(DnsLabel { length: l.length, label: clone_bytes(&l.label) });
    }
    proof {
        assert forall|k: int| 0 <= k < name@.len() implies name_view(r@)[k] == name_view(name@)[k]
            by {
            assert(name_view(r@)[k] == r@[k]@);
            assert(name_view(name@)[k] == name@[k]@);
        }
        assert(name_view(r@) =~= name_view(name@));
    }
    r
}

/// Clones a byte vector.
pub fn clone_bytes(bytes: &Vec<u8>) -> (r: Vec<u8>)
    ensures
        r@ == bytes@,
{
    let mut r: Vec<u8> = Vec::new();
    for i in 0..bytes.len()
        invariant
            r@ =~= bytes@.take(i as int),
    {
        r.push(bytes[i]);
        proof {
            assert(r@ =~= bytes@.take(i + 1));
        }
    }
    proof {
        assert(bytes@.take(bytes@.len() as int) =~= bytes@);
    }
    r
}

/// The wire bytes of a question: the name, then type and class big-endian.
pub open spec fn spec_question_bytes(q: QuestionV) -> Seq<u8> {
    spec_name_bytes(q.q_name) + u16_be_bytes(qtype_num(q.q_type)) + u16_be_bytes(
        qclass_num(q.q_class),
    )
}

/// The question decoded from `buf` at `pos`, with the position just past
/// it: the name (compression pointers resolved against the same buffer),
/// then the type and class, each mapped through its value table.
pub open spec fn spec_decode_question(buf: Seq<u8>, pos: int) -> Result<(QuestionV, int), DnsError> {
    match spec_decode_name(buf, pos, MAX_POINTER_HOPS as nat) {
        Err(e) => Err(e),
        Ok((q_name, p)) => if p + 2 > buf.len() {
            Err(DnsError::UnexpectedEof)
        } else {
            match qtype_of(u16_join(buf[p], buf[p + 1])) {
                None => Err(DnsError::UnknownQType),
                Some(q_type) => if p + 4 > buf.len() {
                    Err(DnsError::UnexpectedEof)
                } else {
                    match qclass_of(u16_join(buf[p + 2], buf[p + 3])) {
                        None => Err(DnsError::UnknownQClass),
                        Some(q_class) => Ok((QuestionV { q_name, q_type, q_class }, p + 4)),
                    }
                },
            }
        },
    }
}

/// A structurally valid question: its name is well-formed.
pub open spec fn question_wf(q: QuestionV) -> bool {
    name_wf(q.q_name)
}

/// The round-trip law for questions: wherever the encoding of a
/// well-formed question sits whole in a buffer, decoding the buffer at
/// that position yields exactly that question, and stops exactly past its
/// bytes.
pub proof fn lemma_question_round_trip(buf: Seq<u8>, pos: int, q: QuestionV)
    requires
        question_wf(q),
        0 <= pos,
        pos + spec_question_bytes(q).len() <= buf.len(),
        buf.subrange(pos, pos + spec_question_bytes(q).len() as int) == spec_question_bytes(q),
    ensures
        spec_decode_question(buf, pos) == Ok::<(QuestionV, int), DnsError>(
            (q, pos + spec_question_bytes(q).len() as int),
        ),
{
    let qb = spec_question_bytes(q);
    let nb = spec_name_bytes(q.q_name);
    let tb = u16_be_bytes(qtype_num(q.q_type));
    let cb = u16_be_bytes(qclass_num(q.q_class));
    assert(qb.len() == nb.len() + 4);
    assert forall|j: int| 0 <= j < qb.len() implies buf[pos + j] == qb[j] by {
        assert(buf.subrange(pos, pos + qb.len() as int)[j] == buf[pos + j]);
    }
    assert(buf.subrange(pos, pos + nb.len() as int) == nb) by {
        let sub = buf.subrange(pos, pos + nb.len() as int);
        assert forall|j: int| 0 <= j < nb.len() implies sub[j] == nb[j] by {
            assert(sub[j] == buf[pos + j]);
            assert(qb[j] == nb[j]);
        }
        assert(sub =~= nb);
    }
    lemma_name_round_trip(buf, pos, q.q_name, MAX_POINTER_HOPS as nat);
    let p = pos + nb.len() as int;
    assert(qb[nb.len() as int] == tb[0]);
    assert(qb[nb.len() as int + 1] == tb[1]);
    assert(qb[nb.len() as int + 2] == cb[0]);
    assert(qb[nb.len() as int + 3] == cb[1]);
    lemma_u16_round_trip(qtype_num(q.q_type));
    lemma_qtype_round_trip(q.q_type);
    lemma_u16_round_trip(qclass_num(q.q_class));
    lemma_qclass_round_trip(q.q_class);
    assert(u16_join(buf[p], buf[p + 1]) == qtype_num(q.q_type));
    assert(u16_join(buf[p + 2], buf[p + 3]) == qclass_num(q.q_class));
    assert(QuestionV { q_name: q.q_name, q_type: q.q_type, q_class: q.q_class } == q);
}

impl DnsQuestion {
    /// Decodes a question from `buf` at the absolute position `pos`.
    /// Returns the question and the position just past its bytes.
    pub fn decode(buf: &[u8], pos: usize) -> (r: Result<(DnsQuestion, usize), DnsError>)
        ensures
            (match r {
                Ok((q, end)) => spec_decode_question(buf@, pos as int) == Ok::<
                    (QuestionV, int),
                    DnsError,
                >((q@, end as int)) && question_wf(q@) && pos < end <= buf@.len(),
                Err(e) => spec_decode_question(buf@, pos as int) == Err::<
                    (QuestionV, int),
                    DnsError,
                >(e),
            }),
    {
        let (q_name, p) = match decode_name(buf, pos) {
            Ok(v) => v,
            Err(e) => {
                return Err(e);
            },
        };
        proof {
            lemma_decode_name_ok(buf@, pos as int, MAX_POINTER_HOPS as nat);
        }
        if buf.len() - p < 2 {
            return Err(DnsError::UnexpectedEof);
        }
        let q_type = match QType::from_u16(read_u16_be(buf[p], buf[p + 1])) {
            Ok(t) => t,
            Err(e) => {
                return Err(e);
            },
        };
        if buf.len() - p < 4 {
            return Err(DnsError::UnexpectedEof);
        }
        let q_class = match QClass::from_u16(read_u16_be(buf[p + 2], buf[p + 3])) {
            Ok(c) => c,
            Err(e) => {
                return Err(e);
            },
        };
        Ok((DnsQuestion { q_name, q_type, q_class }, p + 4))
    }

    /// Encodes this question as its wire bytes, the structural inverse of
    /// [`DnsQuestion::decode`]; names are never compressed on encoding.
    pub fn encode(&self) -> (r: Vec<u8>)
        ensures
            r@ == spec_question_bytes(self@),
    {
        let mut out = encode_name(&self.q_name);
        push_u16_be(&mut out, self.q_type.to_u16());
        push_u16_be(&mut out, self.q_class.to_u16());
        proof {
            assert(out@ =~= spec_question_bytes(self@));
        }
        out
    }
}

} // verus!
