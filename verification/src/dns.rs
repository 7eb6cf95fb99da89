//! Whole-message assembly and the resolver-proxy logic: decoding a request
//! or reply from a datagram, encoding one back to bytes, splitting a
//! multi-question request into single-question sub-requests, merging their
//! replies into one composite reply, and synthesizing a local reply.

use crate::dns_answer::{
    answer_wf, lemma_record_round_trip, spec_answer_bytes, spec_decode_record, AnswerV, DnsAnswer,
};
use crate::dns_header::{
    header_wf, lemma_header_round_trip, spec_header_bytes, spec_parse_header, DnsHeader,
    DnsHeaderFourthByte, DnsHeaderThirdByte, OpCode, RCode,
};
use crate::dns_question::{
    lemma_question_round_trip, question_wf, spec_decode_question, spec_question_bytes, DnsQuestion,
    QuestionV,
};
use crate::error::DnsError;
use vstd::prelude::*;

verus! {

/// A query message: a header and its questions. The query/response flag of
/// a well-formed request is clear.
#[derive(Debug, PartialEq, Eq)]
pub struct DnsRequest {
    /// The message header.
    pub header: DnsHeader,
    /// The question entries, in wire order.
    pub questions: Vec<DnsQuestion>,
}

/// A response message: a header, the echoed questions, and the answer
/// records. The query/response flag of a well-formed reply is set. The
/// authority and additional sections are not parsed: their counts are
/// preserved in the header, their bytes ignored on decode and absent on
/// encode.
#[derive(Debug, PartialEq, Eq)]
pub struct DnsReply {
    /// The message header.
    pub header: DnsHeader,
    /// The question entries, in wire order.
    pub questions: Vec<DnsQuestion>,
    /// The answer records, in wire order.
    pub answers: Vec<DnsAnswer>,
}

/// The mathematical value of a request.
pub ghost struct RequestV {
    /// The header.
    pub header: DnsHeader,
    /// The questions' values, in order.
    pub questions: Seq<QuestionV>,
}

/// The mathematical value of a reply.
pub ghost struct ReplyV {
    /// The header.
    pub header: DnsHeader,
    /// The questions' values, in order.
    pub questions: Seq<QuestionV>,
    /// The answers' values, in order.
    pub answers: Seq<AnswerV>,
}

/// The values of a sequence of questions.
pub open spec fn questions_view(qs: Seq<DnsQuestion>) -> Seq<QuestionV> {
    qs.map_values(|q: DnsQuestion| q@)
}

/// The values of a sequence of answers.
pub open spec fn answers_view(ans: Seq<DnsAnswer>) -> Seq<AnswerV> {
    ans.map_values(|a: DnsAnswer| a@)
}

/// The values of a sequence of replies.
pub open spec fn replies_view(rs: Seq<DnsReply>) -> Seq<ReplyV> {
    rs.map_values(|r: DnsReply| r@)
}

impl View for DnsRequest {
    type V = RequestV;

    open spec fn view(&self) -> RequestV {
        RequestV { header: self.header, questions: questions_view(self.questions@) }
    }
}

impl View for DnsReply {
    type V = ReplyV;

    open spec fn view(&self) -> ReplyV {
        ReplyV {
            header: self.header,
            questions: questions_view(self.questions@),
            answers: answers_view(self.answers@),
        }
    }
}

/// Clones a question section question by question.
pub fn clone_questions(qs: &Vec<DnsQuestion>) -> (r: Vec<DnsQuestion>)
    ensures
        questions_view(r@) == questions_view(qs@),
{
    let mut r: Vec<DnsQuestion> = Vec::new();
    for i in 0..qs.len()
        invariant
            r@.len() == i,
            forall|k: int| 0 <= k < i ==> #[trigger] r@[k]@ == qs@[k]@,
    {
        r.push(qs[i].clone());
    }
    proof {
        assert forall|k: int| 0 <= k < qs@.len() implies questions_view(r@)[k] == questions_view(
            qs@,
        )[k] by {
            assert(questions_view(r@)[k] == r@[k]@);
            assert(questions_view(qs@)[k] == qs@[k]@);
        }
        assert(questions_view(r@) =~= questions_view(qs@));
    }
    r
}

/// Clones an answer section record by record.
pub fn clone_answers(ans: &Vec<DnsAnswer>) -> (r: Vec<DnsAnswer>)
    ensures
        answers_view(r@) == answers_view(ans@),
{
    let mut r: Vec<DnsAnswer> = Vec::new();
    for i in 0..ans.len()
        invariant
            r@.len() == i,
            forall|k: int| 0 <= k < i ==> #[trigger] r@[k]@ == ans@[k]@,
    {
        r.push(ans[i].clone());
    }
    proof {
        assert forall|k: int| 0 <= k < ans@.len() implies answers_view(r@)[k] == answers_view(
            ans@,
        )[k] by {
            assert(answers_view(r@)[k] == r@[k]@);
            assert(answers_view(ans@)[k] == ans@[k]@);
        }
        assert(answers_view(r@) =~= answers_view(ans@));
    }
    r
}

impl Clone for DnsRequest {
    /// A clone carries the same value.
    fn clone(&self) -> (r: Self)
        ensures
            r@ == self@,
    {
        let r = DnsRequest { header: self.header, questions: clone_questions(&self.questions) };
        r
    }
}

impl Clone for DnsReply {
    /// A clone carries the same value.
    fn clone(&self) -> (r: Self)
        ensures
            r@ == self@,
    {
        let r = DnsReply {
            header: self.header,
            questions: clone_questions(&self.questions),
            answers: clone_answers(&self.answers),
        };
        r
    }
}

/// A structurally valid request: a well-formed header whose query/response
/// flag is clear and whose question count matches the questions present.
pub open spec fn request_wf(r: RequestV) -> bool {
    &&& header_wf(r.header)
    &&& !r.header.third_byte.query_response_ind
    &&& r.questions.len() == r.header.question_count
}

/// A structurally valid reply: a well-formed header whose query/response
/// flag is set and whose question and answer counts match the entries
/// present.
pub open spec fn reply_wf(r: ReplyV) -> bool {
    &&& header_wf(r.header)
    &&& r.header.third_byte.query_response_ind
    &&& r.questions.len() == r.header.question_count
    &&& r.answers.len() == r.header.answer_record_count
}

/// The wire bytes of a question section.
pub open spec fn spec_questions_bytes(qs: Seq<QuestionV>) -> Seq<u8>
    decreases qs.len(),
{
    if qs.len() == 0 {
        Seq::empty()
    } else {
        spec_question_bytes(qs[0]) + spec_questions_bytes(qs.skip(1))
    }
}

/// The wire bytes of an answer section.
pub open spec fn spec_answers_bytes(ans: Seq<AnswerV>) -> Seq<u8>
    decreases ans.len(),
{
    if ans.len() == 0 {
        Seq::empty()
    } else {
        spec_answer_bytes(ans[0]) + spec_answers_bytes(ans.skip(1))
    }
}

/// The wire bytes of a request: the header, then each question in order.
pub open spec fn spec_request_bytes(r: RequestV) -> Seq<u8> {
    spec_header_bytes(r.header) + spec_questions_bytes(r.questions)
}

/// The wire bytes of a reply: the header, each question, then each answer,
/// in order. Nothing is emitted for the authority and additional sections.
pub open spec fn spec_reply_bytes(r: ReplyV) -> Seq<u8> {
    spec_header_bytes(r.header) + spec_questions_bytes(r.questions) + spec_answers_bytes(r.answers)
}

/// `count` questions decoded in order from `buf` at `pos`, with the
/// position just past the last.
pub open spec fn spec_decode_questions(buf: Seq<u8>, pos: int, count: int) -> Result<
    (Seq<QuestionV>, int),
    DnsError,
>
    decreases count,
{
    if count <= 0 {
        Ok((Seq::empty(), pos))
    } else {
        match spec_decode_question(buf, pos) {
            Err(e) => Err(e),
            Ok((q, p)) => match spec_decode_questions(buf, p, count - 1) {
                Err(e) => Err(e),
                Ok((rest, end)) => Ok((seq![q] + rest, end)),
            },
        }
    }
}

/// `count` answer records decoded in order from `buf` at `pos`, with the
/// position just past the last.
pub open spec fn spec_decode_records(buf: Seq<u8>, pos: int, count: int) -> Result<
    (Seq<AnswerV>, int),
    DnsError,
>
    decreases count,
{
    if count <= 0 {
        Ok((Seq::empty(), pos))
    } else {
        match spec_decode_record(buf, pos) {
            Err(e) => Err(e),
            Ok((a, p)) => match spec_decode_records(buf, p, count - 1) {
                Err(e) => Err(e),
                Ok((rest, end)) => Ok((seq![a] + rest, end)),
            },
        }
    }
}

/// The request decoded from a whole datagram: the header from the first 12
/// bytes, then exactly `question_count` questions. A buffer too short for
/// the header is malformed; a buffer whose header says response cannot be
/// decoded as a request; trailing bytes after the questions are ignored.
pub open spec fn spec_decode_request(buf: Seq<u8>) -> Result<RequestV, DnsError> {
    if buf.len() < 12 {
        Err(DnsError::MalformedHeader)
    } else {
        let header = spec_parse_header(buf);
        if header.third_byte.query_response_ind {
            Err(DnsError::WrongDirection)
        } else {
            match spec_decode_questions(buf, 12, header.question_count as int) {
                Err(e) => Err(e),
                Ok((questions, _)) => Ok(RequestV { header, questions }),
            }
        }
    }
}

/// The reply decoded from a whole datagram: the header, then
/// `question_count` questions, then `answer_record_count` records. A
/// buffer whose header says query cannot be decoded as a reply; the
/// authority and additional sections are not parsed.
pub open spec fn spec_decode_reply(buf: Seq<u8>) -> Result<ReplyV, DnsError> {
    if buf.len() < 12 {
        Err(DnsError::MalformedHeader)
    } else {
        let header = spec_parse_header(buf);
        if !header.third_byte.query_response_ind {
            Err(DnsError::WrongDirection)
        } else {
            match spec_decode_questions(buf, 12, header.question_count as int) {
                Err(e) => Err(e),
                Ok((questions, p)) => match spec_decode_records(
                    buf,
                    p,
                    header.answer_record_count as int,
                ) {
                    Err(e) => Err(e),
                    Ok((answers, _)) => Ok(ReplyV { header, questions, answers }),
                },
            }
        }
    }
}

/// A copy of a header with its question count replaced.
pub open spec fn spec_with_question_count(h: DnsHeader, n: u16) -> DnsHeader {
    DnsHeader { question_count: n, ..h }
}

/// The header of a merged reply: the base header with both entry counts
/// overwritten by the number of replies merged.
pub open spec fn spec_merged_header(base: DnsHeader, n: u16) -> DnsHeader {
    DnsHeader { question_count: n, answer_record_count: n, ..base }
}

/// All the questions of a sequence of replies, concatenated in order.
pub open spec fn spec_concat_questions(rs: Seq<ReplyV>) -> Seq<QuestionV>
    decreases rs.len(),
{
    if rs.len() == 0 {
        Seq::empty()
    } else {
        rs[0].questions + spec_concat_questions(rs.skip(1))
    }
}

/// All the answers of a sequence of replies, concatenated in order.
pub open spec fn spec_concat_answers(rs: Seq<ReplyV>) -> Seq<AnswerV>
    decreases rs.len(),
{
    if rs.len() == 0 {
        Seq::empty()
    } else {
        rs[0].answers + spec_concat_answers(rs.skip(1))
    }
}

/// The header of a synthesized reply: the request's header with the
/// query/response flag forced on, the authoritative, truncation and
/// recursion-available flags and the reserved field forced off, the
/// response code set to no-error for a standard query and not-implemented
/// for every other opcode, the answer count set to the question count, and
/// the unparsed sections' counts cleared.
pub open spec fn spec_synth_header(h: DnsHeader) -> DnsHeader {
    DnsHeader {
        packet_id: h.packet_id,
        third_byte: DnsHeaderThirdByte {
            query_response_ind: true,
            operation_code: h.third_byte.operation_code,
            authoritative_answer: false,
            truncation: false,
            recursion_desired: h.third_byte.recursion_desired,
        },
        fourth_byte: DnsHeaderFourthByte {
            recursion_available: false,
            reserved: 0,
            response_code: if h.third_byte.operation_code == OpCode::Query {
                RCode::NoError
            } else {
                RCode::NotImplemented
            },
        },
        question_count: h.question_count,
        answer_record_count: h.question_count,
        authority_record_count: 0,
        additional_record_count: 0,
    }
}

/// The one answer a synthesized reply gives to a question: the question's
/// name, type and class copied over, the placeholder lifetime and record
/// data filled in.
pub open spec fn spec_synth_answer(q: QuestionV, ttl: u32, r_data: Seq<u8>) -> AnswerV {
    AnswerV {
        r_name: q.q_name,
        r_type: q.q_type,
        r_class: q.q_class,
        ttl,
        rd_length: r_data.len() as u16,
        r_data,
    }
}

/// `spec_decode_questions` with an already-decoded prefix carried along:
/// the shape of the decoding loop's progress.
pub open spec fn spec_decode_questions_from(
    buf: Seq<u8>,
    pos: int,
    count: int,
    prefix: Seq<QuestionV>,
) -> Result<(Seq<QuestionV>, int), DnsError> {
    match spec_decode_questions(buf, pos, count) {
        Err(e) => Err(e),
        Ok((rest, end)) => Ok((prefix + rest, end)),
    }
}

/// `spec_decode_records` with an already-decoded prefix carried along.
pub open spec fn spec_decode_records_from(
    buf: Seq<u8>,
    pos: int,
    count: int,
    prefix: Seq<AnswerV>,
) -> Result<(Seq<AnswerV>, int), DnsError> {
    match spec_decode_records(buf, pos, count) {
        Err(e) => Err(e),
        Ok((rest, end)) => Ok((prefix + rest, end)),
    }
}

/// An empty prefix carries nothing.
proof fn lemma_decode_questions_from_empty(buf: Seq<u8>, pos: int, count: int)
    ensures
        spec_decode_questions_from(buf, pos, count, Seq::empty()) == spec_decode_questions(
            buf,
            pos,
            count,
        ),
{
    match spec_decode_questions(buf, pos, count) {
        Err(_) => {},
        Ok((rest, end)) => {
            assert(Seq::empty() + rest =~= rest);
        },
    }
}

/// Decoding one question moves it from the remainder to the prefix.
proof fn lemma_decode_questions_from_step(
    buf: Seq<u8>,
    pos: int,
    count: int,
    prefix: Seq<QuestionV>,
    q: QuestionV,
    p: int,
)
    requires
        count >= 1,
        spec_decode_question(buf, pos) == Ok::<(QuestionV, int), DnsError>((q, p)),
    ensures
        spec_decode_questions_from(buf, pos, count, prefix) == spec_decode_questions_from(
            buf,
            p,
            count - 1,
            prefix.push(q),
        ),
{
    match spec_decode_questions(buf, p, count - 1) {
        Err(_) => {},
        Ok((rest, end)) => {
            assert(prefix + (seq![q] + rest) =~= prefix.push(q) + rest);
        },
    }
}

/// A remainder of zero questions leaves exactly the prefix.
proof fn lemma_decode_questions_from_done(buf: Seq<u8>, pos: int, prefix: Seq<QuestionV>)
    ensures
        spec_decode_questions_from(buf, pos, 0, prefix) == Ok::<(Seq<QuestionV>, int), DnsError>(
            (prefix, pos),
        ),
{
    assert(prefix + Seq::<QuestionV>::empty() =~= prefix);
}

/// An empty prefix carries nothing.
proof fn lemma_decode_records_from_empty(buf: Seq<u8>, pos: int, count: int)
    ensures
        spec_decode_records_from(buf, pos, count, Seq::empty()) == spec_decode_records(
            buf,
            pos,
            count,
        ),
{
    match spec_decode_records(buf, pos, count) {
        Err(_) => {},
        Ok((rest, end)) => {
            assert(Seq::empty() + rest =~= rest);
        },
    }
}

/// Decoding one record moves it from the remainder to the prefix.
proof fn lemma_decode_records_from_step(
    buf: Seq<u8>,
    pos: int,
    count: int,
    prefix: Seq<AnswerV>,
    a: AnswerV,
    p: int,
)
    requires
        count >= 1,
        spec_decode_record(buf, pos) == Ok::<(AnswerV, int), DnsError>((a, p)),
    ensures
        spec_decode_records_from(buf, pos, count, prefix) == spec_decode_records_from(
            buf,
            p,
            count - 1,
            prefix.push(a),
        ),
{
    match spec_decode_records(buf, p, count - 1) {
        Err(_) => {},
        Ok((rest, end)) => {
            assert(prefix + (seq![a] + rest) =~= prefix.push(a) + rest);
        },
    }
}

/// A remainder of zero records leaves exactly the prefix.
proof fn lemma_decode_records_from_done(buf: Seq<u8>, pos: int, prefix: Seq<AnswerV>)
    ensures
        spec_decode_records_from(buf, pos, 0, prefix) == Ok::<(Seq<AnswerV>, int), DnsError>(
            (prefix, pos),
        ),
{
    assert(prefix + Seq::<AnswerV>::empty() =~= prefix);
}

/// Appending one question to a section appends that question's bytes.
pub proof fn lemma_questions_bytes_snoc(qs: Seq<QuestionV>, q: QuestionV)
    ensures
        spec_questions_bytes(qs.push(q)) == spec_questions_bytes(qs) + spec_question_bytes(q),
    decreases qs.len(),
{
    if qs.len() == 0 {
        assert(qs.push(q)[0] == q);
        assert(qs.push(q).skip(1) =~= Seq::<QuestionV>::empty());
        assert(spec_questions_bytes(qs.push(q)) == spec_question_bytes(q) + spec_questions_bytes(
            Seq::<QuestionV>::empty(),
        ));
        assert(spec_question_bytes(q) + Seq::<u8>::empty() =~= Seq::<u8>::empty()
            + spec_question_bytes(q));
    } else {
        assert(qs.push(q).skip(1) =~= qs.skip(1).push(q));
        lemma_questions_bytes_snoc(qs.skip(1), q);
        assert(qs.push(q)[0] == qs[0]);
        assert(spec_questions_bytes(qs.push(q)) == spec_question_bytes(qs[0]) + (
        spec_questions_bytes(qs.skip(1)) + spec_question_bytes(q)));
        assert(spec_question_bytes(qs[0]) + (spec_questions_bytes(qs.skip(1))
            + spec_question_bytes(q)) =~= (spec_question_bytes(qs[0]) + spec_questions_bytes(
            qs.skip(1),
        )) + spec_question_bytes(q));
    }
}

/// Appending one answer to a section appends that answer's bytes.
pub proof fn lemma_answers_bytes_snoc(ans: Seq<AnswerV>, a: AnswerV)
    ensures
        spec_answers_bytes(ans.push(a)) == spec_answers_bytes(ans) + spec_answer_bytes(a),
    decreases ans.len(),
{
    if ans.len() == 0 {
        assert(ans.push(a)[0] == a);
        assert(ans.push(a).skip(1) =~= Seq::<AnswerV>::empty());
        assert(spec_answers_bytes(ans.push(a)) == spec_answer_bytes(a) + spec_answers_bytes(
            Seq::<AnswerV>::empty(),
        ));
        assert(spec_answer_bytes(a) + Seq::<u8>::empty() =~= Seq::<u8>::empty() + spec_answer_bytes(
            a,
        ));
    } else {
        assert(ans.push(a).skip(1) =~= ans.skip(1).push(a));
        lemma_answers_bytes_snoc(ans.skip(1), a);
        assert(ans.push(a)[0] == ans[0]);
        assert(spec_answers_bytes(ans.push(a)) == spec_answer_bytes(ans[0]) + (spec_answers_bytes(
            ans.skip(1),
        ) + spec_answer_bytes(a)));
        assert(spec_answer_bytes(ans[0]) + (spec_answers_bytes(ans.skip(1)) + spec_answer_bytes(a))
            =~= (spec_answer_bytes(ans[0]) + spec_answers_bytes(ans.skip(1))) + spec_answer_bytes(
            a,
        ));
    }
}

/// Merging one more reply appends its questions.
pub proof fn lemma_concat_questions_snoc(rs: Seq<ReplyV>, x: ReplyV)
    ensures
        spec_concat_questions(rs.push(x)) == spec_concat_questions(rs) + x.questions,
    decreases rs.len(),
{
    if rs.len() == 0 {
        assert(rs.push(x)[0] == x);
        assert(rs.push(x).skip(1) =~= Seq::<ReplyV>::empty());
        assert(spec_concat_questions(rs.push(x)) == x.questions + spec_concat_questions(
            Seq::<ReplyV>::empty(),
        ));
        assert(x.questions + Seq::<QuestionV>::empty() =~= Seq::<QuestionV>::empty() + x.questions);
    } else {
        assert(rs.push(x).skip(1) =~= rs.skip(1).push(x));
        lemma_concat_questions_snoc(rs.skip(1), x);
        assert(rs.push(x)[0] == rs[0]);
        assert(spec_concat_questions(rs.push(x)) == rs[0].questions + (spec_concat_questions(
            rs.skip(1),
        ) + x.questions));
        assert(rs[0].questions + (spec_concat_questions(rs.skip(1)) + x.questions) =~= (
        rs[0].questions + spec_concat_questions(rs.skip(1))) + x.questions);
    }
}

/// Merging one more reply appends its answers.
pub proof fn lemma_concat_answers_snoc(rs: Seq<ReplyV>, x: ReplyV)
    ensures
        spec_concat_answers(rs.push(x)) == spec_concat_answers(rs) + x.answers,
    decreases rs.len(),
{
    if rs.len() == 0 {
        assert(rs.push(x)[0] == x);
        assert(rs.push(x).skip(1) =~= Seq::<ReplyV>::empty());
        assert(spec_concat_answers(rs.push(x)) == x.answers + spec_concat_answers(
            Seq::<ReplyV>::empty(),
        ));
        assert(x.answers + Seq::<AnswerV>::empty() =~= Seq::<AnswerV>::empty() + x.answers);
    } else {
        assert(rs.push(x).skip(1) =~= rs.skip(1).push(x));
        lemma_concat_answers_snoc(rs.skip(1), x);
        assert(rs.push(x)[0] == rs[0]);
        assert(spec_concat_answers(rs.push(x)) == rs[0].answers + (spec_concat_answers(rs.skip(1))
            + x.answers));
        assert(rs[0].answers + (spec_concat_answers(rs.skip(1)) + x.answers) =~= (rs[0].answers
            + spec_concat_answers(rs.skip(1))) + x.answers);
    }
}

/// A structurally valid question section: every question is.
pub open spec fn questions_wf(qs: Seq<QuestionV>) -> bool {
    forall|i: int| 0 <= i < qs.len() ==> question_wf(#[trigger] qs[i])
}

/// A structurally valid answer section: every record is.
pub open spec fn answers_wf(ans: Seq<AnswerV>) -> bool {
    forall|i: int| 0 <= i < ans.len() ==> answer_wf(#[trigger] ans[i])
}

/// The round-trip law for a question section: wherever the encodings of
/// well-formed questions sit whole in a buffer, back to back, decoding
/// that many questions there yields exactly those questions.
pub proof fn lemma_questions_round_trip(buf: Seq<u8>, pos: int, qs: Seq<QuestionV>)
    requires
        questions_wf(qs),
        0 <= pos,
        pos + spec_questions_bytes(qs).len() <= buf.len(),
        buf.subrange(pos, pos + spec_questions_bytes(qs).len() as int) == spec_questions_bytes(qs),
    ensures
        spec_decode_questions(buf, pos, qs.len() as int) == Ok::<(Seq<QuestionV>, int), DnsError>(
            (qs, pos + spec_questions_bytes(qs).len() as int),
        ),
    decreases qs.len(),
{
    if qs.len() == 0 {
        assert(qs =~= Seq::<QuestionV>::empty());
    } else {
        let qsb = spec_questions_bytes(qs);
        let qb0 = spec_question_bytes(qs[0]);
        let rest = qs.skip(1);
        let restb = spec_questions_bytes(rest);
        assert(qsb == qb0 + restb);
        assert forall|j: int| 0 <= j < qsb.len() implies buf[pos + j] == qsb[j] by {
            assert(buf.subrange(pos, pos + qsb.len() as int)[j] == buf[pos + j]);
        }
        assert(buf.subrange(pos, pos + qb0.len() as int) == qb0) by {
            let sub = buf.subrange(pos, pos + qb0.len() as int);
            assert forall|j: int| 0 <= j < qb0.len() implies sub[j] == qb0[j] by {
                assert(sub[j] == buf[pos + j]);
                assert(qsb[j] == qb0[j]);
            }
            assert(sub =~= qb0);
        }
        lemma_question_round_trip(buf, pos, qs[0]);
        let p = pos + qb0.len() as int;
        assert(buf.subrange(p, p + restb.len() as int) == restb) by {
            let sub = buf.subrange(p, p + restb.len() as int);
            assert forall|j: int| 0 <= j < restb.len() implies sub[j] == restb[j] by {
                assert(sub[j] == buf[p + j]);
                assert(qsb[qb0.len() + j] == restb[j]);
            }
            assert(sub =~= restb);
        }
        assert(questions_wf(rest));
        lemma_questions_round_trip(buf, p, rest);
        assert(seq![qs[0]] + rest =~= qs);
    }
}

/// The round-trip law for an answer section, as for questions.
pub proof fn lemma_records_round_trip(buf: Seq<u8>, pos: int, ans: Seq<AnswerV>)
    requires
        answers_wf(ans),
        0 <= pos,
        pos + spec_answers_bytes(ans).len() <= buf.len(),
        buf.subrange(pos, pos + spec_answers_bytes(ans).len() as int) == spec_answers_bytes(ans),
    ensures
        spec_decode_records(buf, pos, ans.len() as int) == Ok::<(Seq<AnswerV>, int), DnsError>(
            (ans, pos + spec_answers_bytes(ans).len() as int),
        ),
    decreases ans.len(),
{
    if ans.len() == 0 {
        assert(ans =~= Seq::<AnswerV>::empty());
    } else {
        let asb = spec_answers_bytes(ans);
        let ab0 = spec_answer_bytes(ans[0]);
        let rest = ans.skip(1);
        let restb = spec_answers_bytes(rest);
        assert(asb == ab0 + restb);
        assert forall|j: int| 0 <= j < asb.len() implies buf[pos + j] == asb[j] by {
            assert(buf.subrange(pos, pos + asb.len() as int)[j] == buf[pos + j]);
        }
        assert(buf.subrange(pos, pos + ab0.len() as int) == ab0) by {
            let sub = buf.subrange(pos, pos + ab0.len() as int);
            assert forall|j: int| 0 <= j < ab0.len() implies sub[j] == ab0[j] by {
                assert(sub[j] == buf[pos + j]);
                assert(asb[j] == ab0[j]);
            }
            assert(sub =~= ab0);
        }
        lemma_record_round_trip(buf, pos, ans[0]);
        let p = pos + ab0.len() as int;
        assert(buf.subrange(p, p + restb.len() as int) == restb) by {
            let sub = buf.subrange(p, p + restb.len() as int);
            assert forall|j: int| 0 <= j < restb.len() implies sub[j] == restb[j] by {
                assert(sub[j] == buf[p + j]);
                assert(asb[ab0.len() + j] == restb[j]);
            }
            assert(sub =~= restb);
        }
        assert(answers_wf(rest));
        lemma_records_round_trip(buf, p, rest);
        assert(seq![ans[0]] + rest =~= ans);
    }
}

/// The round-trip law for whole requests: decoding the encoding of a
/// structurally valid request reconstructs it exactly. The opcode/rcode
/// folding cannot be observed here, because a request value already
/// carries the canonical forms.
pub proof fn lemma_request_round_trip(r: RequestV)
    requires
        request_wf(r),
        questions_wf(r.questions),
    ensures
        spec_decode_request(spec_request_bytes(r)) == Ok::<RequestV, DnsError>(r),
{
    let buf = spec_request_bytes(r);
    let hb = spec_header_bytes(r.header);
    let qsb = spec_questions_bytes(r.questions);
    assert(buf.len() == 12 + qsb.len());
    assert forall|j: int| 0 <= j < 12 implies buf[j] == hb[j] by {}
    lemma_header_round_trip(r.header);
    assert(spec_parse_header(buf) == r.header);
    assert(buf.subrange(12, 12 + qsb.len() as int) == qsb) by {
        let sub = buf.subrange(12, 12 + qsb.len() as int);
        assert forall|j: int| 0 <= j < qsb.len() implies sub[j] == qsb[j] by {
            assert(sub[j] == buf[12 + j]);
        }
        assert(sub =~= qsb);
    }
    lemma_questions_round_trip(buf, 12, r.questions);
    assert(RequestV { header: r.header, questions: r.questions } == r);
}

/// The round-trip law for whole replies: decoding the encoding of a
/// structurally valid reply reconstructs it exactly. The unparsed
/// authority and additional sections cannot be observed here, because a
/// reply value never carries their bytes, only their counts.
pub proof fn lemma_reply_round_trip(r: ReplyV)
    requires
        reply_wf(r),
        questions_wf(r.questions),
        answers_wf(r.answers),
    ensures
        spec_decode_reply(spec_reply_bytes(r)) == Ok::<ReplyV, DnsError>(r),
{
    let buf = spec_reply_bytes(r);
    let hb = spec_header_bytes(r.header);
    let qsb = spec_questions_bytes(r.questions);
    let asb = spec_answers_bytes(r.answers);
    assert(buf.len() == 12 + qsb.len() + asb.len());
    assert forall|j: int| 0 <= j < 12 implies buf[j] == hb[j] by {
        assert((hb + qsb)[j] == hb[j]);
    }
    lemma_header_round_trip(r.header);
    assert(spec_parse_header(buf) == r.header);
    assert(buf.subrange(12, 12 + qsb.len() as int) == qsb) by {
        let sub = buf.subrange(12, 12 + qsb.len() as int);
        assert forall|j: int| 0 <= j < qsb.len() implies sub[j] == qsb[j] by {
            assert(sub[j] == buf[12 + j]);
            assert((hb + qsb)[12 + j] == qsb[j]);
        }
        assert(sub =~= qsb);
    }
    lemma_questions_round_trip(buf, 12, r.questions);
    let p = 12 + qsb.len() as int;
    assert(buf.subrange(p, p + asb.len() as int) == asb) by {
        let sub = buf.subrange(p, p + asb.len() as int);
        assert forall|j: int| 0 <= j < asb.len() implies sub[j] == asb[j] by {
            assert(sub[j] == buf[p + j]);
        }
        assert(sub =~= asb);
    }
    lemma_records_round_trip(buf, p, r.answers);
    assert(ReplyV { header: r.header, questions: r.questions, answers: r.answers } == r);
}

impl DnsRequest {
    /// Decodes a request from a whole datagram, as [`spec_decode_request`]
    /// describes; a successful decode is a structurally valid request.
    pub fn decode(buf: &[u8]) -> (r: Result<DnsRequest, DnsError>)
        ensures
            (match r {
                Ok(req) => spec_decode_request(buf@) == Ok::<RequestV, DnsError>(req@)
                    && request_wf(req@) && questions_wf(req@.questions),
                Err(e) => spec_decode_request(buf@) == Err::<RequestV, DnsError>(e),
            }),
    {
        if buf.len() < 12 {
            return Err(DnsError::MalformedHeader);
        }
        let header = match DnsHeader::from_bytes(&buf[0..12]) {
            Ok(h) => h,
            Err(_) => {
                return Err(DnsError::MalformedHeader);
            },
        };
        proof {
            let s = buf@.subrange(0, 12);
            assert(s[0] == buf@[0] && s[1] == buf@[1] && s[2] == buf@[2] && s[3] == buf@[3] && s[4]
                == buf@[4] && s[5] == buf@[5] && s[6] == buf@[6] && s[7] == buf@[7] && s[8]
                == buf@[8] && s[9] == buf@[9] && s[10] == buf@[10] && s[11] == buf@[11]);
            assert(spec_parse_header(s) == spec_parse_header(buf@));
        }
        if header.third_byte.query_response_ind {
            return Err(DnsError::WrongDirection);
        }
        let count = header.question_count;
        let mut questions: Vec<DnsQuestion> = Vec::new();
        let mut pos: usize = 12;
        proof {
            lemma_decode_questions_from_empty(buf@, 12, count as int);
            assert(questions_view(questions@) =~= Seq::<QuestionV>::empty());
        }
        for i in 0..count
            invariant
                buf@.len() >= 12,
                header == spec_parse_header(buf@),
                !header.third_byte.query_response_ind,
                count == header.question_count,
                questions@.len() == i,
                questions_wf(questions_view(questions@)),
                spec_decode_questions(buf@, 12, count as int) == spec_decode_questions_from(
                    buf@,
                    pos as int,
                    count - i,
                    questions_view(questions@),
                ),
        {
            match DnsQuestion::decode(buf, pos) {
                Ok((q, p)) => {
                    proof {
                        lemma_decode_questions_from_step(
                            buf@,
                            pos as int,
                            count - i,
                            questions_view(questions@),
                            q@,
                            p as int,
                        );
                        assert(questions_view(questions@.push(q)) =~= questions_view(
                            questions@,
                        ).push(q@));
                    }
                    questions.push(q);
                    pos = p;
                },
                Err(e) => {
                    return Err(e);
                },
            }
        }
        proof {
            lemma_decode_questions_from_done(buf@, pos as int, questions_view(questions@));
        }
        Ok(DnsRequest { header, questions })
    }

    /// Encodes this request as a datagram: the header's 12 bytes, then each
    /// question's bytes in order.
    pub fn encode(&self) -> (r: Vec<u8>)
        requires
            header_wf(self@.header),
        ensures
            r@ == spec_request_bytes(self@),
    {
        let mut out = self.header.to_bytes();
        let ghost qv = questions_view(self.questions@);
        proof {
            assert(qv.take(0) =~= Seq::<QuestionV>::empty());
            assert(out@ =~= spec_header_bytes(self.header) + spec_questions_bytes(qv.take(0)));
        }
        for i in 0..self.questions.len()
            invariant
                qv == questions_view(self.questions@),
                out@ == spec_header_bytes(self.header) + spec_questions_bytes(qv.take(i as int)),
        {
            let mut qb = self.questions[i].encode();
            proof {
                lemma_questions_bytes_snoc(qv.take(i as int), qv[i as int]);
                assert(qv.take(i + 1) =~= qv.take(i as int).push(qv[i as int]));
            }
            out.append(&mut qb);
            proof {
                assert(out@ =~= spec_header_bytes(self.header) + spec_questions_bytes(
                    qv.take(i + 1),
                ));
            }
        }
        proof {
            assert(qv.take(qv.len() as int) =~= qv);
        }
        out
    }

    /// Splits a request into one single-question request per question, each
    /// sharing the original id and header fields with the question count
    /// forced to one, the questions kept in order.
    pub fn split_questions(self) -> (r: Vec<DnsRequest>)
        ensures
            r@.len() == self@.questions.len(),
            forall|i: int|
                0 <= i < r@.len() ==> (#[trigger] r@[i])@.header == spec_with_question_count(
                    self@.header,
                    1,
                ) && r@[i]@.questions == seq![self@.questions[i]],
    {
        let mut r: Vec<DnsRequest> = Vec::new();
        for i in 0..self.questions.len()
            invariant
                r@.len() == i,
                forall|k: int|
                    0 <= k < i ==> (#[trigger] r@[k])@.header == spec_with_question_count(
                        self@.header,
                        1,
                    ) && r@[k]@.questions == questions_view(self.questions@).subrange(k, k + 1),
        {
            let question = self.questions[i].clone();
            let mut header = self.header;
            header.question_count = 1;
            let mut single: Vec<DnsQuestion> = Vec::new();
            single.push(question);
            proof {
                assert(questions_view(single@) =~= questions_view(self.questions@).subrange(
                    i as int,
                    i + 1,
                ));
            }
            r.push(DnsRequest { header, questions: single });
        }
        proof {
            assert forall|i: int| 0 <= i < r@.len() implies r@[i]@.questions == seq![
                self@.questions[i],
            ] by {
                assert(questions_view(self.questions@).subrange(i, i + 1) =~= seq![
                    self@.questions[i],
                ]);
            }
        }
        r
    }
}

impl DnsReply {
    /// Decodes a reply from a whole datagram, as [`spec_decode_reply`]
    /// describes; a successful decode is a structurally valid reply.
    pub fn decode(buf: &[u8]) -> (r: Result<DnsReply, DnsError>)
        ensures
            (match r {
                Ok(rep) => spec_decode_reply(buf@) == Ok::<ReplyV, DnsError>(rep@) && reply_wf(
                    rep@,
                ) && questions_wf(rep@.questions) && answers_wf(rep@.answers),
                Err(e) => spec_decode_reply(buf@) == Err::<ReplyV, DnsError>(e),
            }),
    {
        if buf.len() < 12 {
            return Err(DnsError::MalformedHeader);
        }
        let header = match DnsHeader::from_bytes(&buf[0..12]) {
            Ok(h) => h,
            Err(_) => {
                return Err(DnsError::MalformedHeader);
            },
        };
        proof {
            let s = buf@.subrange(0, 12);
            assert(s[0] == buf@[0] && s[1] == buf@[1] && s[2] == buf@[2] && s[3] == buf@[3] && s[4]
                == buf@[4] && s[5] == buf@[5] && s[6] == buf@[6] && s[7] == buf@[7] && s[8]
                == buf@[8] && s[9] == buf@[9] && s[10] == buf@[10] && s[11] == buf@[11]);
            assert(spec_parse_header(s) == spec_parse_header(buf@));
        }
        if !header.third_byte.query_response_ind {
            return Err(DnsError::WrongDirection);
        }
        let q_count = header.question_count;
        let mut questions: Vec<DnsQuestion> = Vec::new();
        let mut pos: usize = 12;
        proof {
            lemma_decode_questions_from_empty(buf@, 12, q_count as int);
            assert(questions_view(questions@) =~= Seq::<QuestionV>::empty());
        }
        for i in 0..q_count
            invariant
                buf@.len() >= 12,
                header == spec_parse_header(buf@),
                header.third_byte.query_response_ind,
                q_count == header.question_count,
                questions@.len() == i,
                questions_wf(questions_view(questions@)),
                spec_decode_questions(buf@, 12, q_count as int) == spec_decode_questions_from(
                    buf@,
                    pos as int,
                    q_count - i,
                    questions_view(questions@),
                ),
        {
            match DnsQuestion::decode(buf, pos) {
                Ok((q, p)) => {
                    proof {
                        lemma_decode_questions_from_step(
                            buf@,
                            pos as int,
                            q_count - i,
                            questions_view(questions@),
                            q@,
                            p as int,
                        );
                        assert(questions_view(questions@.push(q)) =~= questions_view(
                            questions@,
                        ).push(q@));
                    }
                    questions.push(q);
                    pos = p;
                },
                Err(e) => {
                    return Err(e);
                },
            }
        }
        proof {
            lemma_decode_questions_from_done(buf@, pos as int, questions_view(questions@));
        }
        let a_count = header.answer_record_count;
        let mut answers: Vec<DnsAnswer> = Vec::new();
        let ghost q_end = pos as int;
        proof {
            lemma_decode_records_from_empty(buf@, q_end, a_count as int);
            assert(answers_view(answers@) =~= Seq::<AnswerV>::empty());
        }
        for i in 0..a_count
            invariant
                buf@.len() >= 12,
                header == spec_parse_header(buf@),
                header.third_byte.query_response_ind,
                a_count == header.answer_record_count,
                q_count == header.question_count,
                questions@.len() == q_count,
                questions_wf(questions_view(questions@)),
                spec_decode_questions(buf@, 12, q_count as int) == Ok::<
                    (Seq<QuestionV>, int),
                    DnsError,
                >((questions_view(questions@), q_end)),
                answers@.len() == i,
                answers_wf(answers_view(answers@)),
                spec_decode_records(buf@, q_end, a_count as int) == spec_decode_records_from(
                    buf@,
                    pos as int,
                    a_count - i,
                    answers_view(answers@),
                ),
        {
            match DnsAnswer::decode(buf, pos) {
                Ok((a, p)) => {
                    proof {
                        lemma_decode_records_from_step(
                            buf@,
                            pos as int,
                            a_count - i,
                            answers_view(answers@),
                            a@,
                            p as int,
                        );
                        assert(answers_view(answers@.push(a)) =~= answers_view(answers@).push(a@));
                    }
                    answers.push(a);
                    pos = p;
                },
                Err(e) => {
                    return Err(e);
                },
            }
        }
        proof {
            lemma_decode_records_from_done(buf@, pos as int, answers_view(answers@));
        }
        Ok(DnsReply { header, questions, answers })
    }

    /// Encodes this reply as a datagram: the header's 12 bytes, each
    /// question's bytes, then each answer's bytes, in order. Nothing is
    /// emitted for the authority and additional sections, whatever their
    /// counts say.
    pub fn encode(&self) -> (r: Vec<u8>)
        requires
            header_wf(self@.header),
        ensures
            r@ == spec_reply_bytes(self@),
    {
        let mut out = self.header.to_bytes();
        let ghost qv = questions_view(self.questions@);
        let ghost av = answers_view(self.answers@);
        proof {
            assert(qv.take(0) =~= Seq::<QuestionV>::empty());
            assert(out@ =~= spec_header_bytes(self.header) + spec_questions_bytes(qv.take(0)));
        }
        for i in 0..self.questions.len()
            invariant
                qv == questions_view(self.questions@),
                out@ == spec_header_bytes(self.header) + spec_questions_bytes(qv.take(i as int)),
        {
            let mut qb = self.questions[i].encode();
            proof {
                lemma_questions_bytes_snoc(qv.take(i as int), qv[i as int]);
                assert(qv.take(i + 1) =~= qv.take(i as int).push(qv[i as int]));
            }
            out.append(&mut qb);
            proof {
                assert(out@ =~= spec_header_bytes(self.header) + spec_questions_bytes(
                    qv.take(i + 1),
                ));
            }
        }
        proof {
            assert(qv.take(qv.len() as int) =~= qv);
            assert(av.take(0) =~= Seq::<AnswerV>::empty());
            assert(out@ =~= spec_header_bytes(self.header) + spec_questions_bytes(qv)
                + spec_answers_bytes(av.take(0)));
        }
        for i in 0..self.answers.len()
            invariant
                qv == questions_view(self.questions@),
                av == answers_view(self.answers@),
                out@ == spec_header_bytes(self.header) + spec_questions_bytes(qv)
                    + spec_answers_bytes(av.take(i as int)),
        {
            let mut ab = self.answers[i].encode();
            proof {
                lemma_answers_bytes_snoc(av.take(i as int), av[i as int]);
                assert(av.take(i + 1) =~= av.take(i as int).push(av[i as int]));
            }
            out.append(&mut ab);
            proof {
                assert(out@ =~= spec_header_bytes(self.header) + spec_questions_bytes(qv)
                    + spec_answers_bytes(av.take(i + 1)));
            }
        }
        proof {
            assert(av.take(av.len() as int) =~= av);
        }
        out
    }

    /// Merges single-question replies into one composite reply: the first
    /// reply's header is the base, both entry counts are overwritten with
    /// the number of replies merged, and all questions then all answers are
    /// concatenated in input order. The caller supplies at least one reply;
    /// that each reply answers its one question is assumed, not verified,
    /// and nothing is de-duplicated.
    pub fn merge_replies(replies: &[DnsReply]) -> (r: DnsReply)
        requires
            replies@.len() >= 1,
            replies@.len() <= u16::MAX,
        ensures
            r@.header == spec_merged_header(replies@[0]@.header, replies@.len() as u16),
            r@.questions == spec_concat_questions(replies_view(replies@)),
            r@.answers == spec_concat_answers(replies_view(replies@)),
    {
        let ghost rv = replies_view(replies@);
        let mut header = replies[0].header;
        header.question_count = replies.len() as u16;
        header.answer_record_count = replies.len() as u16;
        let mut questions: Vec<DnsQuestion> = Vec::new();
        let mut answers: Vec<DnsAnswer> = Vec::new();
        proof {
            assert(rv.take(0) =~= Seq::<ReplyV>::empty());
            assert(questions_view(questions@) =~= spec_concat_questions(rv.take(0)));
            assert(answers_view(answers@) =~= spec_concat_answers(rv.take(0)));
        }
        for i in 0..replies.len()
            invariant
                rv == replies_view(replies@),
                replies@.len() >= 1,
                questions_view(questions@) == spec_concat_questions(rv.take(i as int)),
                answers_view(answers@) == spec_concat_answers(rv.take(i as int)),
        {
            let reply = &replies[i];
            let ghost q_base = questions_view(questions@);
            for j in 0..reply.questions.len()
                invariant
                    rv == replies_view(replies@),
                    reply == &replies@[i as int],
                    0 <= i < replies@.len(),
                    q_base == spec_concat_questions(rv.take(i as int)),
                    questions_view(questions@) == q_base + rv[i as int].questions.take(j as int),
            {
                let q = reply.questions[j].clone();
                proof {
                    assert(rv[i as int].questions[j as int] == reply.questions@[j as int]@);
                    assert(questions_view(questions@.push(q)) =~= questions_view(questions@).push(
                        q@,
                    ));
                    assert(rv[i as int].questions.take(j + 1) =~= rv[i as int].questions.take(
                        j as int,
                    ).push(rv[i as int].questions[j as int]));
                    assert(q_base + rv[i as int].questions.take(j + 1) =~= (q_base + rv[
                        i as int].questions.take(j as int)).push(rv[i as int].questions[j as int]));
                }
                questions.push(q);
            }
            let ghost a_base = answers_view(answers@);
            for j in 0..reply.answers.len()
                invariant
                    rv == replies_view(replies@),
                    reply == &replies@[i as int],
                    0 <= i < replies@.len(),
                    a_base == spec_concat_answers(rv.take(i as int)),
                    answers_view(answers@) == a_base + rv[i as int].answers.take(j as int),
            {
                let a = reply.answers[j].clone();
                proof {
                    assert(rv[i as int].answers[j as int] == reply.answers@[j as int]@);
                    assert(answers_view(answers@.push(a)) =~= answers_view(answers@).push(a@));
                    assert(rv[i as int].answers.take(j + 1) =~= rv[i as int].answers.take(
                        j as int,
                    ).push(rv[i as int].answers[j as int]));
                    assert(a_base + rv[i as int].answers.take(j + 1) =~= (a_base + rv[
                        i as int].answers.take(j as int)).push(rv[i as int].answers[j as int]));
                }
                answers.push(a);
            }
            proof {
                lemma_concat_questions_snoc(rv.take(i as int), rv[i as int]);
                lemma_concat_answers_snoc(rv.take(i as int), rv[i as int]);
                assert(rv.take(i + 1) =~= rv.take(i as int).push(rv[i as int]));
                assert(rv[i as int].questions.take(rv[i as int].questions.len() as int) =~= rv[
                    i as int].questions);
                assert(rv[i as int].answers.take(rv[i as int].answers.len() as int) =~= rv[
                    i as int].answers);
            }
        }
        proof {
            assert(rv.take(rv.len() as int) =~= rv);
        }
        DnsReply { header, questions, answers }
    }

    /// Synthesizes a local reply to a request without consulting any record
    /// store: the header transformed as [`spec_synth_header`] describes,
    /// the questions echoed, and one answer per question built from the
    /// question's name, type and class with the caller-supplied placeholder
    /// lifetime and record data. A real deployment replaces the
    /// placeholders with an actual lookup, which is the transport layer's
    /// business, not the codec's.
    pub fn synthesize_reply(dns_request: DnsRequest, ttl: u32, r_data: Vec<u8>) -> (r: DnsReply)
        requires
            r_data@.len() <= u16::MAX,
        ensures
            r@.header == spec_synth_header(dns_request@.header),
            r@.questions == dns_request@.questions,
            r@.answers.len() == dns_request@.questions.len(),
            forall|i: int|
                0 <= i < r@.answers.len() ==> #[trigger] r@.answers[i] == spec_synth_answer(
                    dns_request@.questions[i],
                    ttl,
                    r_data@,
                ),
            request_wf(dns_request@) ==> reply_wf(r@),
    {
        let mut header = dns_request.header;
        let questions = dns_request.questions;
        header.third_byte.query_response_ind = true;
        header.third_byte.authoritative_answer = false;
        header.third_byte.truncation = false;
        let response_code = match header.third_byte.operation_code {
            OpCode::Query => RCode::NoError,
            _ => RCode::NotImplemented,
        };
        header.fourth_byte.recursion_available = false;
        header.fourth_byte.reserved = 0;
        header.fourth_byte.response_code = response_code;
        header.answer_record_count = header.question_count;
        header.authority_record_count = 0;
        header.additional_record_count = 0;
        let mut answers: Vec<DnsAnswer> = Vec::new();
        let rd_length = r_data.len() as u16;
        for i in 0..questions.len()
            invariant
                rd_length == r_data@.len() as u16,
                answers@.len() == i,
                forall|k: int|
                    0 <= k < i ==> #[trigger] answers@[k]@ == spec_synth_answer(
                        questions_view(questions@)[k],
                        ttl,
                        r_data@,
                    ),
        {
            let mut answer = DnsAnswer::from_question(questions[i].clone());
            answer.ttl = ttl;
            answer.rd_length = rd_length;
            answer.r_data = crate::dns_question::clone_bytes(&r_data);
            answers.push(answer);
        }
        proof {
            assert forall|i: int| 0 <= i < answers@.len() implies #[trigger] answers_view(
                answers@,
            )[i] == spec_synth_answer(questions_view(questions@)[i], ttl, r_data@) by {
                assert(answers_view(answers@)[i] == answers@[i]@);
            }
        }
        DnsReply { header, questions, answers }
    }
}

} // verus!
