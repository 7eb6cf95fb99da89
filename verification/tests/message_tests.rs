//! Tests of whole-message assembly and the resolver-proxy logic: request
//! and reply decoding, splitting, merging and local synthesis.

use dns_codec::dns::{DnsReply, DnsRequest};
use dns_codec::dns_answer::DnsAnswer;
use dns_codec::dns_class::QClass;
use dns_codec::dns_header::{DnsHeader, DnsHeaderFourthByte, DnsHeaderThirdByte, OpCode, RCode};
use dns_codec::dns_label::DnsLabel;
use dns_codec::dns_question::DnsQuestion;
use dns_codec::dns_type::QType;
use dns_codec::error::DnsError;

fn name_from(domain: &str) -> Vec<DnsLabel> {
    domain
        .split('.')
        .map(|s| DnsLabel {
            length: s.len() as u8,
            label: s.as_bytes().to_vec(),
        })
        .collect()
}

fn question(domain: &str, q_type: QType, q_class: QClass) -> DnsQuestion {
    DnsQuestion {
        q_name: name_from(domain),
        q_type,
        q_class,
    }
}

fn query_header(id: u16, question_count: u16) -> DnsHeader {
    DnsHeader {
        packet_id: id,
        third_byte: DnsHeaderThirdByte {
            query_response_ind: false,
            operation_code: OpCode::Query,
            authoritative_answer: false,
            truncation: false,
            recursion_desired: true,
        },
        fourth_byte: DnsHeaderFourthByte {
            recursion_available: false,
            reserved: 0,
            response_code: RCode::NoError,
        },
        question_count,
        answer_record_count: 0,
        authority_record_count: 0,
        additional_record_count: 0,
    }
}

fn single_question_reply(id: u16, domain: &str) -> DnsReply {
    let mut header = query_header(id, 1);
    header.third_byte.query_response_ind = true;
    header.answer_record_count = 1;
    DnsReply {
        header,
        questions: vec![question(domain, QType::A, QClass::In)],
        answers: vec![DnsAnswer {
            r_name: name_from(domain),
            r_type: QType::A,
            r_class: QClass::In,
            ttl: 60,
            rd_length: 4,
            r_data: vec![10, 0, 0, 1],
        }],
    }
}

#[test]
fn request_round_trips_through_bytes() {
    let request = DnsRequest {
        header: query_header(0x1234, 2),
        questions: vec![
            question("one.example.com", QType::A, QClass::In),
            question("two.example.com", QType::Mx, QClass::In),
        ],
    };
    let bytes = request.encode();
    let decoded = DnsRequest::decode(&bytes).unwrap();
    assert_eq!(decoded, request);
}

#[test]
fn reply_round_trips_through_bytes() {
    let reply = single_question_reply(0x77AA, "example.com");
    let bytes = reply.encode();
    let decoded = DnsReply::decode(&bytes).unwrap();
    assert_eq!(decoded, reply);
}

#[test]
fn request_decode_rejects_short_and_response_buffers() {
    assert_eq!(
        DnsRequest::decode(&[0u8; 5]),
        Err(DnsError::MalformedHeader)
    );
    // A reply's bytes decoded as a request contradict the direction.
    let reply = single_question_reply(7, "example.com");
    let bytes = reply.encode();
    assert_eq!(DnsRequest::decode(&bytes), Err(DnsError::WrongDirection));
}

#[test]
fn reply_decode_rejects_request_buffers() {
    let request = DnsRequest {
        header: query_header(7, 1),
        questions: vec![question("example.com", QType::A, QClass::In)],
    };
    let bytes = request.encode();
    assert_eq!(DnsReply::decode(&bytes), Err(DnsError::WrongDirection));
}

#[test]
fn header_claiming_questions_against_bare_header_is_exhausted() {
    // A 12-byte buffer whose header claims five questions but carries no
    // question bytes at all: the decode fails cleanly, it does not panic
    // or read out of bounds.
    let header = query_header(0x0B0D, 5);
    let bytes = header.to_bytes();
    assert_eq!(bytes.len(), 12);
    assert_eq!(DnsRequest::decode(&bytes), Err(DnsError::UnexpectedEof));
}

#[test]
fn split_questions_yields_one_request_per_question() {
    let request = DnsRequest {
        header: query_header(0xBEEF, 3),
        questions: vec![
            question("one.example.com", QType::A, QClass::In),
            question("two.example.com", QType::Ns, QClass::Ch),
            question("three.example.com", QType::Txt, QClass::Hs),
        ],
    };
    let originals = request.questions.clone();
    let split = request.split_questions();
    assert_eq!(split.len(), 3);
    for (i, sub) in split.iter().enumerate() {
        assert_eq!(sub.header.packet_id, 0xBEEF);
        assert_eq!(sub.header.question_count, 1);
        assert_eq!(sub.questions.len(), 1);
        assert_eq!(sub.questions[0], originals[i]);
    }
}

#[test]
fn merge_replies_concatenates_three_single_question_replies() {
    let a = single_question_reply(0x42, "one.example.com");
    let b = single_question_reply(0x42, "two.example.com");
    let c = single_question_reply(0x42, "three.example.com");
    let merged = DnsReply::merge_replies(&[a.clone(), b.clone(), c.clone()]);
    assert_eq!(merged.header.packet_id, 0x42);
    assert_eq!(merged.header.question_count, 3);
    assert_eq!(merged.header.answer_record_count, 3);
    assert_eq!(
        merged.questions,
        vec![
            a.questions[0].clone(),
            b.questions[0].clone(),
            c.questions[0].clone()
        ]
    );
    assert_eq!(
        merged.answers,
        vec![
            a.answers[0].clone(),
            b.answers[0].clone(),
            c.answers[0].clone()
        ]
    );
}

#[test]
fn synthesize_reply_answers_each_question_in_place() {
    let request = DnsRequest {
        header: query_header(0x5150, 1),
        questions: vec![question("example.com", QType::A, QClass::In)],
    };
    let reply = DnsReply::synthesize_reply(request, 60, vec![45, 87, 98, 65]);
    assert_eq!(reply.header.answer_record_count, 1);
    assert_eq!(reply.answers.len(), 1);
    assert!(reply.header.third_byte.query_response_ind);
    assert_eq!(reply.header.fourth_byte.response_code, RCode::NoError);
    assert_eq!(reply.answers[0].r_name, name_from("example.com"));
    assert_eq!(reply.answers[0].r_type, QType::A);
    assert_eq!(reply.answers[0].r_class, QClass::In);
    assert_eq!(reply.answers[0].ttl, 60);
    assert_eq!(reply.answers[0].rd_length, 4);
    assert_eq!(reply.answers[0].r_data, vec![45, 87, 98, 65]);
    assert_eq!(reply.questions.len(), 1);
}

#[test]
fn synthesize_reply_refuses_non_query_opcodes() {
    let mut header = query_header(0x5151, 1);
    header.third_byte.operation_code = OpCode::Status;
    let request = DnsRequest {
        header,
        questions: vec![question("example.com", QType::A, QClass::In)],
    };
    let reply = DnsReply::synthesize_reply(request, 60, vec![45, 87, 98, 65]);
    assert_eq!(reply.header.fourth_byte.response_code, RCode::NotImplemented);
    assert_eq!(reply.header.third_byte.operation_code, OpCode::Status);
}

#[test]
fn synthesize_reply_clears_transient_header_fields() {
    let mut header = query_header(0x5152, 1);
    header.third_byte.authoritative_answer = true;
    header.third_byte.truncation = true;
    header.fourth_byte.recursion_available = true;
    header.fourth_byte.reserved = 5;
    header.authority_record_count = 9;
    header.additional_record_count = 9;
    let request = DnsRequest {
        header,
        questions: vec![question("example.com", QType::A, QClass::In)],
    };
    let reply = DnsReply::synthesize_reply(request, 1, vec![0, 0, 0, 0]);
    assert!(!reply.header.third_byte.authoritative_answer);
    assert!(!reply.header.third_byte.truncation);
    assert!(!reply.header.fourth_byte.recursion_available);
    assert_eq!(reply.header.fourth_byte.reserved, 0);
    assert_eq!(reply.header.authority_record_count, 0);
    assert_eq!(reply.header.additional_record_count, 0);
}

#[test]
fn split_then_merge_preserves_question_order() {
    let request = DnsRequest {
        header: query_header(0x2222, 2),
        questions: vec![
            question("one.example.com", QType::A, QClass::In),
            question("two.example.com", QType::A, QClass::In),
        ],
    };
    let expected = request.questions.clone();
    let subs = request.split_questions();
    let replies: Vec<DnsReply> = subs
        .into_iter()
        .map(|sub| DnsReply::synthesize_reply(sub, 60, vec![1, 2, 3, 4]))
        .collect();
    let merged = DnsReply::merge_replies(&replies);
    assert_eq!(merged.header.question_count, 2);
    assert_eq!(merged.header.answer_record_count, 2);
    assert_eq!(merged.questions, expected);
    assert_eq!(merged.answers.len(), 2);
    assert_eq!(merged.answers[0].r_name, expected[0].q_name);
    assert_eq!(merged.answers[1].r_name, expected[1].q_name);
}
