//! Tests of the field-level codecs: header bytes, type and class tables,
//! and name encoding with and without compression pointers.

use dns_codec::dns_answer::DnsAnswer;
use dns_codec::dns_class::QClass;
use dns_codec::dns_header::{DnsHeader, DnsHeaderFourthByte, DnsHeaderThirdByte, OpCode, RCode};
use dns_codec::dns_label::{decode_name, encode_name, DnsLabel};
use dns_codec::dns_question::DnsQuestion;
use dns_codec::dns_type::QType;
use dns_codec::error::DnsError;

fn name_from(domain: &str) -> Vec<DnsLabel> {
    domain
        .split('.')
        .map(|s| DnsLabel {
            length: s.len() as u8,
            label: s.as_bytes().to_vec(),
        })
        .collect()
}

fn name_bytes_from(domain: &str) -> Vec<u8> {
    let mut bytes = Vec::new();
    for s in domain.split(|x| x == '.') {
        bytes.push(s.len() as u8);
        bytes.extend(s.as_bytes());
    }
    bytes.push(0);
    bytes
}

#[test]
fn test_dns_header_from_bytes() {
    let bytes: [u8; 12] = [
        0b1011, 0b1101, 0b00001100, 0b10100010, 0b11, 0b10101010, 0b0, 0b11011, 0b1101, 0b111,
        0b11111111, 0b11111111,
    ];

    let dns_header: DnsHeader = DnsHeader::from_bytes(&bytes[..]).unwrap();

    let expected_third_byte = DnsHeaderThirdByte {
        query_response_ind: false,
        operation_code: OpCode::Iquery,
        authoritative_answer: true,
        truncation: false,
        recursion_desired: false,
    };
    let expected_fourth_byte = DnsHeaderFourthByte {
        recursion_available: true,
        reserved: 0b010,
        response_code: RCode::ServerFailure,
    };

    assert_eq!(
        dns_header,
        DnsHeader {
            packet_id: 0b101100001101,
            third_byte: expected_third_byte,
            fourth_byte: expected_fourth_byte,
            question_count: 0b1110101010,
            answer_record_count: 0b11011,
            authority_record_count: 0b110100000111,
            additional_record_count: 0b1111111111111111,
        }
    );
    let reconstructed_bytes: Vec<u8> = dns_header.to_bytes();
    assert_eq!(reconstructed_bytes, bytes.to_vec());
}

#[test]
fn test_dns_question_from_bytes() {
    let domain_name = "query.example.com";

    let mut bytes = Vec::new();
    for s in domain_name.split(|x| x == '.') {
        bytes.push(s.len() as u8);
        bytes.extend(s.as_bytes());
    }
    bytes.push(0);

    bytes.extend([0b0, 0b00000111]);
    bytes.extend([0b0, 0b00000100]);

    let (dns_question, _) = DnsQuestion::decode(&bytes, 0).unwrap();

    assert_eq!(
        dns_question,
        DnsQuestion {
            q_name: vec![
                DnsLabel {
                    length: 5,
                    label: b"query".to_vec()
                },
                DnsLabel {
                    length: 7,
                    label: b"example".to_vec()
                },
                DnsLabel {
                    length: 3,
                    label: b"com".to_vec()
                }
            ],
            q_type: QType::Mb,
            q_class: QClass::Hs
        }
    );
    let reconstructed_bytes: Vec<u8> = dns_question.encode();
    assert_eq!(reconstructed_bytes, bytes);
}

#[test]
fn test_dns_answer_from_bytes() {
    let domain_name = "query.example.com";

    let mut bytes = Vec::new();
    for s in domain_name.split(|x| x == '.') {
        bytes.push(s.len() as u8);
        bytes.extend(s.as_bytes());
    }
    bytes.push(0);

    bytes.extend([0b0, 0b00000111]);
    bytes.extend([0b0, 0b00000100]);

    bytes.extend([0b0, 0b0, 0b101, 0b01110111]);
    bytes.extend([0b0, 0b100]);
    bytes.extend([7, 45, 32, 56]);

    let (dns_answer, _) = DnsAnswer::decode(&bytes, 0).unwrap();

    assert_eq!(
        dns_answer,
        DnsAnswer {
            r_name: vec![
                DnsLabel {
                    length: 5,
                    label: b"query".to_vec()
                },
                DnsLabel {
                    length: 7,
                    label: b"example".to_vec()
                },
                DnsLabel {
                    length: 3,
                    label: b"com".to_vec()
                }
            ],
            r_type: QType::Mb,
            r_class: QClass::Hs,
            ttl: 0b10101110111,
            rd_length: 4,
            r_data: vec![7, 45, 32, 56]
        }
    );
    let reconstructed_bytes: Vec<u8> = dns_answer.encode();
    assert_eq!(reconstructed_bytes, bytes);
}

#[test]
fn header_reserved_opcode_and_rcode_fold_to_canonical_values() {
    // Opcode 9 (bits 6-3) and rcode 12 both sit in the reserved ranges;
    // decoding folds them and re-encoding emits the canonical 3 and 6.
    let bytes: [u8; 12] = [0, 1, 0b0100_1000, 0b0000_1100, 0, 0, 0, 0, 0, 0, 0, 0];
    let header = DnsHeader::from_bytes(&bytes[..]).unwrap();
    assert_eq!(header.third_byte.operation_code, OpCode::Reserved);
    assert_eq!(header.fourth_byte.response_code, RCode::Reserved);
    let reencoded = header.to_bytes();
    assert_eq!(reencoded[2], 0b0001_1000);
    assert_eq!(reencoded[3], 0b0000_0110);
}

#[test]
fn header_wrong_length_is_malformed() {
    assert_eq!(
        DnsHeader::from_bytes(&[0u8; 11]),
        Err(DnsError::MalformedHeader)
    );
    assert_eq!(
        DnsHeader::from_bytes(&[0u8; 13]),
        Err(DnsError::MalformedHeader)
    );
}

#[test]
fn qtype_table_round_trips_and_rejects() {
    for v in (1u16..=16).chain([252, 253, 254, 255]) {
        let t = QType::from_u16(v).unwrap();
        assert_eq!(t.to_u16(), v);
    }
    assert_eq!(QType::from_u16(0), Err(DnsError::UnknownQType));
    assert_eq!(QType::from_u16(17), Err(DnsError::UnknownQType));
    assert_eq!(QType::from_u16(251), Err(DnsError::UnknownQType));
    assert_eq!(QType::from_u16(7), Ok(QType::Mb));
}

#[test]
fn qclass_table_round_trips_and_rejects() {
    for v in (1u16..=4).chain([255]) {
        let c = QClass::from_u16(v).unwrap();
        assert_eq!(c.to_u16(), v);
    }
    assert_eq!(QClass::from_u16(0), Err(DnsError::UnknownQClass));
    assert_eq!(QClass::from_u16(5), Err(DnsError::UnknownQClass));
    assert_eq!(QClass::from_u16(1), Ok(QClass::In));
}

#[test]
fn name_round_trips_without_compression() {
    let name = name_from("query.example.com");
    let bytes = encode_name(&name);
    assert_eq!(bytes, name_bytes_from("query.example.com"));
    let (decoded, end) = decode_name(&bytes, 0).unwrap();
    assert_eq!(decoded, name);
    assert_eq!(end, bytes.len());
}

#[test]
fn name_with_multibyte_label_round_trips() {
    let label = "caf\u{e9}";
    let name = vec![DnsLabel {
        length: label.len() as u8,
        label: label.as_bytes().to_vec(),
    }];
    let bytes = encode_name(&name);
    let (decoded, end) = decode_name(&bytes, 0).unwrap();
    assert_eq!(decoded, name);
    assert_eq!(end, bytes.len());
}

#[test]
fn pointer_location_decodes_to_the_same_labels_as_its_target() {
    // The labels of "query"."example"."com" sit at offset 0; elsewhere in
    // the buffer a pointer 0xC0 0x00 refers back to them.
    let mut buf = name_bytes_from("query.example.com");
    let pointer_at = buf.len();
    buf.push(0xC0);
    buf.push(0x00);
    let (at_zero, end_zero) = decode_name(&buf, 0).unwrap();
    let (at_pointer, end_pointer) = decode_name(&buf, pointer_at).unwrap();
    assert_eq!(at_pointer, at_zero);
    assert_eq!(at_pointer, name_from("query.example.com"));
    assert_eq!(end_zero, pointer_at);
    // The cursor resumes right after the two pointer bytes.
    assert_eq!(end_pointer, pointer_at + 2);
}

#[test]
fn name_with_pointer_suffix_prepends_its_own_labels() {
    // "mail" followed by a pointer to "example"."com" at offset 6.
    let mut buf = vec![0u8; 6];
    let tail_start = buf.len();
    buf.extend(name_bytes_from("example.com"));
    let name_start = buf.len();
    buf.push(4);
    buf.extend(b"mail");
    buf.push(0xC0);
    buf.push(tail_start as u8);
    let (decoded, end) = decode_name(&buf, name_start).unwrap();
    assert_eq!(decoded, name_from("mail.example.com"));
    assert_eq!(end, buf.len());
}

#[test]
fn name_errors_are_reported_by_kind() {
    // The buffer ends in the middle of a label.
    assert_eq!(decode_name(&[3, b'a'], 0), Err(DnsError::UnexpectedEof));
    // The buffer ends before any length byte.
    assert_eq!(decode_name(&[], 0), Err(DnsError::UnexpectedEof));
    // A label whose bytes are not valid UTF-8.
    assert_eq!(
        decode_name(&[1, 0xFF, 0], 0),
        Err(DnsError::InvalidLabelEncoding)
    );
    // A length byte with top bits 01, which no name form uses.
    assert_eq!(decode_name(&[0x40, 0], 0), Err(DnsError::MalformedName));
    // A length byte with top bits 10.
    assert_eq!(decode_name(&[0x80, 0], 0), Err(DnsError::MalformedName));
    // A pointer whose offset lies past the end of the buffer.
    assert_eq!(
        decode_name(&[0xC0, 0x10], 0),
        Err(DnsError::PointerLoopOrOutOfRange)
    );
    // A pointer that points at itself loops until the hop bound.
    assert_eq!(
        decode_name(&[0xC0, 0x00], 0),
        Err(DnsError::PointerLoopOrOutOfRange)
    );
}

#[test]
fn question_rejects_unknown_type_and_class() {
    let mut bytes = name_bytes_from("a.b");
    bytes.extend([0, 17]);
    bytes.extend([0, 1]);
    assert_eq!(
        DnsQuestion::decode(&bytes, 0),
        Err(DnsError::UnknownQType)
    );

    let mut bytes = name_bytes_from("a.b");
    bytes.extend([0, 1]);
    bytes.extend([0, 5]);
    assert_eq!(
        DnsQuestion::decode(&bytes, 0),
        Err(DnsError::UnknownQClass)
    );
}

#[test]
fn question_truncated_after_name_is_exhausted() {
    let mut bytes = name_bytes_from("a.b");
    bytes.push(0);
    assert_eq!(
        DnsQuestion::decode(&bytes, 0),
        Err(DnsError::UnexpectedEof)
    );
}

#[test]
fn answer_truncated_record_data_is_exhausted() {
    let mut bytes = name_bytes_from("a.b");
    bytes.extend([0, 1]); // type A
    bytes.extend([0, 1]); // class IN
    bytes.extend([0, 0, 0, 60]); // ttl
    bytes.extend([0, 4]); // rdLength 4
    bytes.extend([1, 2, 3]); // only 3 bytes of data
    assert_eq!(DnsAnswer::decode(&bytes, 0), Err(DnsError::UnexpectedEof));
}
