//! A verified codec for the DNS wire format of RFC 1035 section 4, together
//! with the pure resolver-proxy logic of a small forwarding resolver: packing
//! and unpacking of the 12-byte header, domain-name label encoding with
//! message-compression pointer resolution, question and resource-record
//! parsing, whole-message assembly, and the request-splitting and
//! reply-merging steps used to fan a multi-question query out into
//! single-question sub-queries and reassemble a composite reply.
//!
//! Sockets, argument handling and the receive loop are left to the caller;
//! every function here is a pure transformation on owned byte buffers.

pub mod dns;
pub mod dns_answer;
pub mod dns_class;
pub mod dns_header;
pub mod dns_label;
pub mod dns_question;
pub mod dns_type;
pub mod error;
pub mod utf8_check;
pub mod wire;
