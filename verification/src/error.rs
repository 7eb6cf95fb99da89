use vstd::prelude::*;

verus! {

/// The ways decoding a DNS message can fail. Decode-time errors are local to
/// the offending message: a caller drops or rejects the datagram, no partial
/// recovery is attempted. Encoding is total and has no error path.
#[derive(Debug, Clone, Copy, PartialEq, Eq, Structural)]
pub enum DnsError {
    /// The header was not handed exactly 12 bytes.
    MalformedHeader,
    /// The buffer ended in the middle of a field.
    UnexpectedEof,
    /// A label held bytes that are not valid UTF-8.
    InvalidLabelEncoding,
    /// A length byte with top bits `01` or `10`, which no name form uses.
    MalformedName,
    /// A compression pointer that leaves the buffer, or a pointer chain
    /// longer than the hop bound (which a self-referential name would be).
    PointerLoopOrOutOfRange,
    /// A 16-bit type value outside the recognized table.
    UnknownQType,
    /// A 16-bit class value outside the recognized table.
    UnknownQClass,
    /// A message whose query/response flag contradicts the direction the
    /// caller asked to decode.
    WrongDirection,
}

} // verus!
