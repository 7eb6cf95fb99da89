//! The TYPE / QTYPE table of RFC 1035 section 3.2.2. This is a superset of
//! TYPE, used here for both questions and answers even though the values
//! 252-255 are specific to questions.

use crate::error::DnsError;
use vstd::prelude::*;

verus! {

/// A record type or question type, one variant per recognized 16-bit value.
#[derive(Debug, Clone, Copy, PartialEq, Eq, Structural)]
pub enum QType {
    /// 1: a host address
    A,
    /// 2: an authoritative name server
    Ns,
    /// 3: a mail destination (obsolete - use Mx)
    Md,
    /// 4: a mail forwarder (obsolete - use Mx)
    Mf,
    /// 5: the canonical name for an alias
    Cname,
    /// 6: marks the start of a zone of authority
    Soa,
    /// 7: a mailbox domain name (experimental)
    Mb,
    /// 8: a mail group member (experimental)
    Mg,
    /// 9: a mail rename domain name (experimental)
    Mr,
    /// 10: a null record (experimental)
    Null,
    /// 11: a well known service description
    Wks,
    /// 12: a domain name pointer
    Ptr,
    /// 13: host information
    Hinfo,
    /// 14: mailbox or mail list information
    Minfo,
    /// 15: mail exchange
    Mx,
    /// 16: text strings
    Txt,
    /// 252: a request for a transfer of an entire zone
    Axfr,
    /// 253: a request for mailbox-related records (Mb, Mg or Mr)
    Mailb,
    /// 254: a request for mail agent records (obsolete - see Mx)
    Maila,
    /// 255: a request for all records
    StarSign,
}

/// The 16-bit wire value of a type.
pub open spec fn qtype_num(t: QType) -> u16 {
    match t {
        QType::A => 1,
        QType::Ns => 2,
        QType::Md => 3,
        QType::Mf => 4,
        QType::Cname => 5,
        QType::Soa => 6,
        QType::Mb => 7,
        QType::Mg => 8,
        QType::Mr => 9,
        QType::Null => 10,
        QType::Wks => 11,
        QType::Ptr => 12,
        QType::Hinfo => 13,
        QType::Minfo => 14,
        QType::Mx => 15,
        QType::Txt => 16,
        QType::Axfr => 252,
        QType::Mailb => 253,
        QType::Maila => 254,
        QType::StarSign => 255,
    }
}

/// The type a 16-bit wire value stands for, `None` outside the table.
pub open spec fn qtype_of(v: u16) -> Option<QType> {
    if v == 1 {
        Some(QType::A)
    } else if v == 2 {
        Some(QType::Ns)
    } else if v == 3 {
        Some(QType::Md)
    } else if v == 4 {
        Some(QType::Mf)
    } else if v == 5 {
        Some(QType::Cname)
    } else if v == 6 {
        Some(QType::Soa)
    } else if v == 7 {
        Some(QType::Mb)
    } else if v == 8 {
        Some(QType::Mg)
    } else if v == 9 {
        Some(QType::Mr)
    } else if v == 10 {
        Some(QType::Null)
    } else if v == 11 {
        Some(QType::Wks)
    } else if v == 12 {
        Some(QType::Ptr)
    } else if v == 13 {
        Some(QType::Hinfo)
    } else if v == 14 {
        Some(QType::Minfo)
    } else if v == 15 {
        Some(QType::Mx)
    } else if v == 16 {
        Some(QType::Txt)
    } else if v == 252 {
        Some(QType::Axfr)
    } else if v == 253 {
        Some(QType::Mailb)
    } else if v == 254 {
        Some(QType::Maila)
    } else if v == 255 {
        Some(QType::StarSign)
    } else {
        None
    }
}

impl QType {
    /// Maps a 16-bit wire value through the table; an unrecognized value is
    /// a decode error, never silently defaulted.
    pub fn from_u16(v: u16) -> (r: Result<QType, DnsError>)
        ensures
            r == (match qtype_of(v) {
                Some(t) => Ok::<QType, DnsError>(t),
                None => Err::<QType, DnsError>(DnsError::UnknownQType),
            }),
    {
        match v {
            1 => Ok(QType::A),
            2 => Ok(QType::Ns),
            3 => Ok(QType::Md),
            4 => Ok(QType::Mf),
            5 => Ok(QType::Cname),
            6 => Ok(QType::Soa),
            7 => Ok(QType::Mb),
            8 => Ok(QType::Mg),
            9 => Ok(QType::Mr),
            10 => Ok(QType::Null),
            11 => Ok(QType::Wks),
            12 => Ok(QType::Ptr),
            13 => Ok(QType::Hinfo),
            14 => Ok(QType::Minfo),
            15 => Ok(QType::Mx),
            16 => Ok(QType::Txt),
            252 => Ok(QType::Axfr),
            253 => Ok(QType::Mailb),
            254 => Ok(QType::Maila),
            255 => Ok(QType::StarSign),
            _ => Err(DnsError::UnknownQType),
        }
    }

    /// The 16-bit wire value of this type.
    pub fn to_u16(&self) -> (r: u16)
        ensures
            r == qtype_num(*self),
    {
        match self {
            QType::A => 1,
            QType::Ns => 2,
            QType::Md => 3,
            QType::Mf => 4,
            QType::Cname => 5,
            QType::Soa => 6,
            QType::Mb => 7,
            QType::Mg => 8,
            QType::Mr => 9,
            QType::Null => 10,
            QType::Wks => 11,
            QType::Ptr => 12,
            QType::Hinfo => 13,
            QType::Minfo => 14,
            QType::Mx => 15,
            QType::Txt => 16,
            QType::Axfr => 252,
            QType::Mailb => 253,
            QType::Maila => 254,
            QType::StarSign => 255,
        }
    }
}

/// The wire value of every type reads back as that type: the table has no
/// two variants sharing a value.
pub proof fn lemma_qtype_round_trip(t: QType)
    ensures
        qtype_of(qtype_num(t)) == Some(t),
{
}

} // verus!
