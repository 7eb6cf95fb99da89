//! The CLASS / QCLASS table of RFC 1035 section 3.2.4. This is a superset of
//! CLASS, used here for both questions and answers even though the value 255
//! is specific to questions.

use crate::error::DnsError;
use vstd::prelude::*;

verus! {

/// A record class or question class, one variant per recognized 16-bit value.
#[derive(Debug, Clone, Copy, PartialEq, Eq, Structural)]
pub enum QClass {
    /// 1: the Internet
    In,
    /// 2: the CSNET class (obsolete - used only for examples in some obsolete RFCs)
    Cs,
    /// 3: the CHAOS class
    Ch,
    /// 4: Hesiod
    Hs,
    /// 255: any class
    StarSign,
}

/// The 16-bit wire value of a class.
pub open spec fn qclass_num(c: QClass) -> u16 {
    match c {
        QClass::In => 1,
        QClass::Cs => 2,
        QClass::Ch => 3,
        QClass::Hs => 4,
        QClass::StarSign => 255,
    }
}

/// The class a 16-bit wire value stands for, `None` outside the table.
pub open spec fn qclass_of(v: u16) -> Option<QClass> {
    if v == 1 {
        Some(QClass::In)
    } else if v == 2 {
        Some(QClass::Cs)
    } else if v == 3 {
        Some(QClass::Ch)
    } else if v == 4 {
        Some(QClass::Hs)
    } else if v == 255 {
        Some(QClass::StarSign)
    } else {
        None
    }
}

impl QClass {
    /// Maps a 16-bit wire value through the table; an unrecognized value is
    /// a decode error, never silently defaulted.
    pub fn from_u16(v: u16) -> (r: Result<QClass, DnsError>)
        ensures
            r == (match qclass_of(v) {
                Some(c) => Ok::<QClass, DnsError>(c),
                None => Err::<QClass, DnsError>(DnsError::UnknownQClass),
            }),
    {
        match v {
            1 => Ok(QClass::In),
            2 => Ok(QClass::Cs),
            3 => Ok(QClass::Ch),
            4 => Ok(QClass::Hs),
            255 => Ok(QClass::StarSign),
            _ => Err(DnsError::UnknownQClass),
        }
    }

    /// The 16-bit wire value of this class.
    pub fn to_u16(&self) -> (r: u16)
        ensures
            r == qclass_num(*self),
    {
        match self {
            QClass::In => 1,
            QClass::Cs => 2,
            QClass::Ch => 3,
            QClass::Hs => 4,
            QClass::StarSign => 255,
        }
    }
}

/// The wire value of every class reads back as that class: the table has no
/// two variants sharing a value.
pub proof fn lemma_qclass_round_trip(c: QClass)
    ensures
        qclass_of(qclass_num(c)) == Some(c),
{
}

} // verus!
