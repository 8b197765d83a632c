//! The parts of a DNS message that the server's logic reads and writes.
use vstd::prelude::*;

verus! {

/// Record type code of an IPv4 address record.
pub const TYPE_A: u16 = 1;

/// Record type code of a domain name pointer record.
pub const TYPE_PTR: u16 = 12;

/// Record type code of an IPv6 address record.
pub const TYPE_AAAA: u16 = 28;

/// An IP address; IPv4 as its 32-bit value, IPv6 as its 128-bit value.
#[derive(PartialEq, Eq, Structural, Clone, Copy, Debug)]
pub enum IpAddress {
    V4(u32),
    V6(u128),
}

/// The IPv4-mapped IPv6 form of an IPv4 address (`::ffff:a.b.c.d`).
pub open spec fn mapped_v4(a: u32) -> u128 {
    (0xffff_0000_0000u128 + a as u128) as u128
}

/// An address as IPv6: IPv4 addresses are mapped, IPv6 ones are unchanged.
pub open spec fn canonical(a: IpAddress) -> u128 {
    match a {
        IpAddress::V4(v) => mapped_v4(v),
        IpAddress::V6(v) => v,
    }
}

/// Maps an IPv4 address into IPv6; leaves an IPv6 address as it is.
pub fn to_ipv6_mapped(a: IpAddress) -> (r: u128)
    ensures
        r == canonical(a),
{
    match a {
        IpAddress::V4(v) => 0xffff_0000_0000u128 + v as u128,
        IpAddress::V6(v) => v,
    }
}

/// The data of a resource record, as far as this server reads it.
#[derive(PartialEq, Eq, Clone, Debug)]
pub enum RecordData {
    A(u32),
    Aaaa(u128),
    Ptr(String),
    Other,
}

/// A resource record: owner name, type code, TTL in seconds and data.
#[derive(PartialEq, Eq, Clone, Debug)]
pub struct Record {
    pub name: String,
    pub rtype: u16,
    pub ttl: u32,
    pub data: RecordData,
}

/// One entry of a message's question section.
#[derive(PartialEq, Eq, Clone, Debug)]
pub struct Question {
    pub name: String,
    pub qtype: u16,
}

impl RecordData {
    /// A copy of this data.
    pub fn copy(&self) -> (r: Self)
        ensures
            r == *self,
    {
        match self {
            RecordData::A(v) => RecordData::A(*v),
            RecordData::Aaaa(v) => RecordData::Aaaa(*v),
            RecordData::Ptr(n) => RecordData::Ptr(n.clone()),
            RecordData::Other => RecordData::Other,
        }
    }
}

impl Record {
    /// A copy of this record.
    pub fn copy(&self) -> (r: Self)
        ensures
            r == *self,
    {
        Record { name: self.name.clone(), rtype: self.rtype, ttl: self.ttl, data: self.data.copy() }
    }
}

/// What record data holds, as values.
pub enum DataView {
    A(u32),
    Aaaa(u128),
    Ptr(Seq<char>),
    Other,
}

/// What a record holds, as values.
pub struct RecordView {
    pub name: Seq<char>,
    pub rtype: u16,
    pub ttl: u32,
    pub data: DataView,
}

impl RecordData {
    /// This data as values.
    pub open spec fn view(&self) -> DataView {
        match self {
            RecordData::A(v) => DataView::A(*v),
            RecordData::Aaaa(v) => DataView::Aaaa(*v),
            RecordData::Ptr(n) => DataView::Ptr(n@),
            RecordData::Other => DataView::Other,
        }
    }
}

impl Record {
    /// This record as values.
    pub open spec fn view(&self) -> RecordView {
        RecordView { name: self.name@, rtype: self.rtype, ttl: self.ttl, data: self.data.view() }
    }
}

/// The records of `s` as values.
pub open spec fn views(s: Seq<Record>) -> Seq<RecordView> {
    s.map_values(|r: Record| r.view())
}

} // verus!
