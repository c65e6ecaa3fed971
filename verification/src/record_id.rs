use vstd::prelude::*;

use crate::display::{ascii_to_string, lemma_decimal_is_ascii, push_u64_decimal, spec_decimal_chars};
use crate::errors::Error;
use crate::INVALID_PID;

verus! {

/// The location of one tuple: the page that holds it and the slot within
/// that page. Record ids order by page id, then by slot id.
#[derive(Clone, Copy, Debug, Hash, PartialEq, Eq, Structural)]
pub struct RecordId {
    pub page_id: u32,
    pub slot_id: u16,
}

impl RecordId {
    /// A record id from its two parts.
    pub fn new(page_id: u32, sid: u16) -> (r: RecordId)
        ensures
            r.page_id == page_id,
            r.slot_id == sid,
    {
        RecordId { page_id, slot_id: sid }
    }

    /// The record id that points at no page, used by operators for rows
    /// that have no storage location.
    pub fn invalid() -> (r: RecordId)
        ensures
            r.page_id == INVALID_PID,
            r.slot_id == 0,
    {
        RecordId { page_id: INVALID_PID, slot_id: 0 }
    }

    /// The page this record lives on.
    pub fn page_id(&self) -> (r: u32)
        ensures
            r == self.page_id,
    {
        self.page_id
    }

    /// The slot within the page.
    pub fn slot_id(&self) -> (r: u16)
        ensures
            r == self.slot_id,
    {
        self.slot_id
    }

    /// Renders the record id as `page:slot` in decimal.
    pub fn to_string(&self) -> (r: String)
        ensures
            r@ == spec_decimal_chars(self.page_id as int) + seq![':']
                + spec_decimal_chars(self.slot_id as int),
    {
        let mut bytes: Vec<u8> = Vec::new();
        push_u64_decimal(&mut bytes, self.page_id as u64);
        bytes.push(0x3a);
        push_u64_decimal(&mut bytes, self.slot_id as u64);
        proof {
            lemma_decimal_is_ascii(self.page_id as int);
            lemma_decimal_is_ascii(self.slot_id as int);
            assert(bytes@.map_values(|b: u8| b as char) =~= spec_decimal_chars(
                self.page_id as int,
            ) + seq![0x3au8 as char] + spec_decimal_chars(self.slot_id as int));
            assert(0x3au8 as char == ':');
        }
        ascii_to_string(bytes)
    }

    /// A message naming an invalid record id.
    pub fn invalid_rid_message(record_id: &RecordId) -> (r: String)
        ensures
            r@ == "Invalid record id. "@ + spec_decimal_chars(record_id.page_id as int)
                + seq![':'] + spec_decimal_chars(record_id.slot_id as int),
    {
        proof {
            reveal_strlit("Invalid record id. ");
        }
        let mut s = "Invalid record id. ".to_string();
        s.append(record_id.to_string().as_str());
        s
    }

    /// A message naming an invalid slot id.
    pub fn invalid_slot_id_message(slot_id: u16) -> (r: String)
        ensures
            r@ == "Invalid slot id. "@ + spec_decimal_chars(slot_id as int),
    {
        proof {
            reveal_strlit("Invalid slot id. ");
            lemma_decimal_is_ascii(slot_id as int);
        }
        let mut bytes: Vec<u8> = Vec::new();
        push_u64_decimal(&mut bytes, slot_id as u64);
        proof {
            assert(bytes@.map_values(|b: u8| b as char) =~= spec_decimal_chars(slot_id as int));
        }
        let mut s = "Invalid slot id. ".to_string();
        s.append(ascii_to_string(bytes).as_str());
        s
    }

    /// The six little-endian bytes of the record id: four for the page id,
    /// two for the slot id.
    pub fn to_bytes(&self) -> (r: Result<Vec<u8>, Error>)
        ensures
            r matches Ok(v) && v@ == vstd::bytes::spec_u32_to_le_bytes(self.page_id)
                + vstd::bytes::spec_u16_to_le_bytes(self.slot_id),
    {
        let mut v = vstd::bytes::u32_to_le_bytes(self.page_id);
        let mut tail = vstd::bytes::u16_to_le_bytes(self.slot_id);
        v.append(&mut tail);
        Ok(v)
    }

    /// Reads a record id back from six little-endian bytes; any other
    /// length is malformed.
    pub fn from_bytes(bytes: &[u8]) -> (r: Result<RecordId, Error>)
        ensures
            r is Ok <==> bytes@.len() == 6,
            r matches Ok(rid) ==> rid.page_id == vstd::bytes::spec_u32_from_le_bytes(
                bytes@.subrange(0, 4),
            ) && rid.slot_id == vstd::bytes::spec_u16_from_le_bytes(bytes@.subrange(4, 6)),
    {
        if bytes.len() < 6 {
            return Err(Error::InvalidData("byte slice is too short".to_string()));
        }
        if bytes.len() > 6 {
            return Err(Error::InvalidData("byte slice is too long".to_string()));
        }
        let page_id = vstd::bytes::u32_from_le_bytes(vstd::slice::slice_subrange(bytes, 0, 4));
        let slot_id = vstd::bytes::u16_from_le_bytes(vstd::slice::slice_subrange(bytes, 4, 6));
        Ok(RecordId { page_id, slot_id })
    }
}

/// The record id order: by page id, then by slot id.
pub open spec fn spec_rid_cmp(a: RecordId, b: RecordId) -> core::cmp::Ordering {
    if a == b {
        core::cmp::Ordering::Equal
    } else if a.spec_page_id() < b.spec_page_id() || (a.spec_page_id() == b.spec_page_id()
        && a.spec_slot_id() < b.spec_slot_id()) {
        core::cmp::Ordering::Less
    } else {
        core::cmp::Ordering::Greater
    }
}

impl RecordId {
    /// The page id, for use in contracts.
    pub open spec fn spec_page_id(&self) -> u32 {
        self.page_id
    }

    /// The slot id, for use in contracts.
    pub open spec fn spec_slot_id(&self) -> u16 {
        self.slot_id
    }

    /// Total-order comparison: by page id, then by slot id.
    pub fn cmp(&self, other: &RecordId) -> (r: core::cmp::Ordering)
        ensures
            r == spec_rid_cmp(*self, *other),
    {
        if self.page_id == other.page_id {
            if self.slot_id < other.slot_id {
                core::cmp::Ordering::Less
            } else if self.slot_id > other.slot_id {
                core::cmp::Ordering::Greater
            } else {
                core::cmp::Ordering::Equal
            }
        } else if self.page_id < other.page_id {
            core::cmp::Ordering::Less
        } else {
            core::cmp::Ordering::Greater
        }
    }
}

impl PartialOrd for RecordId {
    fn partial_cmp(&self, other: &RecordId) -> (r: Option<core::cmp::Ordering>) {
        Some(self.cmp(other))
    }
}

impl vstd::std_specs::cmp::PartialOrdSpecImpl for RecordId {
    open spec fn obeys_partial_cmp_spec() -> bool {
        true
    }

    open spec fn partial_cmp_spec(&self, other: &RecordId) -> Option<core::cmp::Ordering> {
        Some(spec_rid_cmp(*self, *other))
    }
}

} // verus!
