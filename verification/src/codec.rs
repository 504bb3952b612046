//! Encoding and decoding of metadata records.
//!
//! The bytes are produced and read by `borsh`. What it produces and accepts
//! is stated here over the layout of [`crate::layout`]; the two statements
//! are assumed, and everything else in this crate is proved from them.

use vstd::prelude::*;
use crate::layout::{encodable, parse_record, record_bytes, MAX_COUNT};
use crate::model::{AddMemberOfError, CollectionMembership, MetadataRecord};

verus! {

/// The error type of `borsh`. Nothing is known of its values.
#[verifier::external_type_specification]
#[verifier::external_body]
pub struct ExBorshError(borsh::io::Error);

/// `borsh::to_vec`, applied to the pair of the attribute bytes and the list of
/// (collection, signature) pairs.
///
/// Assumed of it: it fails exactly when one of the two lists is longer than a
/// length prefix can say, and otherwise returns each list's length as four
/// little-endian bytes followed by the list's items, a byte array being
/// written as its bytes.
#[verifier::external_body]
fn borsh_to_vec(record: &MetadataRecord) -> (out: Result<Vec<u8>, borsh::io::Error>)
    ensures
        match out {
            Ok(bytes) => {
                &&& record.attributes.len() <= MAX_COUNT
                &&& record.member_of.len() <= MAX_COUNT
                &&& bytes@ == record_bytes(record@)
            },
            Err(_) => record.attributes.len() > MAX_COUNT || record.member_of.len() > MAX_COUNT,
        },
{
    let entries: Vec<([u8; 32], [u8; 32])> =
        record.member_of.iter().map(|m| (m.collection, m.signature)).collect();
    borsh::to_vec(&(&record.attributes, entries))
}

/// `borsh::BorshDeserialize::deserialize` for the pair of the attribute bytes
/// and the list of (collection, signature) pairs, reading from the start of
/// `data` and leaving what follows the pair unread.
///
/// Assumed of it: it succeeds exactly when `data` reaches as far as the two
/// length prefixes say, and then returns the items that lie behind them.
#[verifier::external_body]
fn borsh_deserialize(data: &[u8]) -> (out: Result<MetadataRecord, borsh::io::Error>)
    ensures
        match out {
            Ok(record) => parse_record(data@) == Some(record@),
            Err(_) => parse_record(data@) is None,
        },
{
    let mut unread: &[u8] = data;
    let (attributes, entries): (Vec<u8>, Vec<([u8; 32], [u8; 32])>) =
        borsh::BorshDeserialize::deserialize(&mut unread)?;
    let member_of: Vec<CollectionMembership> = entries
        .into_iter()
        .map(|(collection, signature)| CollectionMembership { collection, signature })
        .collect();
    Ok(MetadataRecord { attributes, member_of })
}

impl MetadataRecord {
    /// The entries of a record have their fixed width, so the record has a
    /// serialized form as soon as its two counts fit a length prefix.
    pub proof fn lemma_well_formed(self)
        ensures
            self@.well_formed(),
            encodable(self@) <==> self.attributes.len() <= MAX_COUNT && self.member_of.len()
                <= MAX_COUNT,
    {
    }

    /// Reads the record that starts at the first byte of `data`. Bytes that
    /// follow the record are ignored.
    pub fn decode(data: &[u8]) -> (out: Result<MetadataRecord, AddMemberOfError>)
        ensures
            match parse_record(data@) {
                Some(record) => out is Ok && out.unwrap()@ == record,
                None => out == Err::<MetadataRecord, AddMemberOfError>(AddMemberOfError::Corrupt),
            },
    {
        match borsh_deserialize(data) {
            Ok(record) => Ok(record),
            Err(_) => Err(AddMemberOfError::Corrupt),
        }
    }

    /// The serialized form of the record, or `None` when a count does not fit
    /// its length prefix.
    pub fn encode(&self) -> (out: Option<Vec<u8>>)
        ensures
            match out {
                Some(bytes) => encodable(self@) && bytes@ == record_bytes(self@),
                None => !encodable(self@),
            },
    {
        proof {
            self.lemma_well_formed();
        }
        match borsh_to_vec(self) {
            Ok(bytes) => Some(bytes),
            Err(_) => None,
        }
    }
}

} // verus!
