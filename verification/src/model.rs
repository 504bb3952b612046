//! Handles, records and errors.

use vstd::prelude::*;

verus! {

/// Number of bytes in an identifier (of a handle, a program or a collection).
pub const IDENTIFIER_LEN: usize = 32;

/// Number of bytes in a signature.
pub const SIGNATURE_LEN: usize = 32;

/// Number of handles that the operation consumes.
pub const REQUIRED_HANDLES: usize = 5;

/// Why an invocation was rejected.
#[derive(Clone, Copy, Debug, PartialEq, Eq, Structural)]
pub enum AddMemberOfError {
    /// Fewer handles were supplied than the operation consumes.
    MissingAccount,
    /// The collection-reference handle is not owned by the expected program.
    IllegalOwner,
    /// The token handle's buffer does not hold a record.
    Corrupt,
    /// The record with its new entry has no serialized form that the token
    /// handle's buffer can hold.
    BufferTooSmall,
}

/// An attestation that a token belongs to a collection.
#[derive(Clone, Copy, Debug, PartialEq, Eq)]
pub struct CollectionMembership {
    pub collection: [u8; 32],
    pub signature: [u8; 32],
}

/// A [`CollectionMembership`] as two byte sequences.
pub struct MembershipView {
    pub collection: Seq<u8>,
    pub signature: Seq<u8>,
}

impl MembershipView {
    /// Both parts have their fixed width.
    pub open spec fn well_formed(self) -> bool {
        &&& self.collection.len() == IDENTIFIER_LEN
        &&& self.signature.len() == SIGNATURE_LEN
    }
}

impl View for CollectionMembership {
    type V = MembershipView;

    open spec fn view(&self) -> MembershipView {
        MembershipView { collection: self.collection@, signature: self.signature@ }
    }
}

/// The views of a list of memberships, in order.
pub open spec fn membership_views(entries: Seq<CollectionMembership>) -> Seq<MembershipView> {
    entries.map_values(|m: CollectionMembership| m@)
}

/// The record that describes a token.
///
/// Only the membership list is interpreted here. Every other field of the
/// record travels in `attributes`, one length-prefixed byte string that is
/// carried through unchanged.
#[derive(Clone, Debug, PartialEq, Eq)]
pub struct MetadataRecord {
    pub attributes: Vec<u8>,
    pub member_of: Vec<CollectionMembership>,
}

/// A [`MetadataRecord`] as sequences.
pub struct RecordView {
    pub attributes: Seq<u8>,
    pub member_of: Seq<MembershipView>,
}

impl RecordView {
    /// Every entry of the membership list has its fixed width.
    pub open spec fn well_formed(self) -> bool {
        forall|i: int| 0 <= i < self.member_of.len() ==> (#[trigger] self.member_of[i]).well_formed()
    }

    /// The record with `entry` appended to its membership list.
    pub open spec fn with_member(self, entry: MembershipView) -> RecordView {
        RecordView { attributes: self.attributes, member_of: self.member_of.push(entry) }
    }
}

impl View for MetadataRecord {
    type V = RecordView;

    open spec fn view(&self) -> RecordView {
        RecordView { attributes: self.attributes@, member_of: membership_views(self.member_of@) }
    }
}

/// The payload of the operation.
#[derive(Clone, Copy, Debug, PartialEq, Eq)]
pub struct AddMemberOfArgs {
    /// The collection that the token joins. The operation does not read it:
    /// the entry records the identity of the collection-reference handle.
    pub collection: [u8; 32],
    /// Stored as it comes. Nothing here verifies it.
    pub signature: [u8; 32],
}

/// A storage region as the host hands it over: its identity, the program that
/// owns it and its bytes. The length of `data` is the region's capacity.
#[derive(Clone, Debug, PartialEq, Eq)]
pub struct AccountHandle {
    pub key: [u8; 32],
    pub owner: [u8; 32],
    pub data: Vec<u8>,
}

/// An [`AccountHandle`] as byte sequences.
pub struct HandleView {
    pub key: Seq<u8>,
    pub owner: Seq<u8>,
    pub data: Seq<u8>,
}

impl View for AccountHandle {
    type V = HandleView;

    open spec fn view(&self) -> HandleView {
        HandleView { key: self.key@, owner: self.owner@, data: self.data@ }
    }
}

impl MetadataRecord {
    /// Appends `entry` to the membership list. Nothing is deduplicated and
    /// nothing else changes.
    pub fn push_member(&mut self, entry: CollectionMembership)
        ensures
            final(self)@ == old(self)@.with_member(entry@),
            final(self).attributes == old(self).attributes,
            final(self).member_of@ == old(self).member_of@.push(entry),
    {
        self.member_of.push(entry);
        assert(membership_views(self.member_of@) =~= membership_views(old(self).member_of@).push(
            entry@,
        ));
    }
}

} // verus!
