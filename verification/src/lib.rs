//! Collection-membership attestations for token metadata records.
//!
//! A metadata record lives in a fixed-capacity byte buffer owned by a storage
//! handle. [`add_member_of`] checks the handles that a caller supplied, decodes
//! the record held by the first one, appends one attestation to its membership
//! list and writes the record back, all or nothing.
//!
//! * [`model`]: the handles, the record and the errors, with their views.
//! * [`layout`]: the binary layout of a record, stated over byte sequences.
//! * [`codec`]: encoding and decoding of records.
//! * [`gate`]: resolution of the supplied handles into roles.
//! * [`processor`]: the operation itself.

pub mod model;
pub mod layout;
pub mod codec;
pub mod gate;
pub mod processor;

pub use model::{AccountHandle, AddMemberOfArgs, AddMemberOfError, CollectionMembership, MetadataRecord};
pub use processor::add_member_of;
