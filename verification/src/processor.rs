//! The operation: attach a membership attestation to a metadata record.
//!
//! Once its handles are admitted, an invocation stages the grown record in a
//! scratch buffer and only then writes to the token handle's buffer. Until
//! that write the handles are untouched, and the write itself cannot fail.

use vstd::prelude::*;
use crate::gate::{gate, parse_accounts, Accounts};
use crate::layout::{
    encodable, encoded_len, entry_bytes, le32, lemma_entries_bytes_len,
    lemma_entries_bytes_push, lemma_parse_record_bytes, lemma_record_bytes_parse, parse_record,
    record_bytes, ENTRY_LEN, PREFIX_LEN,
};
use crate::model::{
    AccountHandle, AddMemberOfArgs, AddMemberOfError, CollectionMembership, HandleView,
    MembershipView, MetadataRecord, RecordView, REQUIRED_HANDLES,
};

verus! {

/// The entry that an invocation appends: the identity of the
/// collection-reference handle, and the signature of the payload as it came.
pub open spec fn new_entry(collection_reference: HandleView, args: AddMemberOfArgs)
    -> MembershipView {
    MembershipView { collection: collection_reference.key, signature: args.signature@ }
}

/// The serialized form of the record in `data` once `entry` is appended to
/// it, or why there is none.
pub open spec fn staged_record(data: Seq<u8>, entry: MembershipView) -> Result<
    Seq<u8>,
    AddMemberOfError,
> {
    match parse_record(data) {
        None => Err(AddMemberOfError::Corrupt),
        Some(record) => if encodable(record.with_member(entry)) {
            Ok(record_bytes(record.with_member(entry)))
        } else {
            Err(AddMemberOfError::BufferTooSmall)
        },
    }
}

/// What `buffer` holds once `staged` is written over its front, or why it
/// cannot be written.
pub open spec fn written(buffer: Seq<u8>, staged: Seq<u8>) -> Result<Seq<u8>, AddMemberOfError> {
    if staged.len() > buffer.len() {
        Err(AddMemberOfError::BufferTooSmall)
    } else {
        Ok(staged + buffer.skip(staged.len() as int))
    }
}

/// What a token buffer that holds `data` holds once `entry` is appended to
/// its record, or why the entry cannot be appended.
pub open spec fn appended(data: Seq<u8>, entry: MembershipView) -> Result<
    Seq<u8>,
    AddMemberOfError,
> {
    match staged_record(data, entry) {
        Ok(staged) => written(data, staged),
        Err(reason) => Err(reason),
    }
}

/// What the token buffer holds after the invocation, or why the invocation
/// is rejected.
pub open spec fn outcome(program_id: Seq<u8>, accounts: Seq<AccountHandle>, args: AddMemberOfArgs)
    -> Result<Seq<u8>, AddMemberOfError> {
    match gate(program_id, accounts) {
        Ok(_) => appended(accounts[0].data@, new_entry(accounts[1]@, args)),
        Err(reason) => Err(reason),
    }
}

/// Decodes the record of the token handle, appends the entry of this
/// invocation and serializes the result into a buffer of its own. No handle
/// is written.
pub fn stage_membership(roles: &Accounts, args: &AddMemberOfArgs) -> (out: Result<
    Vec<u8>,
    AddMemberOfError,
>)
    ensures
        match staged_record(roles.handles()[0].data@, new_entry(roles.handles()[1]@, *args)) {
            Ok(staged) => out is Ok && out.unwrap()@ == staged,
            Err(reason) => out == Err::<Vec<u8>, AddMemberOfError>(reason),
        },
{
    let mut metadata: MetadataRecord = match MetadataRecord::decode(roles.token().data.as_slice()) {
        Ok(record) => record,
        Err(reason) => { return Err(reason); },
    };
    let collection_signature = CollectionMembership {
        collection: roles.member_of_collection().key,
        signature: args.signature,
    };
    metadata.push_member(collection_signature);
    match metadata.encode() {
        Some(staged) => Ok(staged),
        None => Err(AddMemberOfError::BufferTooSmall),
    }
}

/// Writes `staged` over the front of `buffer`, whose length stays what it
/// was. A `staged` that is longer than `buffer` is refused before anything is
/// written.
pub fn write_record(buffer: &mut Vec<u8>, staged: &[u8]) -> (out: Result<(), AddMemberOfError>)
    ensures
        match written(old(buffer)@, staged@) {
            Ok(data) => out == Ok::<(), AddMemberOfError>(()) && final(buffer)@ == data,
            Err(reason) => out == Err::<(), AddMemberOfError>(reason) && *final(buffer) == *old(
                buffer,
            ),
        },
{
    if staged.len() > buffer.len() {
        return Err(AddMemberOfError::BufferTooSmall);
    }
    let mut i: usize = 0;
    while i < staged.len()
        invariant
            i <= staged.len() <= buffer.len(),
            buffer.len() == old(buffer).len(),
            forall|j: int| 0 <= j < i ==> buffer@[j] == staged@[j],
            forall|j: int| i <= j < buffer.len() ==> buffer@[j] == old(buffer)@[j],
        decreases staged.len() - i,
    {
        buffer[i] = staged[i];
        i += 1;
    }
    assert(buffer@ =~= staged@ + old(buffer)@.skip(staged.len() as int));
    Ok(())
}

/// Attaches to the record of the token handle the attestation that the token
/// belongs to the collection of the collection-reference handle.
///
/// `accounts` holds, in this order, the token handle, the collection
/// reference, the payer, the rent reference and the system reference. The
/// invocation is rejected, and no handle changes, when there are fewer than
/// five, when the collection reference is not owned by `program_id`, when the
/// token buffer holds no record, and when the grown record does not fit the
/// token buffer. Otherwise the grown record is written over the front of the
/// token buffer and nothing else changes. The signature is stored as it came:
/// it is not verified here.
pub fn add_member_of(program_id: &[u8; 32], accounts: &mut [AccountHandle], args: AddMemberOfArgs)
    -> (out: Result<(), AddMemberOfError>)
    ensures
        match outcome(program_id@, old(accounts)@, args) {
            Ok(data) => {
                &&& out == Ok::<(), AddMemberOfError>(())
                &&& final(accounts)@.len() == old(accounts)@.len()
                &&& final(accounts)@[0].key == old(accounts)@[0].key
                &&& final(accounts)@[0].owner == old(accounts)@[0].owner
                &&& final(accounts)@[0].data@ == data
                &&& forall|i: int|
                    1 <= i < old(accounts)@.len() ==> final(accounts)@[i] == old(accounts)@[i]
            },
            Err(reason) => out == Err::<(), AddMemberOfError>(reason) && final(accounts)@ == old(
                accounts,
            )@,
        },
        old(accounts)@.len() < REQUIRED_HANDLES ==> out == Err::<(), AddMemberOfError>(
            AddMemberOfError::MissingAccount,
        ),
        old(accounts)@.len() >= REQUIRED_HANDLES && old(accounts)@[1].owner@ != program_id@
            ==> out == Err::<(), AddMemberOfError>(AddMemberOfError::IllegalOwner),
        out is Err ==> final(accounts)@ == old(accounts)@,
        out is Ok ==> parse_record(final(accounts)@[0].data@) == Some(
            parse_record(old(accounts)@[0].data@).unwrap().with_member(
                new_entry(old(accounts)@[1]@, args),
            ),
        ),
{
    let staged: Vec<u8> = match parse_accounts(program_id, accounts) {
        Ok(roles) => match stage_membership(&roles, &args) {
            Ok(staged) => staged,
            Err(reason) => { return Err(reason); },
        },
        Err(reason) => { return Err(reason); },
    };
    proof {
        lemma_append_only_growth(accounts@[0].data@, new_entry(accounts@[1]@, args));
    }
    write_record(&mut accounts[0].data, staged.as_slice())
}

/// A successful append grows the membership list by exactly the new entry
/// and keeps everything else: the record that the buffer holds afterwards is
/// the old one with the entry at the end of its list, the buffer keeps its
/// length, and every byte of it outside the list's count and the 64 bytes
/// behind the old record is what it was.
pub proof fn lemma_append_only_growth(data: Seq<u8>, entry: MembershipView)
    ensures
        appended(data, entry) matches Ok(grown) ==> {
            let record: RecordView = parse_record(data).unwrap();
            let count_at: int = PREFIX_LEN as int + record.attributes.len();
            let end: int = encoded_len(record) as int;
            &&& parse_record(data) is Some
            &&& parse_record(grown) == Some(record.with_member(entry))
            &&& parse_record(grown).unwrap().attributes == record.attributes
            &&& parse_record(grown).unwrap().member_of.len() == record.member_of.len() + 1
            &&& parse_record(grown).unwrap().member_of.last() == entry
            &&& forall|i: int|
                0 <= i < record.member_of.len() ==> parse_record(grown).unwrap().member_of[i]
                    == record.member_of[i]
            &&& grown.len() == data.len()
            &&& forall|i: int|
                0 <= i < data.len() && !(count_at <= i < count_at + PREFIX_LEN) && !(end <= i < end
                    + ENTRY_LEN) ==> grown[i] == data[i]
        },
{
    if let Ok(grown) = appended(data, entry) {
        let record: RecordView = parse_record(data).unwrap();
        let larger: RecordView = record.with_member(entry);
        let a: nat = record.attributes.len();
        lemma_record_bytes_parse(data);
        lemma_parse_record_bytes(larger, data.skip(encoded_len(larger) as int));
        lemma_entries_bytes_push(record.member_of, entry);
        lemma_entries_bytes_len(record.member_of);
        assert(le32(a).len() == PREFIX_LEN);
        assert(le32(record.member_of.len()).len() == PREFIX_LEN);
        assert(le32(larger.member_of.len()).len() == PREFIX_LEN);
        assert(entry_bytes(entry).len() == ENTRY_LEN);
    }
}

/// The signature is a payload and nothing more. It plays no part in whether
/// an invocation is accepted: whatever two payloads hold, both are accepted
/// or both are rejected for the same reason. And where one is accepted, the
/// last entry of the record holds its signature byte for byte.
pub proof fn lemma_signature_is_opaque(
    program_id: Seq<u8>,
    accounts: Seq<AccountHandle>,
    first: AddMemberOfArgs,
    second: AddMemberOfArgs,
)
    ensures
        outcome(program_id, accounts, first) is Ok <==> outcome(program_id, accounts, second) is Ok,
        outcome(program_id, accounts, first) matches Err(reason) ==> outcome(
            program_id,
            accounts,
            second,
        ) == Err::<Seq<u8>, AddMemberOfError>(reason),
        outcome(program_id, accounts, first) matches Ok(data) ==> parse_record(data) is Some
            && parse_record(data).unwrap().member_of.last().signature == first.signature@,
{
    if gate(program_id, accounts) is Ok {
        lemma_append_only_growth(accounts[0].data@, new_entry(accounts[1]@, first));
        let data: Seq<u8> = accounts[0].data@;
        if parse_record(data) is Some {
            let record: RecordView = parse_record(data).unwrap();
            let one: RecordView = record.with_member(new_entry(accounts[1]@, first));
            let other: RecordView = record.with_member(new_entry(accounts[1]@, second));
            lemma_record_bytes_parse(data);
            assert(encodable(one) <==> encodable(other)) by {
                assert forall|i: int| 0 <= i < one.member_of.len() implies (
                #[trigger] one.member_of[i]).well_formed() by {
                    if i < record.member_of.len() {
                        assert(one.member_of[i] == record.member_of[i]);
                    }
                }
                assert forall|i: int| 0 <= i < other.member_of.len() implies (
                #[trigger] other.member_of[i]).well_formed() by {
                    if i < record.member_of.len() {
                        assert(other.member_of[i] == record.member_of[i]);
                    }
                }
            }
            if encodable(one) {
                lemma_parse_record_bytes(one, Seq::empty());
                lemma_parse_record_bytes(other, Seq::empty());
            }
        }
    }
}

} // verus!
