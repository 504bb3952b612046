//! The binary layout of a metadata record.
//!
//! ```text
//! +----------+------------+----------+---------------------------+---------
//! | a: le32  | attributes | n: le32  | n entries of 64 bytes     | unused
//! +----------+------------+----------+---------------------------+---------
//!   4 bytes    a bytes      4 bytes    collection ++ signature
//! ```
//!
//! A buffer holds a record from its first byte on; what follows the record is
//! not interpreted.

use vstd::prelude::*;
use vstd::arithmetic::div_mod::lemma_fundamental_div_mod_converse;
use crate::model::{MembershipView, RecordView};

verus! {

/// Width of a length prefix.
pub const PREFIX_LEN: usize = 4;

/// Width of one entry of the membership list.
pub const ENTRY_LEN: usize = 64;

/// Largest count that a length prefix can hold.
pub const MAX_COUNT: usize = 0xffff_ffff;

/// The four bytes of `n`, least significant first.
pub open spec fn le32(n: nat) -> Seq<u8>
    recommends
        n <= MAX_COUNT,
{
    seq![
        (n % 256) as u8,
        ((n / 256) % 256) as u8,
        ((n / 65536) % 256) as u8,
        ((n / 16777216) % 256) as u8,
    ]
}

/// The number whose four bytes, least significant first, start at `at`.
pub open spec fn le32_at(data: Seq<u8>, at: int) -> nat
    recommends
        0 <= at,
        at + PREFIX_LEN <= data.len(),
{
    (data[at] as nat) + 256 * (data[at + 1] as nat) + 65536 * (data[at + 2] as nat) + 16777216 * (
    data[at + 3] as nat)
}

/// The bytes of one entry: the collection, then the signature.
pub open spec fn entry_bytes(entry: MembershipView) -> Seq<u8> {
    entry.collection + entry.signature
}

/// The bytes of the entries, one after the other.
pub open spec fn entries_bytes(entries: Seq<MembershipView>) -> Seq<u8>
    decreases entries.len(),
{
    if entries.len() == 0 {
        Seq::empty()
    } else {
        entries_bytes(entries.drop_last()) + entry_bytes(entries.last())
    }
}

/// Whether the record has a serialized form: its entries have their fixed
/// width and both counts fit a length prefix.
pub open spec fn encodable(record: RecordView) -> bool {
    &&& record.well_formed()
    &&& record.attributes.len() <= MAX_COUNT
    &&& record.member_of.len() <= MAX_COUNT
}

/// Number of bytes in the serialized form of a record.
pub open spec fn encoded_len(record: RecordView) -> nat {
    2 * PREFIX_LEN as nat + record.attributes.len() + ENTRY_LEN as nat * record.member_of.len()
}

/// The serialized form of a record.
pub open spec fn record_bytes(record: RecordView) -> Seq<u8>
    recommends
        encodable(record),
{
    le32(record.attributes.len()) + record.attributes + le32(record.member_of.len())
        + entries_bytes(record.member_of)
}

/// The entry whose 64 bytes start at `at`.
pub open spec fn entry_at(data: Seq<u8>, at: int) -> MembershipView
    recommends
        0 <= at,
        at + ENTRY_LEN <= data.len(),
{
    MembershipView {
        collection: data.subrange(at, at + 32),
        signature: data.subrange(at + 32, at + 64),
    }
}

/// The `count` entries that lie one after the other from `at` on.
pub open spec fn entries_at(data: Seq<u8>, at: int, count: nat) -> Seq<MembershipView> {
    Seq::new(count, |i: int| entry_at(data, at + ENTRY_LEN as int * i))
}

/// The record that starts at the first byte of `data`, if there is one: the
/// bytes must reach as far as the two length prefixes say.
pub open spec fn parse_record(data: Seq<u8>) -> Option<RecordView> {
    if data.len() < PREFIX_LEN {
        None
    } else {
        let a: nat = le32_at(data, 0);
        if data.len() < 2 * PREFIX_LEN as nat + a {
            None
        } else {
            let n: nat = le32_at(data, PREFIX_LEN as int + a);
            if data.len() < 2 * PREFIX_LEN as nat + a + ENTRY_LEN as nat * n {
                None
            } else {
                Some(
                    RecordView {
                        attributes: data.subrange(PREFIX_LEN as int, PREFIX_LEN as int + a),
                        member_of: entries_at(data, 2 * PREFIX_LEN as int + a, n),
                    },
                )
            }
        }
    }
}

/// `le32` yields four bytes, and `le32_at` reads them back.
pub proof fn lemma_le32_read_back(n: nat, data: Seq<u8>, at: int)
    requires
        n <= MAX_COUNT,
        0 <= at,
        at + PREFIX_LEN <= data.len(),
        data.subrange(at, at + PREFIX_LEN as int) == le32(n),
    ensures
        le32(n).len() == PREFIX_LEN,
        le32_at(data, at) == n,
{
    let field: Seq<u8> = data.subrange(at, at + PREFIX_LEN as int);
    assert(field[0] == data[at] && field[1] == data[at + 1] && field[2] == data[at + 2] && field[3]
        == data[at + 3]);
}

/// Four bytes read by `le32_at` fit a length prefix, and `le32` writes them
/// back.
pub proof fn lemma_le32_write_back(data: Seq<u8>, at: int)
    requires
        0 <= at,
        at + PREFIX_LEN <= data.len(),
    ensures
        le32_at(data, at) <= MAX_COUNT,
        le32(le32_at(data, at)) == data.subrange(at, at + PREFIX_LEN as int),
{
    lemma_digits(data[at] as int, data[at + 1] as int, data[at + 2] as int, data[at + 3] as int);
    assert(le32(le32_at(data, at)) =~= data.subrange(at, at + PREFIX_LEN as int));
}

/// The base-256 digits of a number below 2^32 are found by division.
proof fn lemma_digits(b0: int, b1: int, b2: int, b3: int)
    requires
        0 <= b0 < 256,
        0 <= b1 < 256,
        0 <= b2 < 256,
        0 <= b3 < 256,
    ensures
        ({
            let v: int = b0 + 256 * b1 + 65536 * b2 + 16777216 * b3;
            &&& 0 <= v <= MAX_COUNT
            &&& v % 256 == b0
            &&& (v / 256) % 256 == b1
            &&& (v / 65536) % 256 == b2
            &&& (v / 16777216) % 256 == b3
        }),
{
    let v: int = b0 + 256 * b1 + 65536 * b2 + 16777216 * b3;
    lemma_fundamental_div_mod_converse(v, 256, b1 + 256 * b2 + 65536 * b3, b0);
    lemma_fundamental_div_mod_converse(v / 256, 256, b2 + 256 * b3, b1);
    lemma_fundamental_div_mod_converse(v, 65536, b2 + 256 * b3, b0 + 256 * b1);
    lemma_fundamental_div_mod_converse(v / 65536, 256, b3, b2);
    lemma_fundamental_div_mod_converse(v, 16777216, b3, b0 + 256 * b1 + 65536 * b2);
    lemma_fundamental_div_mod_converse(v / 16777216, 256, 0, b3);
}

/// Entries of fixed width take 64 bytes each.
pub proof fn lemma_entries_bytes_len(entries: Seq<MembershipView>)
    requires
        forall|i: int| 0 <= i < entries.len() ==> (#[trigger] entries[i]).well_formed(),
    ensures
        entries_bytes(entries).len() == ENTRY_LEN as nat * entries.len(),
    decreases entries.len(),
{
    if entries.len() > 0 {
        lemma_entries_bytes_len(entries.drop_last());
    }
}

/// One more entry adds its bytes at the end and leaves the others where they
/// were.
pub proof fn lemma_entries_bytes_push(entries: Seq<MembershipView>, entry: MembershipView)
    ensures
        entries_bytes(entries.push(entry)) == entries_bytes(entries) + entry_bytes(entry),
{
    assert(entries.push(entry).drop_last() =~= entries);
}

/// The entries read from a range of a buffer serialize to that range.
pub proof fn lemma_entries_at_bytes(data: Seq<u8>, at: int, count: nat)
    requires
        0 <= at,
        at + ENTRY_LEN as nat * count <= data.len(),
    ensures
        entries_bytes(entries_at(data, at, count)) == data.subrange(
            at,
            at + ENTRY_LEN as nat * count,
        ),
        forall|i: int| 0 <= i < count ==> (#[trigger] entries_at(data, at, count)[i]).well_formed(),
    decreases count,
{
    if count > 0 {
        let shorter: nat = (count - 1) as nat;
        lemma_entries_at_bytes(data, at, shorter);
        assert(entries_at(data, at, count).drop_last() =~= entries_at(data, at, shorter));
        assert(entries_bytes(entries_at(data, at, count)) =~= data.subrange(
            at,
            at + ENTRY_LEN as nat * count,
        ));
    } else {
        assert(entries_bytes(entries_at(data, at, count)) =~= data.subrange(at, at));
    }
}

/// Entries are read back from where their bytes were written.
pub proof fn lemma_entries_at_entries_bytes(
    before: Seq<u8>,
    entries: Seq<MembershipView>,
    after: Seq<u8>,
)
    requires
        forall|i: int| 0 <= i < entries.len() ==> (#[trigger] entries[i]).well_formed(),
    ensures
        entries_at(before + entries_bytes(entries) + after, before.len() as int, entries.len())
            == entries,
    decreases entries.len(),
{
    let data: Seq<u8> = before + entries_bytes(entries) + after;
    let read: Seq<MembershipView> = entries_at(data, before.len() as int, entries.len());
    lemma_entries_bytes_len(entries);
    if entries.len() > 0 {
        let shorter: Seq<MembershipView> = entries.drop_last();
        let last: MembershipView = entries.last();
        lemma_entries_bytes_len(shorter);
        lemma_entries_at_entries_bytes(before, shorter, entry_bytes(last) + after);
        assert(before + entries_bytes(shorter) + (entry_bytes(last) + after) =~= data);
        let base: int = before.len() + ENTRY_LEN as int * (entries.len() - 1);
        assert(entry_at(data, base).collection =~= last.collection);
        assert(entry_at(data, base).signature =~= last.signature);
        assert forall|i: int| 0 <= i < entries.len() implies read[i] == entries[i] by {
            if i < entries.len() - 1 {
                assert(entries_at(data, before.len() as int, shorter.len())[i] == shorter[i]);
            }
        }
    }
    assert(read =~= entries);
}

/// Decoding undoes encoding, whatever follows the record in the buffer.
pub proof fn lemma_parse_record_bytes(record: RecordView, rest: Seq<u8>)
    requires
        encodable(record),
    ensures
        record_bytes(record).len() == encoded_len(record),
        parse_record(record_bytes(record) + rest) == Some(record),
{
    let data: Seq<u8> = record_bytes(record) + rest;
    let a: nat = record.attributes.len();
    let n: nat = record.member_of.len();
    lemma_entries_bytes_len(record.member_of);
    assert(data.subrange(0, PREFIX_LEN as int) =~= le32(a));
    lemma_le32_read_back(a, data, 0);
    assert(data.subrange(PREFIX_LEN as int + a, 2 * PREFIX_LEN as int + a) =~= le32(n));
    lemma_le32_read_back(n, data, PREFIX_LEN as int + a);
    let before: Seq<u8> = le32(a) + record.attributes + le32(n);
    lemma_entries_at_entries_bytes(before, record.member_of, rest);
    assert(before + entries_bytes(record.member_of) + rest =~= data);
    assert(data.subrange(PREFIX_LEN as int, PREFIX_LEN as int + a) =~= record.attributes);
}

/// A buffer that decodes starts with the serialized form of the record that
/// it decodes to.
pub proof fn lemma_record_bytes_parse(data: Seq<u8>)
    requires
        parse_record(data) is Some,
    ensures
        encodable(parse_record(data).unwrap()),
        encoded_len(parse_record(data).unwrap()) <= data.len(),
        data == record_bytes(parse_record(data).unwrap()) + data.skip(
            encoded_len(parse_record(data).unwrap()) as int,
        ),
{
    let record: RecordView = parse_record(data).unwrap();
    let a: nat = le32_at(data, 0);
    let n: nat = le32_at(data, PREFIX_LEN as int + a);
    lemma_le32_write_back(data, 0);
    lemma_le32_write_back(data, PREFIX_LEN as int + a);
    lemma_entries_at_bytes(data, 2 * PREFIX_LEN as int + a, n);
    assert(data =~= record_bytes(record) + data.skip(encoded_len(record) as int));
}

} // verus!
