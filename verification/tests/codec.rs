use token_metadata::model::{AddMemberOfError, CollectionMembership, MetadataRecord};

fn entry(collection: u8, signature: u8) -> CollectionMembership {
    CollectionMembership { collection: [collection; 32], signature: [signature; 32] }
}

#[test]
fn empty_record_is_two_zero_prefixes() {
    let record = MetadataRecord { attributes: vec![], member_of: vec![] };
    assert_eq!(record.encode(), Some(vec![0, 0, 0, 0, 0, 0, 0, 0]));
}

#[test]
fn record_bytes_are_prefix_attributes_prefix_entries() {
    let record = MetadataRecord { attributes: vec![7, 8, 9], member_of: vec![entry(1, 2)] };
    let mut expected: Vec<u8> = vec![3, 0, 0, 0, 7, 8, 9, 1, 0, 0, 0];
    expected.extend_from_slice(&[1u8; 32]);
    expected.extend_from_slice(&[2u8; 32]);
    assert_eq!(record.encode(), Some(expected));
}

#[test]
fn length_prefix_is_little_endian() {
    let record = MetadataRecord { attributes: vec![5u8; 258], member_of: vec![] };
    let bytes = record.encode().unwrap();
    assert_eq!(&bytes[..4], &[2, 1, 0, 0]);
    assert_eq!(bytes.len(), 4 + 258 + 4);
    assert_eq!(&bytes[262..], &[0, 0, 0, 0]);
}

#[test]
fn entries_keep_their_order() {
    let record = MetadataRecord { attributes: vec![], member_of: vec![entry(1, 2), entry(3, 4)] };
    let bytes = record.encode().unwrap();
    assert_eq!(bytes.len(), 8 + 2 * 64);
    assert_eq!(&bytes[4..8], &[2, 0, 0, 0]);
    assert_eq!(&bytes[8..40], &[1u8; 32]);
    assert_eq!(&bytes[40..72], &[2u8; 32]);
    assert_eq!(&bytes[72..104], &[3u8; 32]);
    assert_eq!(&bytes[104..136], &[4u8; 32]);
}

#[test]
fn decode_reads_exact_bytes() {
    let mut data: Vec<u8> = vec![2, 0, 0, 0, 0xaa, 0xbb, 1, 0, 0, 0];
    data.extend((0u8..32).collect::<Vec<u8>>());
    data.extend((100u8..132).collect::<Vec<u8>>());
    let record = MetadataRecord::decode(&data).unwrap();
    assert_eq!(record.attributes, vec![0xaa, 0xbb]);
    assert_eq!(record.member_of.len(), 1);
    let mut collection = [0u8; 32];
    let mut signature = [0u8; 32];
    for i in 0..32 {
        collection[i] = i as u8;
        signature[i] = 100 + i as u8;
    }
    assert_eq!(record.member_of[0], CollectionMembership { collection, signature });
}

#[test]
fn decode_ignores_what_follows_the_record() {
    let record = MetadataRecord { attributes: vec![4, 5], member_of: vec![entry(6, 7)] };
    let mut data = record.encode().unwrap();
    data.extend_from_slice(&[0xee; 40]);
    assert_eq!(MetadataRecord::decode(&data), Ok(record));
}

#[test]
fn decode_undoes_encode() {
    let record = MetadataRecord {
        attributes: vec![1, 2, 3, 4, 5],
        member_of: vec![entry(10, 11), entry(12, 13), entry(10, 11)],
    };
    let data = record.encode().unwrap();
    assert_eq!(MetadataRecord::decode(&data), Ok(record));
}

#[test]
fn decode_rejects_empty_buffer() {
    assert_eq!(MetadataRecord::decode(&[]), Err(AddMemberOfError::Corrupt));
}

#[test]
fn decode_rejects_truncated_first_prefix() {
    assert_eq!(MetadataRecord::decode(&[0, 0, 0]), Err(AddMemberOfError::Corrupt));
}

#[test]
fn decode_rejects_missing_attribute_bytes() {
    assert_eq!(
        MetadataRecord::decode(&[3, 0, 0, 0, 1, 2, 0, 0, 0, 0]),
        Err(AddMemberOfError::Corrupt)
    );
}

#[test]
fn decode_rejects_missing_count() {
    assert_eq!(MetadataRecord::decode(&[1, 0, 0, 0, 9, 0, 0, 0]), Err(AddMemberOfError::Corrupt));
}

#[test]
fn decode_rejects_truncated_entry() {
    let mut data: Vec<u8> = vec![0, 0, 0, 0, 1, 0, 0, 0];
    data.extend_from_slice(&[1u8; 63]);
    assert_eq!(MetadataRecord::decode(&data), Err(AddMemberOfError::Corrupt));
    data.push(1);
    assert_eq!(MetadataRecord::decode(&data).unwrap().member_of, vec![entry(1, 1)]);
}

#[test]
fn decode_rejects_count_beyond_buffer() {
    let data: Vec<u8> = vec![0xff, 0xff, 0xff, 0xff, 0, 0, 0, 0];
    assert_eq!(MetadataRecord::decode(&data), Err(AddMemberOfError::Corrupt));
}

#[test]
fn push_member_appends_without_deduplication() {
    let mut record = MetadataRecord { attributes: vec![1], member_of: vec![entry(1, 2)] };
    record.push_member(entry(1, 2));
    assert_eq!(record.attributes, vec![1]);
    assert_eq!(record.member_of, vec![entry(1, 2), entry(1, 2)]);
}

#[test]
fn encode_agrees_with_borsh_on_the_pair() {
    let record = MetadataRecord { attributes: vec![9, 8, 7], member_of: vec![entry(1, 2), entry(3, 4)] };
    let pair: (Vec<u8>, Vec<([u8; 32], [u8; 32])>) =
        (vec![9, 8, 7], vec![([1u8; 32], [2u8; 32]), ([3u8; 32], [4u8; 32])]);
    assert_eq!(record.encode().unwrap(), borsh::to_vec(&pair).unwrap());
}
