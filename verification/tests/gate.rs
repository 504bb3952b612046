use token_metadata::gate::{assert_owned_by, next_account_info, parse_accounts, same_identifier};
use token_metadata::model::{AccountHandle, AddMemberOfError};

const PROGRAM: [u8; 32] = [7u8; 32];

fn handle(tag: u8, owner: [u8; 32]) -> AccountHandle {
    AccountHandle { key: [tag; 32], owner, data: vec![tag] }
}

fn five() -> Vec<AccountHandle> {
    vec![
        handle(1, [0u8; 32]),
        handle(2, PROGRAM),
        handle(3, [0u8; 32]),
        handle(4, [0u8; 32]),
        handle(5, [0u8; 32]),
    ]
}

#[test]
fn identifiers_compare_by_every_byte() {
    let a = [3u8; 32];
    let mut b = [3u8; 32];
    assert!(same_identifier(&a, &b));
    b[31] = 4;
    assert!(!same_identifier(&a, &b));
    b[31] = 3;
    b[0] = 0;
    assert!(!same_identifier(&a, &b));
}

#[test]
fn next_account_info_walks_the_list() {
    let accounts = five();
    let mut next = 0usize;
    for expected in 0..5usize {
        let got = next_account_info(&accounts, &mut next).unwrap();
        assert_eq!(got, &accounts[expected]);
        assert_eq!(next, expected + 1);
    }
    assert_eq!(next_account_info(&accounts, &mut next), Err(AddMemberOfError::MissingAccount));
    assert_eq!(next, 5);
}

#[test]
fn next_account_info_on_empty_list() {
    let accounts: Vec<AccountHandle> = vec![];
    let mut next = 0usize;
    assert_eq!(next_account_info(&accounts, &mut next), Err(AddMemberOfError::MissingAccount));
    assert_eq!(next, 0);
}

#[test]
fn owner_check_accepts_the_owner_only() {
    let account = handle(2, PROGRAM);
    assert_eq!(assert_owned_by(&account, &PROGRAM), Ok(()));
    assert_eq!(assert_owned_by(&account, &[6u8; 32]), Err(AddMemberOfError::IllegalOwner));
}

#[test]
fn roles_follow_the_order_of_the_handles() {
    let accounts = five();
    let roles = parse_accounts(&PROGRAM, &accounts).unwrap();
    assert_eq!(roles.token(), &accounts[0]);
    assert_eq!(roles.member_of_collection(), &accounts[1]);
    assert_eq!(roles.payer(), &accounts[2]);
    assert_eq!(roles.rent(), &accounts[3]);
    assert_eq!(roles.system(), &accounts[4]);
}

#[test]
fn handles_beyond_the_fifth_are_ignored() {
    let mut accounts = five();
    accounts.push(handle(6, [9u8; 32]));
    accounts.push(handle(7, [9u8; 32]));
    let roles = parse_accounts(&PROGRAM, &accounts).unwrap();
    assert_eq!(roles.system(), &accounts[4]);
}

#[test]
fn fewer_than_five_handles_are_rejected() {
    let all = five();
    for count in 0..5usize {
        let accounts: Vec<AccountHandle> = all[..count].to_vec();
        assert_eq!(
            parse_accounts(&PROGRAM, &accounts).unwrap_err(),
            AddMemberOfError::MissingAccount
        );
    }
}

#[test]
fn arity_is_checked_before_ownership() {
    let accounts = vec![handle(1, PROGRAM), handle(2, [9u8; 32])];
    assert_eq!(
        parse_accounts(&PROGRAM, &accounts).unwrap_err(),
        AddMemberOfError::MissingAccount
    );
}

#[test]
fn only_the_collection_reference_is_checked_for_ownership() {
    let mut accounts = five();
    accounts[1].owner = [9u8; 32];
    assert_eq!(
        parse_accounts(&PROGRAM, &accounts).unwrap_err(),
        AddMemberOfError::IllegalOwner
    );

    // The other four may be owned by anyone.
    let mut accounts = five();
    accounts[0].owner = [9u8; 32];
    accounts[2].owner = [9u8; 32];
    accounts[3].owner = [9u8; 32];
    accounts[4].owner = [9u8; 32];
    assert!(parse_accounts(&PROGRAM, &accounts).is_ok());
}

#[test]
fn owner_that_differs_in_one_byte_is_foreign() {
    let mut accounts = five();
    accounts[1].owner[17] ^= 1;
    assert_eq!(
        parse_accounts(&PROGRAM, &accounts).unwrap_err(),
        AddMemberOfError::IllegalOwner
    );
}
