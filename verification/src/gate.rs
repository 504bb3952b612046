//! The account gate: resolution of the supplied handles into roles.
//!
//! Handles carry no type. The only way to obtain [`Accounts`] is
//! [`parse_accounts`], which grants it after the ownership check, so whatever
//! works on `Accounts` works on checked handles.

use vstd::prelude::*;
use crate::model::{AccountHandle, AddMemberOfError, REQUIRED_HANDLES};

verus! {

/// Whether two identifiers hold the same bytes.
pub fn same_identifier(a: &[u8; 32], b: &[u8; 32]) -> (same: bool)
    ensures
        same <==> a@ == b@,
{
    let mut i: usize = 0;
    while i < 32
        invariant
            i <= 32,
            forall|j: int| 0 <= j < i ==> a@[j] == b@[j],
        decreases 32 - i,
    {
        if a[i] != b[i] {
            return false;
        }
        i += 1;
    }
    assert(a@ =~= b@);
    true
}

/// Hands out the handle at position `*next` and moves `*next` past it.
/// There is none once the list is used up.
pub fn next_account_info<'a>(accounts: &'a [AccountHandle], next: &mut usize) -> (out: Result<
    &'a AccountHandle,
    AddMemberOfError,
>)
    ensures
        *old(next) < accounts.len() ==> out == Ok::<&AccountHandle, AddMemberOfError>(
            &accounts[*old(next) as int],
        ) && *final(next) == *old(next) + 1,
        *old(next) >= accounts.len() ==> out == Err::<&AccountHandle, AddMemberOfError>(
            AddMemberOfError::MissingAccount,
        ) && *final(next) == *old(next),
{
    if *next < accounts.len() {
        let account: &AccountHandle = &accounts[*next];
        *next = *next + 1;
        Ok(account)
    } else {
        Err(AddMemberOfError::MissingAccount)
    }
}

/// Checks that `account` is owned by the program `owner`.
pub fn assert_owned_by(account: &AccountHandle, owner: &[u8; 32]) -> (out: Result<
    (),
    AddMemberOfError,
>)
    ensures
        account.owner@ == owner@ ==> out == Ok::<(), AddMemberOfError>(()),
        account.owner@ != owner@ ==> out == Err::<(), AddMemberOfError>(
            AddMemberOfError::IllegalOwner,
        ),
{
    if same_identifier(&account.owner, owner) {
        Ok(())
    } else {
        Err(AddMemberOfError::IllegalOwner)
    }
}

/// The five handles of an invocation, each in its role, together with the
/// program on whose behalf they were checked.
#[derive(Debug)]
pub struct Accounts<'a> {
    program_id: [u8; 32],
    token: &'a AccountHandle,
    member_of_collection: &'a AccountHandle,
    payer: &'a AccountHandle,
    rent: &'a AccountHandle,
    system: &'a AccountHandle,
}

impl<'a> Accounts<'a> {
    /// The collection-reference handle is owned by the program.
    #[verifier::type_invariant]
    spec fn authorized(self) -> bool {
        self.member_of_collection.owner@ == self.program_id@
    }

    /// The program on whose behalf the handles were checked.
    pub closed spec fn program(self) -> Seq<u8> {
        self.program_id@
    }

    /// The handles in the order in which they were supplied.
    pub closed spec fn handles(self) -> Seq<AccountHandle> {
        seq![*self.token, *self.member_of_collection, *self.payer, *self.rent, *self.system]
    }

    /// The metadata record to mutate.
    pub fn token(&self) -> (account: &'a AccountHandle)
        ensures
            *account == self.handles()[0],
    {
        self.token
    }

    /// The collection being attested. It is owned by the program.
    pub fn member_of_collection(&self) -> (account: &'a AccountHandle)
        ensures
            *account == self.handles()[1],
            account.owner@ == self.program(),
    {
        proof {
            use_type_invariant(self);
        }
        self.member_of_collection
    }

    pub fn payer(&self) -> (account: &'a AccountHandle)
        ensures
            *account == self.handles()[2],
    {
        self.payer
    }

    /// The price-oracle reference of the host.
    pub fn rent(&self) -> (account: &'a AccountHandle)
        ensures
            *account == self.handles()[3],
    {
        self.rent
    }

    /// The system service reference of the host.
    pub fn system(&self) -> (account: &'a AccountHandle)
        ensures
            *account == self.handles()[4],
    {
        self.system
    }
}

/// Whether the handles are admitted on behalf of `program_id`, and if not,
/// why.
pub open spec fn gate(program_id: Seq<u8>, accounts: Seq<AccountHandle>) -> Result<
    (),
    AddMemberOfError,
> {
    if accounts.len() < REQUIRED_HANDLES {
        Err(AddMemberOfError::MissingAccount)
    } else if accounts[1].owner@ != program_id {
        Err(AddMemberOfError::IllegalOwner)
    } else {
        Ok(())
    }
}

/// Binds the first five handles to their roles, in the order token,
/// collection reference, payer, rent, system, and checks that the collection
/// reference is owned by `program_id`. Handles beyond the fifth are ignored.
pub fn parse_accounts<'a>(program_id: &[u8; 32], accounts: &'a [AccountHandle]) -> (out: Result<
    Accounts<'a>,
    AddMemberOfError,
>)
    ensures
        match gate(program_id@, accounts@) {
            Ok(_) => out is Ok && out.unwrap().program() == program_id@
                && out.unwrap().handles() == accounts@.take(REQUIRED_HANDLES as int),
            Err(reason) => out matches Err(refusal) && refusal == reason,
        },
{
    let mut next: usize = 0;
    let token: &AccountHandle = match next_account_info(accounts, &mut next) {
        Ok(account) => account,
        Err(reason) => { return Err(reason); },
    };
    let member_of_collection: &AccountHandle = match next_account_info(accounts, &mut next) {
        Ok(account) => account,
        Err(reason) => { return Err(reason); },
    };
    let payer: &AccountHandle = match next_account_info(accounts, &mut next) {
        Ok(account) => account,
        Err(reason) => { return Err(reason); },
    };
    let rent: &AccountHandle = match next_account_info(accounts, &mut next) {
        Ok(account) => account,
        Err(reason) => { return Err(reason); },
    };
    let system: &AccountHandle = match next_account_info(accounts, &mut next) {
        Ok(account) => account,
        Err(reason) => { return Err(reason); },
    };
    match assert_owned_by(member_of_collection, program_id) {
        Ok(_) => {},
        Err(reason) => { return Err(reason); },
    }
    let roles = Accounts {
        program_id: *program_id,
        token,
        member_of_collection,
        payer,
        rent,
        system,
    };
    assert(roles.handles() =~= accounts@.take(REQUIRED_HANDLES as int));
    Ok(roles)
}

} // verus!
