use crate::record::{
    decode_record, decodes, encode_record, lemma_encoding_is_canonical, lemma_round_trip,
    GreetingAccount,
};
use vstd::prelude::*;

verus! {

/// An account as the program sees it: the key of the program that owns it,
/// and its storage.
pub struct Account {
    pub owner: [u8; 32],
    pub data: Vec<u8>,
}

/// Why an instruction was refused.
#[derive(Debug, Clone, Copy, PartialEq, Eq, Structural)]
pub enum GreetError {
    /// No account was supplied.
    NotEnoughAccountKeys,
    /// The first account is not owned by this program.
    IncorrectProgramId,
    /// The payload is not, in full, the stored form of a greeting record.
    InvalidInstructionData,
    /// The first account's storage is shorter than the record to be written.
    AccountDataTooSmall,
}

/// What an instruction comes to: the name greeted, or the error, in the
/// order in which the checks are made.
pub open spec fn greeting_outcome(program_id: Seq<u8>, accounts: Seq<Account>, input: Seq<u8>) -> Result<
    Seq<char>,
    GreetError,
> {
    if accounts.len() == 0 {
        Err(GreetError::NotEnoughAccountKeys)
    } else if accounts[0].owner@ != program_id {
        Err(GreetError::IncorrectProgramId)
    } else if !decodes(input) {
        Err(GreetError::InvalidInstructionData)
    } else if input.len() > accounts[0].data@.len() {
        Err(GreetError::AccountDataTooSmall)
    } else {
        Ok(decode_record(input))
    }
}

/// Whether two keys are the same, byte for byte.
pub fn same_key(a: &[u8; 32], b: &[u8; 32]) -> (r: bool)
    ensures
        r == (a@ == b@),
{
    let mut i: usize = 0;
    while i < 32
        invariant
            i <= 32,
            a@.len() == 32,
            b@.len() == 32,
            forall|j: int| 0 <= j < i ==> a@[j] == b@[j],
        decreases 32 - i,
    {
        if a[i] != b[i] {
            return false;
        }
        i = i + 1;
    }
    assert(a@ =~= b@);
    true
}

/// Greets the name encoded in `input`: checks that the first account is
/// owned by `program_id`, reads the record from `input`, and writes it over
/// the front of that account's storage. A payload that is not a record is
/// refused with a typed error. On any error no account is changed.
pub fn process_instruction(program_id: &[u8; 32], accounts: &mut [Account], input: &[u8]) -> (r:
    Result<GreetingAccount, GreetError>)
    ensures
        greeting_outcome(program_id@, old(accounts)@, input@) matches Err(e) ==> r == Err::<
            GreetingAccount,
            GreetError,
        >(e) && final(accounts)@ == old(accounts)@,
        greeting_outcome(program_id@, old(accounts)@, input@) matches Ok(name) ==> {
            &&& r matches Ok(g)
            &&& g.name@ == name
            &&& final(accounts)@.len() == old(accounts)@.len()
            &&& final(accounts)@[0].owner == old(accounts)@[0].owner
            &&& final(accounts)@[0].data@ == encode_record(name) + old(accounts)@[0].data@.skip(
                encode_record(name).len() as int,
            )
            &&& decodes(final(accounts)@[0].data@.take(encode_record(name).len() as int))
            &&& decode_record(final(accounts)@[0].data@.take(encode_record(name).len() as int))
                == name
            &&& forall|i: int|
                1 <= i < old(accounts)@.len() ==> final(accounts)@[i] == old(accounts)@[i]
        },
{
    let account = match accounts.first_mut() {
        Some(account) => account,
        None => return Err(GreetError::NotEnoughAccountKeys),
    };
    if !same_key(&account.owner, program_id) {
        return Err(GreetError::IncorrectProgramId);
    }
    let record = match GreetingAccount::try_from_slice(input) {
        Ok(record) => record,
        Err(_) => return Err(GreetError::InvalidInstructionData),
    };
    if input.len() > account.data.len() {
        return Err(GreetError::AccountDataTooSmall);
    }
    proof {
        lemma_encoding_is_canonical(input@);
        lemma_round_trip(record.name@);
        let written = encode_record(record.name@) + account.data@.skip(input@.len() as int);
        assert(written.take(input@.len() as int) =~= encode_record(record.name@));
    }
    match record.serialize(account.data.as_mut_slice()) {
        Ok(()) => Ok(record),
        Err(_) => Err(GreetError::AccountDataTooSmall),
    }
}

} // verus!
