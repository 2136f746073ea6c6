//! Cross-program invocation: the instruction handed to another program and
//! the checks made before the host is asked to run it.
use crate::account_info::{
    acquire_exclusive, acquire_shared, data_len_of, key_of, AccountInfo, DATA_SHIFT, HEADER_LEN,
    LAMPORTS_SHIFT,
};
use crate::error::ProgramError;
use crate::pubkey::{pubkey_eq, Pubkey};
use vstd::prelude::*;

verus! {

/// An account that an instruction reads or writes, as the instruction
/// declares it.
#[derive(Clone, Copy, Debug)]
pub struct AccountMeta {
    pub pubkey: Pubkey,
    pub is_writable: bool,
    pub is_signer: bool,
}

impl AccountMeta {
    pub fn new(pubkey: &Pubkey, is_writable: bool, is_signer: bool) -> (r: Self)
        ensures
            r.pubkey@ == pubkey@,
            r.is_writable == is_writable,
            r.is_signer == is_signer,
    {
        AccountMeta { pubkey: *pubkey, is_writable, is_signer }
    }

    pub fn readonly(pubkey: &Pubkey) -> (r: Self)
        ensures
            r.pubkey@ == pubkey@,
            !r.is_writable,
            !r.is_signer,
    {
        Self::new(pubkey, false, false)
    }

    pub fn writable(pubkey: &Pubkey) -> (r: Self)
        ensures
            r.pubkey@ == pubkey@,
            r.is_writable,
            !r.is_signer,
    {
        Self::new(pubkey, true, false)
    }

    pub fn readonly_signer(pubkey: &Pubkey) -> (r: Self)
        ensures
            r.pubkey@ == pubkey@,
            !r.is_writable,
            r.is_signer,
    {
        Self::new(pubkey, false, true)
    }

    pub fn writable_signer(pubkey: &Pubkey) -> (r: Self)
        ensures
            r.pubkey@ == pubkey@,
            r.is_writable,
            r.is_signer,
    {
        Self::new(pubkey, true, true)
    }

    /// The meta of an account as the input buffer describes it.
    pub fn from_account_info(account: &AccountInfo, input: &[u8]) -> (r: Self)
        requires
            account.wf(input@),
        ensures
            r.pubkey@ == key_of(input@, account.header()),
            r.is_writable == (input@[account.header() + 2] != 0),
            r.is_signer == (input@[account.header() + 1] != 0),
    {
        AccountMeta::new(&account.key(input), account.is_writable(input), account.is_signer(input))
    }
}

/// An instruction for another program.
#[derive(Clone, Debug)]
pub struct Instruction {
    pub program_id: Pubkey,
    pub data: Vec<u8>,
    pub accounts: Vec<AccountMeta>,
}

/// Sizes of a sibling instruction, as the host reports them.
#[derive(Clone, Copy, Debug, Default, PartialEq, Eq, Structural)]
pub struct ProcessedSiblingInstruction {
    /// Length of the instruction data.
    pub data_len: u64,
    /// Number of account metas.
    pub accounts_len: u64,
}

/// A seed of a program-derived address.
#[derive(Clone, Debug)]
pub struct Seed {
    pub bytes: Vec<u8>,
}

/// The seeds that sign for one program-derived address.
#[derive(Clone, Debug)]
pub struct Signer {
    pub seeds: Vec<Seed>,
}

/// The host's descriptor of an account passed to an invocation. It names
/// the account's fields by their position in the input buffer, so the callee
/// sees the live values, not copies.
#[derive(Clone, Copy, Debug, PartialEq, Eq, Structural)]
pub struct Account {
    pub key: usize,
    pub lamports: usize,
    pub data_len: u64,
    pub data: usize,
    pub owner: usize,
    pub rent_epoch: u64,
    pub is_signer: bool,
    pub is_writable: bool,
    pub executable: bool,
}

/// The descriptor of the account whose header is at `o`.
pub open spec fn descriptor_of(b: Seq<u8>, o: int) -> Account {
    Account {
        key: (o + 8) as usize,
        lamports: (o + 72) as usize,
        data_len: data_len_of(b, o),
        data: (o + HEADER_LEN) as usize,
        owner: (o + 40) as usize,
        rent_epoch: 0,
        is_signer: b[o + 1] != 0,
        is_writable: b[o + 2] != 0,
        executable: b[o + 3] != 0,
    }
}

impl Account {
    /// The descriptor of an account.
    pub fn from_account_info(account: &AccountInfo, input: &[u8]) -> (r: Self)
        requires
            account.wf(input@),
        ensures
            r == descriptor_of(input@, account.header()),
    {
        let o = account.offset();
        Account {
            key: o + 8,
            lamports: o + 72,
            data_len: account.data_len(input) as u64,
            data: o + HEADER_LEN,
            owner: o + 40,
            rent_epoch: 0,
            is_signer: account.is_signer(input),
            is_writable: account.is_writable(input),
            executable: account.executable(input),
        }
    }
}

/// The check made on one passed account: its key must be the declared one,
/// and the borrows its writability implies (mutable for a writable account,
/// shared otherwise, of its data and its lamports) must be available.
pub open spec fn account_check(b: Seq<u8>, meta: AccountMeta, info: AccountInfo) -> Option<ProgramError> {
    let state = b[info.header()];
    if key_of(b, info.header()) != meta.pubkey@ {
        Some(ProgramError::InvalidArgument)
    } else if meta.is_writable {
        if acquire_exclusive(state, DATA_SHIFT) is None || acquire_exclusive(state, LAMPORTS_SHIFT) is None {
            Some(ProgramError::AccountBorrowFailed)
        } else {
            None
        }
    } else {
        if acquire_shared(state, DATA_SHIFT) is None || acquire_shared(state, LAMPORTS_SHIFT) is None {
            Some(ProgramError::AccountBorrowFailed)
        } else {
            None
        }
    }
}

/// The first failing check among the accounts from `i` on, if any.
pub open spec fn first_failure(b: Seq<u8>, metas: Seq<AccountMeta>, infos: Seq<AccountInfo>, i: int) -> Option<ProgramError>
    decreases infos.len() - i,
{
    if i < 0 || i >= infos.len() {
        None
    } else {
        match account_check(b, metas[i], infos[i]) {
            Some(e) => Some(e),
            None => first_failure(b, metas, infos, i + 1),
        }
    }
}

/// Checks one account, taking and giving back the borrows its writability
/// implies.
fn check_account(meta: &AccountMeta, info: &AccountInfo, input: &mut Vec<u8>) -> (r: Result<(), ProgramError>)
    requires
        info.wf(old(input)@),
    ensures
        final(input)@ == old(input)@,
        r is Ok <==> account_check(old(input)@, *meta, *info) is None,
        r matches Err(e) ==> account_check(old(input)@, *meta, *info) == Some(e),
{
    let ghost b = input@;
    let key = info.key(input.as_slice());
    if !pubkey_eq(&key, &meta.pubkey) {
        return Err(ProgramError::InvalidArgument);
    }
    if meta.is_writable {
        match info.try_borrow_mut_data(input) {
            Ok(g) => {
                proof {
                    crate::account_info::lemma_exclusive_round_trip(b[info.header()], DATA_SHIFT);
                }
                g.release(input);
            },
            Err(e) => return Err(e),
        }
        assert(input@ =~= b);
        match info.try_borrow_mut_lamports(input) {
            Ok(g) => {
                proof {
                    crate::account_info::lemma_exclusive_round_trip(b[info.header()], LAMPORTS_SHIFT);
                }
                g.release(input);
            },
            Err(e) => return Err(e),
        }
        assert(input@ =~= b);
    } else {
        match info.try_borrow_data(input) {
            Ok(g) => {
                proof {
                    lemma_shared_round_trip(b[info.header()], DATA_SHIFT);
                }
                g.release(input);
            },
            Err(e) => return Err(e),
        }
        assert(input@ =~= b);
        match info.try_borrow_lamports(input) {
            Ok(g) => {
                proof {
                    lemma_shared_round_trip(b[info.header()], LAMPORTS_SHIFT);
                }
                g.release(input);
            },
            Err(e) => return Err(e),
        }
        assert(input@ =~= b);
    }
    Ok(())
}

proof fn lemma_shared_round_trip(state: u8, shift: u8)
    requires
        crate::account_info::is_resource_shift(shift),
        acquire_shared(state, shift) is Some,
    ensures
        crate::account_info::release_shared(acquire_shared(state, shift)->Some_0, shift) == state,
{
    let t = (state + (1u8 << shift)) as u8;
    assert(crate::account_info::release_shared(t, shift) == state) by (bit_vector)
        requires
            shift == 0 || shift == 4,
            !crate::account_info::mut_borrowed(state, shift),
            crate::account_info::shared_count(state, shift) != 7,
            t == (state + (1u8 << shift)) as u8;
}

/// Prepares an invocation of another program with program-derived
/// signers. The instruction must declare at least as many accounts as are
/// passed; each passed account must have the declared key and allow the
/// borrows its writability implies (they are taken and given back at once,
/// so the buffer is left as it was). On success returns the descriptors to
/// hand to the host, which runs the instruction with `signers_seeds`.
pub fn invoke_signed(
    instruction: &Instruction,
    account_infos: &[AccountInfo],
    signers_seeds: &[Signer],
    input: &mut Vec<u8>,
) -> (r: Result<Vec<Account>, ProgramError>)
    requires
        forall|i: int| 0 <= i < account_infos@.len() ==> (#[trigger] account_infos@[i]).wf(old(input)@),
    ensures
        final(input)@ == old(input)@,
        instruction.accounts@.len() < account_infos@.len()
            ==> r == Err::<Vec<Account>, ProgramError>(ProgramError::NotEnoughAccountKeys),
        instruction.accounts@.len() >= account_infos@.len() ==> match first_failure(old(input)@, instruction.accounts@, account_infos@, 0) {
            Some(e) => r == Err::<Vec<Account>, ProgramError>(e),
            None => r matches Ok(descriptors) && descriptors@.len() == account_infos@.len()
                && forall|i: int| 0 <= i < account_infos@.len()
                    ==> descriptors@[i] == descriptor_of(old(input)@, (#[trigger] account_infos@[i]).header()),
        },
{
    if instruction.accounts.len() < account_infos.len() {
        return Err(ProgramError::NotEnoughAccountKeys);
    }
    let ghost b = input@;
    let mut accounts: Vec<Account> = Vec::new();
    let mut index: usize = 0;
    while index < account_infos.len()
        invariant
            input@ == b,
            b == old(input)@,
            instruction.accounts@.len() >= account_infos@.len(),
            0 <= index <= account_infos@.len(),
            forall|i: int| 0 <= i < account_infos@.len() ==> (#[trigger] account_infos@[i]).wf(b),
            first_failure(b, instruction.accounts@, account_infos@, 0)
                == first_failure(b, instruction.accounts@, account_infos@, index as int),
            accounts@.len() == index,
            forall|i: int| 0 <= i < index ==> accounts@[i] == descriptor_of(b, (#[trigger] account_infos@[i]).header()),
        decreases account_infos@.len() - index,
    {
        let info = &account_infos[index];
        let meta = &instruction.accounts[index];
        match check_account(meta, info, input) {
            Ok(()) => {},
            Err(e) => return Err(e),
        }
        accounts.push(Account::from_account_info(info, input.as_slice()));
        index += 1;
    }
    Ok(accounts)
}

/// Prepares an invocation of another program without signers; see
/// [`invoke_signed`].
pub fn invoke(instruction: &Instruction, account_infos: &[AccountInfo], input: &mut Vec<u8>) -> (r: Result<Vec<Account>, ProgramError>)
    requires
        forall|i: int| 0 <= i < account_infos@.len() ==> (#[trigger] account_infos@[i]).wf(old(input)@),
    ensures
        final(input)@ == old(input)@,
        instruction.accounts@.len() < account_infos@.len()
            ==> r == Err::<Vec<Account>, ProgramError>(ProgramError::NotEnoughAccountKeys),
        instruction.accounts@.len() >= account_infos@.len() ==> match first_failure(old(input)@, instruction.accounts@, account_infos@, 0) {
            Some(e) => r == Err::<Vec<Account>, ProgramError>(e),
            None => r matches Ok(descriptors) && descriptors@.len() == account_infos@.len()
                && forall|i: int| 0 <= i < account_infos@.len()
                    ==> descriptors@[i] == descriptor_of(old(input)@, (#[trigger] account_infos@[i]).header()),
        },
{
    let no_signers: Vec<Signer> = Vec::new();
    invoke_signed(instruction, account_infos, no_signers.as_slice(), input)
}

} // verus!
