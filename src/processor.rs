//! Token rules shared by the instruction handlers: ownership checks,
//! signature validation (single owner or M-of-N multisig), transfers and
//! the conversion between raw and UI amounts.
use crate::account_info::{account_fits, data_len_of, data_of, key_of, owner_of, AccountInfo, HEADER_LEN};
use crate::error::{token_error_code, ProgramError, ProgramResult, TokenError};
use crate::pubkey::{pubkey_eq, token_program_id, token_program_key, Pubkey};
use crate::layout::{lemma_u64_untouched, lemma_u64_written, read_u64, write_at, write_u64};
use crate::state::{
    account_amount, load, multisig_signer, Account, Initializable, Multisig, RawType, ACCOUNT_LEN,
    MAX_SIGNERS, MULTISIG_LEN,
};
use vstd::bytes::{spec_u64_from_le_bytes, spec_u64_to_le_bytes};
use vstd::prelude::*;

verus! {

/// Checks that the account is owned by the token program.
pub fn check_account_owner(account_info: &AccountInfo, input: &[u8]) -> (r: ProgramResult)
    requires
        account_info.wf(input@),
    ensures
        r is Ok <==> owner_of(input@, account_info.header()) == token_program_id(),
        r is Err ==> r == Err::<(), ProgramError>(ProgramError::IncorrectProgramId),
{
    if !pubkey_eq(&token_program_key(), &account_info.owner(input)) {
        Err(ProgramError::IncorrectProgramId)
    } else {
        Ok(())
    }
}

/// Number of `true` among the first `n` entries of `s`.
pub open spec fn count_true(s: Seq<bool>, n: nat) -> nat
    decreases n,
{
    if n == 0 {
        0
    } else {
        count_true(s, (n - 1) as nat) + if s[n - 1] { 1nat } else { 0nat }
    }
}

/// The key of the `j`-th passed signer account.
pub open spec fn signer_key(b: Seq<u8>, signers: Seq<AccountInfo>, j: int) -> Seq<u8> {
    key_of(b, signers[j].header())
}

/// The `j`-th passed account is the first one with its key.
pub open spec fn first_with_key(b: Seq<u8>, signers: Seq<AccountInfo>, j: int) -> bool {
    forall|i: int| 0 <= i < j ==> signer_key(b, signers, i) != signer_key(b, signers, j)
}

/// One of the first `upto` passed accounts has the multisig's `p`-th key.
pub open spec fn key_claimed(b: Seq<u8>, ms: Seq<u8>, signers: Seq<AccountInfo>, p: int, upto: int) -> bool {
    exists|j: int| 0 <= j < upto && signer_key(b, signers, j) == multisig_signer(ms, p)
}

/// Among the first `upto` passed accounts, one that did not sign is the
/// first to carry one of the multisig's first `n` keys.
pub open spec fn unsigned_claim(b: Seq<u8>, ms: Seq<u8>, signers: Seq<AccountInfo>, n: int, upto: int) -> bool {
    exists|j: int, p: int|
        0 <= j < upto && 0 <= p < n && b[signers[j].header() + 1] == 0 && first_with_key(b, signers, j)
            && #[trigger] signer_key(b, signers, j) == #[trigger] multisig_signer(ms, p)
}

/// Which of the multisig's first `n` keys some passed account carries.
pub open spec fn claimed_keys(b: Seq<u8>, ms: Seq<u8>, signers: Seq<AccountInfo>, n: int) -> Seq<bool> {
    Seq::new(n as nat, |p: int| key_claimed(b, ms, signers, p, signers.len() as int))
}

/// The outcome of validating that `expected` owns something and has signed,
/// through the owner account at `o` and the extra signer accounts.
pub open spec fn owner_check(b: Seq<u8>, expected: Seq<u8>, o: int, signers: Seq<AccountInfo>) -> ProgramResult {
    if key_of(b, o) != expected {
        Err(ProgramError::Custom(token_error_code(TokenError::OwnerMismatch)))
    } else if data_len_of(b, o) == MULTISIG_LEN && owner_of(b, o) == token_program_id() {
        let ms = data_of(b, o);
        let n = ms[1] as int;
        if !Multisig::well_formed(ms) {
            Err(ProgramError::InvalidAccountData)
        } else if !Multisig::initialized(ms) {
            Err(ProgramError::UninitializedAccount)
        } else if unsigned_claim(b, ms, signers, n, signers.len() as int)
            || count_true(claimed_keys(b, ms, signers, n), n as nat) < ms[0] {
            Err(ProgramError::MissingRequiredSignature)
        } else {
            Ok(())
        }
    } else if b[o + 1] == 0 {
        Err(ProgramError::MissingRequiredSignature)
    } else {
        Ok(())
    }
}

proof fn lemma_count_set(s: Seq<bool>, n: nat, p: int)
    requires
        0 <= p < n <= s.len(),
        !s[p],
    ensures
        count_true(s.update(p, true), n) == count_true(s, n) + 1,
    decreases n,
{
    if n - 1 > p {
        lemma_count_set(s, (n - 1) as nat, p);
    } else {
        lemma_count_same(s, s.update(p, true), (n - 1) as nat);
    }
}

proof fn lemma_count_same(s1: Seq<bool>, s2: Seq<bool>, n: nat)
    requires
        n <= s1.len(),
        n <= s2.len(),
        forall|p: int| 0 <= p < n ==> s1[p] == s2[p],
    ensures
        count_true(s1, n) == count_true(s2, n),
    decreases n,
{
    if n > 0 {
        lemma_count_same(s1, s2, (n - 1) as nat);
    }
}

proof fn lemma_count_none(s: Seq<bool>, n: nat)
    requires
        n <= s.len(),
        forall|p: int| 0 <= p < n ==> !s[p],
    ensures
        count_true(s, n) == 0,
    decreases n,
{
    if n > 0 {
        lemma_count_none(s, (n - 1) as nat);
    }
}

proof fn lemma_count_bound(s: Seq<bool>, n: nat)
    ensures
        count_true(s, n) <= n,
    decreases n,
{
    if n > 0 {
        lemma_count_bound(s, (n - 1) as nat);
    }
}

/// Validates that `expected_owner` is the owner account's key and that the
/// owner has signed: directly, or, for a multisig owned by the token
/// program, through at least `m` distinct multisig keys carried by signing
/// accounts among `signers`.
pub fn validate_owner(
    expected_owner: &Pubkey,
    owner_account_info: &AccountInfo,
    signers: &[AccountInfo],
    input: &[u8],
) -> (r: ProgramResult)
    requires
        owner_account_info.wf(input@),
        forall|j: int| 0 <= j < signers@.len() ==> (#[trigger] signers@[j]).wf(input@),
    ensures
        r == owner_check(input@, expected_owner@, owner_account_info.header(), signers@),
{
    let ghost b = input@;
    let ghost o = owner_account_info.header();
    if !pubkey_eq(expected_owner, &owner_account_info.key(input)) {
        return Err(ProgramError::Custom(TokenError::OwnerMismatch.code()));
    }
    if owner_account_info.data_len(input) == MULTISIG_LEN
        && pubkey_eq(&owner_account_info.owner(input), &token_program_key()) {
        let data = owner_account_info.borrow_data_unchecked(input);
        let multisig: Multisig = match load(data) {
            Ok(m) => m,
            Err(e) => return Err(e),
        };
        let ghost ms = data@;
        let n = multisig.n() as usize;
        let mut num_signers: usize = 0;
        let mut matched: [bool; 11] = [false; 11];
        proof {
            lemma_count_none(matched@, n as nat);
        }
        let mut j: usize = 0;
        while j < signers.len()
            invariant
                b == input@,
                ms == data_of(b, o),
                ms.len() == MULTISIG_LEN,
                multisig@ == ms,
                Multisig::well_formed(ms),
                Multisig::initialized(ms),
                key_of(b, o) == expected_owner@,
                o == owner_account_info.header(),
                data_len_of(b, o) == MULTISIG_LEN,
                owner_of(b, o) == token_program_id(),
                n == ms[1] as int,
                n <= MAX_SIGNERS,
                0 <= j <= signers@.len(),
                forall|i: int| 0 <= i < signers@.len() ==> (#[trigger] signers@[i]).wf(b),
                !unsigned_claim(b, ms, signers@, n as int, j as int),
                forall|p: int| 0 <= p < n ==> matched@[p] == key_claimed(b, ms, signers@, p, j as int),
                num_signers == count_true(matched@, n as nat),
                num_signers <= n,
            decreases signers@.len() - j,
        {
            let signer = &signers[j];
            let key = signer.key(input);
            let signed = signer.is_signer(input);
            let mut position: usize = 0;
            while position < n
                invariant
                    b == input@,
                    ms == data_of(b, o),
                    ms.len() == MULTISIG_LEN,
                    multisig@ == ms,
                    Multisig::well_formed(ms),
                    Multisig::initialized(ms),
                    key_of(b, o) == expected_owner@,
                    o == owner_account_info.header(),
                o == owner_account_info.header(),
                    data_len_of(b, o) == MULTISIG_LEN,
                    owner_of(b, o) == token_program_id(),
                    n == ms[1] as int,
                    n <= MAX_SIGNERS,
                    0 <= j < signers@.len(),
                    key@ == signer_key(b, signers@, j as int),
                    signed == (b[signers@[j as int].header() + 1] != 0),
                    !unsigned_claim(b, ms, signers@, n as int, j as int),
                    0 <= position <= n,
                    forall|p: int| 0 <= p < position ==> matched@[p] == key_claimed(b, ms, signers@, p, j + 1),
                    forall|p: int| position <= p < n ==> matched@[p] == key_claimed(b, ms, signers@, p, j as int),
                    forall|p: int| 0 <= p < position && multisig_signer(ms, p) == key@ && !signed
                        ==> key_claimed(b, ms, signers@, p, j as int),
                    num_signers == count_true(matched@, n as nat),
                    num_signers <= n,
                decreases n - position,
            {
                let candidate = multisig.signer(position);
                let same = pubkey_eq(&candidate, &key);
                proof {
                    let p = position as int;
                    if same {
                        assert(key_claimed(b, ms, signers@, p, j + 1));
                    } else {
                        if key_claimed(b, ms, signers@, p, j + 1) {
                            let w = choose|w: int| 0 <= w < j + 1 && signer_key(b, signers@, w) == multisig_signer(ms, p);
                            assert(w < j);
                            assert(key_claimed(b, ms, signers@, p, j as int));
                        }
                        assert(key_claimed(b, ms, signers@, p, j + 1) == key_claimed(b, ms, signers@, p, j as int));
                    }
                }
                if same && !matched[position] {
                    if !signed {
                        proof {
                            let p = position as int;
                            assert forall|i: int| 0 <= i < j implies signer_key(b, signers@, i) != signer_key(b, signers@, j as int) by {
                                if signer_key(b, signers@, i) == signer_key(b, signers@, j as int) {
                                    assert(key_claimed(b, ms, signers@, p, j as int));
                                }
                            }
                            assert(first_with_key(b, signers@, j as int));
                            assert(signer_key(b, signers@, j as int) == multisig_signer(ms, p));
                            assert(unsigned_claim(b, ms, signers@, n as int, signers@.len() as int));
                        }
                        return Err(ProgramError::MissingRequiredSignature);
                    }
                    proof {
                        lemma_count_set(matched@, n as nat, position as int);
                        lemma_count_bound(matched@.update(position as int, true), n as nat);
                    }
                    matched[position] = true;
                    num_signers += 1;
                }
                position += 1;
            }
            proof {
                assert forall|jj: int, p: int|
                    0 <= jj < j + 1 && 0 <= p < n && b[signers@[jj].header() + 1] == 0 && first_with_key(b, signers@, jj)
                        && #[trigger] signer_key(b, signers@, jj) == #[trigger] multisig_signer(ms, p) implies false by {
                    if jj < j {
                        assert(unsigned_claim(b, ms, signers@, n as int, j as int));
                    } else {
                        assert(key_claimed(b, ms, signers@, p, j as int));
                        let w = choose|w: int| 0 <= w < j && signer_key(b, signers@, w) == multisig_signer(ms, p);
                        assert(signer_key(b, signers@, w) != signer_key(b, signers@, jj));
                    }
                }
            }
            j += 1;
        }
        proof {
            lemma_count_same(matched@, claimed_keys(b, ms, signers@, n as int), n as nat);
        }
        if num_signers < multisig.m() as usize {
            return Err(ProgramError::MissingRequiredSignature);
        }
    } else if !owner_account_info.is_signer(input) {
        return Err(ProgramError::MissingRequiredSignature);
    }
    Ok(())
}

/// The image is a loadable token account: the right size, well formed and
/// initialized; otherwise the error that loading it gives.
pub open spec fn token_account_error(data: Seq<u8>) -> Option<ProgramError> {
    if data.len() != ACCOUNT_LEN || !Account::well_formed(data) {
        Some(ProgramError::InvalidAccountData)
    } else if !Account::initialized(data) {
        Some(ProgramError::UninitializedAccount)
    } else {
        None
    }
}

/// The outcome of moving `amount` tokens between the token accounts at
/// `s` and `d`, authorized through the account at `a` and `signers`.
pub open spec fn transfer_check(b: Seq<u8>, s: int, d: int, a: int, signers: Seq<AccountInfo>, amount: u64) -> ProgramResult {
    let src = data_of(b, s);
    let dst = data_of(b, d);
    if token_account_error(src) is Some {
        Err(token_account_error(src)->Some_0)
    } else if token_account_error(dst) is Some {
        Err(token_account_error(dst)->Some_0)
    } else if src[108] == 2 || dst[108] == 2 {
        Err(ProgramError::Custom(token_error_code(TokenError::AccountFrozen)))
    } else if account_amount(src) < amount {
        Err(ProgramError::Custom(token_error_code(TokenError::InsufficientFunds)))
    } else if src.subrange(0, 32) != dst.subrange(0, 32) {
        Err(ProgramError::Custom(token_error_code(TokenError::MintMismatch)))
    } else if owner_check(b, src.subrange(32, 64), a, signers) is Err {
        owner_check(b, src.subrange(32, 64), a, signers)
    } else if s == d {
        if owner_of(b, s) != token_program_id() { Err(ProgramError::IncorrectProgramId) } else { Ok(()) }
    } else if account_amount(dst) + amount > u64::MAX {
        Err(ProgramError::Custom(token_error_code(TokenError::Overflow)))
    } else {
        Ok(())
    }
}

/// The buffer after a successful transfer between two distinct accounts.
pub open spec fn transfer_result(b: Seq<u8>, s: int, d: int, amount: u64) -> Seq<u8> {
    let new_src = (account_amount(data_of(b, s)) - amount) as u64;
    let new_dst = (account_amount(data_of(b, d)) + amount) as u64;
    write_at(write_at(b, s + HEADER_LEN + 64, spec_u64_to_le_bytes(new_src)), d + HEADER_LEN + 64, spec_u64_to_le_bytes(new_dst))
}

/// Moves `amount` tokens from the first account to the second. The
/// accounts are the source, the destination, the source's owner and, for a
/// multisig owner, its signers. The source's owner must authorize; frozen
/// accounts, a short balance, different mints and an overflowing balance are
/// refused. A transfer from an account to itself changes nothing.
pub fn transfer(accounts: &[AccountInfo], amount: u64, input: &mut Vec<u8>) -> (r: ProgramResult)
    requires
        forall|j: int| 0 <= j < accounts@.len() ==> (#[trigger] accounts@[j]).wf(old(input)@),
    ensures
        accounts@.len() < 3 ==> r == Err::<(), ProgramError>(ProgramError::NotEnoughAccountKeys),
        accounts@.len() >= 3 ==> r == transfer_check(old(input)@, accounts@[0].header(), accounts@[1].header(),
            accounts@[2].header(), accounts@.subrange(3, accounts@.len() as int), amount),
        r is Err ==> final(input)@ == old(input)@,
        r is Ok && accounts@[0].header() == accounts@[1].header() ==> final(input)@ == old(input)@,
        r is Ok && accounts@[0].header() != accounts@[1].header() ==> final(input)@ == transfer_result(
            old(input)@, accounts@[0].header(), accounts@[1].header(), amount),
{
    if accounts.len() < 3 {
        return Err(ProgramError::NotEnoughAccountKeys);
    }
    let ghost b = input@;
    let source_info = &accounts[0];
    let destination_info = &accounts[1];
    let authority_info = &accounts[2];
    let source: Account = match load(source_info.borrow_data_unchecked(input.as_slice())) {
        Ok(a) => a,
        Err(e) => return Err(e),
    };
    let destination: Account = match load(destination_info.borrow_data_unchecked(input.as_slice())) {
        Ok(a) => a,
        Err(e) => return Err(e),
    };
    if source.is_frozen() || destination.is_frozen() {
        return Err(ProgramError::Custom(TokenError::AccountFrozen.code()));
    }
    let source_amount = source.amount();
    if source_amount < amount {
        return Err(ProgramError::Custom(TokenError::InsufficientFunds.code()));
    }
    if !pubkey_eq(&source.mint(), &destination.mint()) {
        proof {
            assert(source@.subrange(0, 32) != destination@.subrange(0, 32));
        }
        return Err(ProgramError::Custom(TokenError::MintMismatch.code()));
    }
    let signers = &accounts[3..accounts.len()];
    proof {
        assert(signers@ =~= accounts@.subrange(3, accounts@.len() as int));
    }
    match validate_owner(&source.owner(), authority_info, signers, input.as_slice()) {
        Ok(()) => {},
        Err(e) => return Err(e),
    }
    let s = source_info.offset();
    let d = destination_info.offset();
    if s == d {
        return match check_account_owner(source_info, input.as_slice()) {
            Ok(()) => Ok(()),
            Err(e) => Err(e),
        };
    }
    let destination_amount = destination.amount();
    if destination_amount > u64::MAX - amount {
        return Err(ProgramError::Custom(TokenError::Overflow.code()));
    }
    write_u64(input, s + HEADER_LEN + 64, source_amount - amount);
    write_u64(input, d + HEADER_LEN + 64, destination_amount + amount);
    Ok(())
}

/// The transfer instruction: an 8-byte little-endian amount, then
/// [`transfer`].
pub fn process_transfer(accounts: &[AccountInfo], instruction_data: &[u8], input: &mut Vec<u8>) -> (r: ProgramResult)
    requires
        forall|j: int| 0 <= j < accounts@.len() ==> (#[trigger] accounts@[j]).wf(old(input)@),
    ensures
        instruction_data@.len() != 8 ==> r == Err::<(), ProgramError>(ProgramError::InvalidInstructionData)
            && final(input)@ == old(input)@,
        instruction_data@.len() == 8 && accounts@.len() < 3 ==> r == Err::<(), ProgramError>(ProgramError::NotEnoughAccountKeys),
        instruction_data@.len() == 8 && accounts@.len() >= 3 ==> ({
            let amount = spec_u64_from_le_bytes(instruction_data@);
            &&& r == transfer_check(old(input)@, accounts@[0].header(), accounts@[1].header(),
                accounts@[2].header(), accounts@.subrange(3, accounts@.len() as int), amount)
            &&& r is Ok && accounts@[0].header() != accounts@[1].header() ==> final(input)@ == transfer_result(
                old(input)@, accounts@[0].header(), accounts@[1].header(), amount)
        }),
        r is Err ==> final(input)@ == old(input)@,
        r is Ok && accounts@[0].header() == accounts@[1].header() ==> final(input)@ == old(input)@,
{
    if instruction_data.len() != 8 {
        return Err(ProgramError::InvalidInstructionData);
    }
    let amount = read_u64(instruction_data, 0);
    proof {
        assert(instruction_data@.subrange(0, 8) =~= instruction_data@);
    }
    transfer(accounts, amount, input)
}

/// A successful transfer between two accounts whose headers and records do
/// not overlap leaves the source holding `amount` tokens less and the
/// destination `amount` tokens more, with both data lengths unchanged.
pub proof fn lemma_transfer_balances(b: Seq<u8>, s: int, d: int, a: int, signers: Seq<AccountInfo>, amount: u64)
    requires
        account_fits(b, s),
        account_fits(b, d),
        s + HEADER_LEN + ACCOUNT_LEN <= d || d + HEADER_LEN + ACCOUNT_LEN <= s,
        transfer_check(b, s, d, a, signers, amount) is Ok,
    ensures
        ({
            let f = transfer_result(b, s, d, amount);
            &&& data_len_of(f, s) == data_len_of(b, s)
            &&& data_len_of(f, d) == data_len_of(b, d)
            &&& account_amount(data_of(f, s)) == account_amount(data_of(b, s)) - amount
            &&& account_amount(data_of(f, d)) == account_amount(data_of(b, d)) + amount
        }),
{
    let new_src = (account_amount(data_of(b, s)) - amount) as u64;
    let new_dst = (account_amount(data_of(b, d)) + amount) as u64;
    let ls = spec_u64_to_le_bytes(new_src);
    let ld = spec_u64_to_le_bytes(new_dst);
    vstd::bytes::lemma_auto_spec_u64_to_from_le_bytes();
    let f1 = write_at(b, s + HEADER_LEN + 64, ls);
    let f = write_at(f1, d + HEADER_LEN + 64, ld);
    assert(data_of(b, s).len() == ACCOUNT_LEN);
    assert(data_of(b, d).len() == ACCOUNT_LEN);
    lemma_u64_untouched(b, s + HEADER_LEN + 64, ls, s + 80);
    lemma_u64_untouched(b, s + HEADER_LEN + 64, ls, d + 80);
    lemma_u64_untouched(f1, d + HEADER_LEN + 64, ld, s + 80);
    lemma_u64_untouched(f1, d + HEADER_LEN + 64, ld, d + 80);
    lemma_u64_written(b, s + HEADER_LEN + 64, new_src);
    lemma_u64_untouched(f1, d + HEADER_LEN + 64, ld, s + HEADER_LEN + 64);
    lemma_u64_untouched(b, s + HEADER_LEN + 64, ls, d + HEADER_LEN + 64);
    lemma_u64_written(f1, d + HEADER_LEN + 64, new_dst);
    assert(data_of(f, s).subrange(64, 72) =~= f.subrange(s + HEADER_LEN + 64, s + HEADER_LEN + 72));
    assert(data_of(f, d).subrange(64, 72) =~= f.subrange(d + HEADER_LEN + 64, d + HEADER_LEN + 72));
    assert(data_of(b, s).subrange(64, 72) =~= b.subrange(s + HEADER_LEN + 64, s + HEADER_LEN + 72));
    assert(data_of(b, d).subrange(64, 72) =~= b.subrange(d + HEADER_LEN + 64, d + HEADER_LEN + 72));
}

} // verus!
