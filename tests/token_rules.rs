use p_token::account_info::{AccountInfo, MAX_PERMITTED_DATA_INCREASE};
use p_token::entrypoint::deserialize;
use p_token::error::{ProgramError, TokenError};
use p_token::instruction::{invoke, invoke_signed, Account, AccountMeta, Instruction, Seed, Signer};
use p_token::processor::{check_account_owner, process_transfer, transfer, validate_owner};
use p_token::state::{Account as TokenAccount, Multisig, RawType, ACCOUNT_LEN, MULTISIG_LEN};
use p_token::token::id;

struct Acc {
    signer: bool,
    writable: bool,
    key: [u8; 32],
    owner: [u8; 32],
    lamports: u64,
    data: Vec<u8>,
}

fn serialize(entries: &[Acc], data: &[u8], program_id: [u8; 32]) -> Vec<u8> {
    let mut b = Vec::new();
    b.extend_from_slice(&(entries.len() as u64).to_le_bytes());
    for a in entries {
        b.push(0xff);
        b.push(a.signer as u8);
        b.push(a.writable as u8);
        b.push(0);
        b.extend_from_slice(&0u32.to_le_bytes());
        b.extend_from_slice(&a.key);
        b.extend_from_slice(&a.owner);
        b.extend_from_slice(&a.lamports.to_le_bytes());
        b.extend_from_slice(&(a.data.len() as u64).to_le_bytes());
        b.extend_from_slice(&a.data);
        b.extend(std::iter::repeat(0u8).take(MAX_PERMITTED_DATA_INCREASE));
        while b.len() % 8 != 0 {
            b.push(0);
        }
        b.extend_from_slice(&0u64.to_le_bytes());
    }
    b.extend_from_slice(&(data.len() as u64).to_le_bytes());
    b.extend_from_slice(data);
    b.extend_from_slice(&program_id);
    b
}

fn token_account(mint: [u8; 32], owner: [u8; 32], amount: u64, state: u8) -> Vec<u8> {
    let mut d = vec![0u8; ACCOUNT_LEN];
    d[0..32].copy_from_slice(&mint);
    d[32..64].copy_from_slice(&owner);
    d[64..72].copy_from_slice(&amount.to_le_bytes());
    d[108] = state;
    d
}

fn multisig(m: u8, signers: &[[u8; 32]]) -> Vec<u8> {
    let mut d = vec![0u8; MULTISIG_LEN];
    d[0] = m;
    d[1] = signers.len() as u8;
    d[2] = 1;
    for (i, s) in signers.iter().enumerate() {
        d[3 + 32 * i..3 + 32 * i + 32].copy_from_slice(s);
    }
    d
}

fn plain(key: u8, signer: bool) -> Acc {
    Acc { signer, writable: false, key: [key; 32], owner: [0; 32], lamports: 1, data: vec![] }
}

fn amount_of(a: &AccountInfo, input: &[u8]) -> u64 {
    let t: TokenAccount = p_token::state::load(a.borrow_data_unchecked(input)).unwrap();
    t.amount()
}

fn transfer_setup(owner_signs: bool, dst_state: u8) -> (Vec<u8>, Vec<AccountInfo>) {
    let token = id();
    let x = Acc { signer: false, writable: true, key: [1; 32], owner: token, lamports: 1, data: token_account([5; 32], [8; 32], 500, 1) };
    let y = Acc { signer: false, writable: true, key: [2; 32], owner: token, lamports: 1, data: token_account([5; 32], [6; 32], 100, dst_state) };
    let mut input = serialize(&[x, y, plain(8, owner_signs)], &[], token);
    let (_, accounts, _) = deserialize::<8>(&mut input).unwrap();
    (input, accounts)
}

#[test]
fn transfer_moves_balance() {
    let (mut input, accounts) = transfer_setup(true, 1);
    transfer(&accounts, 120, &mut input).unwrap();
    assert_eq!(amount_of(&accounts[0], &input), 380);
    assert_eq!(amount_of(&accounts[1], &input), 220);
}

#[test]
fn transfer_with_instruction_data() {
    let (mut input, accounts) = transfer_setup(true, 1);
    process_transfer(&accounts, &500u64.to_le_bytes(), &mut input).unwrap();
    assert_eq!(amount_of(&accounts[0], &input), 0);
    assert_eq!(amount_of(&accounts[1], &input), 600);
    assert_eq!(process_transfer(&accounts, &[1, 2, 3], &mut input), Err(ProgramError::InvalidInstructionData));
}

#[test]
fn transfer_of_too_much_changes_nothing() {
    let (mut input, accounts) = transfer_setup(true, 1);
    let before = input.clone();
    assert_eq!(transfer(&accounts, 600, &mut input), Err(ProgramError::Custom(TokenError::InsufficientFunds.code())));
    assert_eq!(input, before);
    assert_eq!(amount_of(&accounts[0], &input), 500);
    assert_eq!(amount_of(&accounts[1], &input), 100);
}

#[test]
fn transfer_needs_owner_signature() {
    let (mut input, accounts) = transfer_setup(false, 1);
    let before = input.clone();
    assert_eq!(transfer(&accounts, 100, &mut input), Err(ProgramError::MissingRequiredSignature));
    assert_eq!(input, before);
}

#[test]
fn transfer_refuses_frozen_and_wrong_authority() {
    let (mut input, accounts) = transfer_setup(true, 2);
    assert_eq!(transfer(&accounts, 1, &mut input), Err(ProgramError::Custom(TokenError::AccountFrozen.code())));
    let (mut input, accounts) = transfer_setup(true, 1);
    let swapped = vec![accounts[0], accounts[1], accounts[1]];
    assert_eq!(transfer(&swapped, 1, &mut input), Err(ProgramError::Custom(TokenError::OwnerMismatch.code())));
    assert_eq!(transfer(&accounts[0..2], 1, &mut input), Err(ProgramError::NotEnoughAccountKeys));
}

#[test]
fn transfer_to_self_changes_nothing() {
    let (mut input, accounts) = transfer_setup(true, 1);
    let same = vec![accounts[0], accounts[0], accounts[2]];
    let before = input.clone();
    transfer(&same, 10, &mut input).unwrap();
    assert_eq!(input, before);
}

#[test]
fn owner_check_of_token_accounts() {
    let (input, accounts) = transfer_setup(true, 1);
    assert_eq!(check_account_owner(&accounts[0], &input), Ok(()));
    assert_eq!(check_account_owner(&accounts[2], &input), Err(ProgramError::IncorrectProgramId));
}

#[test]
fn multisig_owner_needs_m_signers() {
    let token = id();
    let keys = [[31u8; 32], [32u8; 32], [33u8; 32]];
    let ms = Acc { signer: false, writable: false, key: [30; 32], owner: token, lamports: 1, data: multisig(2, &keys) };
    let mut input = serialize(&[ms, plain(31, true), plain(32, false), plain(33, true)], &[], token);
    let (_, accounts, _) = deserialize::<8>(&mut input).unwrap();
    // 31 and 33 signed: two of three
    assert_eq!(validate_owner(&[30; 32], &accounts[0], &[accounts[1], accounts[3]], &input), Ok(()));
    // only one signer
    assert_eq!(validate_owner(&[30; 32], &accounts[0], &[accounts[1]], &input), Err(ProgramError::MissingRequiredSignature));
    // a listed key that did not sign
    assert_eq!(validate_owner(&[30; 32], &accounts[0], &[accounts[2], accounts[1], accounts[3]], &input), Err(ProgramError::MissingRequiredSignature));
    // the same signer twice counts once
    assert_eq!(validate_owner(&[30; 32], &accounts[0], &[accounts[1], accounts[1]], &input), Err(ProgramError::MissingRequiredSignature));
    // wrong expected owner
    assert_eq!(validate_owner(&[29; 32], &accounts[0], &[], &input), Err(ProgramError::Custom(TokenError::OwnerMismatch.code())));
}

#[test]
fn uninitialized_multisig_is_refused() {
    let token = id();
    let mut data = multisig(1, &[[31u8; 32]]);
    data[2] = 0;
    let ms = Acc { signer: true, writable: false, key: [30; 32], owner: token, lamports: 1, data };
    let mut input = serialize(&[ms, plain(31, true)], &[], token);
    let (_, accounts, _) = deserialize::<8>(&mut input).unwrap();
    assert_eq!(validate_owner(&[30; 32], &accounts[0], &[accounts[1]], &input), Err(ProgramError::UninitializedAccount));
}

fn cpi_setup() -> (Vec<u8>, Vec<AccountInfo>) {
    let mut input = serialize(&[plain(1, true), plain(2, false), plain(3, false)], &[], [0; 32]);
    let (_, accounts, _) = deserialize::<8>(&mut input).unwrap();
    (input, accounts)
}

#[test]
fn invoke_with_too_few_declared_accounts() {
    let (mut input, accounts) = cpi_setup();
    let ix = Instruction {
        program_id: [4; 32],
        data: vec![1],
        accounts: vec![AccountMeta::writable_signer(&[1; 32]), AccountMeta::readonly(&[2; 32])],
    };
    let before = input.clone();
    assert_eq!(invoke(&ix, &accounts, &mut input).unwrap_err(), ProgramError::NotEnoughAccountKeys);
    assert_eq!(input, before);
}

#[test]
fn invoke_checks_keys_and_borrows() {
    let (mut input, accounts) = cpi_setup();
    let ix = Instruction {
        program_id: [4; 32],
        data: vec![],
        accounts: vec![AccountMeta::writable(&[1; 32]), AccountMeta::readonly(&[2; 32]), AccountMeta::readonly_signer(&[3; 32])],
    };
    let descriptors = invoke(&ix, &accounts, &mut input).unwrap();
    assert_eq!(descriptors.len(), 3);
    assert_eq!(descriptors[0], Account::from_account_info(&accounts[0], &input));
    assert_eq!(descriptors[1].lamports, descriptors[1].key + 64);
    assert!(descriptors[0].is_signer);
    let guard = accounts[0].try_borrow_data(&mut input).unwrap();
    assert_eq!(invoke(&ix, &accounts, &mut input).unwrap_err(), ProgramError::AccountBorrowFailed);
    guard.release(&mut input);
    let bad = Instruction { program_id: [4; 32], data: vec![], accounts: vec![AccountMeta::new(&[9; 32], false, false), AccountMeta::readonly(&[2; 32]), AccountMeta::readonly(&[3; 32])] };
    let signers = vec![Signer { seeds: vec![Seed { bytes: vec![1, 2] }] }];
    assert_eq!(invoke_signed(&bad, &accounts, &signers, &mut input).unwrap_err(), ProgramError::InvalidArgument);
    let meta = AccountMeta::from_account_info(&accounts[0], &input);
    assert_eq!(meta.pubkey, [1; 32]);
    assert!(meta.is_signer && !meta.is_writable);
}

#[test]
fn record_loading() {
    let data = token_account([5; 32], [6; 32], 42, 1);
    let t: TokenAccount = p_token::state::load(&data).unwrap();
    assert_eq!(t.amount(), 42);
    assert_eq!(t.mint(), [5; 32]);
    assert_eq!(t.owner(), [6; 32]);
    assert!(!t.is_frozen());
    assert!(t.delegate().is_none());
    let short = &data[..100];
    assert_eq!(p_token::state::load::<TokenAccount>(short).unwrap_err(), ProgramError::InvalidAccountData);
    let uninit = token_account([5; 32], [6; 32], 42, 0);
    assert_eq!(p_token::state::load::<TokenAccount>(&uninit).unwrap_err(), ProgramError::UninitializedAccount);
    assert!(p_token::state::load_unchecked::<TokenAccount>(&uninit).is_ok());
    let mut bad_tag = data.clone();
    bad_tag[72] = 2;
    assert_eq!(p_token::state::load::<TokenAccount>(&bad_tag).unwrap_err(), ProgramError::InvalidAccountData);
    let ms: Multisig = p_token::state::load(&multisig(1, &[[1; 32]])).unwrap();
    assert_eq!(ms.m(), 1);
    assert_eq!(ms.n(), 1);
    assert_eq!(ms.signer(0), [1; 32]);
    assert_eq!(<Multisig as RawType>::len(), 355);
}
