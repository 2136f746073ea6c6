use p_token::state::{
    load_unchecked, Account, AccountState, Initializable, Mint, Multisig, RawType, ACCOUNT_LEN, MINT_LEN,
};

fn blank_account() -> Account {
    load_unchecked(&vec![0u8; ACCOUNT_LEN]).unwrap()
}

#[test]
fn account_fields_are_little_endian() {
    let mut a = blank_account();
    a.set_amount(0x0102_0304_0506_0708);
    assert_eq!(&a.as_bytes()[64..72], &[8, 7, 6, 5, 4, 3, 2, 1]);
    assert_eq!(a.amount(), 0x0102_0304_0506_0708);
    a.set_delegated_amount(9);
    assert_eq!(a.delegated_amount(), 9);
    a.set_native(true);
    a.set_native_amount(77);
    assert!(a.is_native());
    assert_eq!(a.native_amount(), Some(77));
    a.set_native(false);
    assert_eq!(a.native_amount(), None);
}

#[test]
fn account_optional_keys() {
    let mut a = blank_account();
    assert_eq!(a.delegate(), None);
    a.set_delegate(&[3; 32]);
    assert_eq!(a.delegate(), Some([3; 32]));
    a.clear_delegate();
    assert_eq!(a.delegate(), None);
    a.set_close_authority(&[4; 32]);
    assert_eq!(a.close_authority(), Some([4; 32]));
    a.clear_close_authority();
    assert_eq!(a.close_authority(), None);
}

#[test]
fn account_state_and_owner() {
    let mut a = blank_account();
    assert!(!a.is_initialized());
    a.set_state(AccountState::Initialized);
    assert!(a.is_initialized());
    assert_eq!(a.state(), AccountState::Initialized);
    a.set_state(AccountState::Frozen);
    assert!(a.is_frozen());
    a.set_owner(&[0; 32]);
    assert!(a.is_owned_by_system_program_or_incinerator());
    a.set_owner(&[1; 32]);
    assert!(!a.is_owned_by_system_program_or_incinerator());
    a.set_mint(&[2; 32]);
    assert_eq!(a.mint(), [2; 32]);
}

#[test]
fn mint_fields() {
    let mut m: Mint = load_unchecked(&vec![0u8; MINT_LEN]).unwrap();
    assert!(!m.is_initialized());
    m.set_initialized(true);
    assert!(m.is_initialized());
    m.set_supply(1_000);
    assert_eq!(m.supply(), 1_000);
    m.set_decimals(6);
    assert_eq!(m.decimals(), 6);
    assert_eq!(m.mint_authority(), None);
    m.set_mint_authority(&[7; 32]);
    assert_eq!(m.mint_authority(), Some([7; 32]));
    m.clear_mint_authority();
    assert_eq!(m.mint_authority(), None);
    m.set_freeze_authority(&[8; 32]);
    assert_eq!(m.freeze_authority(), Some([8; 32]));
    m.clear_freeze_authority();
    assert_eq!(m.freeze_authority(), None);
    assert_eq!(&m.as_bytes()[36..44], &1_000u64.to_le_bytes());
}

#[test]
fn multisig_fields() {
    let mut m: Multisig = load_unchecked(&vec![0u8; 355]).unwrap();
    m.set_m(2);
    m.set_n(3);
    m.set_signer(2, &[5; 32]);
    m.set_initialized(true);
    assert_eq!(m.m(), 2);
    assert_eq!(m.n(), 3);
    assert_eq!(m.signer(2), [5; 32]);
    assert!(m.is_initialized());
    assert!(Multisig::is_valid_signer_index(1));
    assert!(Multisig::is_valid_signer_index(11));
    assert!(!Multisig::is_valid_signer_index(0));
    assert!(!Multisig::is_valid_signer_index(12));
}
