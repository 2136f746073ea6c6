use p_token::error::{ProgramError, TokenError};
use p_token::pubkey::{native_mint_key, system_program_key, token_program_key};
use p_token::sysvars::{FeeCalculator, FeeRateGovernor, Fees, RentDue};
use p_token::token::{check_id, id, is_native_mint, AuthorityType};
use p_token::ui_amount::{amount_to_ui_amount, parse_u64, try_ui_amount_into_amount};

#[test]
fn ui_amount_round_trip_of_one_token() {
    assert_eq!(amount_to_ui_amount(1_000_000_000, 9), b"1".to_vec());
    assert_eq!(try_ui_amount_into_amount("1", 9), Ok(1_000_000_000));
}

#[test]
fn ui_amount_formatting() {
    assert_eq!(amount_to_ui_amount(1500, 3), b"1.5".to_vec());
    assert_eq!(amount_to_ui_amount(5, 3), b"0.005".to_vec());
    assert_eq!(amount_to_ui_amount(0, 2), b"0".to_vec());
    assert_eq!(amount_to_ui_amount(1234, 0), b"1234".to_vec());
    assert_eq!(amount_to_ui_amount(u64::MAX, 5), b"184467440737095.51615".to_vec());
}

#[test]
fn ui_amount_parsing() {
    assert_eq!(try_ui_amount_into_amount("1.5", 3), Ok(1500));
    assert_eq!(try_ui_amount_into_amount("0.005", 3), Ok(5));
    assert_eq!(try_ui_amount_into_amount(".5", 1), Ok(5));
    assert_eq!(try_ui_amount_into_amount("2.", 2), Ok(200));
    assert_eq!(try_ui_amount_into_amount("1.2300", 2), Ok(123));
    assert_eq!(try_ui_amount_into_amount("+7", 0), Ok(7));
    assert_eq!(try_ui_amount_into_amount("", 2), Err(ProgramError::InvalidArgument));
    assert_eq!(try_ui_amount_into_amount(".", 2), Err(ProgramError::InvalidArgument));
    assert_eq!(try_ui_amount_into_amount("1.2.3", 2), Err(ProgramError::InvalidArgument));
    assert_eq!(try_ui_amount_into_amount("1.234", 2), Err(ProgramError::InvalidArgument));
    assert_eq!(try_ui_amount_into_amount("1a", 0), Err(ProgramError::InvalidArgument));
    assert_eq!(try_ui_amount_into_amount("18446744073709551616", 0), Err(ProgramError::InvalidArgument));
    assert_eq!(try_ui_amount_into_amount("18446744073709551615", 0), Ok(u64::MAX));
}

#[test]
fn decimal_text_parsing() {
    assert_eq!(parse_u64(b"0"), Some(0));
    assert_eq!(parse_u64(b"+12"), Some(12));
    assert_eq!(parse_u64(b"+"), None);
    assert_eq!(parse_u64(b""), None);
    assert_eq!(parse_u64(b"-1"), None);
}

#[test]
fn error_codes() {
    assert_eq!(ProgramError::InvalidArgument.to_code(), 2 << 32);
    assert_eq!(ProgramError::IncorrectAuthority.to_code(), 26 << 32);
    assert_eq!(ProgramError::Custom(0).to_code(), 1 << 32);
    assert_eq!(ProgramError::Custom(17).to_code(), 17);
    assert_eq!(ProgramError::from_code(1 << 32), ProgramError::Custom(0));
    assert_eq!(ProgramError::from_code(12 << 32), ProgramError::AccountBorrowFailed);
    assert_eq!(ProgramError::from_code(27 << 32), ProgramError::Custom(0));
    assert_eq!(ProgramError::from_code(5), ProgramError::Custom(5));
    assert_eq!(ProgramError::from(20u64 << 32), ProgramError::InvalidRealloc);
    assert_eq!(u64::from(ProgramError::NotEnoughAccountKeys), 11 << 32);
    assert_eq!(ProgramError::from(TokenError::OwnerMismatch), ProgramError::Custom(4));
    assert_eq!(TokenError::NonNativeNotSupported.code(), 19);
    for code in 1u64..=26 {
        let e = ProgramError::from_code(code << 32);
        assert_eq!(ProgramError::from_code(e.to_code()), e);
    }
}

#[test]
fn program_ids() {
    assert_eq!(system_program_key(), [0u8; 32]);
    let token = token_program_key();
    assert_eq!(&token[0..4], &[6, 221, 246, 225]);
    assert_eq!(id(), token);
    assert!(check_id(&token));
    assert!(!check_id(&[0; 32]));
    assert!(is_native_mint(&native_mint_key()));
    assert!(!is_native_mint(&token));
}

#[test]
fn authority_types() {
    assert_eq!(AuthorityType::from(2), Ok(AuthorityType::AccountOwner));
    assert_eq!(AuthorityType::into(&AuthorityType::CloseAccount), 3);
    assert_eq!(AuthorityType::from(4), Err(ProgramError::Custom(TokenError::InvalidInstruction.code())));
}

#[test]
fn fees() {
    let g = FeeRateGovernor::default();
    assert_eq!(g.burn(100), (50, 50));
    assert_eq!(g.burn(7), (4, 3));
    assert_eq!(g.create_fee_calculator().lamports_per_signature, 0);
    let f = Fees::new(FeeCalculator::new(5000), g);
    assert_eq!(f.fee_calculator.lamports_per_signature, 5000);
    assert_eq!(RentDue::Paying(9).lamports(), 9);
    assert_eq!(RentDue::Exempt.lamports(), 0);
    assert!(RentDue::Exempt.is_exempt());
    assert!(!RentDue::Paying(1).is_exempt());
}
