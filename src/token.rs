//! Token program identities and authority kinds.
use crate::error::{token_error_code, ProgramError, TokenError};
use crate::pubkey::{native_mint_id, native_mint_key, pubkey_eq, token_program_id, token_program_key, Pubkey};
use vstd::prelude::*;

verus! {

/// Decimals of the native mint.
pub const NATIVE_DECIMALS: u8 = 9;

/// The instructions of the token program with their arguments.
#[derive(Clone, Debug)]
pub enum TokenInstruction {
    InitializeMint { decimals: u8, mint_authority: Pubkey, freeze_authority: Option<Pubkey> },
    InitializeAccount,
    InitializeMultisig { m: u8 },
    Transfer { amount: u64 },
    Approve { amount: u64 },
    Revoke,
    SetAuthority { authority_type: AuthorityType, new_authority: Option<Pubkey> },
    MintTo { amount: u64 },
    Burn { amount: u64 },
    CloseAccount,
    FreezeAccount,
    ThawAccount,
    TransferChecked { amount: u64, decimals: u8 },
    ApproveChecked { amount: u64, decimals: u8 },
    MintToChecked { amount: u64, decimals: u8 },
    BurnChecked { amount: u64, decimals: u8 },
    InitializeAccount2 { owner: Pubkey },
    SyncNative,
    InitializeAccount3 { owner: Pubkey },
    InitializeMultisig2 { m: u8 },
    InitializeMint2 { decimals: u8, mint_authority: Pubkey, freeze_authority: Option<Pubkey> },
    GetAccountDataSize,
    InitializeImmutableOwner,
    AmountToUiAmount { amount: u64 },
    UiAmountToAmount { ui_amount: String },
}

/// Kinds of authority that `SetAuthority` can change.
#[derive(Clone, Copy, Debug, PartialEq, Eq, Structural)]
pub enum AuthorityType {
    MintTokens,
    FreezeAccount,
    AccountOwner,
    CloseAccount,
}

pub open spec fn authority_code(a: AuthorityType) -> u8 {
    match a {
        AuthorityType::MintTokens => 0,
        AuthorityType::FreezeAccount => 1,
        AuthorityType::AccountOwner => 2,
        AuthorityType::CloseAccount => 3,
    }
}

impl AuthorityType {
    /// The byte that encodes the authority kind.
    pub fn into(&self) -> (r: u8)
        ensures
            r == authority_code(*self),
    {
        match self {
            AuthorityType::MintTokens => 0,
            AuthorityType::FreezeAccount => 1,
            AuthorityType::AccountOwner => 2,
            AuthorityType::CloseAccount => 3,
        }
    }

    /// Decodes an authority kind; bytes above 3 are an invalid instruction.
    pub fn from(index: u8) -> (r: Result<Self, ProgramError>)
        ensures
            index <= 3 ==> (r matches Ok(a) && authority_code(a) == index),
            index > 3 ==> r == Err::<Self, ProgramError>(ProgramError::Custom(token_error_code(TokenError::InvalidInstruction))),
    {
        if index == 0 {
            Ok(AuthorityType::MintTokens)
        } else if index == 1 {
            Ok(AuthorityType::FreezeAccount)
        } else if index == 2 {
            Ok(AuthorityType::AccountOwner)
        } else if index == 3 {
            Ok(AuthorityType::CloseAccount)
        } else {
            Err(ProgramError::Custom(TokenError::InvalidInstruction.code()))
        }
    }
}

/// `mint` is the native mint.
pub fn is_native_mint(mint: &Pubkey) -> (r: bool)
    ensures
        r == (mint@ == native_mint_id()),
{
    pubkey_eq(mint, &native_mint_key())
}

/// `id` is the token program's id.
pub fn check_id(id: &Pubkey) -> (r: bool)
    ensures
        r == (id@ == token_program_id()),
{
    pubkey_eq(id, &token_program_key())
}

/// The token program's id.
pub fn id() -> (r: Pubkey)
    ensures
        r@ == token_program_id(),
{
    token_program_key()
}

} // verus!
