//! Error values returned to the host, and their numeric codes.
use vstd::prelude::*;

verus! {

/// Number of bits that a builtin error's index is shifted by in its code.
pub const BUILTIN_BIT_SHIFT: u64 = 32;

/// Error returned by every fallible operation of the library.
#[derive(Clone, Copy, Debug, PartialEq, Eq, Structural)]
pub enum ProgramError {
    /// Application error carrying an opaque numeric code.
    Custom(u32),
    InvalidArgument,
    InvalidInstructionData,
    InvalidAccountData,
    AccountDataTooSmall,
    InsufficientFunds,
    IncorrectProgramId,
    MissingRequiredSignature,
    AccountAlreadyInitialized,
    UninitializedAccount,
    NotEnoughAccountKeys,
    AccountBorrowFailed,
    MaxSeedLengthExceeded,
    InvalidSeeds,
    BorshIoError,
    AccountNotRentExempt,
    UnsupportedSysvar,
    IllegalOwner,
    MaxAccountsDataAllocationsExceeded,
    InvalidRealloc,
    MaxInstructionTraceLengthExceeded,
    BuiltinProgramsMustConsumeComputeUnits,
    InvalidAccountOwner,
    ArithmeticOverflow,
    Immutable,
    IncorrectAuthority,
}

/// Result of an operation that returns nothing on success.
pub type ProgramResult = Result<(), ProgramError>;

/// Host value for a successful invocation.
pub const SUCCESS: u64 = 0;

/// Position of a builtin error in the host's numbering (1 to 26); 0 for `Custom`.
pub open spec fn builtin_index(e: ProgramError) -> u64 {
    match e {
        ProgramError::Custom(_) => 0,
        ProgramError::InvalidArgument => 2,
        ProgramError::InvalidInstructionData => 3,
        ProgramError::InvalidAccountData => 4,
        ProgramError::AccountDataTooSmall => 5,
        ProgramError::InsufficientFunds => 6,
        ProgramError::IncorrectProgramId => 7,
        ProgramError::MissingRequiredSignature => 8,
        ProgramError::AccountAlreadyInitialized => 9,
        ProgramError::UninitializedAccount => 10,
        ProgramError::NotEnoughAccountKeys => 11,
        ProgramError::AccountBorrowFailed => 12,
        ProgramError::MaxSeedLengthExceeded => 13,
        ProgramError::InvalidSeeds => 14,
        ProgramError::BorshIoError => 15,
        ProgramError::AccountNotRentExempt => 16,
        ProgramError::UnsupportedSysvar => 17,
        ProgramError::IllegalOwner => 18,
        ProgramError::MaxAccountsDataAllocationsExceeded => 19,
        ProgramError::InvalidRealloc => 20,
        ProgramError::MaxInstructionTraceLengthExceeded => 21,
        ProgramError::BuiltinProgramsMustConsumeComputeUnits => 22,
        ProgramError::InvalidAccountOwner => 23,
        ProgramError::ArithmeticOverflow => 24,
        ProgramError::Immutable => 25,
        ProgramError::IncorrectAuthority => 26,
    }
}

/// The builtin error at a position of the host's numbering; `Custom(0)` at 1.
pub open spec fn builtin_at(i: u64) -> ProgramError {
    if i == 2 { ProgramError::InvalidArgument }
    else if i == 3 { ProgramError::InvalidInstructionData }
    else if i == 4 { ProgramError::InvalidAccountData }
    else if i == 5 { ProgramError::AccountDataTooSmall }
    else if i == 6 { ProgramError::InsufficientFunds }
    else if i == 7 { ProgramError::IncorrectProgramId }
    else if i == 8 { ProgramError::MissingRequiredSignature }
    else if i == 9 { ProgramError::AccountAlreadyInitialized }
    else if i == 10 { ProgramError::UninitializedAccount }
    else if i == 11 { ProgramError::NotEnoughAccountKeys }
    else if i == 12 { ProgramError::AccountBorrowFailed }
    else if i == 13 { ProgramError::MaxSeedLengthExceeded }
    else if i == 14 { ProgramError::InvalidSeeds }
    else if i == 15 { ProgramError::BorshIoError }
    else if i == 16 { ProgramError::AccountNotRentExempt }
    else if i == 17 { ProgramError::UnsupportedSysvar }
    else if i == 18 { ProgramError::IllegalOwner }
    else if i == 19 { ProgramError::MaxAccountsDataAllocationsExceeded }
    else if i == 20 { ProgramError::InvalidRealloc }
    else if i == 21 { ProgramError::MaxInstructionTraceLengthExceeded }
    else if i == 22 { ProgramError::BuiltinProgramsMustConsumeComputeUnits }
    else if i == 23 { ProgramError::InvalidAccountOwner }
    else if i == 24 { ProgramError::ArithmeticOverflow }
    else if i == 25 { ProgramError::Immutable }
    else if i == 26 { ProgramError::IncorrectAuthority }
    else { ProgramError::Custom(0) }
}

/// The code that the host receives for an error: a builtin's index shifted
/// into the high word, a nonzero custom code as it is, and `Custom(0)` as the
/// code of index 1.
pub open spec fn code_of(e: ProgramError) -> u64 {
    match e {
        ProgramError::Custom(c) => if c == 0 { 0x1_0000_0000 } else { c as u64 },
        _ => (builtin_index(e) * 0x1_0000_0000) as u64,
    }
}

/// The error that a host code stands for: a builtin code gives its error,
/// any other value the custom error of its low 32 bits.
pub open spec fn error_of_code(code: u64) -> ProgramError {
    if code % 0x1_0000_0000 == 0 && 1 <= code / 0x1_0000_0000 <= 26 {
        builtin_at(code / 0x1_0000_0000)
    } else {
        ProgramError::Custom(code as u32)
    }
}

impl ProgramError {
    /// Decodes a host error code.
    pub fn from_code(code: u64) -> (r: ProgramError)
        ensures
            r == error_of_code(code),
    {
        let index: u64 = code / 0x1_0000_0000;
        if code % 0x1_0000_0000 == 0 && 1 <= index && index <= 26 {
            if index == 2 { ProgramError::InvalidArgument }
            else if index == 3 { ProgramError::InvalidInstructionData }
            else if index == 4 { ProgramError::InvalidAccountData }
            else if index == 5 { ProgramError::AccountDataTooSmall }
            else if index == 6 { ProgramError::InsufficientFunds }
            else if index == 7 { ProgramError::IncorrectProgramId }
            else if index == 8 { ProgramError::MissingRequiredSignature }
            else if index == 9 { ProgramError::AccountAlreadyInitialized }
            else if index == 10 { ProgramError::UninitializedAccount }
            else if index == 11 { ProgramError::NotEnoughAccountKeys }
            else if index == 12 { ProgramError::AccountBorrowFailed }
            else if index == 13 { ProgramError::MaxSeedLengthExceeded }
            else if index == 14 { ProgramError::InvalidSeeds }
            else if index == 15 { ProgramError::BorshIoError }
            else if index == 16 { ProgramError::AccountNotRentExempt }
            else if index == 17 { ProgramError::UnsupportedSysvar }
            else if index == 18 { ProgramError::IllegalOwner }
            else if index == 19 { ProgramError::MaxAccountsDataAllocationsExceeded }
            else if index == 20 { ProgramError::InvalidRealloc }
            else if index == 21 { ProgramError::MaxInstructionTraceLengthExceeded }
            else if index == 22 { ProgramError::BuiltinProgramsMustConsumeComputeUnits }
            else if index == 23 { ProgramError::InvalidAccountOwner }
            else if index == 24 { ProgramError::ArithmeticOverflow }
            else if index == 25 { ProgramError::Immutable }
            else if index == 26 { ProgramError::IncorrectAuthority }
            else { ProgramError::Custom(0) }
        } else {
            ProgramError::Custom(code as u32)
        }
    }

    /// Encodes the error as the code that the host receives.
    pub fn to_code(&self) -> (r: u64)
        ensures
            r == code_of(*self),
    {
        let index: u64 = match self {
            ProgramError::Custom(c) => {
                return if *c == 0 { 0x1_0000_0000 } else { *c as u64 };
            },
            ProgramError::InvalidArgument => 2,
            ProgramError::InvalidInstructionData => 3,
            ProgramError::InvalidAccountData => 4,
            ProgramError::AccountDataTooSmall => 5,
            ProgramError::InsufficientFunds => 6,
            ProgramError::IncorrectProgramId => 7,
            ProgramError::MissingRequiredSignature => 8,
            ProgramError::AccountAlreadyInitialized => 9,
            ProgramError::UninitializedAccount => 10,
            ProgramError::NotEnoughAccountKeys => 11,
            ProgramError::AccountBorrowFailed => 12,
            ProgramError::MaxSeedLengthExceeded => 13,
            ProgramError::InvalidSeeds => 14,
            ProgramError::BorshIoError => 15,
            ProgramError::AccountNotRentExempt => 16,
            ProgramError::UnsupportedSysvar => 17,
            ProgramError::IllegalOwner => 18,
            ProgramError::MaxAccountsDataAllocationsExceeded => 19,
            ProgramError::InvalidRealloc => 20,
            ProgramError::MaxInstructionTraceLengthExceeded => 21,
            ProgramError::BuiltinProgramsMustConsumeComputeUnits => 22,
            ProgramError::InvalidAccountOwner => 23,
            ProgramError::ArithmeticOverflow => 24,
            ProgramError::Immutable => 25,
            ProgramError::IncorrectAuthority => 26,
        };
        index * 0x1_0000_0000
    }
}

impl From<u64> for ProgramError {
    fn from(code: u64) -> (r: ProgramError) {
        ProgramError::from_code(code)
    }
}

impl vstd::std_specs::convert::FromSpecImpl<u64> for ProgramError {
    open spec fn obeys_from_spec() -> bool {
        true
    }

    open spec fn from_spec(code: u64) -> ProgramError {
        error_of_code(code)
    }
}

impl From<ProgramError> for u64 {
    fn from(error: ProgramError) -> (r: u64) {
        error.to_code()
    }
}

impl vstd::std_specs::convert::FromSpecImpl<ProgramError> for u64 {
    open spec fn obeys_from_spec() -> bool {
        true
    }

    open spec fn from_spec(error: ProgramError) -> u64 {
        code_of(error)
    }
}

/// Decoding the code of an error gives the error back: custom codes are
/// 32-bit and builtin codes are nonzero multiples of 2^32, so they never
/// collide, and `Custom(0)` has a code of its own.
pub proof fn lemma_code_round_trip(e: ProgramError)
    ensures
        error_of_code(code_of(e)) == e,
{
}

/// Errors of the token program, reported to the host as custom errors.
#[derive(Clone, Copy, Debug, PartialEq, Eq, Structural)]
pub enum TokenError {
    NotRentExempt,
    InsufficientFunds,
    InvalidMint,
    MintMismatch,
    OwnerMismatch,
    FixedSupply,
    AlreadyInUse,
    InvalidNumberOfProvidedSigners,
    InvalidNumberOfRequiredSigners,
    UninitializedState,
    NativeNotSupported,
    NonNativeHasBalance,
    InvalidInstruction,
    InvalidState,
    Overflow,
    AuthorityTypeNotSupported,
    MintCannotFreeze,
    AccountFrozen,
    MintDecimalsMismatch,
    NonNativeNotSupported,
}

/// Position of a token error in its declaration, which is its custom code.
pub open spec fn token_error_code(e: TokenError) -> u32 {
    match e {
        TokenError::NotRentExempt => 0,
        TokenError::InsufficientFunds => 1,
        TokenError::InvalidMint => 2,
        TokenError::MintMismatch => 3,
        TokenError::OwnerMismatch => 4,
        TokenError::FixedSupply => 5,
        TokenError::AlreadyInUse => 6,
        TokenError::InvalidNumberOfProvidedSigners => 7,
        TokenError::InvalidNumberOfRequiredSigners => 8,
        TokenError::UninitializedState => 9,
        TokenError::NativeNotSupported => 10,
        TokenError::NonNativeHasBalance => 11,
        TokenError::InvalidInstruction => 12,
        TokenError::InvalidState => 13,
        TokenError::Overflow => 14,
        TokenError::AuthorityTypeNotSupported => 15,
        TokenError::MintCannotFreeze => 16,
        TokenError::AccountFrozen => 17,
        TokenError::MintDecimalsMismatch => 18,
        TokenError::NonNativeNotSupported => 19,
    }
}

impl TokenError {
    /// The custom code of this error.
    pub fn code(&self) -> (r: u32)
        ensures
            r == token_error_code(*self),
    {
        match self {
            TokenError::NotRentExempt => 0,
            TokenError::InsufficientFunds => 1,
            TokenError::InvalidMint => 2,
            TokenError::MintMismatch => 3,
            TokenError::OwnerMismatch => 4,
            TokenError::FixedSupply => 5,
            TokenError::AlreadyInUse => 6,
            TokenError::InvalidNumberOfProvidedSigners => 7,
            TokenError::InvalidNumberOfRequiredSigners => 8,
            TokenError::UninitializedState => 9,
            TokenError::NativeNotSupported => 10,
            TokenError::NonNativeHasBalance => 11,
            TokenError::InvalidInstruction => 12,
            TokenError::InvalidState => 13,
            TokenError::Overflow => 14,
            TokenError::AuthorityTypeNotSupported => 15,
            TokenError::MintCannotFreeze => 16,
            TokenError::AccountFrozen => 17,
            TokenError::MintDecimalsMismatch => 18,
            TokenError::NonNativeNotSupported => 19,
        }
    }
}

impl From<TokenError> for ProgramError {
    fn from(e: TokenError) -> (r: ProgramError) {
        ProgramError::Custom(e.code())
    }
}

impl vstd::std_specs::convert::FromSpecImpl<TokenError> for ProgramError {
    open spec fn obeys_from_spec() -> bool {
        true
    }

    open spec fn from_spec(e: TokenError) -> ProgramError {
        ProgramError::Custom(token_error_code(e))
    }
}

} // verus!
