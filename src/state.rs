//! Token records: fixed-size overlays onto an account's data.
//!
//! Each record is its exact byte image in the account data; every field is
//! read and written through explicit little-endian accessors. An optional
//! key is a 4-byte little-endian presence tag (0 or 1) followed by the key.
use crate::account_info::read_key;
use crate::error::ProgramError;
use crate::layout::{read_u64, u64_at, write_at};
use crate::pubkey::{incinerator_key, pubkey_eq, system_program_key, incinerator_id, system_program_id, Pubkey};
use vstd::bytes::*;
use vstd::prelude::*;

verus! {

/// Smallest number of signers of a multisig.
pub const MIN_SIGNERS: usize = 1;

/// Largest number of signers of a multisig.
pub const MAX_SIGNERS: usize = 11;

/// A record laid out as a fixed number of bytes.
pub trait RawType: Sized {
    /// Number of bytes of the record.
    spec fn raw_len() -> nat;

    /// The record's byte image.
    spec fn raw_bytes(&self) -> Seq<u8>;

    /// The byte image is well formed: every presence tag and enum byte
    /// holds one of its defined values.
    spec fn well_formed(bytes: Seq<u8>) -> bool;

    /// Number of bytes of the record.
    fn len() -> (r: usize)
        ensures
            r == Self::raw_len(),
    ;

    /// The record whose byte image is `bytes`.
    fn from_bytes(bytes: &[u8]) -> (r: Self)
        requires
            bytes@.len() == Self::raw_len(),
        ensures
            r.raw_bytes() == bytes@,
    ;

    /// The record's byte image.
    fn as_bytes(&self) -> (r: &[u8])
        ensures
            r@ == self.raw_bytes(),
            r@.len() == Self::raw_len(),
    ;

    /// Checks that the byte image is well formed.
    fn is_well_formed(&self) -> (r: bool)
        ensures
            r == Self::well_formed(self.raw_bytes()),
    ;
}

/// A record with an "initialized" marker.
pub trait Initializable: RawType {
    /// The byte image marks the record as initialized.
    spec fn initialized(bytes: Seq<u8>) -> bool;

    fn is_initialized(&self) -> (r: bool)
        ensures
            r == Self::initialized(self.raw_bytes()),
    ;
}

/// Reads a record from `bytes`, which must have exactly the record's size,
/// be well formed and be marked initialized.
pub fn load<T: Initializable + RawType>(bytes: &[u8]) -> (r: Result<T, ProgramError>)
    ensures
        bytes@.len() != T::raw_len() || !T::well_formed(bytes@)
            ==> r is Err && r->Err_0 == ProgramError::InvalidAccountData,
        bytes@.len() == T::raw_len() && T::well_formed(bytes@) && !T::initialized(bytes@)
            ==> r is Err && r->Err_0 == ProgramError::UninitializedAccount,
        bytes@.len() == T::raw_len() && T::well_formed(bytes@) && T::initialized(bytes@)
            ==> r is Ok && r->Ok_0.raw_bytes() == bytes@,
{
    let t: T = match load_unchecked(bytes) {
        Ok(t) => t,
        Err(e) => return Err(e),
    };
    if !t.is_well_formed() {
        return Err(ProgramError::InvalidAccountData);
    }
    if t.is_initialized() {
        Ok(t)
    } else {
        Err(ProgramError::UninitializedAccount)
    }
}

/// Reads a record from `bytes`, checking only its size.
pub fn load_unchecked<T: RawType>(bytes: &[u8]) -> (r: Result<T, ProgramError>)
    ensures
        bytes@.len() != T::raw_len() ==> r is Err && r->Err_0 == ProgramError::InvalidAccountData,
        bytes@.len() == T::raw_len() ==> r is Ok && r->Ok_0.raw_bytes() == bytes@,
{
    if bytes.len() != T::len() {
        return Err(ProgramError::InvalidAccountData);
    }
    Ok(T::from_bytes(bytes))
}

/// A presence tag: 0 or 1, little-endian over 4 bytes.
pub open spec fn tag_valid(s: Seq<u8>, at: int) -> bool {
    let _len = s.len();
    s[at + 1] == 0 && s[at + 2] == 0 && s[at + 3] == 0 && (s[at] == 0 || s[at] == 1)
}

/// The optional key whose tag is at `at`.
pub open spec fn optional_key(s: Seq<u8>, at: int) -> Option<Seq<u8>> {
    if s[at] == 1 {
        Some(s.subrange(at + 4, at + 36))
    } else {
        None
    }
}

/// `s` with the optional key at `at` set to `k`.
pub open spec fn with_key(s: Seq<u8>, at: int, k: Seq<u8>) -> Seq<u8> {
    write_at(s.update(at, 1), at + 4, k)
}

fn tag_ok(s: &[u8], at: usize) -> (r: bool)
    requires
        at + 4 <= s@.len(),
    ensures
        r == tag_valid(s@, at as int),
{
    let _len = s.len();
    s[at + 1] == 0 && s[at + 2] == 0 && s[at + 3] == 0 && (s[at] == 0 || s[at] == 1)
}

fn copy_array<const N: usize>(s: &[u8]) -> (r: [u8; N])
    requires
        s@.len() == N,
    ensures
        r@ == s@,
{
    let mut a: [u8; N] = [0u8; N];
    let mut i: usize = 0;
    while i < N
        invariant
            s@.len() == N,
            a@.len() == N,
            0 <= i <= N,
            forall|j: int| 0 <= j < i ==> a@[j] == s@[j],
        decreases N - i,
    {
        a[i] = s[i];
        i += 1;
    }
    assert(a@ =~= s@);
    a
}

fn put<const N: usize>(a: &mut [u8; N], at: usize, s: &[u8])
    requires
        at + s@.len() <= N,
    ensures
        final(a)@ == write_at(old(a)@, at as int, s@),
{
    let mut i: usize = 0;
    while i < s.len()
        invariant
            at + s@.len() <= N,
            a@.len() == N,
            0 <= i <= s@.len(),
            forall|j: int|
                0 <= j < N ==> #[trigger] a@[j] == (if at <= j < at + i {
                    s@[j - at]
                } else {
                    old(a)@[j]
                }),
        decreases s@.len() - i,
    {
        a[at + i] = s[i];
        i += 1;
    }
    assert(a@ =~= write_at(old(a)@, at as int, s@));
}

fn put_u64<const N: usize>(a: &mut [u8; N], at: usize, v: u64)
    requires
        at + 8 <= N,
    ensures
        final(a)@ == write_at(old(a)@, at as int, spec_u64_to_le_bytes(v)),
        u64_at(final(a)@, at as int) == v,
{
    let bytes = u64_to_le_bytes(v);
    proof {
        lemma_auto_spec_u64_to_from_le_bytes();
    }
    put(a, at, bytes.as_slice());
    proof {
        crate::layout::lemma_u64_written(old(a)@, at as int, v);
    }
}

// ---------------------------------------------------------------------------
// Account state
// ---------------------------------------------------------------------------

/// State of a token account.
#[derive(Clone, Copy, Debug, PartialEq, Eq, Structural)]
pub enum AccountState {
    Uninitialized,
    Initialized,
    Frozen,
}

pub open spec fn state_byte(s: AccountState) -> u8 {
    match s {
        AccountState::Uninitialized => 0,
        AccountState::Initialized => 1,
        AccountState::Frozen => 2,
    }
}

// ---------------------------------------------------------------------------
// Token account
// ---------------------------------------------------------------------------

/// Size of a token account record.
pub const ACCOUNT_LEN: usize = 165;

pub open spec fn account_amount(s: Seq<u8>) -> u64 {
    u64_at(s, 64)
}

pub open spec fn account_native_amount(s: Seq<u8>) -> u64 {
    u64_at(s, 113)
}

pub open spec fn account_delegated_amount(s: Seq<u8>) -> u64 {
    u64_at(s, 121)
}

/// A token account: mint (0..32), owner (32..64), amount (64..72),
/// optional delegate (72..108), state (108), native tag (109..113), native
/// amount (113..121), delegated amount (121..129), optional close authority
/// (129..165).
#[derive(Debug)]
pub struct Account {
    bytes: [u8; 165],
}

impl View for Account {
    type V = Seq<u8>;

    closed spec fn view(&self) -> Seq<u8> {
        self.bytes@
    }
}

impl RawType for Account {
    open spec fn raw_len() -> nat {
        ACCOUNT_LEN as nat
    }

    open spec fn raw_bytes(&self) -> Seq<u8> {
        self@
    }

    open spec fn well_formed(s: Seq<u8>) -> bool {
        tag_valid(s, 72) && s[108] <= 2 && tag_valid(s, 109) && tag_valid(s, 129)
    }

    fn len() -> (r: usize) {
        ACCOUNT_LEN
    }

    fn from_bytes(bytes: &[u8]) -> (r: Self) {
        Account { bytes: copy_array(bytes) }
    }

    fn as_bytes(&self) -> (r: &[u8]) {
        self.bytes.as_slice()
    }

    fn is_well_formed(&self) -> (r: bool) {
        let s = self.bytes.as_slice();
        tag_ok(s, 72) && s[108] <= 2 && tag_ok(s, 109) && tag_ok(s, 129)
    }
}

impl Initializable for Account {
    open spec fn initialized(s: Seq<u8>) -> bool {
        s[108] != 0
    }

    fn is_initialized(&self) -> (r: bool) {
        self.bytes[108] != 0
    }
}

impl Account {
    pub proof fn lemma_len(&self)
        ensures
            self@.len() == ACCOUNT_LEN,
    {
    }

    /// The mint the account holds tokens of.
    pub fn mint(&self) -> (r: Pubkey)
        ensures
            r@ == self@.subrange(0, 32),
    {
        read_key(self.bytes.as_slice(), 0)
    }

    pub fn set_mint(&mut self, mint: &Pubkey)
        ensures
            final(self)@ == write_at(old(self)@, 0, mint@),
    {
        put(&mut self.bytes, 0, mint.as_slice());
    }

    /// The owner of the tokens.
    pub fn owner(&self) -> (r: Pubkey)
        ensures
            r@ == self@.subrange(32, 64),
    {
        read_key(self.bytes.as_slice(), 32)
    }

    pub fn set_owner(&mut self, owner: &Pubkey)
        ensures
            final(self)@ == write_at(old(self)@, 32, owner@),
    {
        put(&mut self.bytes, 32, owner.as_slice());
    }

    pub fn set_amount(&mut self, amount: u64)
        ensures
            final(self)@ == write_at(old(self)@, 64, spec_u64_to_le_bytes(amount)),
            account_amount(final(self)@) == amount,
    {
        put_u64(&mut self.bytes, 64, amount);
    }

    /// Number of tokens held.
    pub fn amount(&self) -> (r: u64)
        ensures
            r == account_amount(self@),
    {
        read_u64(self.bytes.as_slice(), 64)
    }

    pub fn clear_delegate(&mut self)
        ensures
            final(self)@ == old(self)@.update(72, 0),
    {
        self.bytes[72] = 0;
    }

    pub fn set_delegate(&mut self, delegate: &Pubkey)
        ensures
            final(self)@ == with_key(old(self)@, 72, delegate@),
    {
        self.bytes[72] = 1;
        put(&mut self.bytes, 76, delegate.as_slice());
    }

    /// The delegate, if one is set.
    pub fn delegate(&self) -> (r: Option<Pubkey>)
        ensures
            r matches Some(k) ==> optional_key(self@, 72) == Some(k@),
            r is None ==> optional_key(self@, 72) is None,
    {
        if self.bytes[72] == 1 { Some(read_key(self.bytes.as_slice(), 76)) } else { None }
    }

    pub fn set_native(&mut self, value: bool)
        ensures
            final(self)@ == old(self)@.update(109, if value { 1u8 } else { 0u8 }),
    {
        self.bytes[109] = if value { 1 } else { 0 };
    }

    /// The account holds wrapped native lamports.
    pub fn is_native(&self) -> (r: bool)
        ensures
            r == (self@[109] == 1),
    {
        self.bytes[109] == 1
    }

    pub fn set_native_amount(&mut self, amount: u64)
        ensures
            final(self)@ == write_at(old(self)@, 113, spec_u64_to_le_bytes(amount)),
            account_native_amount(final(self)@) == amount,
    {
        put_u64(&mut self.bytes, 113, amount);
    }

    /// The rent-exempt reserve of a native account.
    pub fn native_amount(&self) -> (r: Option<u64>)
        ensures
            r == (if self@[109] == 1 { Some(account_native_amount(self@)) } else { None::<u64> }),
    {
        if self.is_native() { Some(read_u64(self.bytes.as_slice(), 113)) } else { None }
    }

    pub fn set_delegated_amount(&mut self, amount: u64)
        ensures
            final(self)@ == write_at(old(self)@, 121, spec_u64_to_le_bytes(amount)),
            account_delegated_amount(final(self)@) == amount,
    {
        put_u64(&mut self.bytes, 121, amount);
    }

    /// Number of tokens the delegate may move.
    pub fn delegated_amount(&self) -> (r: u64)
        ensures
            r == account_delegated_amount(self@),
    {
        read_u64(self.bytes.as_slice(), 121)
    }

    pub fn clear_close_authority(&mut self)
        ensures
            final(self)@ == old(self)@.update(129, 0),
    {
        self.bytes[129] = 0;
    }

    pub fn set_close_authority(&mut self, value: &Pubkey)
        ensures
            final(self)@ == with_key(old(self)@, 129, value@),
    {
        self.bytes[129] = 1;
        put(&mut self.bytes, 133, value.as_slice());
    }

    /// The close authority, if one is set.
    pub fn close_authority(&self) -> (r: Option<Pubkey>)
        ensures
            r matches Some(k) ==> optional_key(self@, 129) == Some(k@),
            r is None ==> optional_key(self@, 129) is None,
    {
        if self.bytes[129] == 1 { Some(read_key(self.bytes.as_slice(), 133)) } else { None }
    }

    /// The account's state.
    pub fn state(&self) -> (r: AccountState)
        requires
            self@[108] <= 2,
        ensures
            state_byte(r) == self@[108],
    {
        let b = self.bytes[108];
        if b == 0 {
            AccountState::Uninitialized
        } else if b == 1 {
            AccountState::Initialized
        } else {
            AccountState::Frozen
        }
    }

    pub fn set_state(&mut self, state: AccountState)
        ensures
            final(self)@ == old(self)@.update(108, state_byte(state)),
    {
        self.bytes[108] = match state {
            AccountState::Uninitialized => 0,
            AccountState::Initialized => 1,
            AccountState::Frozen => 2,
        };
    }

    /// The account is frozen.
    pub fn is_frozen(&self) -> (r: bool)
        ensures
            r == (self@[108] == 2),
    {
        self.bytes[108] == 2
    }

    /// The owner is the system program or the incinerator.
    pub fn is_owned_by_system_program_or_incinerator(&self) -> (r: bool)
        ensures
            r == (self@.subrange(32, 64) == system_program_id() || self@.subrange(32, 64) == incinerator_id()),
    {
        let owner = self.owner();
        pubkey_eq(&system_program_key(), &owner) || pubkey_eq(&incinerator_key(), &owner)
    }
}

// ---------------------------------------------------------------------------
// Mint
// ---------------------------------------------------------------------------

/// Size of a mint record.
pub const MINT_LEN: usize = 82;

pub open spec fn mint_supply(s: Seq<u8>) -> u64 {
    u64_at(s, 36)
}

/// A mint: optional mint authority (0..36), supply (36..44), decimals (44),
/// initialized flag (45), optional freeze authority (46..82).
#[derive(Debug)]
pub struct Mint {
    bytes: [u8; 82],
}

impl View for Mint {
    type V = Seq<u8>;

    closed spec fn view(&self) -> Seq<u8> {
        self.bytes@
    }
}

impl RawType for Mint {
    open spec fn raw_len() -> nat {
        MINT_LEN as nat
    }

    open spec fn raw_bytes(&self) -> Seq<u8> {
        self@
    }

    open spec fn well_formed(s: Seq<u8>) -> bool {
        tag_valid(s, 0) && s[45] <= 1 && tag_valid(s, 46)
    }

    fn len() -> (r: usize) {
        MINT_LEN
    }

    fn from_bytes(bytes: &[u8]) -> (r: Self) {
        Mint { bytes: copy_array(bytes) }
    }

    fn as_bytes(&self) -> (r: &[u8]) {
        self.bytes.as_slice()
    }

    fn is_well_formed(&self) -> (r: bool) {
        let s = self.bytes.as_slice();
        tag_ok(s, 0) && s[45] <= 1 && tag_ok(s, 46)
    }
}

impl Initializable for Mint {
    open spec fn initialized(s: Seq<u8>) -> bool {
        s[45] == 1
    }

    fn is_initialized(&self) -> (r: bool) {
        self.bytes[45] == 1
    }
}

impl Mint {
    pub proof fn lemma_len(&self)
        ensures
            self@.len() == MINT_LEN,
    {
    }

    pub fn set_supply(&mut self, supply: u64)
        ensures
            final(self)@ == write_at(old(self)@, 36, spec_u64_to_le_bytes(supply)),
            mint_supply(final(self)@) == supply,
    {
        put_u64(&mut self.bytes, 36, supply);
    }

    /// Number of tokens in circulation.
    pub fn supply(&self) -> (r: u64)
        ensures
            r == mint_supply(self@),
    {
        read_u64(self.bytes.as_slice(), 36)
    }

    /// Number of decimals of the token's UI amounts.
    pub fn decimals(&self) -> (r: u8)
        ensures
            r == self@[44],
    {
        self.bytes[44]
    }

    pub fn set_decimals(&mut self, decimals: u8)
        ensures
            final(self)@ == old(self)@.update(44, decimals),
    {
        self.bytes[44] = decimals;
    }

    pub fn set_initialized(&mut self, value: bool)
        ensures
            final(self)@ == old(self)@.update(45, if value { 1u8 } else { 0u8 }),
    {
        self.bytes[45] = if value { 1 } else { 0 };
    }

    pub fn clear_mint_authority(&mut self)
        ensures
            final(self)@ == old(self)@.update(0, 0),
    {
        self.bytes[0] = 0;
    }

    pub fn set_mint_authority(&mut self, mint_authority: &Pubkey)
        ensures
            final(self)@ == with_key(old(self)@, 0, mint_authority@),
    {
        self.bytes[0] = 1;
        put(&mut self.bytes, 4, mint_authority.as_slice());
    }

    /// The authority that may mint, if any.
    pub fn mint_authority(&self) -> (r: Option<Pubkey>)
        ensures
            r matches Some(k) ==> optional_key(self@, 0) == Some(k@),
            r is None ==> optional_key(self@, 0) is None,
    {
        if self.bytes[0] == 1 { Some(read_key(self.bytes.as_slice(), 4)) } else { None }
    }

    pub fn clear_freeze_authority(&mut self)
        ensures
            final(self)@ == old(self)@.update(46, 0),
    {
        self.bytes[46] = 0;
    }

    pub fn set_freeze_authority(&mut self, freeze_authority: &Pubkey)
        ensures
            final(self)@ == with_key(old(self)@, 46, freeze_authority@),
    {
        self.bytes[46] = 1;
        put(&mut self.bytes, 50, freeze_authority.as_slice());
    }

    /// The authority that may freeze accounts, if any.
    pub fn freeze_authority(&self) -> (r: Option<Pubkey>)
        ensures
            r matches Some(k) ==> optional_key(self@, 46) == Some(k@),
            r is None ==> optional_key(self@, 46) is None,
    {
        if self.bytes[46] == 1 { Some(read_key(self.bytes.as_slice(), 50)) } else { None }
    }
}

// ---------------------------------------------------------------------------
// Multisig
// ---------------------------------------------------------------------------

/// Size of a multisig record.
pub const MULTISIG_LEN: usize = 355;

/// The `i`-th signer key of a multisig image.
pub open spec fn multisig_signer(s: Seq<u8>, i: int) -> Seq<u8> {
    s.subrange(3 + 32 * i, 3 + 32 * i + 32)
}

/// A multisig: required signers `m` (0), signer count `n` (1), initialized
/// flag (2), then `MAX_SIGNERS` keys.
#[derive(Debug)]
pub struct Multisig {
    bytes: [u8; 355],
}

impl View for Multisig {
    type V = Seq<u8>;

    closed spec fn view(&self) -> Seq<u8> {
        self.bytes@
    }
}

impl RawType for Multisig {
    open spec fn raw_len() -> nat {
        MULTISIG_LEN as nat
    }

    open spec fn raw_bytes(&self) -> Seq<u8> {
        self@
    }

    open spec fn well_formed(s: Seq<u8>) -> bool {
        s[1] as int <= MAX_SIGNERS && s[2] <= 1
    }

    fn len() -> (r: usize) {
        MULTISIG_LEN
    }

    fn from_bytes(bytes: &[u8]) -> (r: Self) {
        Multisig { bytes: copy_array(bytes) }
    }

    fn as_bytes(&self) -> (r: &[u8]) {
        self.bytes.as_slice()
    }

    fn is_well_formed(&self) -> (r: bool) {
        self.bytes[1] as usize <= MAX_SIGNERS && self.bytes[2] <= 1
    }
}

impl Initializable for Multisig {
    open spec fn initialized(s: Seq<u8>) -> bool {
        s[2] == 1
    }

    fn is_initialized(&self) -> (r: bool) {
        self.bytes[2] == 1
    }
}

impl Multisig {
    pub proof fn lemma_len(&self)
        ensures
            self@.len() == MULTISIG_LEN,
    {
    }

    /// `index` is a valid number of signers.
    pub fn is_valid_signer_index(index: usize) -> (r: bool)
        ensures
            r == (MIN_SIGNERS <= index <= MAX_SIGNERS),
    {
        MIN_SIGNERS <= index && index <= MAX_SIGNERS
    }

    pub fn set_initialized(&mut self, value: bool)
        ensures
            final(self)@ == old(self)@.update(2, if value { 1u8 } else { 0u8 }),
    {
        self.bytes[2] = if value { 1 } else { 0 };
    }

    /// Number of signers required.
    pub fn m(&self) -> (r: u8)
        ensures
            r == self@[0],
    {
        self.bytes[0]
    }

    pub fn set_m(&mut self, m: u8)
        ensures
            final(self)@ == old(self)@.update(0, m),
    {
        self.bytes[0] = m;
    }

    /// Number of valid signers.
    pub fn n(&self) -> (r: u8)
        ensures
            r == self@[1],
    {
        self.bytes[1]
    }

    pub fn set_n(&mut self, n: u8)
        ensures
            final(self)@ == old(self)@.update(1, n),
    {
        self.bytes[1] = n;
    }

    /// The `index`-th signer key.
    pub fn signer(&self, index: usize) -> (r: Pubkey)
        requires
            index < MAX_SIGNERS,
        ensures
            r@ == multisig_signer(self@, index as int),
    {
        read_key(self.bytes.as_slice(), 3 + 32 * index)
    }

    pub fn set_signer(&mut self, index: usize, key: &Pubkey)
        requires
            index < MAX_SIGNERS,
        ensures
            final(self)@ == write_at(old(self)@, 3 + 32 * index, key@),
    {
        put(&mut self.bytes, 3 + 32 * index, key.as_slice());
    }
}

} // verus!
