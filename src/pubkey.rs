//! Public keys and the program identities that the library compares against.
use crate::error::{ProgramError, ProgramResult};
use vstd::prelude::*;

verus! {

/// Number of bytes in a public key.
pub const PUBKEY_BYTES: usize = 32;

/// Maximum length of a seed of a program-derived address.
pub const MAX_SEED_LEN: usize = 32;

/// Maximum number of seeds of a program-derived address.
pub const MAX_SEEDS: usize = 16;

/// A public key: 32 opaque bytes.
pub type Pubkey = [u8; 32];

/// The 32 bytes that a base58 text decodes to.
pub uninterp spec fn base58_pubkey(text: Seq<char>) -> Seq<u8>;

/// The base58 texts of the program identities this library decodes; each of
/// them decodes to exactly 32 bytes.
pub open spec fn is_known_id_text(text: Seq<char>) -> bool {
    text == "TokenkegQfeZyiNwAJbNbGKPFXCWuBvf9Ss623VQ5DA"@
        || text == "So11111111111111111111111111111111111111112"@
        || text == "11111111111111111111111111111111"@
        || text == "1nc1nerator11111111111111111111111111111111"@
}

/// Relies on five8_const::decode_32_const: decodes a base58 text into 32
/// bytes; it panics on a text that is not the encoding of 32 bytes, which
/// none of the known identity texts is.
#[verifier::external_body]
fn from_str(text: &str) -> (r: Pubkey)
    requires
        is_known_id_text(text@),
    ensures
        r@ == base58_pubkey(text@),
{
    five8_const::decode_32_const(text)
}

/// Identity of the token program.
pub open spec fn token_program_id() -> Seq<u8> {
    base58_pubkey("TokenkegQfeZyiNwAJbNbGKPFXCWuBvf9Ss623VQ5DA"@)
}

/// Identity of the native (wrapped SOL) mint.
pub open spec fn native_mint_id() -> Seq<u8> {
    base58_pubkey("So11111111111111111111111111111111111111112"@)
}

/// Identity of the system program.
pub open spec fn system_program_id() -> Seq<u8> {
    base58_pubkey("11111111111111111111111111111111"@)
}

/// Identity of the incinerator account.
pub open spec fn incinerator_id() -> Seq<u8> {
    base58_pubkey("1nc1nerator11111111111111111111111111111111"@)
}

/// The token program's identity.
pub fn token_program_key() -> (r: Pubkey)
    ensures
        r@ == token_program_id(),
{
    let text = "TokenkegQfeZyiNwAJbNbGKPFXCWuBvf9Ss623VQ5DA";
    proof {
        reveal_strlit("TokenkegQfeZyiNwAJbNbGKPFXCWuBvf9Ss623VQ5DA");
    }
    from_str(text)
}

/// The native mint's identity.
pub fn native_mint_key() -> (r: Pubkey)
    ensures
        r@ == native_mint_id(),
{
    let text = "So11111111111111111111111111111111111111112";
    proof {
        reveal_strlit("So11111111111111111111111111111111111111112");
    }
    from_str(text)
}

/// The system program's identity.
pub fn system_program_key() -> (r: Pubkey)
    ensures
        r@ == system_program_id(),
{
    let text = "11111111111111111111111111111111";
    proof {
        reveal_strlit("11111111111111111111111111111111");
    }
    from_str(text)
}

/// The incinerator's identity.
pub fn incinerator_key() -> (r: Pubkey)
    ensures
        r@ == incinerator_id(),
{
    let text = "1nc1nerator11111111111111111111111111111111";
    proof {
        reveal_strlit("1nc1nerator11111111111111111111111111111111");
    }
    from_str(text)
}

/// Compares two keys byte by byte.
pub fn pubkey_eq(a: &Pubkey, b: &Pubkey) -> (r: bool)
    ensures
        r == (a@ == b@),
{
    let mut i: usize = 0;
    while i < 32
        invariant
            0 <= i <= 32,
            a@.len() == 32,
            b@.len() == 32,
            forall|j: int| 0 <= j < i ==> a@[j] == b@[j],
        decreases 32 - i,
    {
        if a[i] != b[i] {
            return false;
        }
        i += 1;
    }
    assert(a@ =~= b@);
    true
}

/// Checks the seeds of a program-derived address: at most `MAX_SEEDS`
/// seeds, each of at most `MAX_SEED_LEN` bytes.
pub fn check_seeds(seeds: &[&[u8]]) -> (r: ProgramResult)
    ensures
        r is Ok <==> seeds@.len() <= MAX_SEEDS && forall|i: int| 0 <= i < seeds@.len() ==> (#[trigger] seeds@[i])@.len() <= MAX_SEED_LEN,
        r is Err ==> r == Err::<(), ProgramError>(ProgramError::MaxSeedLengthExceeded),
{
    if seeds.len() > MAX_SEEDS {
        return Err(ProgramError::MaxSeedLengthExceeded);
    }
    let mut i: usize = 0;
    while i < seeds.len()
        invariant
            0 <= i <= seeds@.len(),
            forall|k: int| 0 <= k < i ==> (#[trigger] seeds@[k])@.len() <= MAX_SEED_LEN,
        decreases seeds@.len() - i,
    {
        if seeds[i].len() > MAX_SEED_LEN {
            return Err(ProgramError::MaxSeedLengthExceeded);
        }
        i += 1;
    }
    Ok(())
}

} // verus!
