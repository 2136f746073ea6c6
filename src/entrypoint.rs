//! Reading the host's input buffer: the accounts, the instruction data and
//! the id of the program being run.
//!
//! The buffer holds a `u64` account count, then one entry per account, then
//! a `u64` length, the instruction data and the 32-byte program id. An
//! entry is either a full account (marker byte `NON_DUP_MARKER`, an 88-byte
//! header, the data, `MAX_PERMITTED_DATA_INCREASE` bytes of room, padding to
//! a multiple of 8, and 8 reserved bytes) or, for a repeated account, the
//! index of its first entry followed by 7 bytes of padding.
use crate::account_info::{
    account_fits, data_len_of, data_of, key_of, lamports_of, layout_fits, original_len_of,
    owner_of, read_key, AccountInfo, HEADER_LEN, MAX_PERMITTED_DATA_INCREASE, SET_LEN_MASK,
};
use vstd::bytes::{lemma_auto_spec_u32_to_from_le_bytes, lemma_auto_spec_u64_to_from_le_bytes, spec_u32_to_le_bytes, spec_u64_to_le_bytes};
use vstd::slice::slice_to_vec;
use crate::error::ProgramError;
use crate::layout::{read_u64, u32_at, u64_at};
use crate::pubkey::Pubkey;
use vstd::prelude::*;

verus! {

/// Marker byte of an entry that is not a duplicate.
pub const NON_DUP_MARKER: u8 = 255;

/// Alignment of the entries.
pub const BPF_ALIGN_OF_U128: usize = 8;

/// Default maximum number of accounts of a transaction.
pub const MAX_TX_ACCOUNTS: usize = 128;

/// `x` rounded up to a multiple of 8.
pub open spec fn align8(x: int) -> int {
    x + (8 - x % 8) % 8
}

/// Number of bytes of the entry at `off`.
pub open spec fn entry_len(b: Seq<u8>, off: int) -> int {
    if b[off] == NON_DUP_MARKER {
        align8(off + HEADER_LEN + data_len_of(b, off) + MAX_PERMITTED_DATA_INCREASE) + 8 - off
    } else {
        8
    }
}

/// The entry at `off` lies inside the buffer.
pub open spec fn entry_fits(b: Seq<u8>, off: int) -> bool {
    &&& 0 <= off < b.len()
    &&& b[off] == NON_DUP_MARKER ==> off + HEADER_LEN <= b.len()
    &&& off + entry_len(b, off) <= b.len()
}

/// Position of the `i`-th entry.
pub open spec fn entry_offset(b: Seq<u8>, i: nat) -> int
    decreases i,
{
    if i == 0 {
        8
    } else {
        let prev = entry_offset(b, (i - 1) as nat);
        prev + entry_len(b, prev)
    }
}

/// Number of accounts that the buffer declares.
pub open spec fn account_count(b: Seq<u8>) -> nat {
    u64_at(b, 0) as nat
}

/// The `i`-th entry can be turned into a handle: a full account with a
/// proper layout, or a duplicate of an earlier entry.
pub open spec fn entry_resolvable(b: Seq<u8>, i: nat) -> bool {
    let off = entry_offset(b, i);
    if b[off] == NON_DUP_MARKER {
        account_fits(b, off)
    } else {
        (b[off] as nat) < i
    }
}

/// Every declared entry lies inside the buffer, and the first `processed`
/// of them can be turned into handles.
pub open spec fn accounts_valid(b: Seq<u8>, processed: nat) -> bool {
    &&& 8 <= b.len()
    &&& forall|i: nat| i < account_count(b) ==> entry_fits(b, #[trigger] entry_offset(b, i))
    &&& forall|i: nat| i < processed ==> #[trigger] entry_resolvable(b, i)
}

/// Position of the instruction data's length, after all entries.
pub open spec fn trailer_offset(b: Seq<u8>) -> int {
    entry_offset(b, account_count(b))
}

/// Length of the instruction data.
pub open spec fn instruction_len(b: Seq<u8>) -> int {
    u64_at(b, trailer_offset(b)) as int
}

/// The instruction data's length, the data and the program id lie inside
/// the buffer.
pub open spec fn trailer_valid(b: Seq<u8>) -> bool {
    &&& trailer_offset(b) + 8 <= b.len()
    &&& trailer_offset(b) + 8 + instruction_len(b) + 32 <= b.len()
}

pub open spec fn instruction_data_of(b: Seq<u8>) -> Seq<u8> {
    b.subrange(trailer_offset(b) + 8, trailer_offset(b) + 8 + instruction_len(b))
}

pub open spec fn program_id_of(b: Seq<u8>) -> Seq<u8> {
    let start = trailer_offset(b) + 8 + instruction_len(b);
    b.subrange(start, start + 32)
}

/// Index of the full entry that the `j`-th entry stands for.
pub open spec fn resolved_index(b: Seq<u8>, j: nat) -> nat
    decreases j,
{
    let off = entry_offset(b, j);
    if b[off] != NON_DUP_MARKER && (b[off] as nat) < j {
        resolved_index(b, b[off] as nat)
    } else {
        j
    }
}

/// The buffer once the marker bytes of the full entries among the first `n`
/// are reset to zero, the state of an account without borrows.
pub open spec fn marked(b: Seq<u8>, n: nat) -> Seq<u8>
    decreases n,
{
    if n == 0 {
        b
    } else {
        let m = marked(b, (n - 1) as nat);
        let off = entry_offset(b, (n - 1) as nat);
        if 0 <= off < b.len() && b[off] == NON_DUP_MARKER {
            m.update(off, 0)
        } else {
            m
        }
    }
}

pub open spec fn min_nat(a: nat, b: nat) -> nat {
    if a < b { a } else { b }
}

// ---------------------------------------------------------------------------
// Facts on entries
// ---------------------------------------------------------------------------

pub proof fn lemma_entry_len_bounds(b: Seq<u8>, off: int)
    requires
        0 <= off < b.len(),
    ensures
        entry_len(b, off) >= 8,
        b[off] == NON_DUP_MARKER ==> entry_len(b, off) >= HEADER_LEN + data_len_of(b, off) + MAX_PERMITTED_DATA_INCREASE + 8,
{
}

/// Entries come one after the other.
pub proof fn lemma_entry_offsets_grow(b: Seq<u8>, i: nat, j: nat)
    requires
        i < j,
        forall|k: nat| k < j ==> entry_fits(b, #[trigger] entry_offset(b, k)),
    ensures
        entry_offset(b, i) + entry_len(b, entry_offset(b, i)) <= entry_offset(b, j),
        entry_offset(b, i) >= 8,
    decreases j,
{
    assert(entry_fits(b, entry_offset(b, i)));
    if j == i + 1 {
    } else {
        lemma_entry_offsets_grow(b, i, (j - 1) as nat);
        assert(entry_fits(b, entry_offset(b, (j - 1) as nat)));
        lemma_entry_len_bounds(b, entry_offset(b, (j - 1) as nat));
    }
    if i > 0 {
        lemma_entry_offsets_grow(b, 0, i);
    }
}

pub proof fn lemma_marked_len(b: Seq<u8>, n: nat)
    ensures
        marked(b, n).len() == b.len(),
    decreases n,
{
    if n > 0 {
        lemma_marked_len(b, (n - 1) as nat);
    }
}

/// Marking touches nothing from the `n`-th entry on, and keeps the length.
pub proof fn lemma_marked_suffix(b: Seq<u8>, n: nat, k: int)
    requires
        forall|i: nat| i < n ==> entry_fits(b, #[trigger] entry_offset(b, i)),
        k >= entry_offset(b, n),
    ensures
        marked(b, n).len() == b.len(),
        0 <= k < b.len() ==> marked(b, n)[k] == b[k],
    decreases n,
{
    if n > 0 {
        lemma_entry_offsets_grow(b, (n - 1) as nat, n);
        lemma_marked_suffix(b, (n - 1) as nat, k);
        lemma_marked_suffix(b, (n - 1) as nat, entry_offset(b, (n - 1) as nat));
    }
}

/// Marking keeps the header fields of every full entry.
pub proof fn lemma_marked_header(b: Seq<u8>, n: nat, j: nat, k: int)
    requires
        forall|i: nat| i < n ==> entry_fits(b, #[trigger] entry_offset(b, i)),
        j < n,
        b[entry_offset(b, j)] == NON_DUP_MARKER,
        entry_offset(b, j) < k < entry_offset(b, j) + HEADER_LEN,
    ensures
        marked(b, n)[k] == b[k],
    decreases n,
{
    let oj = entry_offset(b, j);
    assert(entry_fits(b, oj));
    lemma_entry_len_bounds(b, oj);
    lemma_marked_len(b, n);
    lemma_marked_len(b, (n - 1) as nat);
    if n - 1 > j {
        lemma_marked_header(b, (n - 1) as nat, j, k);
        lemma_entry_offsets_grow(b, j, (n - 1) as nat);
    } else {
        lemma_marked_suffix(b, j, k);
    }
}

/// Marking keeps every byte of a full entry but its marker.
pub proof fn lemma_marked_entry(b: Seq<u8>, n: nat, j: nat, k: int)
    requires
        forall|i: nat| i < n ==> entry_fits(b, #[trigger] entry_offset(b, i)),
        j < n,
        entry_offset(b, j) < k < entry_offset(b, j) + entry_len(b, entry_offset(b, j)),
    ensures
        marked(b, n)[k] == b[k],
    decreases n,
{
    let oj = entry_offset(b, j);
    assert(entry_fits(b, oj));
    lemma_marked_len(b, (n - 1) as nat);
    if n - 1 > j {
        lemma_marked_entry(b, (n - 1) as nat, j, k);
        lemma_entry_offsets_grow(b, j, (n - 1) as nat);
    } else {
        lemma_marked_suffix(b, j, k);
    }
}

/// A full entry keeps a proper layout once the buffer is marked.
pub proof fn lemma_marked_fits(b: Seq<u8>, n: nat, j: nat)
    requires
        forall|i: nat| i < n ==> entry_fits(b, #[trigger] entry_offset(b, i)),
        j < n,
        b[entry_offset(b, j)] == NON_DUP_MARKER,
        account_fits(b, entry_offset(b, j)),
    ensures
        account_fits(marked(b, n), entry_offset(b, j)),
{
    let o = entry_offset(b, j);
    let m = marked(b, n);
    lemma_marked_len(b, n);
    assert forall|k: int| o + 4 <= k < o + 8 implies m[k] == b[k] by {
        lemma_marked_header(b, n, j, k);
    }
    assert forall|k: int| o + 80 <= k < o + 88 implies m[k] == b[k] by {
        lemma_marked_header(b, n, j, k);
    }
    assert(m.subrange(o + 4, o + 8) =~= b.subrange(o + 4, o + 8));
    assert(m.subrange(o + 80, o + 88) =~= b.subrange(o + 80, o + 88));
}

/// A resolved index names a full entry no later than the one resolved.
pub proof fn lemma_resolved(b: Seq<u8>, j: nat)
    requires
        forall|i: nat| i <= j ==> #[trigger] entry_resolvable(b, i),
    ensures
        resolved_index(b, j) <= j,
        b[entry_offset(b, resolved_index(b, j))] == NON_DUP_MARKER,
        account_fits(b, entry_offset(b, resolved_index(b, j))),
    decreases j,
{
    assert(entry_resolvable(b, j));
    let off = entry_offset(b, j);
    if b[off] != NON_DUP_MARKER {
        lemma_resolved(b, b[off] as nat);
    }
}

// ---------------------------------------------------------------------------
// Reading entries
// ---------------------------------------------------------------------------

/// Where the entry at `offset` ends, or `None` if it does not fit.
fn entry_end(input: &[u8], offset: usize) -> (r: Option<usize>)
    requires
        input@.len() <= usize::MAX,
    ensures
        r is Some <==> entry_fits(input@, offset as int),
        r matches Some(end) ==> end == offset + entry_len(input@, offset as int),
{
    let len = input.len();
    if offset >= len {
        return None;
    }
    if input[offset] == NON_DUP_MARKER {
        if len - offset < HEADER_LEN {
            return None;
        }
        let data_len = read_u64(input, offset + 80);
        if data_len > (len - offset - HEADER_LEN) as u64 {
            return None;
        }
        let end = offset + HEADER_LEN + data_len as usize;
        if len - end < MAX_PERMITTED_DATA_INCREASE {
            return None;
        }
        let end = end + MAX_PERMITTED_DATA_INCREASE;
        let pad = (BPF_ALIGN_OF_U128 - end % BPF_ALIGN_OF_U128) % BPF_ALIGN_OF_U128;
        if len - end < pad + 8 {
            return None;
        }
        Some(end + pad + 8)
    } else {
        if len - offset < 8 {
            return None;
        }
        Some(offset + 8)
    }
}

/// Two buffers that agree from `off` on see the same entry there.
pub proof fn lemma_same_suffix(b1: Seq<u8>, b2: Seq<u8>, off: int)
    requires
        b1.len() == b2.len(),
        0 <= off,
        forall|k: int| off <= k < b1.len() ==> b1[k] == b2[k],
    ensures
        entry_fits(b1, off) == entry_fits(b2, off),
        entry_fits(b1, off) ==> entry_len(b1, off) == entry_len(b2, off) && b1[off] == b2[off],
        off + HEADER_LEN <= b1.len() ==> account_fits(b1, off) == account_fits(b2, off),
        off + 8 <= b1.len() ==> u64_at(b1, off) == u64_at(b2, off),
{
    if off + 88 <= b1.len() {
        assert(b1.subrange(off + 80, off + 88) =~= b2.subrange(off + 80, off + 88));
        assert(b1.subrange(off + 4, off + 8) =~= b2.subrange(off + 4, off + 8));
    }
    if off + 8 <= b1.len() {
        assert(b1.subrange(off, off + 8) =~= b2.subrange(off, off + 8));
    }
}

/// Reads the input buffer in one forward pass. Each of the first
/// `MAX_ACCOUNTS` entries becomes a handle: a full entry gets a handle of
/// its own and its marker byte is reset to zero (no borrows), a duplicate
/// gets a copy of the handle of the entry it names. The entries past
/// `MAX_ACCOUNTS` are stepped over. Returns the program id, the handles and
/// the instruction data.
pub fn deserialize<const MAX_ACCOUNTS: usize>(input: &mut Vec<u8>) -> (r: Result<(Pubkey, Vec<AccountInfo>, Vec<u8>), ProgramError>)
    ensures
        final(input)@.len() == old(input)@.len(),
        r is Ok <==> accounts_valid(old(input)@, min_nat(account_count(old(input)@), MAX_ACCOUNTS as nat))
            && trailer_valid(old(input)@),
        !accounts_valid(old(input)@, min_nat(account_count(old(input)@), MAX_ACCOUNTS as nat))
            ==> r == Err::<(Pubkey, Vec<AccountInfo>, Vec<u8>), ProgramError>(ProgramError::InvalidAccountData),
        accounts_valid(old(input)@, min_nat(account_count(old(input)@), MAX_ACCOUNTS as nat))
            && !trailer_valid(old(input)@)
            ==> r == Err::<(Pubkey, Vec<AccountInfo>, Vec<u8>), ProgramError>(ProgramError::InvalidInstructionData),
        r matches Ok((program_id, accounts, data)) ==> {
            let b = old(input)@;
            let n = min_nat(account_count(b), MAX_ACCOUNTS as nat);
            &&& final(input)@ == marked(b, n)
            &&& accounts@.len() == n
            &&& forall|j: int| 0 <= j < n ==> (#[trigger] accounts@[j]).header() == entry_offset(b, resolved_index(b, j as nat))
            &&& forall|j: int| 0 <= j < n ==> (#[trigger] accounts@[j]).wf(final(input)@)
            &&& data@ == instruction_data_of(b)
            &&& program_id@ == program_id_of(b)
        },
{
    let ghost b = input@;
    let len = input.len();
    if len < 8 {
        return Err(ProgramError::InvalidAccountData);
    }
    let total = read_u64(input.as_slice(), 0);
    let processed: u64 = if total < MAX_ACCOUNTS as u64 { total } else { MAX_ACCOUNTS as u64 };
    let ghost n = processed as nat;
    assert(n == min_nat(account_count(b), MAX_ACCOUNTS as nat));
    let mut accounts: Vec<AccountInfo> = Vec::new();
    let mut offset: usize = 8;
    let mut i: u64 = 0;
    while i < processed
        invariant
            b == old(input)@,
            b.len() == len,
            input@.len() == len,
            8 <= len,
            total as nat == account_count(b),
            processed as nat == n,
            n == min_nat(account_count(b), MAX_ACCOUNTS as nat),
            n <= account_count(b),
            i <= processed,
            offset == entry_offset(b, i as nat),
            input@ == marked(b, i as nat),
            forall|k: nat| k < i ==> entry_fits(b, #[trigger] entry_offset(b, k)),
            forall|k: nat| k < i ==> #[trigger] entry_resolvable(b, k),
            accounts@.len() == i,
            forall|j: int| 0 <= j < i ==> (#[trigger] accounts@[j]).header() == entry_offset(b, resolved_index(b, j as nat)),
        decreases processed - i,
    {
        proof {
            lemma_marked_len(b, i as nat);
            assert forall|k: int| offset <= k < len implies input@[k] == b[k] by {
                lemma_marked_suffix(b, i as nat, k);
            }
            lemma_same_suffix(input@, b, offset as int);
        }
        let end = match entry_end(input.as_slice(), offset) {
            Some(e) => e,
            None => {
                assert(!entry_fits(b, entry_offset(b, i as nat)));
                return Err(ProgramError::InvalidAccountData);
            },
        };
        let marker = input[offset];
        if marker == NON_DUP_MARKER {
            if !layout_fits(input.as_slice(), offset) {
                assert(!entry_resolvable(b, i as nat));
                return Err(ProgramError::InvalidAccountData);
            }
            input.set(offset, 0);
            accounts.push(AccountInfo::at(offset));
        } else {
            if marker as u64 >= i {
                assert(!entry_resolvable(b, i as nat));
                return Err(ProgramError::InvalidAccountData);
            }
            let original = accounts[marker as usize];
            accounts.push(original);
        }
        proof {
            assert(entry_fits(b, entry_offset(b, i as nat)));
            assert(entry_resolvable(b, i as nat));
            assert(input@ =~= marked(b, (i + 1) as nat));
            assert forall|k: nat| k < i + 1 implies entry_fits(b, #[trigger] entry_offset(b, k)) by {
                if k < i {
                    assert(entry_fits(b, entry_offset(b, k)));
                }
            }
            assert forall|k: nat| k < i + 1 implies #[trigger] entry_resolvable(b, k) by {
                if k < i {
                    assert(entry_resolvable(b, k));
                }
            }
        }
        offset = end;
        i += 1;
    }
    let ghost m = input@;
    while i < total
        invariant
            b == old(input)@,
            b.len() == len,
            input@ == m,
            m == marked(b, n),
            m.len() == len,
            8 <= len,
            total as nat == account_count(b),
            n <= i <= total,
            offset == entry_offset(b, i as nat),
            forall|k: nat| k < i ==> entry_fits(b, #[trigger] entry_offset(b, k)),
        decreases total - i,
    {
        proof {
            assert forall|k: int| offset <= k < len implies input@[k] == b[k] by {
                if n < i {
                    lemma_entry_offsets_grow(b, n, i as nat);
                }
                lemma_marked_suffix(b, n, k);
            }
            lemma_same_suffix(input@, b, offset as int);
        }
        let end = match entry_end(input.as_slice(), offset) {
            Some(e) => e,
            None => {
                assert(!entry_fits(b, entry_offset(b, i as nat)));
                return Err(ProgramError::InvalidAccountData);
            },
        };
        proof {
            assert forall|k: nat| k < i + 1 implies entry_fits(b, #[trigger] entry_offset(b, k)) by {
                if k < i {
                    assert(entry_fits(b, entry_offset(b, k)));
                }
            }
        }
        offset = end;
        i += 1;
    }
    assert(accounts_valid(b, n));
    proof {
        assert forall|k: int| offset <= k < len implies input@[k] == b[k] by {
            if n < i {
                lemma_entry_offsets_grow(b, n, i as nat);
            }
            lemma_marked_suffix(b, n, k);
        }
        lemma_same_suffix(input@, b, offset as int);
        if total > 0 {
            lemma_entry_offsets_grow(b, (total - 1) as nat, total as nat);
            assert(entry_fits(b, entry_offset(b, (total - 1) as nat)));
        }
        assert(offset <= len);
    }
    if len - offset < 8 {
        return Err(ProgramError::InvalidInstructionData);
    }
    let data_len = read_u64(input.as_slice(), offset);
    if data_len > (len - offset - 8) as u64 {
        return Err(ProgramError::InvalidInstructionData);
    }
    let start = offset + 8;
    let end = start + data_len as usize;
    if len - end < 32 {
        return Err(ProgramError::InvalidInstructionData);
    }
    proof {
        assert forall|k: int| offset <= k < len implies input@[k] == b[k] by {
            if n < i {
                lemma_entry_offsets_grow(b, n, i as nat);
            }
            lemma_marked_suffix(b, n, k);
        }
    }
    let data = slice_to_vec(&input.as_slice()[start..end]);
    let program_id = read_key(input.as_slice(), end);
    proof {
        assert(data@ =~= instruction_data_of(b));
        assert(program_id@ =~= program_id_of(b));
        assert forall|j: int| 0 <= j < n implies (#[trigger] accounts@[j]).wf(input@) by {
            assert forall|k: nat| k <= j implies #[trigger] entry_resolvable(b, k) by {
                assert(entry_resolvable(b, k));
            }
            lemma_resolved(b, j as nat);
            lemma_marked_fits(b, n, resolved_index(b, j as nat));
        }
    }
    Ok((program_id, accounts, data))
}

/// An entry read by [`InstructionContext::next_account`]: a handle to a full
/// account, or the index of the entry that a duplicate repeats.
#[derive(Debug)]
pub enum MaybeAccount {
    Account(AccountInfo),
    Duplicated(u8),
}

impl MaybeAccount {
    /// The handle of a full entry; the caller knows it is not a duplicate.
    pub fn assume_account(self) -> (r: AccountInfo)
        requires
            self is Account,
        ensures
            self == MaybeAccount::Account(r),
    {
        match self {
            MaybeAccount::Account(account) => account,
            MaybeAccount::Duplicated(_) => {
                assert(false);
                AccountInfo::at(0)
            },
        }
    }
}

/// Reads the entry at `offset`: a full account has its marker byte reset
/// to zero. Returns the entry and the position of the next one.
fn read_account(input: &mut Vec<u8>, offset: usize) -> (r: Result<(MaybeAccount, usize), ProgramError>)
    ensures
        ({
            let b = old(input)@;
            let off = offset as int;
            if !entry_fits(b, off) || (b[off] == NON_DUP_MARKER && !account_fits(b, off)) {
                &&& r == Err::<(MaybeAccount, usize), ProgramError>(ProgramError::InvalidAccountData)
                &&& final(input)@ == b
            } else if b[off] == NON_DUP_MARKER {
                &&& r matches Ok((MaybeAccount::Account(a), next)) && a.header() == off
                    && next == off + entry_len(b, off) && a.wf(final(input)@)
                &&& final(input)@ == b.update(off, 0)
            } else {
                &&& r matches Ok((MaybeAccount::Duplicated(d), next)) && d == b[off] && next == off + 8
                &&& final(input)@ == b
            }
        }),
{
    let _len = input.len();
    let end = match entry_end(input.as_slice(), offset) {
        Some(e) => e,
        None => return Err(ProgramError::InvalidAccountData),
    };
    let marker = input[offset];
    if marker == NON_DUP_MARKER {
        if !layout_fits(input.as_slice(), offset) {
            return Err(ProgramError::InvalidAccountData);
        }
        let ghost b = input@;
        input.set(offset, 0);
        proof {
            assert(b.update(offset as int, 0).subrange(offset + 80, offset + 88) =~= b.subrange(offset + 80, offset + 88));
            assert(b.update(offset as int, 0).subrange(offset + 4, offset + 8) =~= b.subrange(offset + 4, offset + 8));
        }
        Ok((MaybeAccount::Account(AccountInfo::at(offset)), end))
    } else {
        Ok((MaybeAccount::Duplicated(marker), end))
    }
}

/// Reads the input buffer on demand, one account at a time, for programs
/// that do not need every account up front.
#[derive(Debug)]
pub struct InstructionContext {
    remaining: u64,
    offset: usize,
}

impl InstructionContext {
    /// Number of accounts not read yet.
    pub closed spec fn remaining_count(&self) -> u64 {
        self.remaining
    }

    /// Position of the next entry.
    pub closed spec fn position(&self) -> int {
        self.offset as int
    }

    /// Starts reading the buffer before its first entry.
    pub fn new(input: &[u8]) -> (r: Self)
        requires
            8 <= input@.len(),
        ensures
            r.remaining_count() == account_count(input@),
            r.position() == 8,
    {
        InstructionContext { remaining: read_u64(input, 0), offset: 8 }
    }

    /// Reads the next account.
    pub fn next_account(&mut self, input: &mut Vec<u8>) -> (r: Result<MaybeAccount, ProgramError>)
        ensures
            ({
                let b = old(input)@;
                let off = old(self).position();
                if old(self).remaining_count() == 0 {
                    &&& r == Err::<MaybeAccount, ProgramError>(ProgramError::NotEnoughAccountKeys)
                    &&& final(input)@ == b
                    &&& *final(self) == *old(self)
                } else if !entry_fits(b, off) || (b[off] == NON_DUP_MARKER && !account_fits(b, off)) {
                    &&& r == Err::<MaybeAccount, ProgramError>(ProgramError::InvalidAccountData)
                    &&& final(input)@ == b
                } else {
                    &&& final(self).remaining_count() == old(self).remaining_count() - 1
                    &&& final(self).position() == off + entry_len(b, off)
                    &&& (b[off] == NON_DUP_MARKER ==> (r matches Ok(MaybeAccount::Account(a))
                        && a.header() == off && a.wf(final(input)@))
                        && final(input)@ == b.update(off, 0))
                    &&& (b[off] != NON_DUP_MARKER ==> r == Ok::<MaybeAccount, ProgramError>(MaybeAccount::Duplicated(b[off]))
                        && final(input)@ == b)
                }
            }),
    {
        if self.remaining == 0 {
            return Err(ProgramError::NotEnoughAccountKeys);
        }
        let (account, next) = match read_account(input, self.offset) {
            Ok(entry) => entry,
            Err(e) => return Err(e),
        };
        self.remaining = self.remaining - 1;
        self.offset = next;
        Ok(account)
    }

    /// Number of accounts the buffer declares.
    pub fn available(&self, input: &[u8]) -> (r: u64)
        requires
            8 <= input@.len(),
        ensures
            r == account_count(input@),
    {
        read_u64(input, 0)
    }

    /// Number of accounts not read yet.
    pub fn remaining(&self) -> (r: u64)
        ensures
            r == self.remaining_count(),
    {
        self.remaining
    }

    /// The instruction data; only once every account has been read.
    pub fn instruction_data<'a>(&self, input: &'a [u8]) -> (r: Result<&'a [u8], ProgramError>)
        ensures
            ({
                let b = input@;
                let off = self.position();
                if self.remaining_count() > 0 || !(off + 8 <= b.len() && off + 8 + u64_at(b, off) <= b.len()) {
                    r == Err::<&[u8], ProgramError>(ProgramError::InvalidInstructionData)
                } else {
                    r matches Ok(d) && d@ == b.subrange(off + 8, off + 8 + u64_at(b, off))
                }
            }),
    {
        if self.remaining > 0 {
            return Err(ProgramError::InvalidInstructionData);
        }
        let len = input.len();
        if self.offset > len || len - self.offset < 8 {
            return Err(ProgramError::InvalidInstructionData);
        }
        let data_len = read_u64(input, self.offset);
        if data_len > (len - self.offset - 8) as u64 {
            return Err(ProgramError::InvalidInstructionData);
        }
        let start = self.offset + 8;
        Ok(&input[start..start + data_len as usize])
    }

    /// The id of the program being run; only once every account has been read.
    pub fn program_id(&self, input: &[u8]) -> (r: Result<Pubkey, ProgramError>)
        ensures
            ({
                let b = input@;
                let off = self.position();
                let start = off + 8 + u64_at(b, off);
                if self.remaining_count() > 0 || !(off + 8 <= b.len() && start + 32 <= b.len()) {
                    r == Err::<Pubkey, ProgramError>(ProgramError::InvalidInstructionData)
                } else {
                    r matches Ok(k) && k@ == b.subrange(start, start + 32)
                }
            }),
    {
        if self.remaining > 0 {
            return Err(ProgramError::InvalidInstructionData);
        }
        let len = input.len();
        if self.offset > len || len - self.offset < 8 {
            return Err(ProgramError::InvalidInstructionData);
        }
        let data_len = read_u64(input, self.offset);
        if data_len > (len - self.offset - 8) as u64 || len - self.offset - 8 - (data_len as usize) < 32 {
            return Err(ProgramError::InvalidInstructionData);
        }
        Ok(read_key(input, self.offset + 8 + data_len as usize))
    }
}

// ---------------------------------------------------------------------------
// The host's serialization, and reading it back
// ---------------------------------------------------------------------------

/// An account as the host writes it into the input buffer.
pub struct HostAccount {
    pub is_signer: u8,
    pub is_writable: u8,
    pub executable: u8,
    pub key: Seq<u8>,
    pub owner: Seq<u8>,
    pub lamports: u64,
    pub data: Seq<u8>,
}

/// An entry as the host writes it: a full account, or the index of the
/// earlier entry that an account repeats.
pub enum HostEntry {
    Full(HostAccount),
    Duplicate(u8),
}

pub open spec fn zero_bytes(n: int) -> Seq<u8> {
    Seq::new(n as nat, |_i: int| 0u8)
}

/// The bytes of a full account whose entry starts at `at`.
pub open spec fn encode_account(a: HostAccount, at: int) -> Seq<u8> {
    let body = seq![NON_DUP_MARKER, a.is_signer, a.is_writable, a.executable] + spec_u32_to_le_bytes(0)
        + a.key + a.owner + spec_u64_to_le_bytes(a.lamports) + spec_u64_to_le_bytes(a.data.len() as u64)
        + a.data + zero_bytes(MAX_PERMITTED_DATA_INCREASE as int);
    body + zero_bytes((8 - (at + body.len()) % 8) % 8 + 8)
}

/// The bytes of an entry that starts at `at`.
pub open spec fn encode_entry(e: HostEntry, at: int) -> Seq<u8> {
    match e {
        HostEntry::Full(a) => encode_account(a, at),
        HostEntry::Duplicate(i) => seq![i] + zero_bytes(7),
    }
}

/// The bytes of the entries, the first one starting at offset 8.
pub open spec fn encode_entries(es: Seq<HostEntry>) -> Seq<u8>
    decreases es.len(),
{
    if es.len() == 0 {
        Seq::empty()
    } else {
        let prev = encode_entries(es.drop_last());
        prev + encode_entry(es.last(), 8 + prev.len() as int)
    }
}

/// The input buffer that the host writes for these entries, instruction
/// data and program id.
#[verifier::opaque]
pub open spec fn encode_input(es: Seq<HostEntry>, data: Seq<u8>, program_id: Seq<u8>) -> Seq<u8> {
    spec_u64_to_le_bytes(es.len() as u64) + encode_entries(es) + spec_u64_to_le_bytes(data.len() as u64) + data + program_id
}

/// Entries the host can write: keys and owners of 32 bytes, data shorter
/// than 2^31 bytes, and duplicates that name an earlier full entry.
pub open spec fn host_entries_valid(es: Seq<HostEntry>) -> bool {
    forall|i: int| 0 <= i < es.len() ==> match #[trigger] es[i] {
        HostEntry::Full(a) => a.key.len() == 32 && a.owner.len() == 32 && a.data.len() < SET_LEN_MASK,
        HostEntry::Duplicate(k) => k < i && k != NON_DUP_MARKER && es[k as int] is Full,
    }
}

/// The full account that the `i`-th entry stands for.
pub open spec fn host_account_of(es: Seq<HostEntry>, i: int) -> HostAccount {
    match es[i] {
        HostEntry::Full(a) => a,
        HostEntry::Duplicate(k) => es[k as int]->Full_0,
    }
}

/// The index of the full entry that the `i`-th entry stands for.
pub open spec fn host_index_of(es: Seq<HostEntry>, i: int) -> int {
    match es[i] {
        HostEntry::Full(_) => i,
        HostEntry::Duplicate(k) => k as int,
    }
}

proof fn lemma_encode_account_fields(a: HostAccount, at: int)
    requires
        a.key.len() == 32,
        a.owner.len() == 32,
    ensures
        ({
            let e = encode_account(a, at);
            &&& e.len() == align8(at + HEADER_LEN + a.data.len() + MAX_PERMITTED_DATA_INCREASE) + 8 - at
            &&& e[0] == NON_DUP_MARKER
            &&& e[1] == a.is_signer
            &&& e[2] == a.is_writable
            &&& e[3] == a.executable
            &&& e.subrange(4, 8) == spec_u32_to_le_bytes(0)
            &&& e.subrange(8, 40) == a.key
            &&& e.subrange(40, 72) == a.owner
            &&& e.subrange(72, 80) == spec_u64_to_le_bytes(a.lamports)
            &&& e.subrange(80, 88) == spec_u64_to_le_bytes(a.data.len() as u64)
            &&& e.subrange(88, 88 + a.data.len() as int) == a.data
        }),
{
    lemma_auto_spec_u64_to_from_le_bytes();
    lemma_auto_spec_u32_to_from_le_bytes();
    let e = encode_account(a, at);
    let h = seq![NON_DUP_MARKER, a.is_signer, a.is_writable, a.executable];
    let l = spec_u32_to_le_bytes(0);
    let lam = spec_u64_to_le_bytes(a.lamports);
    let dl = spec_u64_to_le_bytes(a.data.len() as u64);
    assert(e.subrange(4, 8) =~= l);
    assert(e.subrange(8, 40) =~= a.key);
    assert(e.subrange(40, 72) =~= a.owner);
    assert(e.subrange(72, 80) =~= lam);
    assert(e.subrange(80, 88) =~= dl);
    assert(e.subrange(88, 88 + a.data.len() as int) =~= a.data);
}

/// The entries written before the `i`-th one form a prefix of the whole.
proof fn lemma_encode_prefix(es: Seq<HostEntry>, i: int)
    requires
        0 <= i <= es.len(),
    ensures
        encode_entries(es.subrange(0, i)).len() <= encode_entries(es).len(),
        encode_entries(es).subrange(0, encode_entries(es.subrange(0, i)).len() as int) == encode_entries(es.subrange(0, i)),
    decreases es.len(),
{
    if i == es.len() {
        assert(es.subrange(0, i) =~= es);
        assert(encode_entries(es).subrange(0, encode_entries(es).len() as int) =~= encode_entries(es));
    } else {
        lemma_encode_prefix(es.drop_last(), i);
        assert(es.drop_last().subrange(0, i) =~= es.subrange(0, i));
        let p = encode_entries(es.subrange(0, i));
        assert(encode_entries(es).subrange(0, p.len() as int) =~= encode_entries(es.drop_last()).subrange(0, p.len() as int));
    }
}

/// Where the `i`-th entry starts in the encoded input.
pub open spec fn host_offset(es: Seq<HostEntry>, i: int) -> int {
    8 + encode_entries(es.subrange(0, i)).len() as int
}

/// The `i`-th entry sits at its offset in the encoded input.
proof fn lemma_entry_bytes(es: Seq<HostEntry>, rest: Seq<u8>, i: int)
    requires
        0 <= i < es.len(),
    ensures
        ({
            let b = spec_u64_to_le_bytes(es.len() as u64) + encode_entries(es) + rest;
            let off = host_offset(es, i);
            let e = encode_entry(es[i], off);
            &&& host_offset(es, i + 1) == off + e.len()
            &&& off + e.len() <= 8 + encode_entries(es).len()
            &&& b.subrange(off, off + e.len()) == e
        }),
{
    lemma_auto_spec_u64_to_from_le_bytes();
    let b = spec_u64_to_le_bytes(es.len() as u64) + encode_entries(es) + rest;
    let take = es.subrange(0, i + 1);
    assert(take.drop_last() =~= es.subrange(0, i));
    assert(take.last() == es[i]);
    lemma_encode_prefix(es, i + 1);
    let off = host_offset(es, i);
    let e = encode_entry(es[i], off);
    let all = encode_entries(es);
    let through_i = encode_entries(take);
    assert(through_i == encode_entries(es.subrange(0, i)) + e);
    assert(b.subrange(off, off + e.len()) =~= e) by {
        assert forall|k: int| 0 <= k < e.len() implies b[off + k] == e[k] by {
            assert(b[off + k] == all[off + k - 8]);
            assert(all[off + k - 8] == through_i[off + k - 8]);
        }
    }
}

/// The handle of the `i`-th entry, read from the buffer `b` after the
/// reader has processed `n` entries, shows the full account that the entry
/// stands for; a duplicate resolves to the entry it repeats.
pub open spec fn handle_shows(es: Seq<HostEntry>, b: Seq<u8>, n: nat, i: int) -> bool {
    let a = host_account_of(es, i);
    let o = entry_offset(b, resolved_index(b, i as nat));
    let m = marked(b, n);
    &&& resolved_index(b, i as nat) == host_index_of(es, i)
    &&& key_of(m, o) == a.key
    &&& owner_of(m, o) == a.owner
    &&& lamports_of(m, o) == a.lamports
    &&& data_len_of(m, o) == a.data.len()
    &&& data_of(m, o) == a.data
    &&& account_fits(m, o)
}

/// The host's buffer is read back exactly: every entry lies where the
/// reader looks for it, the reader accepts the buffer, and each handle it
/// gives (a duplicate's being that of the entry it repeats) shows the key,
/// owner, lamports, data length and data that were written, also after the
/// reader has reset the marker bytes.
pub proof fn lemma_deserialize_round_trip(es: Seq<HostEntry>, data: Seq<u8>, program_id: Seq<u8>, max: nat)
    requires
        host_entries_valid(es),
        program_id.len() == 32,
        es.len() <= u64::MAX,
        data.len() <= u64::MAX,
        encode_input(es, data, program_id).len() <= usize::MAX,
    ensures
        ({
            let b = encode_input(es, data, program_id);
            let n = min_nat(es.len(), max);
            &&& account_count(b) == es.len()
            &&& accounts_valid(b, n)
            &&& trailer_valid(b)
            &&& instruction_data_of(b) == data
            &&& program_id_of(b) == program_id
            &&& forall|i: int| 0 <= i < n ==> #[trigger] handle_shows(es, b, n, i)
        }),
{
    let b = encode_input(es, data, program_id);
    let n = min_nat(es.len(), max);
    lemma_trailer(es, data, program_id);
    lemma_entries_fit(es, data, program_id);
    lemma_entries_resolvable(es, data, program_id);
    assert(accounts_valid(b, n));
    assert forall|i: int| 0 <= i < n implies #[trigger] handle_shows(es, b, n, i) by {
        lemma_handle_facts(es, data, program_id, n, i);
    }
}

/// The count, the instruction data and the program id of the host's buffer.
proof fn lemma_trailer(es: Seq<HostEntry>, data: Seq<u8>, program_id: Seq<u8>)
    requires
        host_entries_valid(es),
        program_id.len() == 32,
        es.len() <= u64::MAX,
        data.len() <= u64::MAX,
        encode_input(es, data, program_id).len() <= usize::MAX,
    ensures
        ({
            let b = encode_input(es, data, program_id);
            &&& 8 <= b.len()
            &&& account_count(b) == es.len()
            &&& trailer_valid(b)
            &&& instruction_data_of(b) == data
            &&& program_id_of(b) == program_id
        }),
{
    lemma_auto_spec_u64_to_from_le_bytes();
    reveal(encode_input);
    let b = encode_input(es, data, program_id);
    let all = encode_entries(es);
    let head = spec_u64_to_le_bytes(es.len() as u64);
    let tail = spec_u64_to_le_bytes(data.len() as u64);
    assert(b.subrange(0, 8) =~= head);
    assert(account_count(b) == es.len());
    assert(es.subrange(0, es.len() as int) =~= es);
    lemma_offsets_match(es, data, program_id, es.len());
    let t = 8 + all.len() as int;
    assert(trailer_offset(b) == t);
    assert(b.subrange(t, t + 8) =~= tail);
    assert(instruction_len(b) == data.len());
    assert(instruction_data_of(b) =~= data);
    assert(program_id_of(b) =~= program_id);
}

/// Every entry of the host's buffer fits where the reader finds it.
proof fn lemma_entries_fit(es: Seq<HostEntry>, data: Seq<u8>, program_id: Seq<u8>)
    requires
        host_entries_valid(es),
        encode_input(es, data, program_id).len() <= usize::MAX,
    ensures
        ({
            let b = encode_input(es, data, program_id);
            forall|i: nat| i < es.len() ==> {
                &&& entry_fits(b, #[trigger] entry_offset(b, i))
                &&& entry_offset(b, i) == host_offset(es, i as int)
                &&& (es[i as int] is Full ==> account_fits(b, entry_offset(b, i)))
                &&& b[entry_offset(b, i)] == (match es[i as int] { HostEntry::Full(_) => NON_DUP_MARKER, HostEntry::Duplicate(k) => k })
            }
        }),
{
    let b = encode_input(es, data, program_id);
    assert forall|i: nat| i < es.len() implies {
        &&& entry_fits(b, #[trigger] entry_offset(b, i))
        &&& entry_offset(b, i) == host_offset(es, i as int)
        &&& (es[i as int] is Full ==> account_fits(b, entry_offset(b, i)))
        &&& b[entry_offset(b, i)] == (match es[i as int] { HostEntry::Full(_) => NON_DUP_MARKER, HostEntry::Duplicate(k) => k })
    } by {
        lemma_offsets_match(es, data, program_id, i);
        lemma_entry_facts(es, data, program_id, i as int);
    }
}

/// Every entry of the host's buffer can be turned into a handle.
proof fn lemma_entries_resolvable(es: Seq<HostEntry>, data: Seq<u8>, program_id: Seq<u8>)
    requires
        host_entries_valid(es),
        encode_input(es, data, program_id).len() <= usize::MAX,
    ensures
        forall|i: nat| i < es.len() ==> #[trigger] entry_resolvable(encode_input(es, data, program_id), i),
{
    let b = encode_input(es, data, program_id);
    lemma_entries_fit(es, data, program_id);
    assert forall|i: nat| i < es.len() implies #[trigger] entry_resolvable(b, i) by {
        assert(entry_fits(b, entry_offset(b, i)));
        match es[i as int] {
            HostEntry::Full(_) => {},
            HostEntry::Duplicate(k) => {
                assert(k < i && k != NON_DUP_MARKER);
            },
        }
    }
}

/// The handle of the `i`-th entry shows what the host wrote.
proof fn lemma_handle_facts(es: Seq<HostEntry>, data: Seq<u8>, program_id: Seq<u8>, n: nat, i: int)
    requires
        host_entries_valid(es),
        encode_input(es, data, program_id).len() <= usize::MAX,
        n <= es.len(),
        0 <= i < n,
    ensures
        handle_shows(es, encode_input(es, data, program_id), n, i),
{
    let b = encode_input(es, data, program_id);
    lemma_entries_fit(es, data, program_id);
    assert(forall|k: nat| k < n ==> entry_fits(b, #[trigger] entry_offset(b, k)));
    let j = host_index_of(es, i);
    assert(entry_fits(b, entry_offset(b, i as nat)));
    assert(0 <= j <= i);
    if es[i] is Duplicate {
        let k = es[i]->Duplicate_0;
        assert(b[entry_offset(b, i as nat)] == k);
        assert(entry_fits(b, entry_offset(b, k as nat)));
        assert(b[entry_offset(b, k as nat)] == NON_DUP_MARKER);
        assert(resolved_index(b, k as nat) == k as nat);
    }
    assert(resolved_index(b, i as nat) == j);
    let o = entry_offset(b, j as nat);
    let a = host_account_of(es, i);
    assert(es[j] == HostEntry::Full(a));
    assert(entry_fits(b, o));
    assert(account_fits(b, o));
    lemma_entry_facts(es, data, program_id, j);
    let m = marked(b, n);
    lemma_marked_len(b, n);
    assert forall|k: int| o < k < o + entry_len(b, o) implies m[k] == b[k] by {
        lemma_marked_entry(b, n, j as nat, k);
    }
    lemma_marked_fits(b, n, j as nat);
    assert(key_of(m, o) =~= key_of(b, o));
    assert(owner_of(m, o) =~= owner_of(b, o));
    assert(m.subrange(o + 72, o + 80) =~= b.subrange(o + 72, o + 80));
    assert(m.subrange(o + 80, o + 88) =~= b.subrange(o + 80, o + 88));
    assert(data_of(m, o) =~= data_of(b, o));
}

/// The reader finds the `i`-th entry where the host wrote it.
proof fn lemma_offsets_match(es: Seq<HostEntry>, data: Seq<u8>, program_id: Seq<u8>, i: nat)
    requires
        host_entries_valid(es),
        i <= es.len(),
        encode_input(es, data, program_id).len() <= usize::MAX,
    ensures
        entry_offset(encode_input(es, data, program_id), i) == host_offset(es, i as int),
    decreases i,
{
    let b = encode_input(es, data, program_id);
    if i == 0 {
        assert(es.subrange(0, 0) =~= Seq::<HostEntry>::empty());
    } else {
        let prev = (i - 1) as nat;
        lemma_offsets_match(es, data, program_id, prev);
        lemma_entry_facts(es, data, program_id, prev as int);
        let off = entry_offset(b, prev);
        assert(off == host_offset(es, prev as int));
        assert(entry_offset(b, i) == off + entry_len(b, off));
    }
}

/// What the reader sees of the `i`-th entry at the host's offset.
#[verifier::rlimit(60)]
proof fn lemma_entry_facts(es: Seq<HostEntry>, data: Seq<u8>, program_id: Seq<u8>, i: int)
    requires
        host_entries_valid(es),
        0 <= i < es.len(),
        encode_input(es, data, program_id).len() <= usize::MAX,
    ensures
        ({
            let b = encode_input(es, data, program_id);
            let off = host_offset(es, i);
            &&& host_offset(es, i + 1) == off + entry_len(b, off)
            &&& entry_fits(b, off)
            &&& b[off] == (match es[i] { HostEntry::Full(_) => NON_DUP_MARKER, HostEntry::Duplicate(k) => k })
            &&& es[i] is Full ==> {
                let a = es[i]->Full_0;
                &&& account_fits(b, off)
                &&& entry_len(b, off) >= HEADER_LEN
                &&& key_of(b, off) == a.key
                &&& owner_of(b, off) == a.owner
                &&& lamports_of(b, off) == a.lamports
                &&& data_len_of(b, off) == a.data.len()
                &&& data_of(b, off) == a.data
            }
        }),
{
    lemma_auto_spec_u64_to_from_le_bytes();
    lemma_auto_spec_u32_to_from_le_bytes();
    reveal(encode_input);
    let b = encode_input(es, data, program_id);
    let rest = spec_u64_to_le_bytes(data.len() as u64) + data + program_id;
    assert(b =~= spec_u64_to_le_bytes(es.len() as u64) + encode_entries(es) + rest);
    lemma_entry_bytes(es, rest, i);
    let off = host_offset(es, i);
    let e = encode_entry(es[i], off);
    assert(b.subrange(off, off + e.len()) == e);
    assert(b[off] == e[0]);
    match es[i] {
        HostEntry::Full(a) => {
            lemma_encode_account_fields(a, off);
            assert(b.subrange(off + 80, off + 88) =~= e.subrange(80, 88));
            assert(b.subrange(off + 4, off + 8) =~= e.subrange(4, 8));
            assert(b.subrange(off + 72, off + 80) =~= e.subrange(72, 80));
            assert(key_of(b, off) =~= e.subrange(8, 40));
            assert(owner_of(b, off) =~= e.subrange(40, 72));
            assert(data_len_of(b, off) == a.data.len());
            assert(data_of(b, off) =~= e.subrange(88, 88 + a.data.len() as int));
            assert(u32_at(b, off + 4) == 0);
            assert(original_len_of(b, off) == a.data.len());
        },
        HostEntry::Duplicate(k) => {
            assert(e.len() == 8);
        },
    }
}


} // verus!
