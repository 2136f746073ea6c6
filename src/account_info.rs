//! Checked access to the accounts that live in the host's input buffer.
//!
//! An account is a fixed 88-byte header followed by its data, inside the
//! buffer that the host hands to the program. An [`AccountInfo`] is a handle
//! to one header; several handles may name the same account (duplicates), so
//! every borrow goes through the account's shared borrow-state byte.
use crate::error::{ProgramError, ProgramResult};
use crate::layout::{
    lemma_u32_written, lemma_u64_written, read_u32, lemma_u32_untouched, lemma_u64_untouched, read_u64, u64_at, u32_at, write_at, write_bytes,
    write_u64, write_u32, zero_at, write_zeros,
};
use crate::pubkey::Pubkey;
use vstd::bytes::*;
use vstd::prelude::*;

verus! {

/// Maximum number of bytes an account may grow by within one invocation.
pub const MAX_PERMITTED_DATA_INCREASE: usize = 10240;

/// Size of an account header in the input buffer.
pub const HEADER_LEN: usize = 88;

/// Offsets of the header fields.
pub const BORROW_STATE_OFFSET: usize = 0;
pub const IS_SIGNER_OFFSET: usize = 1;
pub const IS_WRITABLE_OFFSET: usize = 2;
pub const EXECUTABLE_OFFSET: usize = 3;
pub const ORIGINAL_DATA_LEN_OFFSET: usize = 4;
pub const KEY_OFFSET: usize = 8;
pub const OWNER_OFFSET: usize = 40;
pub const LAMPORTS_OFFSET: usize = 72;
pub const DATA_LEN_OFFSET: usize = 80;

/// Flag of the original-length field that says the length has been cached.
pub const SET_LEN_MASK: u32 = 0x8000_0000;

/// Shift of the lamports' borrow bits in the borrow-state byte.
pub const LAMPORTS_SHIFT: u8 = 4;

/// Shift of the data's borrow bits in the borrow-state byte.
pub const DATA_SHIFT: u8 = 0;

// ---------------------------------------------------------------------------
// The header, read from the buffer
// ---------------------------------------------------------------------------

pub open spec fn borrow_state_of(b: Seq<u8>, o: int) -> u8 {
    b[o]
}

pub open spec fn key_of(b: Seq<u8>, o: int) -> Seq<u8> {
    b.subrange(o + 8, o + 40)
}

pub open spec fn owner_of(b: Seq<u8>, o: int) -> Seq<u8> {
    b.subrange(o + 40, o + 72)
}

pub open spec fn lamports_of(b: Seq<u8>, o: int) -> u64 {
    u64_at(b, o + 72)
}

pub open spec fn data_len_of(b: Seq<u8>, o: int) -> u64 {
    u64_at(b, o + 80)
}

pub open spec fn original_len_field(b: Seq<u8>, o: int) -> u32 {
    u32_at(b, o + 4)
}

/// The data length the account had when the host serialized it: the cached
/// value once the cache flag is set, the current length before.
pub open spec fn original_len_of(b: Seq<u8>, o: int) -> int {
    let f = original_len_field(b, o);
    if f >= SET_LEN_MASK {
        f - SET_LEN_MASK
    } else {
        data_len_of(b, o) as int
    }
}

pub open spec fn data_start(o: int) -> int {
    o + HEADER_LEN
}

pub open spec fn data_of(b: Seq<u8>, o: int) -> Seq<u8> {
    b.subrange(o + HEADER_LEN, o + HEADER_LEN + data_len_of(b, o))
}

/// The header at `o` and the room the host reserved after it (the original
/// data plus the permitted growth) lie inside the buffer, and the current
/// length stays within that room.
pub open spec fn account_fits(b: Seq<u8>, o: int) -> bool {
    &&& b.len() <= usize::MAX
    &&& 0 <= o
    &&& o + HEADER_LEN <= b.len()
    &&& original_len_of(b, o) < SET_LEN_MASK
    &&& data_len_of(b, o) <= original_len_of(b, o) + MAX_PERMITTED_DATA_INCREASE
    &&& o + HEADER_LEN + original_len_of(b, o) + MAX_PERMITTED_DATA_INCREASE <= b.len()
}

// ---------------------------------------------------------------------------
// The borrow-state byte
// ---------------------------------------------------------------------------

/// The shift of one of the two resources of an account.
pub open spec fn is_resource_shift(shift: u8) -> bool {
    shift == LAMPORTS_SHIFT || shift == DATA_SHIFT
}

/// The resource at `shift` is mutably borrowed.
pub open spec fn mut_borrowed(state: u8, shift: u8) -> bool {
    (state >> shift) & 8u8 == 8u8
}

/// Number of outstanding immutable borrows of the resource at `shift`.
pub open spec fn shared_count(state: u8, shift: u8) -> u8 {
    (state >> shift) & 7u8
}

/// Neither resource is at once mutably and immutably borrowed.
pub open spec fn state_valid(state: u8) -> bool {
    &&& !(mut_borrowed(state, LAMPORTS_SHIFT) && shared_count(state, LAMPORTS_SHIFT) != 0)
    &&& !(mut_borrowed(state, DATA_SHIFT) && shared_count(state, DATA_SHIFT) != 0)
}

/// Taking an immutable borrow: refused while the resource is mutably
/// borrowed or already has seven immutable borrows.
pub open spec fn acquire_shared(state: u8, shift: u8) -> Option<u8> {
    if mut_borrowed(state, shift) || shared_count(state, shift) == 7 {
        None
    } else {
        Some((state + (1u8 << shift)) as u8)
    }
}

/// Taking a mutable borrow: refused while the resource has any borrow.
pub open spec fn acquire_exclusive(state: u8, shift: u8) -> Option<u8> {
    if (state >> shift) & 15u8 != 0 {
        None
    } else {
        Some(state | (8u8 << shift))
    }
}

/// Giving back an immutable borrow.
pub open spec fn release_shared(state: u8, shift: u8) -> u8 {
    if shared_count(state, shift) != 0 {
        (state - (1u8 << shift)) as u8
    } else {
        state
    }
}

/// Giving back a mutable borrow.
pub open spec fn release_exclusive(state: u8, shift: u8) -> u8 {
    state & !(8u8 << shift)
}

// ---------------------------------------------------------------------------
// Handles
// ---------------------------------------------------------------------------

/// Handle to an account in the input buffer. Copies of a handle, and the
/// handles of duplicate entries, name the same account.
#[derive(Clone, Copy, Debug, PartialEq, Eq, Structural)]
pub struct AccountInfo {
    offset: usize,
}

impl AccountInfo {
    /// Position of the account's header in the input buffer.
    pub closed spec fn header(&self) -> int {
        self.offset as int
    }

    /// The handle names an account laid out in the buffer.
    pub open spec fn wf(&self, b: Seq<u8>) -> bool {
        account_fits(b, self.header())
    }

    pub(crate) fn at(offset: usize) -> (r: AccountInfo)
        ensures
            r.header() == offset,
    {
        AccountInfo { offset }
    }

    /// Checks that the handle names an account laid out in the buffer.
    pub fn is_laid_out(&self, input: &[u8]) -> (r: bool)
        requires
            input@.len() <= usize::MAX,
        ensures
            r == self.wf(input@),
    {
        layout_fits(input, self.offset)
    }

    pub(crate) fn offset(&self) -> (r: usize)
        ensures
            r == self.header(),
    {
        self.offset
    }

    /// Public key of the account.
    pub fn key(&self, input: &[u8]) -> (r: Pubkey)
        requires
            self.wf(input@),
        ensures
            r@ == key_of(input@, self.header()),
    {
        read_key(input, self.offset + KEY_OFFSET)
    }

    /// Program that owns the account.
    pub fn owner(&self, input: &[u8]) -> (r: Pubkey)
        requires
            self.wf(input@),
        ensures
            r@ == owner_of(input@, self.header()),
    {
        read_key(input, self.offset + OWNER_OFFSET)
    }

    /// The transaction was signed by this account.
    pub fn is_signer(&self, input: &[u8]) -> (r: bool)
        requires
            self.wf(input@),
        ensures
            r == (input@[self.header() + 1] != 0),
    {
        input[self.offset + IS_SIGNER_OFFSET] != 0
    }

    /// The account is writable.
    pub fn is_writable(&self, input: &[u8]) -> (r: bool)
        requires
            self.wf(input@),
        ensures
            r == (input@[self.header() + 2] != 0),
    {
        input[self.offset + IS_WRITABLE_OFFSET] != 0
    }

    /// The account holds a program.
    pub fn executable(&self, input: &[u8]) -> (r: bool)
        requires
            self.wf(input@),
        ensures
            r == (input@[self.header() + 3] != 0),
    {
        input[self.offset + EXECUTABLE_OFFSET] != 0
    }

    /// Length of the account's data.
    pub fn data_len(&self, input: &[u8]) -> (r: usize)
        requires
            self.wf(input@),
        ensures
            r == data_len_of(input@, self.header()),
    {
        read_u64(input, self.offset + DATA_LEN_OFFSET) as usize
    }

    /// Lamports held by the account.
    pub fn lamports(&self, input: &[u8]) -> (r: u64)
        requires
            self.wf(input@),
        ensures
            r == lamports_of(input@, self.header()),
    {
        read_u64(input, self.offset + LAMPORTS_OFFSET)
    }

    /// The account has no data.
    pub fn data_is_empty(&self, input: &[u8]) -> (r: bool)
        requires
            self.wf(input@),
        ensures
            r == (data_len_of(input@, self.header()) == 0),
    {
        self.data_len(input) == 0
    }

    /// The account's borrow-state byte.
    pub fn borrow_state(&self, input: &[u8]) -> (r: u8)
        requires
            self.wf(input@),
        ensures
            r == borrow_state_of(input@, self.header()),
    {
        input[self.offset]
    }

    /// Overwrites the owner field. The host checks owner changes when the
    /// instruction ends, so no borrow is taken.
    pub fn assign(&self, input: &mut Vec<u8>, new_owner: &Pubkey)
        requires
            self.wf(old(input)@),
        ensures
            final(input)@ == write_at(old(input)@, self.header() + 40, new_owner@),
            self.wf(final(input)@),
            owner_of(final(input)@, self.header()) == new_owner@,
    {
        proof {
            lemma_header_write_keeps_fit(old(input)@, self.header(), 40, new_owner@);
        }
        write_bytes(input, self.offset + OWNER_OFFSET, new_owner.as_slice());
        assert(owner_of(input@, self.header()) =~= new_owner@);
    }

    /// The lamports, read without taking a borrow.
    pub fn borrow_lamports_unchecked(&self, input: &[u8]) -> (r: u64)
        requires
            self.wf(input@),
        ensures
            r == lamports_of(input@, self.header()),
    {
        self.lamports(input)
    }

    /// Sets the lamports without taking a borrow.
    pub fn borrow_mut_lamports_unchecked(&self, input: &mut Vec<u8>, lamports: u64)
        requires
            self.wf(old(input)@),
        ensures
            final(input)@ == write_at(old(input)@, self.header() + 72, spec_u64_to_le_bytes(lamports)),
            self.wf(final(input)@),
            lamports_of(final(input)@, self.header()) == lamports,
    {
        proof {
            lemma_auto_spec_u64_to_from_le_bytes();
            lemma_header_write_keeps_fit(old(input)@, self.header(), 72, spec_u64_to_le_bytes(lamports));
        }
        write_u64(input, self.offset + LAMPORTS_OFFSET, lamports);
    }

    /// The data, read without taking a borrow.
    pub fn borrow_data_unchecked<'a>(&self, input: &'a [u8]) -> (r: &'a [u8])
        requires
            self.wf(input@),
        ensures
            r@ == data_of(input@, self.header()),
    {
        let start = self.offset + HEADER_LEN;
        let len = self.data_len(input);
        &input[start..start + len]
    }

    /// Writes `bytes` into the data from `at` on, without taking a borrow.
    pub fn borrow_mut_data_unchecked(&self, input: &mut Vec<u8>, at: usize, bytes: &[u8])
        requires
            self.wf(old(input)@),
            at + bytes@.len() <= data_len_of(old(input)@, self.header()),
        ensures
            final(input)@ == write_at(old(input)@, self.header() + HEADER_LEN + at, bytes@),
            self.wf(final(input)@),
    {
        proof {
            lemma_data_write_keeps_fit(old(input)@, self.header(), at as int, bytes@);
        }
        write_bytes(input, self.offset + HEADER_LEN + at, bytes);
    }

    /// Takes an immutable borrow of the lamports.
    pub fn try_borrow_lamports(&self, input: &mut Vec<u8>) -> (r: Result<Ref, ProgramError>)
        requires
            self.wf(old(input)@),
        ensures
            borrow_outcome(old(input)@, final(input)@, self.header(),
                acquire_shared(old(input)@[self.header()], LAMPORTS_SHIFT)),
            r is Ok <==> acquire_shared(old(input)@[self.header()], LAMPORTS_SHIFT) is Some,
            r is Err ==> r == Err::<Ref, ProgramError>(ProgramError::AccountBorrowFailed),
            r matches Ok(g) ==> g.account() == *self && g.shift() == LAMPORTS_SHIFT,
            self.wf(final(input)@),
    {
        let state = input[self.offset];
        if state & 0b_1000_0000 != 0 {
            assert(mut_borrowed(state, 4)) by (bit_vector)
                requires state & 0x80 != 0;
            return Err(ProgramError::AccountBorrowFailed);
        }
        if state & 0b_0111_0000 == 0b_0111_0000 {
            assert(shared_count(state, 4) == 7) by (bit_vector)
                requires state & 0x70 == 0x70;
            return Err(ProgramError::AccountBorrowFailed);
        }
        assert(!mut_borrowed(state, 4) && shared_count(state, 4) != 7 && state + 16 < 256
            && state + 16 == state + (1u8 << 4u8)) by (bit_vector)
            requires state & 0x80 == 0, state & 0x70 != 0x70;
        self.set_state(input, state + 16);
        Ok(Ref { account: *self, borrow_shift: LAMPORTS_SHIFT })
    }

    /// Takes a mutable borrow of the lamports.
    pub fn try_borrow_mut_lamports(&self, input: &mut Vec<u8>) -> (r: Result<RefMut, ProgramError>)
        requires
            self.wf(old(input)@),
        ensures
            borrow_outcome(old(input)@, final(input)@, self.header(),
                acquire_exclusive(old(input)@[self.header()], LAMPORTS_SHIFT)),
            r is Ok <==> acquire_exclusive(old(input)@[self.header()], LAMPORTS_SHIFT) is Some,
            r is Err ==> r == Err::<RefMut, ProgramError>(ProgramError::AccountBorrowFailed),
            r matches Ok(g) ==> g.account() == *self && g.shift() == LAMPORTS_SHIFT,
            self.wf(final(input)@),
    {
        let state = input[self.offset];
        if state & 0b_1111_0000 != 0 {
            assert((state >> 4u8) & 15u8 != 0) by (bit_vector)
                requires state & 0xf0 != 0;
            return Err(ProgramError::AccountBorrowFailed);
        }
        assert((state >> 4u8) & 15u8 == 0 && state | 0x80 == state | (8u8 << 4u8)) by (bit_vector)
            requires state & 0xf0 == 0;
        self.set_state(input, state | 0b_1000_0000);
        Ok(RefMut { account: *self, borrow_shift: LAMPORTS_SHIFT })
    }

    /// Takes an immutable borrow of the data.
    pub fn try_borrow_data(&self, input: &mut Vec<u8>) -> (r: Result<Ref, ProgramError>)
        requires
            self.wf(old(input)@),
        ensures
            borrow_outcome(old(input)@, final(input)@, self.header(),
                acquire_shared(old(input)@[self.header()], DATA_SHIFT)),
            r is Ok <==> acquire_shared(old(input)@[self.header()], DATA_SHIFT) is Some,
            r is Err ==> r == Err::<Ref, ProgramError>(ProgramError::AccountBorrowFailed),
            r matches Ok(g) ==> g.account() == *self && g.shift() == DATA_SHIFT,
            self.wf(final(input)@),
    {
        let state = input[self.offset];
        if state & 0b_0000_1000 != 0 {
            assert(mut_borrowed(state, 0)) by (bit_vector)
                requires state & 0x08 != 0;
            return Err(ProgramError::AccountBorrowFailed);
        }
        if state & 0b_0111 == 0b0111 {
            assert(shared_count(state, 0) == 7) by (bit_vector)
                requires state & 0x07 == 0x07;
            return Err(ProgramError::AccountBorrowFailed);
        }
        assert(!mut_borrowed(state, 0) && shared_count(state, 0) != 7 && state + 1 < 256
            && state + 1 == state + (1u8 << 0u8)) by (bit_vector)
            requires state & 0x08 == 0, state & 0x07 != 0x07;
        self.set_state(input, state + 1);
        Ok(Ref { account: *self, borrow_shift: DATA_SHIFT })
    }

    /// Takes a mutable borrow of the data.
    pub fn try_borrow_mut_data(&self, input: &mut Vec<u8>) -> (r: Result<RefMut, ProgramError>)
        requires
            self.wf(old(input)@),
        ensures
            borrow_outcome(old(input)@, final(input)@, self.header(),
                acquire_exclusive(old(input)@[self.header()], DATA_SHIFT)),
            r is Ok <==> acquire_exclusive(old(input)@[self.header()], DATA_SHIFT) is Some,
            r is Err ==> r == Err::<RefMut, ProgramError>(ProgramError::AccountBorrowFailed),
            r matches Ok(g) ==> g.account() == *self && g.shift() == DATA_SHIFT,
            self.wf(final(input)@),
    {
        let state = input[self.offset];
        if state & 0b_0000_1111 != 0 {
            assert((state >> 0u8) & 15u8 != 0) by (bit_vector)
                requires state & 0x0f != 0;
            return Err(ProgramError::AccountBorrowFailed);
        }
        assert((state >> 0u8) & 15u8 == 0 && state | 0x08 == state | (8u8 << 0u8)) by (bit_vector)
            requires state & 0x0f == 0;
        self.set_state(input, state | 0b_0000_1000);
        Ok(RefMut { account: *self, borrow_shift: DATA_SHIFT })
    }

    /// Resizes the data to `new_len` bytes, taking and giving back a mutable
    /// borrow of the data. The account may grow to at most
    /// `MAX_PERMITTED_DATA_INCREASE` bytes over its original length; the
    /// first resize caches that original length in the header. With
    /// `zero_init`, the bytes gained are zeroed; otherwise they keep whatever
    /// an earlier, longer size left there.
    pub fn realloc(&self, input: &mut Vec<u8>, new_len: usize, zero_init: bool) -> (r: ProgramResult)
        requires
            self.wf(old(input)@),
        ensures
            (final(input)@, r) == realloc_outcome(old(input)@, self.header(), new_len as int, zero_init),
            self.wf(final(input)@),
    {
        let ghost b0 = input@;
        let ghost o = self.header();
        let guard = match self.try_borrow_mut_data(input) {
            Ok(g) => g,
            Err(e) => return Err(e),
        };
        let ghost s0 = b0[o];
        let ghost b1 = input@;
        proof {
            lemma_exclusive_round_trip(s0, DATA_SHIFT);
            lemma_state_write_keeps_fit(b0, o, b1[o]);
        }
        let current_len = self.data_len(input);
        if new_len == current_len {
            guard.release(input);
            assert(input@ =~= b0);
            return Ok(());
        }
        let length = read_u32(input, self.offset + ORIGINAL_DATA_LEN_OFFSET);
        let original_len: usize = if length >= SET_LEN_MASK {
            (length - SET_LEN_MASK) as usize
        } else {
            proof {
                lemma_auto_spec_u32_to_from_le_bytes();
            }
            write_u32(input, self.offset + ORIGINAL_DATA_LEN_OFFSET, current_len as u32 + SET_LEN_MASK);
            proof {
                lemma_u64_untouched(b1, o + 4, spec_u32_to_le_bytes((current_len as u32 + SET_LEN_MASK) as u32), o + 80);
            }
            current_len
        };
        let ghost b2 = input@;
        proof {
            assert(b2 =~= with_original_cached(b1, o).update(o, b1[o]));
            assert(with_original_cached(b1, o) =~= with_original_cached(b0, o).update(o, b1[o])) by {
                lemma_u32_untouched(b0, o, seq![b1[o]], o + 4);
                assert(b1 =~= write_at(b0, o, seq![b1[o]]));
            }
            assert(b2 =~= with_original_cached(b0, o).update(o, b1[o]));
            assert(b2[o] == b1[o]);
            assert(b2.len() == b0.len());
        }
        if new_len > original_len + MAX_PERMITTED_DATA_INCREASE {
            guard.release(input);
            assert(input@ =~= with_original_cached(b0, o));
            return Err(ProgramError::InvalidRealloc);
        }
        proof {
            lemma_auto_spec_u64_to_from_le_bytes();
        }
        write_u64(input, self.offset + DATA_LEN_OFFSET, new_len as u64);
        if zero_init && new_len > current_len {
            write_zeros(input, self.offset + HEADER_LEN + current_len, new_len - current_len);
        }
        let ghost b3 = input@;
        proof {
            let c = with_original_cached(b0, o);
            let sz = write_at(c, o + 80, spec_u64_to_le_bytes(new_len as u64));
            let z = if zero_init && new_len > current_len {
                zero_at(sz, o + 88 + current_len, new_len - current_len)
            } else {
                sz
            };
            assert(b3 =~= z.update(o, b1[o]));
            assert(b3[o] == b1[o]);
            lemma_resized_fits(b0, o, new_len as int, zero_init);
            lemma_state_write_keeps_fit(z, o, b1[o]);
            assert(account_fits(b3, o));
        }
        guard.release(input);
        proof {
            let c = with_original_cached(b0, o);
            let sz = write_at(c, o + 80, spec_u64_to_le_bytes(new_len as u64));
            let z = if zero_init && new_len > current_len {
                zero_at(sz, o + 88 + current_len, new_len - current_len)
            } else {
                sz
            };
            assert(z[o] == s0);
            assert(input@ =~= z);
        }
        Ok(())
    }

    /// Closes the account: takes and gives back a mutable borrow of the
    /// data, then zeroes the data length, the lamports and the owner. The
    /// data bytes themselves are left as they are.
    pub fn close(&self, input: &mut Vec<u8>) -> (r: ProgramResult)
        requires
            self.wf(old(input)@),
        ensures
            acquire_exclusive(old(input)@[self.header()], DATA_SHIFT) is None ==> {
                &&& r == Err::<(), ProgramError>(ProgramError::AccountBorrowFailed)
                &&& final(input)@ == old(input)@
            },
            acquire_exclusive(old(input)@[self.header()], DATA_SHIFT) is Some ==> {
                &&& r is Ok
                &&& final(input)@ == closed_account(old(input)@, self.header())
            },
            self.wf(final(input)@),
    {
        let ghost b0 = input@;
        let guard = match self.try_borrow_mut_data(input) {
            Ok(g) => g,
            Err(e) => return Err(e),
        };
        proof {
            lemma_exclusive_round_trip(b0[self.header()], DATA_SHIFT);
        }
        guard.release(input);
        assert(input@ =~= b0);
        self.close_unchecked(input);
        Ok(())
    }

    /// Zeroes the data length, the lamports and the owner without checking
    /// for outstanding borrows.
    pub fn close_unchecked(&self, input: &mut Vec<u8>)
        requires
            self.wf(old(input)@),
        ensures
            final(input)@ == closed_account(old(input)@, self.header()),
            self.wf(final(input)@),
    {
        let ghost b0 = input@;
        let ghost o = self.header();
        proof {
            lemma_auto_spec_u64_to_from_le_bytes();
            lemma_closed_fits(b0, o);
        }
        write_zeros(input, self.offset + OWNER_OFFSET, 48);
        assert(input@ =~= closed_account(b0, o));
    }

    /// Writes the borrow-state byte.
    fn set_state(&self, input: &mut Vec<u8>, state: u8)
        requires
            self.wf(old(input)@),
        ensures
            final(input)@ == old(input)@.update(self.header(), state),
            self.wf(final(input)@),
    {
        proof {
            lemma_state_write_keeps_fit(old(input)@, self.header(), state);
        }
        input.set(self.offset, state);
    }
}

/// Checks that an account header at `o` is laid out as `account_fits` asks.
pub fn layout_fits(input: &[u8], o: usize) -> (r: bool)
    requires
        input@.len() <= usize::MAX,
    ensures
        r == account_fits(input@, o as int),
{
    let len = input.len();
    if o > len || len - o < HEADER_LEN {
        return false;
    }
    let data_len = read_u64(input, o + DATA_LEN_OFFSET);
    let field = read_u32(input, o + ORIGINAL_DATA_LEN_OFFSET);
    let original: u64 = if field >= SET_LEN_MASK {
        (field - SET_LEN_MASK) as u64
    } else {
        data_len
    };
    if original >= SET_LEN_MASK as u64 {
        return false;
    }
    if data_len > original + MAX_PERMITTED_DATA_INCREASE as u64 {
        return false;
    }
    ((len - o - HEADER_LEN) as u64) >= original + MAX_PERMITTED_DATA_INCREASE as u64
}

/// What a borrow attempt leaves in the buffer: on success the new state
/// byte, on refusal the buffer unchanged.
pub open spec fn borrow_outcome(before: Seq<u8>, after: Seq<u8>, o: int, next: Option<u8>) -> bool {
    match next {
        Some(s) => after == before.update(o, s),
        None => after == before,
    }
}

/// The buffer once the original data length is cached in the header.
pub open spec fn with_original_cached(b: Seq<u8>, o: int) -> Seq<u8> {
    if original_len_field(b, o) >= SET_LEN_MASK {
        b
    } else {
        write_at(b, o + 4, spec_u32_to_le_bytes((data_len_of(b, o) + SET_LEN_MASK) as u32))
    }
}

/// The buffer and the result of resizing the data of the account at `o`.
pub open spec fn realloc_outcome(b: Seq<u8>, o: int, new_len: int, zero_init: bool) -> (Seq<u8>, ProgramResult) {
    if acquire_exclusive(b[o], DATA_SHIFT) is None {
        (b, Err(ProgramError::AccountBorrowFailed))
    } else if new_len == data_len_of(b, o) {
        (b, Ok(()))
    } else if new_len > original_len_of(b, o) + MAX_PERMITTED_DATA_INCREASE {
        (with_original_cached(b, o), Err(ProgramError::InvalidRealloc))
    } else {
        let current = data_len_of(b, o) as int;
        let sized = write_at(with_original_cached(b, o), o + 80, spec_u64_to_le_bytes(new_len as u64));
        if zero_init && new_len > current {
            (zero_at(sized, o + HEADER_LEN + current, new_len - current), Ok(()))
        } else {
            (sized, Ok(()))
        }
    }
}

/// The buffer once the account at `o` is closed: the owner, the lamports and
/// the data length (48 bytes from the owner on) are zero.
pub open spec fn closed_account(b: Seq<u8>, o: int) -> Seq<u8> {
    zero_at(b, o + 40, 48)
}

pub proof fn lemma_exclusive_round_trip(state: u8, shift: u8)
    requires
        is_resource_shift(shift),
        acquire_exclusive(state, shift) is Some,
    ensures
        release_exclusive(acquire_exclusive(state, shift)->Some_0, shift) == state,
{
    assert(((state >> shift) & 15u8 == 0 && (shift == 0 || shift == 4))
        ==> (state | (8u8 << shift)) & !(8u8 << shift) == state) by (bit_vector);
}

proof fn lemma_resized_fits(b: Seq<u8>, o: int, new_len: int, zero_init: bool)
    requires
        account_fits(b, o),
        0 <= new_len <= original_len_of(b, o) + MAX_PERMITTED_DATA_INCREASE,
        new_len != data_len_of(b, o),
    ensures
        ({
            let current = data_len_of(b, o) as int;
            let sized = write_at(with_original_cached(b, o), o + 80, spec_u64_to_le_bytes(new_len as u64));
            let z = if zero_init && new_len > current {
                zero_at(sized, o + HEADER_LEN + current, new_len - current)
            } else {
                sized
            };
            &&& account_fits(sized, o)
            &&& account_fits(z, o)
            &&& original_len_of(z, o) == original_len_of(b, o)
            &&& data_len_of(z, o) == new_len
        }),
{
    lemma_auto_spec_u64_to_from_le_bytes();
    lemma_auto_spec_u32_to_from_le_bytes();
    let c = with_original_cached(b, o);
    if original_len_field(b, o) < SET_LEN_MASK {
        lemma_u32_written(b, o + 4, (data_len_of(b, o) + SET_LEN_MASK) as u32);
        lemma_u64_untouched(b, o + 4, spec_u32_to_le_bytes((data_len_of(b, o) + SET_LEN_MASK) as u32), o + 80);
    }
    assert(original_len_field(c, o) >= SET_LEN_MASK);
    assert(original_len_of(c, o) == original_len_of(b, o));
    let sized = write_at(c, o + 80, spec_u64_to_le_bytes(new_len as u64));
    lemma_u64_written(c, o + 80, new_len as u64);
    lemma_u32_untouched(c, o + 80, spec_u64_to_le_bytes(new_len as u64), o + 4);
    let current = data_len_of(b, o) as int;
    if zero_init && new_len > current {
        let zs = Seq::new((new_len - current) as nat, |_j: int| 0u8);
        lemma_u64_untouched(sized, o + HEADER_LEN + current, zs, o + 80);
        lemma_u32_untouched(sized, o + HEADER_LEN + current, zs, o + 4);
    }
}

proof fn lemma_zero_le_bytes()
    ensures
        spec_u64_to_le_bytes(0) == Seq::new(8, |_j: int| 0u8),
{
    spec_u64_to_le_bytes_to_open(0);
    assert(0u64 & 0xff == 0 && (0u64 >> 8) & 0xff == 0 && (0u64 >> 16) & 0xff == 0
        && (0u64 >> 24) & 0xff == 0 && (0u64 >> 32) & 0xff == 0 && (0u64 >> 40) & 0xff == 0
        && (0u64 >> 48) & 0xff == 0 && (0u64 >> 56) & 0xff == 0) by (bit_vector);
    assert(spec_u64_to_le_bytes_open(0) =~= Seq::new(8, |_j: int| 0u8));
}

proof fn lemma_closed_fits(b: Seq<u8>, o: int)
    requires
        account_fits(b, o),
    ensures
        account_fits(closed_account(b, o), o),
        data_len_of(closed_account(b, o), o) == 0,
        lamports_of(closed_account(b, o), o) == 0,
        owner_of(closed_account(b, o), o) == Seq::new(32, |_j: int| 0u8),
{
    let c = closed_account(b, o);
    lemma_auto_spec_u64_to_from_le_bytes();
    lemma_zero_le_bytes();
    assert(c.subrange(o + 80, o + 88) =~= spec_u64_to_le_bytes(0));
    assert(c.subrange(o + 72, o + 80) =~= spec_u64_to_le_bytes(0));
    assert(owner_of(c, o) =~= Seq::new(32, |_j: int| 0u8));
    lemma_u32_untouched(b, o + 40, Seq::new(48, |_j: int| 0u8), o + 4);
}

/// Reads a key stored at `at`.
pub(crate) fn read_key(input: &[u8], at: usize) -> (r: Pubkey)
    requires
        at + 32 <= input@.len(),
    ensures
        r@ == input@.subrange(at as int, at + 32),
{
    let _len = input.len();
    let mut k: Pubkey = [0u8; 32];
    let mut i: usize = 0;
    while i < 32
        invariant
            at + 32 <= input@.len(),
            input@.len() == _len,
            0 <= i <= 32,
            k@.len() == 32,
            forall|j: int| 0 <= j < i ==> k@[j] == input@[at + j],
        decreases 32 - i,
    {
        k[i] = input[at + i];
        i += 1;
    }
    assert(k@ =~= input@.subrange(at as int, at + 32));
    k
}

// ---------------------------------------------------------------------------
// Guards
// ---------------------------------------------------------------------------

/// An outstanding immutable borrow of the lamports or the data of an
/// account. Give it back with [`Ref::release`] on every path.
#[must_use]
#[derive(Debug)]
pub struct Ref {
    account: AccountInfo,
    borrow_shift: u8,
}

impl Ref {
    /// The account the borrow is on.
    pub closed spec fn account(&self) -> AccountInfo {
        self.account
    }

    /// The shift of the borrowed resource.
    pub closed spec fn shift(&self) -> u8 {
        self.borrow_shift
    }

    /// The borrowed lamports.
    pub fn lamports(&self, input: &[u8]) -> (r: u64)
        requires
            self.account().wf(input@),
            self.shift() == LAMPORTS_SHIFT,
        ensures
            r == lamports_of(input@, self.account().header()),
    {
        self.account.lamports(input)
    }

    /// The borrowed data.
    pub fn data<'a>(&self, input: &'a [u8]) -> (r: &'a [u8])
        requires
            self.account().wf(input@),
            self.shift() == DATA_SHIFT,
        ensures
            r@ == data_of(input@, self.account().header()),
    {
        self.account.borrow_data_unchecked(input)
    }

    /// Gives the borrow back: one immutable borrow of the resource less.
    pub fn release(self, input: &mut Vec<u8>)
        requires
            self.account().wf(old(input)@),
            is_resource_shift(self.shift()),
        ensures
            final(input)@ == old(input)@.update(self.account().header(),
                release_shared(old(input)@[self.account().header()], self.shift())),
            self.account().wf(final(input)@),
    {
        let state = input[self.account.offset];
        let shift = self.borrow_shift;
        if (state >> shift) & 7 != 0 {
            assert(state >= (1u8 << shift)) by (bit_vector)
                requires (state >> shift) & 7 != 0, shift == 0 || shift == 4;
            self.account.set_state(input, state - (1 << shift));
        } else {
            assert(input@.update(self.account().header(), state) =~= input@);
        }
    }
}

/// An outstanding mutable borrow of the lamports or the data of an
/// account. Give it back with [`RefMut::release`] on every path.
#[must_use]
#[derive(Debug)]
pub struct RefMut {
    account: AccountInfo,
    borrow_shift: u8,
}

impl RefMut {
    /// The account the borrow is on.
    pub closed spec fn account(&self) -> AccountInfo {
        self.account
    }

    /// The shift of the borrowed resource.
    pub closed spec fn shift(&self) -> u8 {
        self.borrow_shift
    }

    /// The borrowed lamports.
    pub fn lamports(&self, input: &[u8]) -> (r: u64)
        requires
            self.account().wf(input@),
            self.shift() == LAMPORTS_SHIFT,
        ensures
            r == lamports_of(input@, self.account().header()),
    {
        self.account.lamports(input)
    }

    /// Sets the borrowed lamports.
    pub fn set_lamports(&self, input: &mut Vec<u8>, lamports: u64)
        requires
            self.account().wf(old(input)@),
            self.shift() == LAMPORTS_SHIFT,
        ensures
            final(input)@ == write_at(old(input)@, self.account().header() + 72, spec_u64_to_le_bytes(lamports)),
            self.account().wf(final(input)@),
            lamports_of(final(input)@, self.account().header()) == lamports,
    {
        self.account.borrow_mut_lamports_unchecked(input, lamports)
    }

    /// The borrowed data.
    pub fn data<'a>(&self, input: &'a [u8]) -> (r: &'a [u8])
        requires
            self.account().wf(input@),
            self.shift() == DATA_SHIFT,
        ensures
            r@ == data_of(input@, self.account().header()),
    {
        self.account.borrow_data_unchecked(input)
    }

    /// Writes `bytes` into the borrowed data from `at` on.
    pub fn write_data(&self, input: &mut Vec<u8>, at: usize, bytes: &[u8])
        requires
            self.account().wf(old(input)@),
            self.shift() == DATA_SHIFT,
            at + bytes@.len() <= data_len_of(old(input)@, self.account().header()),
        ensures
            final(input)@ == write_at(old(input)@, self.account().header() + HEADER_LEN + at, bytes@),
            self.account().wf(final(input)@),
    {
        self.account.borrow_mut_data_unchecked(input, at, bytes)
    }

    /// Gives the borrow back: the resource's mutable flag is cleared.
    pub fn release(self, input: &mut Vec<u8>)
        requires
            self.account().wf(old(input)@),
            is_resource_shift(self.shift()),
        ensures
            final(input)@ == old(input)@.update(self.account().header(),
                release_exclusive(old(input)@[self.account().header()], self.shift())),
            self.account().wf(final(input)@),
    {
        let state = input[self.account.offset];
        let mask: u8 = if self.borrow_shift == LAMPORTS_SHIFT { 0b_0111_1111 } else { 0b_1111_0111 };
        let shift = self.borrow_shift;
        assert(state & mask == state & !(8u8 << shift)) by (bit_vector)
            requires
                shift == 4 ==> mask == 0x7f,
                shift == 0 ==> mask == 0xf7,
                shift == 0 || shift == 4;
        self.account.set_state(input, state & mask);
    }
}

// ---------------------------------------------------------------------------
// Facts on writes inside a header
// ---------------------------------------------------------------------------

pub proof fn lemma_state_write_keeps_fit(b: Seq<u8>, o: int, s: u8)
    requires
        account_fits(b, o),
    ensures
        account_fits(b.update(o, s), o),
        original_len_of(b.update(o, s), o) == original_len_of(b, o),
        data_len_of(b.update(o, s), o) == data_len_of(b, o),
        data_of(b.update(o, s), o) == data_of(b, o),
{
    let b2 = b.update(o, s);
    assert(b2.subrange(o + 80, o + 88) =~= b.subrange(o + 80, o + 88));
    assert(b2.subrange(o + 4, o + 8) =~= b.subrange(o + 4, o + 8));
    assert(data_of(b2, o) =~= data_of(b, o));
}

/// Writing inside the key, owner or lamports fields keeps the layout.
pub proof fn lemma_header_write_keeps_fit(b: Seq<u8>, o: int, field: int, s: Seq<u8>)
    requires
        account_fits(b, o),
        8 <= field,
        field + s.len() <= 80,
    ensures
        account_fits(write_at(b, o + field, s), o),
        original_len_of(write_at(b, o + field, s), o) == original_len_of(b, o),
        data_len_of(write_at(b, o + field, s), o) == data_len_of(b, o),
        data_of(write_at(b, o + field, s), o) == data_of(b, o),
{
    let b2 = write_at(b, o + field, s);
    lemma_u64_untouched(b, o + field, s, o + 80);
    lemma_u32_untouched(b, o + field, s, o + 4);
    assert(data_of(b2, o) =~= data_of(b, o));
}

/// Writing inside the data keeps the layout.
pub proof fn lemma_data_write_keeps_fit(b: Seq<u8>, o: int, at: int, s: Seq<u8>)
    requires
        account_fits(b, o),
        0 <= at,
        at + s.len() <= data_len_of(b, o),
    ensures
        account_fits(write_at(b, o + HEADER_LEN + at, s), o),
        original_len_of(write_at(b, o + HEADER_LEN + at, s), o) == original_len_of(b, o),
        data_len_of(write_at(b, o + HEADER_LEN + at, s), o) == data_len_of(b, o),
{
    lemma_u64_untouched(b, o + HEADER_LEN + at, s, o + 80);
    lemma_u32_untouched(b, o + HEADER_LEN + at, s, o + 4);
}

// ---------------------------------------------------------------------------
// Laws of the borrow state
// ---------------------------------------------------------------------------

/// A state byte after `n` immutable borrows of one resource in a row, or
/// `None` if one of them is refused.
pub open spec fn acquire_shared_times(state: u8, shift: u8, n: nat) -> Option<u8>
    decreases n,
{
    if n == 0 {
        Some(state)
    } else {
        match acquire_shared_times(state, shift, (n - 1) as nat) {
            Some(t) => acquire_shared(t, shift),
            None => None,
        }
    }
}

/// A state byte after `n` immutable borrows of one resource are given back.
pub open spec fn release_shared_times(state: u8, shift: u8, n: nat) -> u8
    decreases n,
{
    if n == 0 {
        state
    } else {
        release_shared(release_shared_times(state, shift, (n - 1) as nat), shift)
    }
}

/// No borrow or release leaves a resource both mutably and immutably
/// borrowed: every operation on a valid state byte gives a valid one, and a
/// granted borrow changes only the bits of its own resource.
pub proof fn lemma_borrow_state_stays_valid(state: u8, shift: u8)
    requires
        state_valid(state),
        is_resource_shift(shift),
    ensures
        acquire_shared(state, shift) matches Some(t) ==> state_valid(t)
            && shared_count(t, shift) == shared_count(state, shift) + 1,
        acquire_exclusive(state, shift) matches Some(t) ==> state_valid(t) && mut_borrowed(t, shift),
        state_valid(release_shared(state, shift)),
        state_valid(release_exclusive(state, shift)),
        !mut_borrowed(release_exclusive(state, shift), shift),
        state_valid(0),
{
    let a = (state + (1u8 << shift)) as u8;
    if (shift == 0 || shift == 4) && !mut_borrowed(state, shift) && shared_count(state, shift) != 7 {
        assert(state_valid(a) && shared_count(a, shift) == shared_count(state, shift) + 1) by (bit_vector)
            requires
                shift == 0 || shift == 4,
                state_valid(state),
                !mut_borrowed(state, shift),
                shared_count(state, shift) != 7,
                a == (state + (1u8 << shift)) as u8;
    }
    assert(((shift == 0 || shift == 4) && (state >> shift) & 15u8 == 0 && state_valid(state))
        ==> state_valid(state | (8u8 << shift)) && mut_borrowed(state | (8u8 << shift), shift)) by (bit_vector);
    let d = (state - (1u8 << shift)) as u8;
    if shared_count(state, shift) != 0 {
        assert(state_valid(d)) by (bit_vector)
            requires
                shift == 0 || shift == 4,
                state_valid(state),
                shared_count(state, shift) != 0,
                d == (state - (1u8 << shift)) as u8;
    }
    assert(((shift == 0 || shift == 4) && state_valid(state)) ==> state_valid(state & !(8u8 << shift))
        && !mut_borrowed(state & !(8u8 << shift), shift)) by (bit_vector);
    assert(state_valid(0u8)) by (bit_vector);
}

/// A mutable borrow is refused while an immutable one is outstanding, and
/// an immutable borrow is refused while a mutable one is outstanding.
pub proof fn lemma_shared_and_exclusive_exclude(state: u8, shift: u8)
    requires
        is_resource_shift(shift),
    ensures
        shared_count(state, shift) != 0 ==> acquire_exclusive(state, shift) is None,
        mut_borrowed(state, shift) ==> acquire_shared(state, shift) is None,
        mut_borrowed(state, shift) ==> acquire_exclusive(state, shift) is None,
{
    assert((shift == 0 || shift == 4) && shared_count(state, shift) != 0 ==> (state >> shift) & 15u8 != 0)
        by (bit_vector);
    assert((shift == 0 || shift == 4) && mut_borrowed(state, shift) ==> (state >> shift) & 15u8 != 0)
        by (bit_vector);
}

/// The state byte of a resource without borrows once `k` immutable borrows
/// are outstanding.
pub open spec fn with_shared(state: u8, shift: u8, k: u8) -> u8 {
    (state + k * (1u8 << shift)) as u8
}

proof fn lemma_shared_step(state: u8, shift: u8, k: u8)
    requires
        is_resource_shift(shift),
        (state >> shift) & 15u8 == 0,
        k < 7,
    ensures
        acquire_shared(with_shared(state, shift, k), shift) == Some(with_shared(state, shift, (k + 1) as u8)),
        release_shared(with_shared(state, shift, (k + 1) as u8), shift) == with_shared(state, shift, k),
        shared_count(with_shared(state, shift, (k + 1) as u8), shift) == k + 1,
{
    let w = with_shared(state, shift, k);
    let w1 = with_shared(state, shift, (k + 1) as u8);
    assert(!mut_borrowed(w, shift) && shared_count(w, shift) == k && (w + (1u8 << shift)) as u8 == w1
        && shared_count(w1, shift) == k + 1 && (w1 - (1u8 << shift)) as u8 == w) by (bit_vector)
        requires
            shift == 0 || shift == 4,
            (state >> shift) & 15u8 == 0,
            k < 7,
            w == (state + k * (1u8 << shift)) as u8,
            w1 == (state + ((k + 1) as u8) * (1u8 << shift)) as u8;
}

proof fn lemma_acquire_times(state: u8, shift: u8, n: nat)
    requires
        is_resource_shift(shift),
        (state >> shift) & 15u8 == 0,
        n <= 7,
    ensures
        acquire_shared_times(state, shift, n) == Some(with_shared(state, shift, n as u8)),
    decreases n,
{
    if n == 0 {
        assert(with_shared(state, shift, 0) == state) by (bit_vector);
    } else {
        lemma_acquire_times(state, shift, (n - 1) as nat);
        lemma_shared_step(state, shift, (n - 1) as u8);
    }
}

proof fn lemma_release_times(state: u8, shift: u8, k: nat, j: nat)
    requires
        is_resource_shift(shift),
        (state >> shift) & 15u8 == 0,
        j <= k <= 7,
    ensures
        release_shared_times(with_shared(state, shift, k as u8), shift, j) == with_shared(state, shift, (k - j) as u8),
    decreases j,
{
    if j > 0 {
        lemma_release_times(state, shift, k, (j - 1) as nat);
        lemma_shared_step(state, shift, (k - j) as u8);
    }
}

/// At most seven immutable borrows of a resource are outstanding at once:
/// from a resource without borrows, seven in a row are granted, the eighth
/// is refused, and once one is given back a new one is granted again.
pub proof fn lemma_at_most_seven_shared(state: u8, shift: u8)
    requires
        is_resource_shift(shift),
        !mut_borrowed(state, shift),
        shared_count(state, shift) == 0,
    ensures
        acquire_shared_times(state, shift, 7) is Some,
        acquire_shared_times(state, shift, 8) is None,
        acquire_shared(release_shared(acquire_shared_times(state, shift, 7)->Some_0, shift), shift) is Some,
{
    assert(((shift == 0 || shift == 4) && !mut_borrowed(state, shift) && shared_count(state, shift) == 0)
        ==> (state >> shift) & 15u8 == 0) by (bit_vector);
    lemma_acquire_times(state, shift, 7);
    lemma_acquire_times(state, shift, 6);
    lemma_shared_step(state, shift, 6);
    let full = with_shared(state, shift, 7);
    assert(((shift == 0 || shift == 4) && (state >> shift) & 15u8 == 0) ==> shared_count(
        with_shared(state, shift, 7),
        shift,
    ) == 7) by (bit_vector);
    assert(acquire_shared(full, shift) is None);
    lemma_shared_step(state, shift, 5);
}

/// Giving guards back is exact: after `n` immutable borrows of a resource
/// without borrows are taken and given back, the state byte is what it was
/// and a mutable borrow is granted.
pub proof fn lemma_release_is_exact(state: u8, shift: u8, n: nat)
    requires
        is_resource_shift(shift),
        !mut_borrowed(state, shift),
        shared_count(state, shift) == 0,
        n <= 7,
    ensures
        acquire_shared_times(state, shift, n) is Some,
        release_shared_times(acquire_shared_times(state, shift, n)->Some_0, shift, n) == state,
        acquire_exclusive(release_shared_times(acquire_shared_times(state, shift, n)->Some_0, shift, n), shift) is Some,
{
    assert(((shift == 0 || shift == 4) && !mut_borrowed(state, shift) && shared_count(state, shift) == 0)
        ==> (state >> shift) & 15u8 == 0) by (bit_vector);
    lemma_acquire_times(state, shift, n);
    lemma_release_times(state, shift, n, n);
    assert(with_shared(state, shift, 0) == state) by (bit_vector);
}

// ---------------------------------------------------------------------------
// Laws of resizing
// ---------------------------------------------------------------------------

/// What one resize keeps: the layout, the state byte, the original length,
/// and the bytes of the data as it was before the call.
pub proof fn lemma_realloc_step(b: Seq<u8>, o: int, new_len: int, zero_init: bool)
    requires
        account_fits(b, o),
        acquire_exclusive(b[o], DATA_SHIFT) is Some,
        0 <= new_len,
    ensures
        ({
            let (b1, r) = realloc_outcome(b, o, new_len, zero_init);
            &&& account_fits(b1, o)
            &&& b1.len() == b.len()
            &&& b1[o] == b[o]
            &&& original_len_of(b1, o) == original_len_of(b, o)
            &&& (r is Ok <==> new_len <= original_len_of(b, o) + MAX_PERMITTED_DATA_INCREASE)
            &&& (r is Err ==> r == Err::<(), ProgramError>(ProgramError::InvalidRealloc))
            &&& (r is Ok ==> data_len_of(b1, o) == new_len)
            &&& (r is Err ==> data_len_of(b1, o) == data_len_of(b, o))
            &&& forall|j: int| o + HEADER_LEN <= j < o + HEADER_LEN + data_len_of(b, o) ==> b1[j] == b[j]
        }),
{
    lemma_auto_spec_u64_to_from_le_bytes();
    lemma_auto_spec_u32_to_from_le_bytes();
    let c = with_original_cached(b, o);
    if original_len_field(b, o) < SET_LEN_MASK {
        lemma_u32_written(b, o + 4, (data_len_of(b, o) + SET_LEN_MASK) as u32);
        lemma_u64_untouched(b, o + 4, spec_u32_to_le_bytes((data_len_of(b, o) + SET_LEN_MASK) as u32), o + 80);
    }
    assert(original_len_of(c, o) == original_len_of(b, o));
    assert(data_len_of(c, o) == data_len_of(b, o));
    if new_len != data_len_of(b, o) && new_len <= original_len_of(b, o) + MAX_PERMITTED_DATA_INCREASE {
        lemma_resized_fits(b, o, new_len, zero_init);
    }
}

/// Resizes applied one after the other.
pub open spec fn realloc_all(b: Seq<u8>, o: int, steps: Seq<(int, bool)>) -> Seq<u8>
    decreases steps.len(),
{
    if steps.len() == 0 {
        b
    } else {
        realloc_all(realloc_outcome(b, o, steps[0].0, steps[0].1).0, o, steps.drop_first())
    }
}

/// The growth limit is measured against the original length, not the last
/// one: after any number of resizes, one that asks for more than
/// `MAX_PERMITTED_DATA_INCREASE` bytes over the original length fails with
/// `InvalidRealloc`.
pub proof fn lemma_growth_limit_is_cumulative(b: Seq<u8>, o: int, steps: Seq<(int, bool)>, new_len: int, zero_init: bool)
    requires
        account_fits(b, o),
        acquire_exclusive(b[o], DATA_SHIFT) is Some,
        forall|i: int| 0 <= i < steps.len() ==> 0 <= #[trigger] steps[i].0,
        new_len > original_len_of(b, o) + MAX_PERMITTED_DATA_INCREASE,
    ensures
        realloc_outcome(realloc_all(b, o, steps), o, new_len, zero_init).1
            == Err::<(), ProgramError>(ProgramError::InvalidRealloc),
    decreases steps.len(),
{
    if steps.len() == 0 {
        lemma_realloc_step(b, o, new_len, zero_init);
    } else {
        lemma_realloc_step(b, o, steps[0].0, steps[0].1);
        let b1 = realloc_outcome(b, o, steps[0].0, steps[0].1).0;
        assert forall|i: int| 0 <= i < steps.drop_first().len() implies 0 <= #[trigger] steps.drop_first()[i].0 by {
            assert(steps.drop_first()[i] == steps[i + 1]);
        }
        lemma_growth_limit_is_cumulative(b1, o, steps.drop_first(), new_len, zero_init);
    }
}

/// Growing an account, shrinking it back to its original length, and then
/// resizing it to that length without zeroing leaves the bytes of the
/// original data as they were.
pub proof fn lemma_regrow_keeps_original_bytes(b: Seq<u8>, o: int, grow: int, grow_zero: bool, shrink_zero: bool)
    requires
        account_fits(b, o),
        acquire_exclusive(b[o], DATA_SHIFT) is Some,
        data_len_of(b, o) == original_len_of(b, o),
        data_len_of(b, o) <= grow <= original_len_of(b, o) + MAX_PERMITTED_DATA_INCREASE,
    ensures
        ({
            let n = original_len_of(b, o);
            let b1 = realloc_outcome(b, o, grow, grow_zero).0;
            let b2 = realloc_outcome(b1, o, n, shrink_zero).0;
            let b3 = realloc_outcome(b2, o, n, false);
            &&& b3.1 is Ok
            &&& data_len_of(b3.0, o) == n
            &&& b3.0.subrange(o + HEADER_LEN, o + HEADER_LEN + n) == b.subrange(o + HEADER_LEN, o + HEADER_LEN + n)
        }),
{
    let n = original_len_of(b, o);
    lemma_realloc_step(b, o, grow, grow_zero);
    let b1 = realloc_outcome(b, o, grow, grow_zero).0;
    lemma_realloc_step(b1, o, n, shrink_zero);
    let b2 = realloc_outcome(b1, o, n, shrink_zero).0;
    lemma_realloc_step(b2, o, n, false);
    let b3 = realloc_outcome(b2, o, n, false).0;
    assert(b3.subrange(o + HEADER_LEN, o + HEADER_LEN + n) =~= b.subrange(o + HEADER_LEN, o + HEADER_LEN + n));
}

} // verus!
