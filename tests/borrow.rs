use p_token::account_info::{AccountInfo, MAX_PERMITTED_DATA_INCREASE};
use p_token::entrypoint::deserialize;
use p_token::error::ProgramError;

struct Acc {
    signer: bool,
    writable: bool,
    key: [u8; 32],
    owner: [u8; 32],
    lamports: u64,
    data: Vec<u8>,
}

enum Entry {
    Full(Acc),
    Dup(u8),
}

fn serialize(entries: &[Entry], data: &[u8], program_id: [u8; 32]) -> Vec<u8> {
    let mut b = Vec::new();
    b.extend_from_slice(&(entries.len() as u64).to_le_bytes());
    for e in entries {
        match e {
            Entry::Full(a) => {
                b.push(0xff);
                b.push(a.signer as u8);
                b.push(a.writable as u8);
                b.push(0);
                b.extend_from_slice(&0u32.to_le_bytes());
                b.extend_from_slice(&a.key);
                b.extend_from_slice(&a.owner);
                b.extend_from_slice(&a.lamports.to_le_bytes());
                b.extend_from_slice(&(a.data.len() as u64).to_le_bytes());
                b.extend_from_slice(&a.data);
                b.extend(std::iter::repeat(0u8).take(MAX_PERMITTED_DATA_INCREASE));
                while b.len() % 8 != 0 {
                    b.push(0);
                }
                b.extend_from_slice(&0u64.to_le_bytes());
            }
            Entry::Dup(i) => {
                b.push(*i);
                b.extend_from_slice(&[0u8; 7]);
            }
        }
    }
    b.extend_from_slice(&(data.len() as u64).to_le_bytes());
    b.extend_from_slice(data);
    b.extend_from_slice(&program_id);
    b
}

fn acc(key: u8, data: Vec<u8>) -> Acc {
    Acc { signer: false, writable: true, key: [key; 32], owner: [9; 32], lamports: 1000, data }
}

fn one_account(data: Vec<u8>) -> (Vec<u8>, AccountInfo) {
    let mut input = serialize(&[Entry::Full(acc(1, data))], &[], [7; 32]);
    let (_, accounts, _) = deserialize::<4>(&mut input).unwrap();
    (input, accounts[0])
}

fn state_is_valid(state: u8) -> bool {
    let lamports_ok = !(state & 0x80 != 0 && state & 0x70 != 0);
    let data_ok = !(state & 0x08 != 0 && state & 0x07 != 0);
    lamports_ok && data_ok
}

#[test]
fn seven_shared_borrows_then_refusal() {
    let (mut input, a) = one_account(vec![1, 2, 3]);
    let mut guards = Vec::new();
    for _ in 0..7 {
        guards.push(a.try_borrow_data(&mut input).unwrap());
    }
    assert_eq!(a.try_borrow_data(&mut input).unwrap_err(), ProgramError::AccountBorrowFailed);
    guards.pop().unwrap().release(&mut input);
    let again = a.try_borrow_data(&mut input).unwrap();
    again.release(&mut input);
    for g in guards {
        g.release(&mut input);
    }
    assert_eq!(a.borrow_state(&input), 0);
}

#[test]
fn seven_shared_lamport_borrows_then_refusal() {
    let (mut input, a) = one_account(vec![]);
    let mut guards = Vec::new();
    for _ in 0..7 {
        guards.push(a.try_borrow_lamports(&mut input).unwrap());
    }
    assert_eq!(a.try_borrow_lamports(&mut input).unwrap_err(), ProgramError::AccountBorrowFailed);
    assert_eq!(a.borrow_state(&input), 0x70);
    for g in guards {
        g.release(&mut input);
    }
    assert_eq!(a.borrow_state(&input), 0);
}

#[test]
fn mutable_and_shared_exclude_each_other() {
    let (mut input, a) = one_account(vec![5]);
    let shared = a.try_borrow_data(&mut input).unwrap();
    assert_eq!(a.try_borrow_mut_data(&mut input).unwrap_err(), ProgramError::AccountBorrowFailed);
    shared.release(&mut input);
    let exclusive = a.try_borrow_mut_data(&mut input).unwrap();
    assert_eq!(a.try_borrow_data(&mut input).unwrap_err(), ProgramError::AccountBorrowFailed);
    assert_eq!(a.try_borrow_mut_data(&mut input).unwrap_err(), ProgramError::AccountBorrowFailed);
    // the lamports are a separate resource
    let lamports = a.try_borrow_mut_lamports(&mut input).unwrap();
    assert_eq!(a.try_borrow_lamports(&mut input).unwrap_err(), ProgramError::AccountBorrowFailed);
    lamports.release(&mut input);
    exclusive.release(&mut input);
    assert_eq!(a.borrow_state(&input), 0);
}

#[test]
fn release_is_exact_then_write_borrow() {
    for n in 0..=7 {
        let (mut input, a) = one_account(vec![0; 4]);
        let mut guards = Vec::new();
        for _ in 0..n {
            guards.push(a.try_borrow_data(&mut input).unwrap());
        }
        for g in guards {
            g.release(&mut input);
        }
        let w = a.try_borrow_mut_data(&mut input).unwrap();
        w.release(&mut input);
        assert_eq!(a.borrow_state(&input), 0);
    }
}

#[test]
fn state_byte_stays_valid() {
    let (mut input, a) = one_account(vec![0; 4]);
    let mut shared = Vec::new();
    let mut exclusive = Vec::new();
    for step in 0..40u32 {
        match step % 5 {
            0 | 1 => {
                if let Ok(g) = a.try_borrow_data(&mut input) {
                    shared.push(g);
                }
            }
            2 => {
                if let Ok(g) = a.try_borrow_mut_lamports(&mut input) {
                    exclusive.push(g);
                }
            }
            3 => {
                if let Some(g) = shared.pop() {
                    g.release(&mut input);
                }
            }
            _ => {
                if let Ok(g) = a.try_borrow_mut_data(&mut input) {
                    exclusive.push(g);
                } else if let Some(g) = exclusive.pop() {
                    g.release(&mut input);
                }
            }
        }
        assert!(state_is_valid(a.borrow_state(&input)));
    }
}

#[test]
fn duplicates_share_borrow_state() {
    let mut input = serialize(&[Entry::Full(acc(1, vec![1])), Entry::Dup(0)], &[], [7; 32]);
    let (_, accounts, _) = deserialize::<4>(&mut input).unwrap();
    assert_eq!(accounts[0], accounts[1]);
    let g = accounts[0].try_borrow_mut_data(&mut input).unwrap();
    assert_eq!(accounts[1].try_borrow_data(&mut input).unwrap_err(), ProgramError::AccountBorrowFailed);
    g.release(&mut input);
    let r = accounts[1].try_borrow_data(&mut input).unwrap();
    r.release(&mut input);
}

#[test]
fn guards_read_and_write() {
    let (mut input, a) = one_account(vec![1, 2, 3, 4]);
    let w = a.try_borrow_mut_data(&mut input).unwrap();
    w.write_data(&mut input, 1, &[9, 9]);
    assert_eq!(w.data(&input), &[1, 9, 9, 4]);
    w.release(&mut input);
    let l = a.try_borrow_mut_lamports(&mut input).unwrap();
    l.set_lamports(&mut input, 77);
    l.release(&mut input);
    let r = a.try_borrow_lamports(&mut input).unwrap();
    assert_eq!(r.lamports(&input), 77);
    r.release(&mut input);
    assert_eq!(a.lamports(&input), 77);
}

#[test]
fn realloc_regrow_keeps_original_bytes() {
    let (mut input, a) = one_account(vec![10, 20, 30, 40]);
    a.realloc(&mut input, 100, true).unwrap();
    assert_eq!(a.data_len(&input), 100);
    a.borrow_mut_data_unchecked(&mut input, 50, &[0xaa; 10]);
    a.realloc(&mut input, 4, false).unwrap();
    a.realloc(&mut input, 4, false).unwrap();
    assert_eq!(a.borrow_data_unchecked(&input), &[10, 20, 30, 40]);
    // growing again without zeroing shows the stale bytes
    a.realloc(&mut input, 60, false).unwrap();
    assert_eq!(&a.borrow_data_unchecked(&input)[50..60], &[0xaa; 10]);
    // with zeroing they are cleared
    a.realloc(&mut input, 4, false).unwrap();
    a.realloc(&mut input, 60, true).unwrap();
    assert_eq!(&a.borrow_data_unchecked(&input)[4..60], &[0u8; 56][..]);
    assert_eq!(a.borrow_state(&input), 0);
}

#[test]
fn realloc_limit_is_against_original_length() {
    let (mut input, a) = one_account(vec![0; 16]);
    a.realloc(&mut input, 16 + MAX_PERMITTED_DATA_INCREASE, false).unwrap();
    assert_eq!(a.realloc(&mut input, 17 + MAX_PERMITTED_DATA_INCREASE, false), Err(ProgramError::InvalidRealloc));
    a.realloc(&mut input, 8, false).unwrap();
    a.realloc(&mut input, 4000, false).unwrap();
    assert_eq!(a.realloc(&mut input, 17 + MAX_PERMITTED_DATA_INCREASE, true), Err(ProgramError::InvalidRealloc));
    assert_eq!(a.data_len(&input), 4000);
    a.realloc(&mut input, 16 + MAX_PERMITTED_DATA_INCREASE, true).unwrap();
}

#[test]
fn realloc_needs_a_free_data_borrow() {
    let (mut input, a) = one_account(vec![0; 8]);
    let g = a.try_borrow_data(&mut input).unwrap();
    assert_eq!(a.realloc(&mut input, 16, false), Err(ProgramError::AccountBorrowFailed));
    g.release(&mut input);
    assert_eq!(a.realloc(&mut input, 16, false), Ok(()));
    assert_eq!(a.realloc(&mut input, 16, false), Ok(()));
}

#[test]
fn close_zeroes_metadata_only() {
    let (mut input, a) = one_account(vec![3, 4, 5]);
    let g = a.try_borrow_data(&mut input).unwrap();
    assert_eq!(a.close(&mut input), Err(ProgramError::AccountBorrowFailed));
    g.release(&mut input);
    a.close(&mut input).unwrap();
    assert_eq!(a.lamports(&input), 0);
    assert_eq!(a.data_len(&input), 0);
    assert_eq!(a.owner(&input), [0u8; 32]);
    assert!(a.data_is_empty(&input));
    assert_eq!(a.key(&input), [1u8; 32]);
}

#[test]
fn assign_overwrites_owner() {
    let (mut input, a) = one_account(vec![]);
    a.assign(&mut input, &[42; 32]);
    assert_eq!(a.owner(&input), [42; 32]);
}
