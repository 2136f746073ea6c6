use p_token::account_info::MAX_PERMITTED_DATA_INCREASE;
use p_token::entrypoint::{deserialize, InstructionContext, MaybeAccount};
use p_token::error::ProgramError;

struct Acc {
    signer: bool,
    writable: bool,
    key: [u8; 32],
    owner: [u8; 32],
    lamports: u64,
    data: Vec<u8>,
}

enum Entry {
    Full(Acc),
    Dup(u8),
}

fn serialize(entries: &[Entry], data: &[u8], program_id: [u8; 32]) -> Vec<u8> {
    let mut b = Vec::new();
    b.extend_from_slice(&(entries.len() as u64).to_le_bytes());
    for e in entries {
        match e {
            Entry::Full(a) => {
                b.push(0xff);
                b.push(a.signer as u8);
                b.push(a.writable as u8);
                b.push(0);
                b.extend_from_slice(&0u32.to_le_bytes());
                b.extend_from_slice(&a.key);
                b.extend_from_slice(&a.owner);
                b.extend_from_slice(&a.lamports.to_le_bytes());
                b.extend_from_slice(&(a.data.len() as u64).to_le_bytes());
                b.extend_from_slice(&a.data);
                b.extend(std::iter::repeat(0u8).take(MAX_PERMITTED_DATA_INCREASE));
                while b.len() % 8 != 0 {
                    b.push(0);
                }
                b.extend_from_slice(&0u64.to_le_bytes());
            }
            Entry::Dup(i) => {
                b.push(*i);
                b.extend_from_slice(&[0u8; 7]);
            }
        }
    }
    b.extend_from_slice(&(data.len() as u64).to_le_bytes());
    b.extend_from_slice(data);
    b.extend_from_slice(&program_id);
    b
}

fn sample() -> Vec<Entry> {
    vec![
        Entry::Full(Acc { signer: true, writable: true, key: [1; 32], owner: [11; 32], lamports: 500, data: vec![1, 2, 3] }),
        Entry::Full(Acc { signer: false, writable: false, key: [2; 32], owner: [12; 32], lamports: 7, data: vec![] }),
        Entry::Dup(0),
        Entry::Full(Acc { signer: false, writable: true, key: [3; 32], owner: [13; 32], lamports: u64::MAX, data: vec![9; 13] }),
        Entry::Dup(1),
    ]
}

#[test]
fn round_trip_reads_back_every_account() {
    let entries = sample();
    let mut input = serialize(&entries, &[4, 5, 6], [99; 32]);
    let (program_id, accounts, data) = deserialize::<16>(&mut input).unwrap();
    assert_eq!(program_id, [99; 32]);
    assert_eq!(data, vec![4, 5, 6]);
    assert_eq!(accounts.len(), 5);
    let expected = [0usize, 1, 0, 3, 1];
    for (i, a) in accounts.iter().enumerate() {
        let Entry::Full(src) = &entries[expected[i]] else { panic!("not a full entry") };
        assert_eq!(a.key(&input), src.key);
        assert_eq!(a.owner(&input), src.owner);
        assert_eq!(a.lamports(&input), src.lamports);
        assert_eq!(a.data_len(&input), src.data.len());
        assert_eq!(a.borrow_data_unchecked(&input), &src.data[..]);
        assert_eq!(a.is_signer(&input), src.signer);
        assert_eq!(a.is_writable(&input), src.writable);
        assert_eq!(a.borrow_state(&input), 0);
    }
    assert_eq!(accounts[2], accounts[0]);
    assert_eq!(accounts[4], accounts[1]);
    // the alias sees live state
    accounts[0].borrow_mut_lamports_unchecked(&mut input, 1);
    assert_eq!(accounts[2].lamports(&input), 1);
}

#[test]
fn accounts_past_the_maximum_are_skipped() {
    let entries = sample();
    let mut input = serialize(&entries, &[8; 20], [5; 32]);
    let (program_id, accounts, data) = deserialize::<2>(&mut input).unwrap();
    assert_eq!(accounts.len(), 2);
    assert_eq!(data, vec![8; 20]);
    assert_eq!(program_id, [5; 32]);
    assert_eq!(accounts[1].key(&input), [2; 32]);
}

#[test]
fn no_accounts() {
    let mut input = serialize(&[], &[1], [3; 32]);
    let (program_id, accounts, data) = deserialize::<8>(&mut input).unwrap();
    assert!(accounts.is_empty());
    assert_eq!(data, vec![1]);
    assert_eq!(program_id, [3; 32]);
}

#[test]
fn malformed_buffers_are_refused() {
    let mut short = vec![1, 0, 0];
    assert_eq!(deserialize::<8>(&mut short).unwrap_err(), ProgramError::InvalidAccountData);
    let mut truncated = serialize(&sample(), &[1, 2], [0; 32]);
    truncated.truncate(truncated.len() - 40);
    assert_eq!(deserialize::<8>(&mut truncated).unwrap_err(), ProgramError::InvalidInstructionData);
    let mut forward_dup = serialize(&[Entry::Dup(0)], &[], [0; 32]);
    assert_eq!(deserialize::<8>(&mut forward_dup).unwrap_err(), ProgramError::InvalidAccountData);
    let mut too_many = serialize(&sample(), &[], [0; 32]);
    too_many[0] = 9;
    assert!(deserialize::<8>(&mut too_many).is_err());
}

#[test]
fn lazy_context_reads_in_order() {
    let entries = sample();
    let mut input = serialize(&entries, &[4, 5], [77; 32]);
    let mut ctx = InstructionContext::new(&input);
    assert_eq!(ctx.available(&input), 5);
    assert_eq!(ctx.remaining(), 5);
    assert_eq!(ctx.instruction_data(&input).unwrap_err(), ProgramError::InvalidInstructionData);
    assert_eq!(ctx.program_id(&input).unwrap_err(), ProgramError::InvalidInstructionData);
    let first = ctx.next_account(&mut input).unwrap().assume_account();
    assert_eq!(first.key(&input), [1; 32]);
    assert!(matches!(ctx.next_account(&mut input).unwrap(), MaybeAccount::Account(_)));
    assert!(matches!(ctx.next_account(&mut input).unwrap(), MaybeAccount::Duplicated(0)));
    assert!(matches!(ctx.next_account(&mut input).unwrap(), MaybeAccount::Account(_)));
    assert!(matches!(ctx.next_account(&mut input).unwrap(), MaybeAccount::Duplicated(1)));
    assert_eq!(ctx.remaining(), 0);
    assert_eq!(ctx.next_account(&mut input).unwrap_err(), ProgramError::NotEnoughAccountKeys);
    assert_eq!(ctx.instruction_data(&input).unwrap(), &[4, 5]);
    assert_eq!(ctx.program_id(&input).unwrap(), [77; 32]);
}
