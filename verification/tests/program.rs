use solana_sdk::pubkey::Pubkey as SdkPubkey;
use tx_submission::dedup::{
    build_marking_instructions, derive_marked_address, DeduplicationTarget,
};
use tx_submission::instruction::Pubkey;
use tx_submission::program::{
    mark, process_instruction, process_instruction_checked, AccountInfo, Borrow, ProgramError,
    DUPLICATE,
};

const PROGRAM: Pubkey = Pubkey([20; 32]);

fn account(key: Pubkey, data: Vec<u8>) -> AccountInfo {
    AccountInfo { key, data, borrow: Borrow::Free }
}

/// The account that the program marks for transaction 4 of signer 3.
fn marked_account() -> Pubkey {
    let (address, _) = SdkPubkey::find_program_address(
        &[b"unique", &[3; 32], &[4; 32]],
        &PROGRAM.0.into(),
    );
    Pubkey(address.to_bytes())
}

fn accounts(data: Vec<u8>) -> Vec<AccountInfo> {
    vec![account(Pubkey([3; 32]), vec![]), account(marked_account(), data)]
}

#[test]
fn first_copy_lands_and_the_second_is_refused() {
    let mut accounts = accounts(vec![0]);
    let data = [4; 32];
    assert_eq!(process_instruction(&PROGRAM, &mut accounts, &data), Ok(()));
    assert_eq!(accounts[1].data, [1]);
    for _ in 0..3 {
        assert_eq!(
            process_instruction(&PROGRAM, &mut accounts, &data),
            Err(ProgramError::Custom(DUPLICATE))
        );
        assert_eq!(accounts[1].data, [1]);
    }
    assert_eq!(DUPLICATE, 0);
}

#[test]
fn payload_behind_the_id_is_ignored() {
    let mut accounts = accounts(vec![0, 7]);
    let mut data = vec![4; 32];
    data.extend([1, 2, 3]);
    assert_eq!(process_instruction(&PROGRAM, &mut accounts, &data), Ok(()));
    assert_eq!(accounts[1].data, [1, 7]);
    assert_eq!(accounts[0].data, Vec::<u8>::new());
}

#[test]
fn short_data_is_invalid() {
    let mut accounts = accounts(vec![0]);
    assert_eq!(
        process_instruction(&PROGRAM, &mut accounts, &[4; 31]),
        Err(ProgramError::InvalidInstructionData)
    );
    assert_eq!(accounts[1].data, [0]);
}

#[test]
fn two_accounts_are_needed() {
    let mut accounts = accounts(vec![0]);
    accounts.pop();
    assert_eq!(
        process_instruction(&PROGRAM, &mut accounts, &[4; 32]),
        Err(ProgramError::NotEnoughAccountKeys)
    );
    accounts.pop();
    assert_eq!(
        process_instruction(&PROGRAM, &mut accounts, &[4; 32]),
        Err(ProgramError::NotEnoughAccountKeys)
    );
}

#[test]
fn account_of_another_transaction_is_refused() {
    let mut accounts = accounts(vec![0]);
    assert_eq!(
        process_instruction(&PROGRAM, &mut accounts, &[5; 32]),
        Err(ProgramError::InvalidArgument)
    );
    assert_eq!(accounts[1].data, [0]);
}

#[test]
fn lent_data_cannot_be_marked() {
    let mut accounts = accounts(vec![0]);
    accounts[1].borrow = Borrow::Shared;
    assert_eq!(
        process_instruction(&PROGRAM, &mut accounts, &[4; 32]),
        Err(ProgramError::AccountBorrowFailed)
    );
    accounts[1].borrow = Borrow::Exclusive;
    assert_eq!(
        process_instruction(&PROGRAM, &mut accounts, &[4; 32]),
        Err(ProgramError::AccountBorrowFailed)
    );
    accounts[1].data[0] = 1;
    accounts[1].borrow = Borrow::Shared;
    assert_eq!(
        process_instruction(&PROGRAM, &mut accounts, &[4; 32]),
        Err(ProgramError::Custom(DUPLICATE))
    );
}

#[test]
fn account_without_data_is_not_processed() {
    let mut accounts = accounts(vec![]);
    assert_eq!(process_instruction_checked(&PROGRAM, &mut accounts, &[4; 32]), None);
    assert_eq!(
        process_instruction_checked(&PROGRAM, &mut accounts, &[5; 32]),
        Some(Err(ProgramError::InvalidArgument))
    );
    accounts[1].data.push(0);
    assert_eq!(process_instruction_checked(&PROGRAM, &mut accounts, &[4; 32]), Some(Ok(())));
    assert_eq!(accounts[1].data, [1]);
}

#[test]
fn sender_and_program_agree() {
    let signer = Pubkey([3; 32]);
    let tx_id = [4; 32];
    let target = DeduplicationTarget {
        program_id: PROGRAM,
        account: derive_marked_address(&PROGRAM, &signer, &tx_id).unwrap(),
    };
    assert_eq!(target.account, marked_account());
    let call = build_marking_instructions(&target, &signer, &tx_id, true, 1).remove(0);
    let mut accounts: Vec<AccountInfo> =
        call.accounts.iter().map(|meta| account(meta.pubkey, vec![0])).collect();
    assert_eq!(process_instruction(&call.program_id, &mut accounts, &call.data), Ok(()));
    assert_eq!((accounts[0].data[0], accounts[1].data[0]), (0, 1));
}

#[test]
fn mark_of_another_transaction_stays() {
    let mut accounts = accounts(vec![0]);
    accounts.push(account(Pubkey([9; 32]), vec![1]));
    assert_eq!(process_instruction(&PROGRAM, &mut accounts, &[4; 32]), Ok(()));
    assert_eq!(accounts[2].data, [1]);
}

#[test]
fn mark_asks_for_the_expected_account() {
    let mut unmarked = account(Pubkey([8; 32]), vec![0]);
    assert_eq!(mark(&Pubkey([9; 32]), &mut unmarked), Err(ProgramError::InvalidArgument));
    assert_eq!(mark(&Pubkey([8; 32]), &mut unmarked), Ok(()));
    assert_eq!(unmarked.data, [1]);
}
