use base64::Engine;
use sha2::{Digest, Sha256};
use solana_sdk::compute_budget::ComputeBudgetInstruction;
use solana_sdk::hash::Hash as SdkHash;
use solana_sdk::instruction::{AccountMeta as SdkAccountMeta, Instruction as SdkInstruction};
use solana_sdk::message::v0::Message as SdkV0Message;
use solana_sdk::message::{Message as SdkMessage, VersionedMessage};
use solana_sdk::pubkey::Pubkey as SdkPubkey;
use solana_sdk::signature::{Keypair as SdkKeypair, Signature as SdkSignature};
use solana_sdk::signer::Signer;
use solana_sdk::transaction::{
    Transaction as SdkTransaction, VersionedTransaction as SdkVersionedTransaction,
};
use tx_submission::assemble::{
    assemble, create_transaction_with_priority_fee, is_countable, is_estimable, new_unsigned,
    priority_estimate, rebuild_transaction, sign, AssemblyError, ESTIMATE_PRIORITY_FEE,
};
use tx_submission::compile::{force_single_signer, instruction_to_compiled};
use tx_submission::dedup::{
    build_de_duplication_instructions, build_marking_instructions, deduplication_target,
    derive_marked_address, DeduplicationError, DeduplicationTarget, MARKED_ACCOUNT_SPACE,
};
use tx_submission::instruction::{AccountMeta, CompiledInstruction, Instruction, Pubkey};
use tx_submission::keypair::Keypair;
use tx_submission::message::{
    Blockhash, Message, MessageBody, MessageVersion, Signature, Transaction, VersionedTransaction,
};
use tx_submission::pool::RpcPool;
use tx_submission::program::{process_instruction, AccountInfo, Borrow};
use tx_submission::rebuild::{has_indices_in_range, is_rebuildable, rebuild_instructions};
use tx_submission::sdk::{COMPUTE_BUDGET_ID, SYSTEM_PROGRAM_ID, UPGRADEABLE_LOADER_ID};
use tx_submission::submit::{
    accept_bytes, accept_transaction, decode_submission, derive_transaction_id,
    encode_transaction, keep_parsed, priority_fee_request, priority_fee_url, submission_reply,
    transaction_to_bytes, usable_blockhashes, Rejection, SubmissionError, TransactionSubmitter,
    BAD_REQUEST, INTERNAL_SERVER_ERROR, RENT_EXEMPTION_LAMPORTS,
};

/// A transaction as a wallet hands it out.
const WALLET_TRANSACTION: &str = "AQAAAAAAAAAAAAAAAAAAAAAAAAAAAAAAAAAAAAAAAAAAAAAAAAAAAAAAAAAAAAAAAAAAAAAAAAAAAAAAAAAAAACAAQAJDu419ykC6U2MZIRQ3FAuAz6OnBTtoZ2BoE+AQXQ2Deh10Msvaz37yZwluzFI8b0LxnoH48WlK2Gj3LpXs3v4h62tEeak/ClEpPqCUb74FUJuG/soxrZkZndgfGrZ9WamRmW5uzWA6bCCweASd2ostkkSASq7Abucvqhdu+LmygXPTnjK5gXLADdGnivl6s7pr4U6AIXSuamx89x+PNM8ZrgDBkZv5SEXMv/srbpyw5vnvIzlu8X3EmssQ5s6QAAAAIyXJY9OJInxuz0QKRSODYMLWhOZ2v8QhASOe9jb6fhZ/jGHw0YcbuU6nNdX04HwsZ+JQFX8Bb0fG8j+5MpGY+8AAAAAAAAAAAAAAAAAAAAAAAAAAAAAAAAAAAAAAAAAAAbd9uHXZaGT2cvhRs7reawctIXtX1s3kTqM9YV+/wCpAVbg9pNmWs9E2xVovxdbqlGJy5f10v87ZV0rtv1tGLA6hl5p7g9UgMq89mNX5NwvGNWNRcHqdIn7NyPZeTxypgan1RcZLFxRIYzJTD1K8X9Y2u4Im6H9ROPb2YoAAAAArPE26wH8HE6IPSPItYRKtZo39mrdV8XprDtT4FnTXGSvcnwNQBan6Ix+Eof8SeyESuaXR1g8V0vsXQjwKzlwDQQFAAUCS/IAAAUACQNonSkAAAAAAAYGAAEABwgJAQEKDAsCBwMEAQAICQwNChhmBj0SAdrr6kkbAegBAAAAOLgPAAAAAAAA";

const PROGRAM: &str = "Stake11111111111111111111111111111111111111";

fn key(byte: u8) -> Pubkey {
    Pubkey([byte; 32])
}

fn keys(bytes: &[u8]) -> Vec<Pubkey> {
    bytes.iter().map(|byte| key(*byte)).collect()
}

fn meta(byte: u8, is_signer: bool, is_writable: bool) -> AccountMeta {
    AccountMeta { pubkey: key(byte), is_signer, is_writable }
}

fn sdk_keypair() -> SdkKeypair {
    solana_sdk::signer::keypair::keypair_from_seed(&[7; 32]).unwrap()
}

fn keypair() -> Keypair {
    Keypair::new(sdk_keypair().to_bytes()).unwrap()
}

fn payer() -> Pubkey {
    Pubkey(sdk_keypair().pubkey().to_bytes())
}

fn submitter() -> TransactionSubmitter {
    TransactionSubmitter::new("api key".to_string(), keypair())
}

fn sdk_instruction(instruction: &Instruction) -> SdkInstruction {
    SdkInstruction {
        program_id: instruction.program_id.0.into(),
        accounts: instruction
            .accounts
            .iter()
            .map(|account| SdkAccountMeta {
                pubkey: account.pubkey.0.into(),
                is_signer: account.is_signer,
                is_writable: account.is_writable,
            })
            .collect(),
        data: instruction.data.clone(),
    }
}

fn sdk_instructions(instructions: &[Instruction]) -> Vec<SdkInstruction> {
    instructions.iter().map(sdk_instruction).collect()
}

fn encoded(transaction: &SdkVersionedTransaction) -> String {
    base64::engine::general_purpose::STANDARD.encode(bincode::serialize(transaction).unwrap())
}

/// Checks that `transaction` is what the SDK signs for the instructions.
fn assert_signed(transaction: &Transaction, instructions: &[SdkInstruction], blockhash: [u8; 32]) {
    let message = SdkMessage::new(instructions, Some(&sdk_keypair().pubkey()));
    let expected =
        SdkTransaction::new(&[&sdk_keypair()], message, SdkHash::new_from_array(blockhash));
    assert_eq!(
        transaction_to_bytes(transaction).unwrap(),
        bincode::serialize(&expected).unwrap()
    );
    assert_eq!(transaction.signatures.len(), 1);
    assert_eq!(transaction.signatures[0].0, <[u8; 64]>::from(expected.signatures[0]));
}

/// A message in which the payer signs, account 2 is written and account 3 is
/// read; programs 9 and the compute budget program are called.
fn versioned(version: MessageVersion) -> VersionedTransaction {
    let mut account_keys = vec![payer(), key(2), key(3), key(9)];
    account_keys.push(Pubkey(COMPUTE_BUDGET_ID));
    VersionedTransaction {
        version,
        body: MessageBody {
            num_required_signatures: 1,
            num_readonly_signed_accounts: 0,
            num_readonly_unsigned_accounts: 3,
            account_keys,
            instructions: vec![
                CompiledInstruction { program_id_index: 4, accounts: vec![], data: vec![2, 1] },
                CompiledInstruction { program_id_index: 3, accounts: vec![0, 1, 2], data: vec![7] },
                CompiledInstruction { program_id_index: 4, accounts: vec![], data: vec![3] },
                CompiledInstruction { program_id_index: 3, accounts: vec![], data: vec![8] },
            ],
        },
        rendering: "rendering".to_string(),
    }
}

/// The instructions of `versioned` that are not for the compute budget program.
fn kept() -> Vec<Instruction> {
    let signer = AccountMeta { pubkey: payer(), is_signer: true, is_writable: true };
    vec![
        Instruction {
            program_id: key(9),
            accounts: vec![signer, meta(2, false, true), meta(3, false, false)],
            data: vec![7],
        },
        Instruction { program_id: key(9), accounts: vec![], data: vec![8] },
    ]
}

#[test]
fn program_ids_are_those_of_the_sdk() {
    assert_eq!(COMPUTE_BUDGET_ID, solana_sdk::compute_budget::id().to_bytes());
    assert_eq!(SYSTEM_PROGRAM_ID, solana_sdk::system_program::id().to_bytes());
    assert_eq!(UPGRADEABLE_LOADER_ID, solana_sdk::bpf_loader_upgradeable::id().to_bytes());
}

#[test]
fn compiling_appends_the_keys_that_are_missing() {
    let instruction = Instruction {
        program_id: key(9),
        accounts: vec![meta(1, true, true), meta(5, false, true), meta(2, false, false)],
        data: vec![1, 2, 3],
    };
    let mut account_keys = keys(&[1, 2]);
    let compiled = instruction_to_compiled(&instruction, &mut account_keys);
    assert_eq!(account_keys, keys(&[1, 2, 5, 9]));
    assert_eq!(
        compiled,
        CompiledInstruction { program_id_index: 3, accounts: vec![0, 2, 1], data: vec![1, 2, 3] }
    );
}

#[test]
fn compiling_twice_adds_nothing() {
    let instruction = Instruction {
        program_id: key(4),
        accounts: vec![meta(4, false, false), meta(4, true, true)],
        data: vec![],
    };
    let mut account_keys = vec![];
    let once = instruction_to_compiled(&instruction, &mut account_keys);
    assert_eq!(account_keys, keys(&[4]));
    let twice = instruction_to_compiled(&instruction, &mut account_keys);
    assert_eq!(account_keys, keys(&[4]));
    assert_eq!(once, twice);
    assert_eq!(once.accounts, [0, 0]);
}

#[test]
fn index_beyond_a_byte_wraps() {
    let mut account_keys: Vec<Pubkey> = Vec::new();
    for i in 0..256u16 {
        let mut bytes = [1; 32];
        bytes[..2].copy_from_slice(&i.to_le_bytes());
        account_keys.push(Pubkey(bytes));
    }
    let instruction = Instruction { program_id: key(9), accounts: vec![], data: vec![] };
    let compiled = instruction_to_compiled(&instruction, &mut account_keys);
    assert_eq!(account_keys.len(), 257);
    assert_eq!(compiled.program_id_index, 0);
}

#[test]
fn only_the_fee_payer_is_left_to_sign() {
    let instructions = vec![
        Instruction {
            program_id: key(9),
            accounts: vec![meta(1, false, true), meta(2, true, false)],
            data: vec![5],
        },
        Instruction { program_id: key(8), accounts: vec![meta(1, true, false)], data: vec![] },
    ];
    let forced = force_single_signer(instructions, &key(1));
    let expected = vec![
        Instruction {
            program_id: key(9),
            accounts: vec![meta(1, true, true), meta(2, false, false)],
            data: vec![5],
        },
        Instruction { program_id: key(8), accounts: vec![meta(1, true, false)], data: vec![] },
    ];
    assert_eq!(forced, expected);
    assert_eq!(force_single_signer(forced, &key(1)), expected);
}

#[test]
fn rebuilt_instructions_keep_all_but_the_budget() {
    let last = Instruction { program_id: key(6), accounts: vec![], data: vec![6] };
    for version in [MessageVersion::Legacy, MessageVersion::V0] {
        let instructions = rebuild_instructions(&versioned(version), 1234, vec![last.clone()]);
        let mut expected = vec![Instruction {
            program_id: Pubkey(COMPUTE_BUDGET_ID),
            accounts: vec![],
            data: vec![3, 0xd2, 4, 0, 0, 0, 0, 0, 0],
        }];
        expected.extend(kept());
        expected.push(last.clone());
        assert_eq!(instructions, expected);
        assert_eq!(
            sdk_instruction(&instructions[0]),
            ComputeBudgetInstruction::set_compute_unit_price(1234)
        );
    }
}

#[test]
fn called_program_is_not_written() {
    let mut tx = versioned(MessageVersion::Legacy);
    tx.body.num_readonly_unsigned_accounts = 0;
    tx.body.instructions[1].accounts = vec![1, 3];
    let instructions = rebuild_instructions(&tx, 0, vec![]);
    assert_eq!(instructions[1].accounts, [meta(2, false, true), meta(9, false, false)]);
    tx.body.account_keys[2] = Pubkey(UPGRADEABLE_LOADER_ID);
    for version in [MessageVersion::Legacy, MessageVersion::V0] {
        tx.version = version;
        let instructions = rebuild_instructions(&tx, 0, vec![]);
        assert_eq!(instructions[1].accounts, [meta(2, false, true), meta(9, false, true)]);
    }
}

#[test]
fn repeated_key_of_a_signer_signs_everywhere() {
    let mut tx = versioned(MessageVersion::V0);
    tx.body.account_keys[2] = payer();
    let instructions = rebuild_instructions(&tx, 0, vec![]);
    assert!(instructions[1].accounts[2].is_signer);
}

#[test]
fn lookups_out_of_range_are_told() {
    for version in [MessageVersion::Legacy, MessageVersion::V0] {
        let tx = versioned(version);
        assert!(has_indices_in_range(&tx));
        assert!(is_rebuildable(&tx));
        assert!(is_estimable(&tx));
    }
    let mut tx = versioned(MessageVersion::V0);
    tx.body.instructions[1].accounts.push(5);
    assert!(!has_indices_in_range(&tx));
    assert!(!is_rebuildable(&tx));
    assert!(!is_estimable(&tx));
    tx.version = MessageVersion::Legacy;
    assert!(is_estimable(&tx));
    let mut tx = versioned(MessageVersion::V0);
    tx.body.instructions[3].program_id_index = 5;
    assert!(!has_indices_in_range(&tx));
    let mut tx = versioned(MessageVersion::V0);
    tx.body.num_required_signatures = 6;
    assert!(has_indices_in_range(&tx));
    assert!(!is_rebuildable(&tx));
    tx.body.account_keys.clear();
    tx.body.instructions.clear();
    assert!(!is_estimable(&tx));
}

#[test]
fn legacy_counts_that_do_not_add_up_are_told() {
    let mut tx = versioned(MessageVersion::Legacy);
    tx.body.num_readonly_unsigned_accounts = 6;
    assert!(!is_rebuildable(&tx));
    tx.version = MessageVersion::V0;
    assert!(is_rebuildable(&tx));
    let mut tx = versioned(MessageVersion::Legacy);
    tx.body.num_readonly_signed_accounts = 2;
    assert!(!is_rebuildable(&tx));
}

#[test]
fn legacy_fee_is_estimated_for_the_message_itself() {
    let tx = versioned(MessageVersion::Legacy);
    let estimate = priority_estimate(&tx, &Blockhash([4; 32]));
    assert_eq!(estimate.message.body, tx.body);
    assert_eq!(estimate.message.recent_blockhash, Blockhash([4; 32]));
    assert_eq!(estimate.signatures, [Signature([0; 64])]);
}

#[test]
fn newer_fee_is_estimated_for_a_legacy_message() {
    let tx = versioned(MessageVersion::V0);
    let estimate = priority_estimate(&tx, &Blockhash([4; 32]));
    assert_eq!(estimate.message.recent_blockhash, Blockhash([4; 32]));
    let mut instructions = kept();
    let budget = |data: Vec<u8>| Instruction {
        program_id: Pubkey(COMPUTE_BUDGET_ID),
        accounts: vec![],
        data,
    };
    instructions.insert(0, budget(vec![2, 1]));
    instructions.insert(2, budget(vec![3]));
    let expected = SdkTransaction::new_unsigned(SdkMessage::new_with_blockhash(
        &sdk_instructions(&instructions),
        Some(&sdk_keypair().pubkey()),
        &SdkHash::new_from_array([4; 32]),
    ));
    assert_eq!(
        transaction_to_bytes(&estimate).unwrap(),
        bincode::serialize(&expected).unwrap()
    );
}

#[test]
fn each_copy_has_its_own_estimate() {
    for version in [MessageVersion::Legacy, MessageVersion::V0] {
        let tx = versioned(version);
        let one = encode_transaction(&priority_estimate(&tx, &Blockhash([1; 32]))).unwrap();
        let other = encode_transaction(&priority_estimate(&tx, &Blockhash([2; 32]))).unwrap();
        assert_ne!(one, other);
    }
}

#[test]
fn signatures_are_left_open() {
    let mut body = versioned(MessageVersion::Legacy).body;
    body.num_required_signatures = 3;
    let message = Message { body, recent_blockhash: Blockhash([1; 32]) };
    assert_eq!(new_unsigned(message).signatures, [Signature([0; 64]); 3]);
}

#[test]
fn keypair_has_to_fit_together() {
    assert_eq!(keypair().pubkey(), payer());
    let mut bytes = sdk_keypair().to_bytes();
    bytes[0] ^= 1;
    let reason = Keypair::new(bytes).err().unwrap();
    assert_eq!(reason, SdkKeypair::from_bytes(&bytes).err().unwrap().to_string());
}

#[test]
fn transaction_with_priority_fee_is_signed() {
    let instructions = kept();
    let made =
        create_transaction_with_priority_fee(&keypair(), &instructions, &Blockhash([5; 32]), 77)
            .unwrap();
    let mut expected = vec![ComputeBudgetInstruction::set_compute_unit_price(77)];
    expected.extend(sdk_instructions(&instructions));
    assert_signed(&made, &expected, [5; 32]);
    assert_eq!(made.message.body.account_keys[0], payer());
    assert_eq!(made.message.recent_blockhash, Blockhash([5; 32]));
}

#[test]
fn indices_lead_back_to_the_keys() {
    let instructions = kept();
    let made = assemble(&keypair(), &instructions, &Blockhash([5; 32])).unwrap();
    let body = &made.message.body;
    assert_eq!(body.instructions.len(), instructions.len());
    for (compiled, instruction) in body.instructions.iter().zip(&instructions) {
        let program = body.account_keys[compiled.program_id_index as usize];
        assert_eq!(program, instruction.program_id);
        assert_eq!(compiled.data, instruction.data);
        assert_eq!(compiled.accounts.len(), instruction.accounts.len());
        for (index, account) in compiled.accounts.iter().zip(&instruction.accounts) {
            assert_eq!(body.account_keys[*index as usize], account.pubkey);
        }
    }
}

#[test]
fn counts_say_which_accounts_are_written() {
    let instructions = kept();
    let made = assemble(&keypair(), &instructions, &Blockhash([5; 32])).unwrap();
    let body = &made.message.body;
    for (place, key) in body.account_keys.iter().enumerate() {
        let signed = body.num_required_signatures as usize;
        let written = place < signed - body.num_readonly_signed_accounts as usize
            || (signed <= place
                && place
                    < body.account_keys.len() - body.num_readonly_unsigned_accounts as usize);
        assert_eq!(written, *key == payer() || *key == self::key(2));
    }
}

#[test]
fn message_is_signed_for_its_only_signer() {
    let body = versioned(MessageVersion::Legacy).body;
    let message = |body: &MessageBody| Message {
        body: body.clone(),
        recent_blockhash: Blockhash([5; 32]),
    };
    let made = sign(&keypair(), message(&body)).unwrap();
    assert_eq!(made.message, message(&body));
    assert_eq!(made.signatures.len(), 1);
    let mut two = body.clone();
    two.num_required_signatures = 2;
    assert_eq!(
        sign(&keypair(), message(&two)),
        Err(AssemblyError::Unsigned("not enough signers".to_string()))
    );
    let mut foreign = body.clone();
    foreign.account_keys[0] = key(1);
    assert!(matches!(sign(&keypair(), message(&foreign)), Err(AssemblyError::Unsigned(_))));
    let mut long = body;
    long.account_keys = vec![payer(); 65536];
    assert_eq!(sign(&keypair(), message(&long)), Err(AssemblyError::TooLong));
}

#[test]
fn fee_of_plain_instructions_is_estimated_without_one() {
    let made = create_transaction_with_priority_fee(
        &keypair(),
        &kept(),
        &Blockhash([5; 32]),
        ESTIMATE_PRIORITY_FEE,
    )
    .unwrap();
    assert_eq!(made.message.body.instructions[0].data, [3, 0, 0, 0, 0, 0, 0, 0, 0]);
}

#[test]
fn foreign_signer_is_missed() {
    let instructions =
        vec![Instruction { program_id: key(9), accounts: vec![meta(2, true, false)], data: vec![] }];
    assert_eq!(
        assemble(&keypair(), &instructions, &Blockhash([5; 32])),
        Err(AssemblyError::Unsigned("not enough signers".to_string()))
    );
}

#[test]
fn instruction_that_is_too_long_is_refused() {
    let mut instructions =
        vec![Instruction { program_id: key(9), accounts: vec![], data: vec![0; 65535] }];
    assert!(assemble(&keypair(), &instructions, &Blockhash([5; 32])).is_ok());
    instructions[0].data.push(0);
    assert_eq!(
        assemble(&keypair(), &instructions, &Blockhash([5; 32])),
        Err(AssemblyError::TooLong)
    );
}

#[test]
fn keys_that_cannot_be_counted_are_refused() {
    let mut accounts = Vec::new();
    for i in 0..254u16 {
        let mut bytes = [1; 32];
        bytes[..2].copy_from_slice(&i.to_le_bytes());
        accounts.push(AccountMeta { pubkey: Pubkey(bytes), is_signer: false, is_writable: false });
    }
    let mut instructions = vec![Instruction { program_id: key(9), accounts, data: vec![] }];
    assert!(is_countable(&instructions, &payer()));
    assert!(assemble(&keypair(), &instructions, &Blockhash([5; 32])).is_ok());
    instructions[0].accounts.push(meta(8, false, false));
    assert!(!is_countable(&instructions, &payer()));
    assert_eq!(
        assemble(&keypair(), &instructions, &Blockhash([5; 32])),
        Err(AssemblyError::TooManyAccounts)
    );
    instructions[0].accounts[3].is_writable = true;
    assert!(is_countable(&instructions, &payer()));
}

#[test]
fn rebuilt_transaction_is_signed() {
    let last = Instruction { program_id: key(6), accounts: vec![], data: vec![6] };
    let tx = versioned(MessageVersion::V0);
    let made =
        rebuild_transaction(&keypair(), &tx, &Blockhash([3; 32]), 9, vec![last.clone()]).unwrap();
    let mut expected = vec![ComputeBudgetInstruction::set_compute_unit_price(9)];
    expected.extend(sdk_instructions(&kept()));
    expected.push(sdk_instruction(&last));
    assert_signed(&made, &expected, [3; 32]);
}

#[test]
fn marked_address_is_the_one_of_the_sdk() {
    let program: SdkPubkey = PROGRAM.parse().unwrap();
    let (expected, _) = SdkPubkey::find_program_address(
        &[b"unique", &[3; 32], &[4; 32]],
        &program,
    );
    let found = derive_marked_address(&Pubkey(program.to_bytes()), &key(3), &[4; 32]);
    assert_eq!(found, Some(Pubkey(expected.to_bytes())));
    assert_eq!(
        deduplication_target(Some(PROGRAM), &key(3), &[4; 32]),
        Ok(DeduplicationTarget {
            program_id: Pubkey(program.to_bytes()),
            account: Pubkey(expected.to_bytes()),
        })
    );
}

#[test]
fn deduplication_needs_a_program_id() {
    let unset = build_de_duplication_instructions(&key(3), &[4; 32], None, true, 1).err().unwrap();
    assert_eq!(unset, DeduplicationError::ProgramIdUnset);
    assert_eq!(
        unset.message(),
        "Environment variable DUPLICATE_TX_PREVENTION_PROGRAM_ID is not set."
    );
    let invalid =
        build_de_duplication_instructions(&key(3), &[4; 32], Some("0OIl"), true, 1).err().unwrap();
    let reason = "0OIl".parse::<SdkPubkey>().err().unwrap().to_string();
    assert_eq!(invalid, DeduplicationError::ProgramIdInvalid(reason.clone()));
    assert_eq!(invalid.message(), reason);
    assert_eq!(
        DeduplicationError::NoProgramAddress.message(),
        "Unable to find a viable program address bump seed"
    );
}

#[test]
fn longer_id_leads_to_no_address() {
    assert_eq!(derive_marked_address(&key(1), &key(3), &[4; 33]), None);
    assert_eq!(
        deduplication_target(Some(PROGRAM), &key(3), &[4; 33]),
        Err(DeduplicationError::NoProgramAddress)
    );
}

#[test]
fn existing_account_is_only_marked() {
    let target = deduplication_target(Some(PROGRAM), &key(3), &[4; 32]).unwrap();
    let instructions =
        build_de_duplication_instructions(&key(3), &[4; 32], Some(PROGRAM), true, 1).unwrap();
    let account = AccountMeta { pubkey: target.account, is_signer: false, is_writable: true };
    assert_eq!(
        instructions,
        [Instruction {
            program_id: target.program_id,
            accounts: vec![meta(3, true, true), account],
            data: vec![4; 32],
        }]
    );
}

#[test]
fn marked_account_is_exempt_from_rent() {
    let rent = solana_sdk::rent::Rent::default();
    assert_eq!(RENT_EXEMPTION_LAMPORTS, rent.minimum_balance(MARKED_ACCOUNT_SPACE as usize));
    assert_eq!(RENT_EXEMPTION_LAMPORTS, 897_840);
}

#[test]
fn missing_account_is_made_first() {
    let target = deduplication_target(Some(PROGRAM), &key(3), &[4; 32]).unwrap();
    let instructions = build_de_duplication_instructions(
        &key(3),
        &[4; 32],
        Some(PROGRAM),
        false,
        RENT_EXEMPTION_LAMPORTS,
    )
    .unwrap();
    assert_eq!(instructions.len(), 2);
    assert_eq!(
        sdk_instruction(&instructions[0]),
        solana_sdk::system_instruction::create_account(
            &key(3).0.into(),
            &target.account.0.into(),
            RENT_EXEMPTION_LAMPORTS,
            1,
            &target.program_id.0.into(),
        )
    );
    assert_eq!(
        instructions,
        build_marking_instructions(&target, &key(3), &[4; 32], false, RENT_EXEMPTION_LAMPORTS)
    );
    assert_eq!(
        instructions[1..],
        build_marking_instructions(&target, &key(3), &[4; 32], true, 1)[..]
    );
}

#[test]
fn wallet_transaction_is_read() {
    let bytes = base64::engine::general_purpose::STANDARD.decode(WALLET_TRANSACTION).unwrap();
    let expected: SdkVersionedTransaction = bincode::deserialize(&bytes).unwrap();
    let tx = decode_submission(WALLET_TRANSACTION).unwrap();
    assert_eq!(tx.version, MessageVersion::V0);
    assert_eq!(tx.rendering, format!("{:?}", expected));
    assert_eq!(tx.body.num_required_signatures, 1);
    assert_eq!(tx.body.num_readonly_signed_accounts, 0);
    assert_eq!(tx.body.num_readonly_unsigned_accounts, 9);
    assert_eq!(tx.body.account_keys.len(), 14);
    let VersionedMessage::V0(message) = &expected.message else { panic!() };
    for (key, sdk) in tx.body.account_keys.iter().zip(&message.account_keys) {
        assert_eq!(key.0, sdk.to_bytes());
    }
    assert_eq!(tx.body.instructions.len(), message.instructions.len());
    for (compiled, sdk) in tx.body.instructions.iter().zip(&message.instructions) {
        assert_eq!(compiled.program_id_index, sdk.program_id_index);
        assert_eq!(compiled.accounts, sdk.accounts);
        assert_eq!(compiled.data, sdk.data);
    }
    assert!(is_estimable(&tx) && is_rebuildable(&tx));
    let id: [u8; 32] = Sha256::digest(format!("{:?}", expected)).into();
    assert_eq!(derive_transaction_id(&tx), id);
}

#[test]
fn legacy_submission_is_read() {
    let message = SdkMessage::new(&sdk_instructions(&kept()), Some(&sdk_keypair().pubkey()));
    let sdk = SdkVersionedTransaction::from(SdkTransaction::new_unsigned(message));
    let tx = decode_submission(&encoded(&sdk)).unwrap();
    assert_eq!(tx.version, MessageVersion::Legacy);
    assert_eq!(tx.body.account_keys[0], payer());
    assert_eq!(rebuild_instructions(&tx, 0, vec![])[1..], kept()[..]);
}

#[test]
fn invalid_base64_is_a_bad_request() {
    let reason = base64::engine::general_purpose::STANDARD.decode("?").err().unwrap().to_string();
    assert_eq!(
        decode_submission("?"),
        Err(Rejection {
            status: BAD_REQUEST,
            body: format!("Invalid base64 encoding: {}", reason),
        })
    );
    assert_eq!(accept_bytes(Ok(vec![1])), Ok(vec![1]));
    assert_eq!(
        accept_bytes(Err("why".to_string())),
        Err(Rejection { status: 400, body: "Invalid base64 encoding: why".to_string() })
    );
}

#[test]
fn invalid_transaction_is_a_bad_request() {
    let reason = bincode::deserialize::<SdkVersionedTransaction>(&[1]).err().unwrap().to_string();
    assert_eq!(
        decode_submission("AQ=="),
        Err(Rejection {
            status: BAD_REQUEST,
            body: format!("Failed to deserialize transaction: {}", reason),
        })
    );
    assert_eq!(
        accept_transaction(Err("why".to_string())),
        Err(Rejection { status: 400, body: "Failed to deserialize transaction: why".to_string() })
    );
    assert!(accept_transaction(Ok(versioned(MessageVersion::V0))).is_ok());
}

#[test]
fn reply_is_the_signature_or_an_error() {
    let expected = SdkSignature::from([9; 64]).to_string();
    assert_eq!(submission_reply(Some(Signature([9; 64]))), Ok(expected));
    assert_eq!(
        submission_reply(None),
        Err(Rejection {
            status: INTERNAL_SERVER_ERROR,
            body: "Failed to submit and confirm transaction".to_string(),
        })
    );
    assert_eq!((BAD_REQUEST, INTERNAL_SERVER_ERROR), (400, 500));
}

#[test]
fn priority_fee_is_asked_for_the_encoded_transaction() {
    let estimate = priority_estimate(&versioned(MessageVersion::Legacy), &Blockhash([4; 32]));
    let encoded = encode_transaction(&estimate).unwrap();
    assert_eq!(
        encoded,
        bs58::encode(transaction_to_bytes(&estimate).unwrap()).into_string()
    );
    let request = priority_fee_request(encoded.clone());
    assert_eq!(request.jsonrpc, "2.0");
    assert_eq!(request.id, "placeholder");
    assert_eq!(request.method, "getPriorityFeeEstimate");
    assert_eq!(request.params.len(), 1);
    assert_eq!(request.params[0].transaction, encoded);
    assert!(request.params[0].options.include_all_priority_fee_levels);
    assert_eq!(priority_fee_url("k"), "https://mainnet.helius-rpc.com/?api-key=k");
}

#[test]
fn transaction_that_cannot_be_serialized_has_no_encoding() {
    let mut estimate = priority_estimate(&versioned(MessageVersion::Legacy), &Blockhash([4; 32]));
    estimate.message.body.instructions[0].data = vec![0; 65536];
    assert!(transaction_to_bytes(&estimate).is_err());
    assert_eq!(encode_transaction(&estimate).err(), transaction_to_bytes(&estimate).err());
}

#[test]
fn blockhashes_that_do_not_parse_are_left_out() {
    let mut pool = RpcPool::new();
    let one = SdkHash::new_from_array([1; 32]).to_string();
    let two = SdkHash::new_from_array([2; 32]).to_string();
    pool.record_answer_at("slow".to_string(), Some(one), 9, 0);
    pool.record_answer_at("fast".to_string(), Some("no hash".to_string()), 3, 0);
    pool.record_answer_at("fast".to_string(), Some(two), 4, 0);
    let plan = submitter().submit_versioned_transaction(&pool);
    assert_eq!(plan.rpc_urls, ["fast", "slow"]);
    assert_eq!(plan.blockhashes, [Blockhash([1; 32]), Blockhash([2; 32])]);
    assert_eq!(usable_blockhashes(&pool.cache.get_all()), plan.blockhashes);
    assert_eq!(
        keep_parsed(&vec![None, Some(Blockhash([1; 32])), None, Some(Blockhash([1; 32]))]),
        [Blockhash([1; 32]), Blockhash([1; 32])]
    );
}

#[test]
fn submitter_keeps_key_and_keypair() {
    let submitter = submitter();
    assert_eq!(submitter.helius_api_key, "api key");
    assert_eq!(submitter.keypair.pubkey(), payer());
}

#[test]
fn final_transaction_ends_with_its_mark() {
    let tx = versioned(MessageVersion::Legacy);
    let target = submitter().marked_account(&tx, Some(PROGRAM)).unwrap();
    let id: [u8; 32] = Sha256::digest("rendering").into();
    assert_eq!(target, deduplication_target(Some(PROGRAM), &payer(), &id).unwrap());
    let made = submitter()
        .final_transaction(&tx, &Blockhash([2; 32]), 5, Some(PROGRAM), true)
        .unwrap();
    let mut expected = vec![ComputeBudgetInstruction::set_compute_unit_price(5)];
    expected.extend(sdk_instructions(&kept()));
    expected.extend(sdk_instructions(&build_marking_instructions(
        &target,
        &payer(),
        &id,
        true,
        1,
    )));
    assert_signed(&made, &expected, [2; 32]);
}

#[test]
fn copies_are_told_apart_by_blockhash_and_fee() {
    let tx = versioned(MessageVersion::V0);
    let copy = |blockhash: u8, fee: u64| {
        submitter()
            .final_transaction(&tx, &Blockhash([blockhash; 32]), fee, Some(PROGRAM), true)
            .unwrap()
    };
    let one = copy(1, 10);
    assert_eq!(one, copy(1, 10));
    assert_ne!(one, copy(2, 10));
    assert_ne!(one.message, copy(1, 11).message);
    let last = |made: &Transaction| made.message.body.instructions.last().unwrap().data.clone();
    assert_eq!(last(&one), last(&copy(2, 11)));
    assert_eq!(last(&one), derive_transaction_id(&tx));
}

#[test]
fn exactly_one_copy_lands() {
    let tx = versioned(MessageVersion::V0);
    let target = submitter().marked_account(&tx, Some(PROGRAM)).unwrap();
    let account = |key: Pubkey| AccountInfo { key, data: vec![0], borrow: Borrow::Free };
    let mut accounts = vec![account(payer()), account(target.account)];
    let mut landed = Vec::new();
    for fee in 0..4 {
        let copy = submitter()
            .final_transaction(&tx, &Blockhash([9; 32]), fee, Some(PROGRAM), true)
            .unwrap();
        let mark = copy.message.body.instructions.last().unwrap().data.clone();
        let done = process_instruction(&target.program_id, &mut accounts, &mark);
        landed.push(done.is_ok());
    }
    assert_eq!(landed, [true, false, false, false]);
}

#[test]
fn account_to_be_made_would_have_to_sign() {
    let tx = versioned(MessageVersion::V0);
    let made = submitter().final_transaction(&tx, &Blockhash([1; 32]), 1, Some(PROGRAM), false);
    assert_eq!(
        made,
        Err(SubmissionError::Assembly(AssemblyError::Unsigned("not enough signers".to_string())))
    );
}

#[test]
fn other_signer_of_the_message_is_kept() {
    let mut tx = versioned(MessageVersion::V0);
    tx.body.num_required_signatures = 2;
    assert!(rebuild_instructions(&tx, 0, vec![])[1].accounts[1].is_signer);
    assert_eq!(
        submitter().final_transaction(&tx, &Blockhash([1; 32]), 1, Some(PROGRAM), true),
        Err(SubmissionError::Assembly(AssemblyError::Unsigned("not enough signers".to_string())))
    );
}

#[test]
fn final_transaction_needs_a_program_id() {
    let tx = versioned(MessageVersion::V0);
    assert_eq!(
        submitter().final_transaction(&tx, &Blockhash([1; 32]), 1, None, true),
        Err(SubmissionError::Deduplication(DeduplicationError::ProgramIdUnset))
    );
    assert_eq!(
        submitter().marked_account(&tx, None),
        Err(DeduplicationError::ProgramIdUnset)
    );
}

#[test]
fn newer_message_without_lookups_is_read() {
    let payer = sdk_keypair().pubkey();
    let message = SdkV0Message::try_compile(
        &payer,
        &sdk_instructions(&kept()),
        &[],
        SdkHash::new_from_array([6; 32]),
    )
    .unwrap();
    let sdk = SdkVersionedTransaction {
        signatures: vec![SdkSignature::default()],
        message: VersionedMessage::V0(message),
    };
    let tx = decode_submission(&encoded(&sdk)).unwrap();
    assert_eq!(tx.version, MessageVersion::V0);
    assert_eq!(rebuild_instructions(&tx, 0, vec![])[1..], kept()[..]);
}
