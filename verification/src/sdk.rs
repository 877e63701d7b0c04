//! The calls into the Solana SDK.

use crate::compile::compiled_with;
use crate::instruction::{
    instruction_views, AccountMeta, CompiledInstruction, CompiledInstructionView, Instruction,
    InstructionView, Pubkey,
};
use crate::keypair::Keypair;
use crate::message::{
    Blockhash, BodyView, Message, MessageBody, MessageVersion, MessageView, Signature, Transaction,
    TransactionView, VersionedTransaction, VersionedTransactionView,
};
use solana_sdk::compute_budget::ComputeBudgetInstruction;
use solana_sdk::hash::Hash as SdkHash;
use solana_sdk::instruction::{
    AccountMeta as SdkAccountMeta, CompiledInstruction as SdkCompiled, Instruction as SdkInstruction,
};
use solana_sdk::message::v0::Message as SdkV0Message;
use solana_sdk::message::{
    Message as SdkMessage, MessageHeader as SdkHeader, VersionedMessage as SdkVersionedMessage,
};
use solana_sdk::pubkey::Pubkey as SdkPubkey;
use solana_sdk::signature::{Keypair as SdkKeypair, Signature as SdkSignature};
use solana_sdk::transaction::{
    Transaction as SdkTransaction, VersionedTransaction as SdkVersionedTransaction,
};
use vstd::arithmetic::div_mod::{lemma_basic_div, lemma_div_basics, lemma_div_denominator};
use vstd::arithmetic::power2::{
    lemma2_to64, lemma2_to64_rest, lemma_pow2_adds, lemma_pow2_pos, pow2,
};
use vstd::prelude::*;

verus! {

/// The id of the compute budget program, `ComputeBudget111111111111111111111111111111`.
pub const COMPUTE_BUDGET_ID: [u8; 32] = [
    3, 6, 70, 111, 229, 33, 23, 50, 255, 236, 173, 186, 114, 195, 155, 231,
    188, 140, 229, 187, 197, 247, 18, 107, 44, 67, 155, 58, 64, 0, 0, 0,
];

/// The id of the upgradeable loader, `BPFLoaderUpgradeab1e11111111111111111111111`.
pub const UPGRADEABLE_LOADER_ID: [u8; 32] = [
    2, 168, 246, 145, 78, 136, 161, 176, 226, 16, 21, 62, 247, 99, 174, 43,
    0, 194, 185, 61, 22, 193, 36, 210, 192, 83, 122, 16, 4, 128, 0, 0,
];

/// The id of the system program: no byte of it is set.
pub const SYSTEM_PROGRAM_ID: [u8; 32] = [
    0, 0, 0, 0, 0, 0, 0, 0, 0, 0, 0, 0, 0, 0, 0, 0,
    0, 0, 0, 0, 0, 0, 0, 0, 0, 0, 0, 0, 0, 0, 0, 0,
];

/// The eight bytes of `value`, the lowest first.
pub open spec fn le_bytes(value: u64) -> Seq<u8> {
    Seq::new(8, |i: int| ((value as nat / pow2((8 * i) as nat)) % 256) as u8)
}

/// Different values have different bytes.
pub proof fn law_le_bytes_tell_values_apart(left: u64, right: u64)
    requires
        le_bytes(left) == le_bytes(right),
    ensures
        left == right,
{
    lemma2_to64();
    lemma2_to64_rest();
    lemma_basic_div(left as int, pow2(64) as int);
    lemma_basic_div(right as int, pow2(64) as int);
    lemma_low_bytes_tell_apart(left, right, 8);
}

/// Values that agree in their bytes, but for the lowest `count`, and in those
/// too, are the same.
proof fn lemma_low_bytes_tell_apart(left: u64, right: u64, count: nat)
    requires
        le_bytes(left) == le_bytes(right),
        count <= 8,
        left as nat / pow2(8 * count) == right as nat / pow2(8 * count),
    ensures
        left == right,
    decreases count,
{
    lemma2_to64();
    if count == 0 {
        lemma_div_basics(left as int);
        lemma_div_basics(right as int);
    } else {
        let at = (count - 1) as nat;
        let unit = pow2(8 * at);
        lemma_pow2_adds(8 * at, 8);
        lemma_pow2_pos(8 * at);
        lemma_div_denominator(left as int, unit as int, 256);
        lemma_div_denominator(right as int, unit as int, 256);
        assert(le_bytes(left)[at as int] == le_bytes(right)[at as int]);
        assert(8 * count == 8 * at + 8);
        let above = left as nat / unit;
        let other = right as nat / unit;
        assert(above / 256 == other / 256);
        assert(le_bytes(left)[at as int] == (above % 256) as u8);
        assert(le_bytes(right)[at as int] == (other % 256) as u8);
        assert(above == other);
        lemma_low_bytes_tell_apart(left, right, at);
    }
}

/// The instruction that sets the price of a compute unit: a call of the compute
/// budget program without accounts, whose data is the tag 3 and the price.
pub open spec fn unit_price_instruction(micro_lamports: u64) -> InstructionView {
    InstructionView {
        program_id: Pubkey(COMPUTE_BUDGET_ID),
        accounts: Seq::empty(),
        data: seq![3u8] + le_bytes(micro_lamports),
    }
}

/// The instruction that makes a new account: a call of the system program in
/// which both accounts sign and are written, whose data is a four-byte tag of
/// zero, the lamports, the space and the owner.
pub open spec fn create_account_instruction(
    from: Pubkey,
    to: Pubkey,
    lamports: u64,
    space: u64,
    owner: Pubkey,
) -> InstructionView {
    InstructionView {
        program_id: Pubkey(SYSTEM_PROGRAM_ID),
        accounts: seq![
            AccountMeta { pubkey: from, is_signer: true, is_writable: true },
            AccountMeta { pubkey: to, is_signer: true, is_writable: true },
        ],
        data: seq![0u8, 0u8, 0u8, 0u8] + le_bytes(lamports) + le_bytes(space) + owner.0@,
    }
}

/// Calls `solana_sdk::compute_budget::id`. The contract gives its bytes.
#[verifier::external_body]
pub(crate) fn compute_budget_id() -> (id: Pubkey)
    ensures
        id == Pubkey(COMPUTE_BUDGET_ID),
{
    Pubkey(solana_sdk::compute_budget::id().to_bytes())
}

/// Calls `ComputeBudgetInstruction::set_compute_unit_price` of
/// `solana_sdk::compute_budget`. The contract gives the instruction as the crate
/// encodes it, with borsh.
#[verifier::external_body]
pub(crate) fn set_compute_unit_price(micro_lamports: u64) -> (instruction: Instruction)
    ensures
        instruction@ == unit_price_instruction(micro_lamports),
{
    let sdk = ComputeBudgetInstruction::set_compute_unit_price(micro_lamports);
    Instruction {
        program_id: Pubkey(sdk.program_id.to_bytes()),
        accounts: sdk.accounts.into_iter().map(|a| AccountMeta {
            pubkey: Pubkey(a.pubkey.to_bytes()), is_signer: a.is_signer, is_writable: a.is_writable
        }).collect(),
        data: sdk.data,
    }
}

/// Calls `solana_sdk::system_instruction::create_account`. The contract gives
/// the instruction as the crate encodes it, with bincode.
#[verifier::external_body]
pub(crate) fn create_account(
    from: &Pubkey,
    to: &Pubkey,
    lamports: u64,
    space: u64,
    owner: &Pubkey,
) -> (instruction: Instruction)
    ensures
        instruction@ == create_account_instruction(*from, *to, lamports, space, *owner),
{
    let (from, to, owner) = (from.0.into(), to.0.into(), owner.0.into());
    let sdk = solana_sdk::system_instruction::create_account(&from, &to, lamports, space, &owner);
    Instruction {
        program_id: Pubkey(sdk.program_id.to_bytes()),
        accounts: sdk.accounts.into_iter().map(|a| AccountMeta {
            pubkey: Pubkey(a.pubkey.to_bytes()), is_signer: a.is_signer, is_writable: a.is_writable
        }).collect(),
        data: sdk.data,
    }
}

/// What each of `seeds` holds.
pub open spec fn seed_views(seeds: Seq<Vec<u8>>) -> Seq<Seq<u8>> {
    Seq::new(seeds.len(), |i: int| seeds[i]@)
}

/// The address, and the bump seed that gave it, which
/// `Pubkey::try_find_program_address` of `solana_sdk::pubkey` derives from seeds
/// and a program.
pub uninterp spec fn program_address(seeds: Seq<Seq<u8>>, program_id: Pubkey) -> Option<
    (Pubkey, u8),
>;

/// Calls `Pubkey::try_find_program_address` of `solana_sdk::pubkey`. The result
/// is named by `program_address`.
#[verifier::external_body]
pub(crate) fn find_program_address(seeds: &Vec<Vec<u8>>, program_id: &Pubkey) -> (found: Option<
    (Pubkey, u8),
>)
    ensures
        found == program_address(seed_views(seeds@), *program_id),
{
    let seeds: Vec<&[u8]> = seeds.iter().map(|seed| seed.as_slice()).collect();
    SdkPubkey::try_find_program_address(&seeds, &program_id.0.into())
        .map(|(key, bump)| (Pubkey(key.to_bytes()), bump))
}

/// The key that `Pubkey::from_str` of `solana_sdk::pubkey` reads from a text, or
/// the text of its error.
pub uninterp spec fn parsed_pubkey(text: Seq<char>) -> Result<Pubkey, Seq<char>>;

/// Parses the text as a `solana_sdk::pubkey::Pubkey`. The key, or the error's own
/// text, is named by `parsed_pubkey`.
#[verifier::external_body]
pub(crate) fn parse_pubkey(text: &str) -> (parsed: Result<Pubkey, String>)
    ensures
        parsed is Ok <==> parsed_pubkey(text@) is Ok,
        parsed matches Ok(key) ==> parsed_pubkey(text@)->Ok_0 == key,
        parsed matches Err(error) ==> parsed_pubkey(text@)->Err_0 == error@,
{
    let parsed: Result<SdkPubkey, _> = text.parse();
    parsed.map(|key| Pubkey(key.to_bytes())).map_err(|error| error.to_string())
}

/// The hash that `Hash::from_str` of `solana_sdk::hash` reads from a text, if it
/// reads one.
pub uninterp spec fn parsed_blockhash(text: Seq<char>) -> Option<Blockhash>;

/// Parses the text as a `solana_sdk::hash::Hash` and drops the error. The hash is
/// named by `parsed_blockhash`.
#[verifier::external_body]
pub(crate) fn parse_blockhash(text: &str) -> (parsed: Option<Blockhash>)
    ensures
        parsed == parsed_blockhash(text@),
{
    let parsed: Result<SdkHash, _> = text.parse();
    parsed.ok().map(|hash| Blockhash(hash.to_bytes()))
}

/// The text that `solana_sdk::signature::Signature` has for the bytes of a
/// signature.
pub uninterp spec fn signature_rendering(signature: Seq<u8>) -> Seq<char>;

/// Calls `to_string` of `solana_sdk::signature::Signature`. The text is named by
/// `signature_rendering`.
#[verifier::external_body]
pub(crate) fn signature_text(signature: &Signature) -> (text: String)
    ensures
        text@ == signature_rendering(signature.0@),
{
    SdkSignature::from(signature.0).to_string()
}

/// What `bincode::deserialize` reads from bytes as a
/// `solana_sdk::transaction::VersionedTransaction`, or the text of its error.
pub uninterp spec fn decoded_transaction(bytes: Seq<u8>) -> Result<
    VersionedTransactionView,
    Seq<char>,
>;

/// Calls `bincode::deserialize` for a
/// `solana_sdk::transaction::VersionedTransaction` and takes from it what the
/// library's own type holds, its `Debug` text included. The transaction, or the
/// error's own text, is named by `decoded_transaction`.
#[verifier::external_body]
pub(crate) fn decode_transaction(bytes: &[u8]) -> (decoded: Result<VersionedTransaction, String>)
    ensures
        decoded is Ok <==> decoded_transaction(bytes@) is Ok,
        decoded matches Ok(transaction) ==> decoded_transaction(bytes@)->Ok_0 == transaction@,
        decoded matches Err(error) ==> decoded_transaction(bytes@)->Err_0 == error@,
{
    let tx: SdkVersionedTransaction = bincode::deserialize(bytes).map_err(|e| e.to_string())?;
    let (m, rendering) = (&tx.message, format!("{:?}", tx));
    let version = match m {
        SdkVersionedMessage::Legacy(_) => MessageVersion::Legacy,
        SdkVersionedMessage::V0(_) => MessageVersion::V0,
    };
    let &SdkHeader { num_required_signatures, num_readonly_signed_accounts, num_readonly_unsigned_accounts } = m.header();
    let account_keys = m.static_account_keys().iter().map(|k| Pubkey(k.to_bytes())).collect();
    let instructions = m.instructions().iter().cloned().map(|SdkCompiled { program_id_index, accounts, data }| {
        CompiledInstruction { program_id_index, accounts, data }
    }).collect();
    let body = MessageBody {
        num_required_signatures, num_readonly_signed_accounts, num_readonly_unsigned_accounts,
        account_keys, instructions };
    Ok(VersionedTransaction { version, body, rendering })
}

/// Whether an instruction calls the program at `index`.
pub open spec fn called_as_program(body: BodyView, index: int) -> bool {
    exists|i: int|
        0 <= i < body.instructions.len() && #[trigger] body.instructions[i].program_id_index
            == index
}

/// Whether the account at `index` is one that the message may write: by its
/// place among the keys, and not a program that is called, unless the
/// upgradeable loader is among the keys.
pub open spec fn maybe_writable(body: BodyView, index: int) -> bool {
    &&& {
        ||| index < body.num_required_signatures - body.num_readonly_signed_accounts
        ||| body.num_required_signatures <= index < body.account_keys.len()
            - body.num_readonly_unsigned_accounts
    }
    &&& called_as_program(body, index) ==> body.account_keys.contains(
        Pubkey(UPGRADEABLE_LOADER_ID),
    )
}

/// Calls `is_maybe_writable` of the legacy `solana_sdk::message::Message`, without
/// reserved keys. The contract says which accounts it holds for; it leaves out the
/// counts on which the method's subtractions overflow.
#[verifier::external_body]
pub(crate) fn legacy_is_maybe_writable(body: &MessageBody, index: usize) -> (writable: bool)
    requires
        body.num_readonly_signed_accounts <= body.num_required_signatures,
        index >= body.num_required_signatures ==> body.num_readonly_unsigned_accounts
            <= body.account_keys@.len(),
    ensures
        writable == maybe_writable(body@, index as int),
{
    let message = SdkMessage::new_with_compiled_instructions(
        body.num_required_signatures,
        body.num_readonly_signed_accounts,
        body.num_readonly_unsigned_accounts,
        body.account_keys.iter().map(|key| key.0.into()).collect(),
        SdkHash::default(),
        body.instructions.iter().map(|c| SdkCompiled::new_from_raw_parts(
            c.program_id_index, c.data.clone(), c.accounts.clone()
        )).collect(),
    );
    message.is_maybe_writable(index, None)
}

/// Calls `is_maybe_writable` of `solana_sdk::message::v0::Message`, without
/// reserved keys, for an account that is not loaded from a lookup table. The
/// contract says which accounts it holds for.
#[verifier::external_body]
pub(crate) fn v0_is_maybe_writable(body: &MessageBody, index: usize) -> (writable: bool)
    requires
        index < body.account_keys@.len(),
    ensures
        writable == maybe_writable(body@, index as int),
{
    let header = SdkHeader {
        num_required_signatures: body.num_required_signatures,
        num_readonly_signed_accounts: body.num_readonly_signed_accounts,
        num_readonly_unsigned_accounts: body.num_readonly_unsigned_accounts,
    };
    let account_keys = body.account_keys.iter().map(|key| key.0.into()).collect();
    let instructions = body.instructions.iter().map(|c| SdkCompiled::new_from_raw_parts(
        c.program_id_index, c.data.clone(), c.accounts.clone()
    )).collect();
    let message = SdkV0Message { header, account_keys, instructions, ..Default::default() };
    message.is_maybe_writable(index, None)
}

/// Whether `key` has to sign a message of `instructions` that `payer` pays for.
pub open spec fn signs(instructions: Seq<InstructionView>, payer: Pubkey, key: Pubkey) -> bool {
    ||| key == payer
    ||| exists|i: int, j: int|
        0 <= i < instructions.len() && 0 <= j < instructions[i].accounts.len() && (
        #[trigger] instructions[i].accounts[j]).pubkey == key
            && instructions[i].accounts[j].is_signer
}

/// Whether `key` is written by a message of `instructions` that `payer` pays for.
pub open spec fn writes(instructions: Seq<InstructionView>, payer: Pubkey, key: Pubkey) -> bool {
    ||| key == payer
    ||| exists|i: int, j: int|
        0 <= i < instructions.len() && 0 <= j < instructions[i].accounts.len() && (
        #[trigger] instructions[i].accounts[j]).pubkey == key
            && instructions[i].accounts[j].is_writable
}

/// Whether `key` occurs in a message of `instructions` that `payer` pays for.
pub open spec fn occurs(instructions: Seq<InstructionView>, payer: Pubkey, key: Pubkey) -> bool {
    ||| key == payer
    ||| exists|i: int| 0 <= i < instructions.len() && #[trigger] instructions[i].program_id == key
    ||| exists|i: int, j: int|
        0 <= i < instructions.len() && 0 <= j < instructions[i].accounts.len() && (
        #[trigger] instructions[i].accounts[j]).pubkey == key
}

/// Whether a byte can count the signers, and the accounts that neither sign nor
/// are written, of a message of `instructions` that `payer` pays for.
pub open spec fn countable(instructions: Seq<InstructionView>, payer: Pubkey) -> bool {
    &&& Set::new(|key: Pubkey| signs(instructions, payer, key)).len() <= 255
    &&& Set::new(
        |key: Pubkey|
            occurs(instructions, payer, key) && !signs(instructions, payer, key) && !writes(
                instructions,
                payer,
                key,
            ),
    ).len() <= 255
}

/// `instructions`, compiled against `keys`.
pub open spec fn all_compiled_with(
    keys: Seq<Pubkey>,
    instructions: Seq<InstructionView>,
) -> Seq<CompiledInstructionView> {
    Seq::new(instructions.len(), |i: int| compiled_with(keys, instructions[i]))
}

/// The message, but for its blockhash, that `solana_sdk::message::Message::new`
/// makes of instructions and a fee payer.
pub uninterp spec fn compiled_message(
    instructions: Seq<InstructionView>,
    payer: Pubkey,
) -> BodyView;

/// Calls `solana_sdk::message::Message::new` with the fee payer, and leaves out
/// the blockhash, which that sets to zero. The message is named by
/// `compiled_message`. Beside that the contract claims that the keys are those
/// that occur, each once and the payer first; that the counts part them into
/// signers and others, written and read-only; and that each instruction is
/// compiled against the keys. It leaves out the instructions whose keys a byte
/// cannot count, on which the function panics.
#[verifier::external_body]
pub(crate) fn compile_message(instructions: &Vec<Instruction>, payer: &Pubkey) -> (body:
    MessageBody)
    requires
        countable(instruction_views(instructions@), *payer),
    ensures
        body@ == compiled_message(instruction_views(instructions@), *payer),
        body.account_keys@.no_duplicates(),
        body.account_keys@.len() > 0 && body.account_keys@[0] == *payer,
        body.num_required_signatures <= body.account_keys@.len(),
        forall|key: Pubkey|
            #![trigger body.account_keys@.contains(key)]
            body.account_keys@.contains(key) <==> occurs(
                instruction_views(instructions@),
                *payer,
                key,
            ),
        forall|i: int|
            #![trigger body.account_keys@[i]]
            0 <= i < body.account_keys@.len() ==> (i < body.num_required_signatures <==> signs(
                instruction_views(instructions@),
                *payer,
                body.account_keys@[i],
            )),
        forall|i: int|
            #![trigger body.account_keys@[i]]
            0 <= i < body.account_keys@.len() ==> ((i < body.num_required_signatures
                - body.num_readonly_signed_accounts || body.num_required_signatures <= i
                < body.account_keys@.len() - body.num_readonly_unsigned_accounts) <==> writes(
                instruction_views(instructions@),
                *payer,
                body.account_keys@[i],
            )),
        body@.instructions == all_compiled_with(
            body.account_keys@,
            instruction_views(instructions@),
        ),
{
    let sdk: Vec<_> = instructions.iter().map(|ix| SdkInstruction::new_with_bytes(
        ix.program_id.0.into(), &ix.data, ix.accounts.iter().map(|a| SdkAccountMeta {
            pubkey: a.pubkey.0.into(), is_signer: a.is_signer, is_writable: a.is_writable
        }).collect()
    )).collect();
    let m = SdkMessage::new(&sdk, Some(&payer.0.into()));
    let SdkHeader {
        num_required_signatures, num_readonly_signed_accounts, num_readonly_unsigned_accounts
    } = m.header;
    MessageBody {
        num_required_signatures, num_readonly_signed_accounts, num_readonly_unsigned_accounts,
        account_keys: m.account_keys.iter().map(|k| Pubkey(k.to_bytes())).collect(),
        instructions: m.instructions.into_iter().map(|SdkCompiled { program_id_index, accounts, data }|
            CompiledInstruction { program_id_index, accounts, data }).collect()
    }
}

/// Why `Keypair::from_bytes` of `solana_sdk::signature` refuses 64 bytes, where it
/// does.
pub uninterp spec fn keypair_fault(bytes: Seq<u8>) -> Option<Seq<char>>;

/// Calls `Keypair::from_bytes` of `solana_sdk::signature`. The error's own text,
/// where there is one, is named by `keypair_fault`.
#[verifier::external_body]
pub(crate) fn check_keypair(bytes: &[u8; 64]) -> (fault: Option<String>)
    ensures
        fault is Some <==> keypair_fault(bytes@) is Some,
        fault matches Some(text) ==> keypair_fault(bytes@) == Some(text@),
{
    SdkKeypair::from_bytes(bytes).err().map(|error| error.to_string())
}

/// Whether two bytes can count each list of a message.
pub open spec fn short_lists(body: BodyView) -> bool {
    &&& body.account_keys.len() <= u16::MAX
    &&& body.instructions.len() <= u16::MAX
    &&& forall|i: int|
        #![trigger body.instructions[i]]
        0 <= i < body.instructions.len() ==> body.instructions[i].accounts.len() <= u16::MAX
            && body.instructions[i].data.len() <= u16::MAX
}

/// The signatures that `Transaction::try_sign` of `solana_sdk::transaction` puts
/// on a message with one keypair, or the text of the error.
pub uninterp spec fn transaction_signatures(keypair: Seq<u8>, message: MessageView) -> Result<
    Seq<Signature>,
    Seq<char>,
>;

/// Calls `Keypair::from_bytes` of `solana_sdk::signature`, and with that keypair
/// `try_sign` of a `solana_sdk::transaction::Transaction` that was made by
/// `new_unsigned`. The signatures, or the error's own text, are named by
/// `transaction_signatures`. Beside that the contract claims that one keypair is
/// enough where the message asks for one signature, of the first account, and
/// that account is the keypair's, and nowhere else. It leaves out the messages
/// with a list too long to be encoded, on which `try_sign` panics.
#[verifier::external_body]
pub(crate) fn sign_message(keypair: &Keypair, message: &Message) -> (signed: Result<
    Vec<Signature>,
    String,
>)
    requires
        short_lists(message.body@),
    ensures
        signed is Ok <==> transaction_signatures(keypair@, message@) is Ok,
        keypair_fault(keypair@) is None && message.body.num_required_signatures == 1
            && message.body.account_keys@.len() > 0 && message.body.account_keys@[0].0@
            == keypair@.subrange(32, 64) ==> signed is Ok,
        signed matches Ok(signatures) ==> {
            &&& transaction_signatures(keypair@, message@)->Ok_0 == signatures@
            &&& signatures@.len() == 1
            &&& message.body.num_required_signatures == 1
            &&& message.body.account_keys@.len() > 0
            &&& message.body.account_keys@[0].0@ == keypair@.subrange(32, 64)
        },
        signed matches Err(error) ==> transaction_signatures(keypair@, message@)->Err_0 == error@,
{
    let keypair = SdkKeypair::from_bytes(&keypair.0).map_err(|e| e.to_string())?;
    let body = &message.body;
    let mut tx = SdkTransaction::new_unsigned(SdkMessage::new_with_compiled_instructions(
        body.num_required_signatures,
        body.num_readonly_signed_accounts,
        body.num_readonly_unsigned_accounts,
        body.account_keys.iter().map(|key| key.0.into()).collect(),
        SdkHash::default(),
        body.instructions.iter().map(|c| SdkCompiled::new_from_raw_parts(
            c.program_id_index, c.data.clone(), c.accounts.clone()
        )).collect(),
    ));
    tx.try_sign(&[&keypair], message.recent_blockhash.0.into()).map_err(|e| e.to_string())?;
    Ok(tx.signatures.into_iter().map(|s| Signature(s.into())).collect())
}

/// The bytes that `bincode::serialize` makes of a
/// `solana_sdk::transaction::Transaction`, or the text of its error.
pub uninterp spec fn transaction_bytes(transaction: TransactionView) -> Result<
    Seq<u8>,
    Seq<char>,
>;

/// Calls `bincode::serialize` on a `solana_sdk::transaction::Transaction`. The
/// bytes, or the error's own text, are named by `transaction_bytes`.
#[verifier::external_body]
pub(crate) fn serialize_transaction(transaction: &Transaction) -> (serialized: Result<
    Vec<u8>,
    String,
>)
    ensures
        serialized is Ok <==> transaction_bytes(transaction@) is Ok,
        serialized matches Ok(bytes) ==> transaction_bytes(transaction@)->Ok_0 == bytes@,
        serialized matches Err(error) ==> transaction_bytes(transaction@)->Err_0 == error@,
{
    let body = &transaction.message.body;
    let signatures = transaction.signatures.iter().map(|s| s.0.into()).collect();
    let message = SdkMessage::new_with_compiled_instructions(
        body.num_required_signatures,
        body.num_readonly_signed_accounts,
        body.num_readonly_unsigned_accounts,
        body.account_keys.iter().map(|key| key.0.into()).collect(),
        transaction.message.recent_blockhash.0.into(),
        body.instructions.iter().map(|c| SdkCompiled::new_from_raw_parts(
            c.program_id_index, c.data.clone(), c.accounts.clone()
        )).collect(),
    );
    bincode::serialize(&SdkTransaction { signatures, message }).map_err(|e| e.to_string())
}

/// The lowest byte of a value comes first: byte by byte, up to the eighth.
pub proof fn law_lowest_byte_comes_first(value: u64)
    ensures
        le_bytes(value).len() == 8,
        le_bytes(value)[0] == value % 0x100,
        le_bytes(value)[1] == value / 0x100 % 0x100,
        le_bytes(value)[2] == value / 0x1_0000 % 0x100,
        le_bytes(value)[3] == value / 0x100_0000 % 0x100,
        le_bytes(value)[4] == value / 0x1_0000_0000 % 0x100,
        le_bytes(value)[5] == value / 0x100_0000_0000 % 0x100,
        le_bytes(value)[6] == value / 0x1_0000_0000_0000 % 0x100,
        le_bytes(value)[7] == value / 0x100_0000_0000_0000 % 0x100,
{
    lemma2_to64();
    lemma2_to64_rest();
    lemma_div_basics(value as int);
}

/// The instruction that sets a price names no account and carries the whole price
/// behind its tag.
pub proof fn law_price_is_in_the_data(micro_lamports: u64)
    ensures
        unit_price_instruction(micro_lamports).program_id == Pubkey(COMPUTE_BUDGET_ID),
        unit_price_instruction(micro_lamports).accounts.len() == 0,
        unit_price_instruction(micro_lamports).data.len() == 9,
        unit_price_instruction(micro_lamports).data[0] == 3,
        forall|i: int|
            0 <= i < 8 ==> #[trigger] unit_price_instruction(micro_lamports).data[i + 1]
                == le_bytes(micro_lamports)[i],
{
}

/// The instruction that makes an account names who pays for it and the account, both
/// signing and written, and carries the lamports, the space and the owner behind its
/// tag.
pub proof fn law_new_account_is_in_the_data(
    from: Pubkey,
    to: Pubkey,
    lamports: u64,
    space: u64,
    owner: Pubkey,
)
    ensures
        ({
            let made = create_account_instruction(from, to, lamports, space, owner);
            &&& made.program_id == Pubkey(SYSTEM_PROGRAM_ID)
            &&& made.accounts.len() == 2
            &&& made.accounts[0] == (AccountMeta {
                pubkey: from,
                is_signer: true,
                is_writable: true,
            })
            &&& made.accounts[1] == (AccountMeta { pubkey: to, is_signer: true, is_writable: true })
            &&& made.data.len() == 52
            &&& made.data.subrange(0, 4) == seq![0u8, 0u8, 0u8, 0u8]
            &&& made.data.subrange(4, 12) == le_bytes(lamports)
            &&& made.data.subrange(12, 20) == le_bytes(space)
            &&& made.data.subrange(20, 52) == owner.0@
        }),
{
    let made = create_account_instruction(from, to, lamports, space, owner);
    assert(made.data.subrange(0, 4) =~= seq![0u8, 0u8, 0u8, 0u8]);
    assert(made.data.subrange(4, 12) =~= le_bytes(lamports));
    assert(made.data.subrange(12, 20) =~= le_bytes(space));
    assert(made.data.subrange(20, 52) =~= owner.0@);
}

/// An account may be written if it stands among those that are written, and is not
/// called as a program, unless the upgradeable loader is among the keys.
pub proof fn law_what_may_be_written(body: BodyView, index: int)
    ensures
        maybe_writable(body, index) <==> (index < body.num_required_signatures
            - body.num_readonly_signed_accounts || body.num_required_signatures <= index
            < body.account_keys.len() - body.num_readonly_unsigned_accounts) && ((forall|i: int|
            0 <= i < body.instructions.len() ==> (
            #[trigger] body.instructions[i]).program_id_index != index)
            || body.account_keys.contains(Pubkey(UPGRADEABLE_LOADER_ID))),
{
    if called_as_program(body, index) {
        let i = choose|i: int|
            0 <= i < body.instructions.len() && #[trigger] body.instructions[i].program_id_index
                == index;
        assert(body.instructions[i].program_id_index == index);
    }
}

/// Seeds are told one by one, byte for byte.
pub proof fn law_seeds_are_told_in_order(seeds: Seq<Vec<u8>>)
    ensures
        seed_views(seeds).len() == seeds.len(),
        forall|i: int| 0 <= i < seeds.len() ==> #[trigger] seed_views(seeds)[i] == seeds[i]@,
{
}

} // verus!
