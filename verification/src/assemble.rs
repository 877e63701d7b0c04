//! Making and signing the transactions that are sent.

use crate::compile::{compiled_with, lemma_position_holds, place, with_key};
use crate::instruction::{
    instruction_views, AccountMeta, Instruction, InstructionView, Pubkey,
};
use crate::keypair::{public_key, Keypair};
use crate::message::{
    Blockhash, BodyView, Message, MessageBody, MessageVersion, MessageView, Signature, Transaction,
    TransactionView, VersionedTransaction, VersionedTransactionView,
};
use crate::rebuild::{
    all_decompiled, decompile_by_place, has_indices_in_range, indices_in_range,
    law_what_can_be_taken_apart, rebuild_instructions, rebuildable, rebuilt, signer_places,
};
use crate::sdk::{
    all_compiled_with, compile_message, compiled_message, countable, maybe_writable, occurs,
    set_compute_unit_price, short_lists, sign_message, signs, transaction_signatures,
    unit_price_instruction, writes,
};
use vstd::prelude::*;

verus! {

/// Whether `key` signs, and whether it is written by, a message of `instructions`
/// that `payer` pays for.
fn roles(instructions: &Vec<Instruction>, payer: &Pubkey, key: &Pubkey) -> (found: (bool, bool))
    ensures
        found.0 == signs(instruction_views(instructions@), *payer, *key),
        found.1 == writes(instruction_views(instructions@), *payer, *key),
{
    let ghost views = instruction_views(instructions@);
    let mut signer = *key == *payer;
    let mut writable = *key == *payer;
    let mut i: usize = 0;
    while i < instructions.len()
        invariant
            views == instruction_views(instructions@),
            i <= instructions@.len(),
            signer ==> signs(views, *payer, *key),
            writable ==> writes(views, *payer, *key),
            *key == *payer ==> signer && writable,
            !signer ==> forall|m: int, n: int|
                0 <= m < i && 0 <= n < views[m].accounts.len() ==> !((
                #[trigger] views[m].accounts[n]).pubkey == *key && views[m].accounts[n].is_signer),
            !writable ==> forall|m: int, n: int|
                0 <= m < i && 0 <= n < views[m].accounts.len() ==> !((
                #[trigger] views[m].accounts[n]).pubkey == *key
                    && views[m].accounts[n].is_writable),
        decreases instructions@.len() - i,
    {
        let accounts = &instructions[i].accounts;
        let mut j: usize = 0;
        while j < accounts.len()
            invariant
                views == instruction_views(instructions@),
                i < instructions@.len(),
                accounts@ == views[i as int].accounts,
                j <= accounts@.len(),
                signer ==> signs(views, *payer, *key),
                writable ==> writes(views, *payer, *key),
                *key == *payer ==> signer && writable,
                !signer ==> forall|m: int, n: int|
                    0 <= m <= i && 0 <= n < views[m].accounts.len() && (m < i || n < j) ==> !((
                    #[trigger] views[m].accounts[n]).pubkey == *key
                        && views[m].accounts[n].is_signer),
                !writable ==> forall|m: int, n: int|
                    0 <= m <= i && 0 <= n < views[m].accounts.len() && (m < i || n < j) ==> !((
                    #[trigger] views[m].accounts[n]).pubkey == *key
                        && views[m].accounts[n].is_writable),
            decreases accounts@.len() - j,
        {
            let meta = accounts[j];
            assert(views[i as int].accounts[j as int] == meta);
            if meta.pubkey == *key {
                signer = signer || meta.is_signer;
                writable = writable || meta.is_writable;
            }
            j += 1;
        }
        i += 1;
    }
    (signer, writable)
}

/// The keys that occur in a message of `instructions` that `payer` pays for, each
/// once.
fn occurring_keys(instructions: &Vec<Instruction>, payer: &Pubkey) -> (keys: Vec<Pubkey>)
    ensures
        keys@.no_duplicates(),
        forall|key: Pubkey|
            #![trigger keys@.contains(key)]
            keys@.contains(key) <==> occurs(instruction_views(instructions@), *payer, key),
{
    let ghost views = instruction_views(instructions@);
    let mut keys: Vec<Pubkey> = Vec::new();
    keys.push(*payer);
    assert(keys@.contains(*payer)) by {
        assert(keys@[0] == *payer);
    }
    let mut i: usize = 0;
    while i < instructions.len()
        invariant
            views == instruction_views(instructions@),
            i <= instructions@.len(),
            keys@.no_duplicates(),
            keys@.contains(*payer),
            forall|key: Pubkey| keys@.contains(key) ==> #[trigger] occurs(views, *payer, key),
            forall|m: int| 0 <= m < i ==> keys@.contains(#[trigger] views[m].program_id),
            forall|m: int, n: int|
                0 <= m < i && 0 <= n < views[m].accounts.len() ==> keys@.contains(
                    (#[trigger] views[m].accounts[n]).pubkey,
                ),
        decreases instructions@.len() - i,
    {
        let accounts = &instructions[i].accounts;
        let mut j: usize = 0;
        while j < accounts.len()
            invariant
                views == instruction_views(instructions@),
                i < instructions@.len(),
                accounts@ == views[i as int].accounts,
                j <= accounts@.len(),
                keys@.no_duplicates(),
                keys@.contains(*payer),
                forall|key: Pubkey| keys@.contains(key) ==> #[trigger] occurs(views, *payer, key),
                forall|m: int| 0 <= m < i ==> keys@.contains(#[trigger] views[m].program_id),
                forall|m: int, n: int|
                    0 <= m <= i && 0 <= n < views[m].accounts.len() && (m < i || n < j)
                        ==> keys@.contains((#[trigger] views[m].accounts[n]).pubkey),
            decreases accounts@.len() - j,
        {
            let ghost before = keys@;
            let key = accounts[j].pubkey;
            let _ = place(&mut keys, &key);
            proof {
                assert(views[i as int].accounts[j as int].pubkey == key);
                lemma_with_key(before, key);
                assert(occurs(views, *payer, key));
            }
            j += 1;
        }
        let ghost before = keys@;
        let key = instructions[i].program_id;
        let _ = place(&mut keys, &key);
        proof {
            assert(views[i as int].program_id == key);
            lemma_with_key(before, key);
            assert(occurs(views, *payer, key));
        }
        i += 1;
    }
    keys
}

/// A table with a further key holds that and what it held, and nothing twice.
proof fn lemma_with_key(keys: Seq<Pubkey>, key: Pubkey)
    ensures
        with_key(keys, key).contains(key),
        forall|other: Pubkey|
            #![trigger with_key(keys, key).contains(other)]
            #![trigger keys.contains(other)]
            with_key(keys, key).contains(other) <==> other == key || keys.contains(other),
        keys.no_duplicates() ==> with_key(keys, key).no_duplicates(),
{
    let after = with_key(keys, key);
    if !keys.contains(key) {
        assert(after[keys.len() as int] == key);
    }
    assert forall|other: Pubkey| keys.contains(other) implies after.contains(other) by {
        let at = choose|k: int| 0 <= k < keys.len() && keys[k] == other;
        assert(after[at] == other);
    }
}

/// Whether the keys of a message of `instructions` that `payer` pays for can be
/// counted in bytes.
pub fn is_countable(instructions: &Vec<Instruction>, payer: &Pubkey) -> (yes: bool)
    ensures
        yes == countable(instruction_views(instructions@), *payer),
{
    let ghost views = instruction_views(instructions@);
    let keys = occurring_keys(instructions, payer);
    let mut signers: Vec<Pubkey> = Vec::new();
    let mut others: Vec<Pubkey> = Vec::new();
    let mut i: usize = 0;
    while i < keys.len()
        invariant
            views == instruction_views(instructions@),
            keys@.no_duplicates(),
            i <= keys@.len(),
            signers@.no_duplicates(),
            others@.no_duplicates(),
            forall|key: Pubkey|
                #![trigger signers@.contains(key)]
                signers@.contains(key) <==> keys@.take(i as int).contains(key) && signs(
                    views,
                    *payer,
                    key,
                ),
            forall|key: Pubkey|
                #![trigger others@.contains(key)]
                others@.contains(key) <==> keys@.take(i as int).contains(key) && !signs(
                    views,
                    *payer,
                    key,
                ) && !writes(views, *payer, key),
        decreases keys@.len() - i,
    {
        let key = keys[i];
        let (signer, writable) = roles(instructions, payer, &key);
        let ghost first = keys@.take(i as int);
        let ghost signers_before = signers@;
        let ghost others_before = others@;
        proof {
            assert(!first.contains(key));
            assert(keys@.take(i + 1) =~= first.push(key));
            lemma_with_key(first, key);
            lemma_with_key(signers_before, key);
            lemma_with_key(others_before, key);
        }
        if signer {
            signers.push(key);
        } else if !writable {
            others.push(key);
        }
        i += 1;
    }
    proof {
        assert(keys@.take(i as int) =~= keys@);
        let signing = Set::new(|key: Pubkey| signs(views, *payer, key));
        let reading = Set::new(
            |key: Pubkey|
                occurs(views, *payer, key) && !signs(views, *payer, key) && !writes(
                    views,
                    *payer,
                    key,
                ),
        );
        assert forall|key: Pubkey| signs(views, *payer, key) implies occurs(views, *payer, key) by {
        }
        assert forall|key: Pubkey| signing.contains(key) == signers@.to_set().contains(key) by {
            assert(signers@.contains(key) == signing.contains(key));
        }
        assert forall|key: Pubkey| reading.contains(key) == others@.to_set().contains(key) by {
            assert(others@.contains(key) == reading.contains(key));
        }
        assert(signing =~= signers@.to_set());
        assert(reading =~= others@.to_set());
        signers@.unique_seq_to_set();
        others@.unique_seq_to_set();
    }
    signers.len() <= 255 && others.len() <= 255
}

/// A signature of which no byte is set: it stands where one is missing.
pub const NO_SIGNATURE: [u8; 64] = [
    0, 0, 0, 0, 0, 0, 0, 0, 0, 0, 0, 0, 0, 0, 0, 0,
    0, 0, 0, 0, 0, 0, 0, 0, 0, 0, 0, 0, 0, 0, 0, 0,
    0, 0, 0, 0, 0, 0, 0, 0, 0, 0, 0, 0, 0, 0, 0, 0,
    0, 0, 0, 0, 0, 0, 0, 0, 0, 0, 0, 0, 0, 0, 0, 0,
];

/// A message whose signatures are all missing.
pub open spec fn unsigned(message: MessageView) -> TransactionView {
    TransactionView {
        signatures: Seq::new(
            message.body.num_required_signatures as nat,
            |i: int| Signature(NO_SIGNATURE),
        ),
        message,
    }
}

/// The transaction of `message` without signatures.
pub fn new_unsigned(message: Message) -> (transaction: Transaction)
    ensures
        transaction@ == unsigned(message@),
{
    let count = message.body.num_required_signatures;
    let mut signatures: Vec<Signature> = Vec::new();
    let mut i: u8 = 0;
    while i < count
        invariant
            i == signatures@.len() <= count,
            forall|k: int| 0 <= k < i ==> signatures@[k] == Signature(NO_SIGNATURE),
        decreases count - i,
    {
        signatures.push(Signature(NO_SIGNATURE));
        i += 1;
    }
    let transaction = Transaction { signatures, message };
    assert(transaction@ =~= unsigned(message@));
    transaction
}

/// Whether a fee can be estimated for a transaction: one of version 0 has to
/// have a first account key, and keys for all its indices.
pub open spec fn estimable(tx: VersionedTransactionView) -> bool {
    tx.version is V0 ==> {
        &&& tx.body.account_keys.len() > 0
        &&& indices_in_range(tx.body)
    }
}

/// Whether a fee can be estimated for `tx`.
pub fn is_estimable(tx: &VersionedTransaction) -> (yes: bool)
    ensures
        yes == estimable(tx@),
{
    match tx.version {
        MessageVersion::Legacy => true,
        MessageVersion::V0 => tx.body.account_keys.len() > 0 && has_indices_in_range(tx),
    }
}

/// The transaction that the priority fee of the copy with a blockhash is
/// estimated for: a legacy message with that blockhash; one of version 0 is
/// compiled anew as a legacy message that its first account pays for.
pub open spec fn estimate(tx: VersionedTransactionView, blockhash: Blockhash) -> TransactionView {
    match tx.version {
        MessageVersion::Legacy => unsigned(
            MessageView { body: tx.body, recent_blockhash: blockhash },
        ),
        MessageVersion::V0 => unsigned(
            MessageView {
                body: compiled_message(
                    all_decompiled(tx.body, signer_places(tx.body)),
                    tx.body.account_keys[0],
                ),
                recent_blockhash: blockhash,
            },
        ),
    }
}

/// Bytes can count the keys of a message that was taken apart by bytes.
proof fn lemma_decompiled_is_countable(body: BodyView)
    requires
        indices_in_range(body),
        body.account_keys.len() > 0,
    ensures
        countable(all_decompiled(body, signer_places(body)), body.account_keys[0]),
{
    let keys = body.account_keys;
    let payer = keys[0];
    let all = all_decompiled(body, signer_places(body));
    let required = body.num_required_signatures as int;
    let signing_places = if required == 0 {
        1
    } else if required < keys.len() {
        required
    } else {
        keys.len() as int
    };
    let byte_places = if keys.len() < 256 {
        keys.len() as int
    } else {
        256
    };
    let signer_bound = keys.take(signing_places).to_set();
    let key_bound = keys.take(byte_places).to_set();
    let signing = Set::new(|key: Pubkey| signs(all, payer, key));
    let reading = Set::new(
        |key: Pubkey| occurs(all, payer, key) && !signs(all, payer, key) && !writes(all, payer, key),
    );
    keys.take(signing_places).lemma_cardinality_of_set();
    keys.take(byte_places).lemma_cardinality_of_set();
    assert(keys.take(signing_places)[0] == payer);
    assert(keys.take(byte_places)[0] == payer);
    assert(signer_bound.contains(payer));
    assert(key_bound.contains(payer));
    assert forall|key: Pubkey| signing.contains(key) implies signer_bound.contains(key) by {
        if key != payer {
            let (i, j) = choose|i: int, j: int|
                0 <= i < all.len() && 0 <= j < all[i].accounts.len() && (
                #[trigger] all[i].accounts[j]).pubkey == key && all[i].accounts[j].is_signer;
            let index = body.instructions[i].accounts[j] as int;
            assert(keys.take(signing_places)[index] == key);
        }
    }
    assert forall|key: Pubkey| reading.contains(key) implies key_bound.remove(payer).contains(
        key,
    ) by {
        if exists|i: int| 0 <= i < all.len() && #[trigger] all[i].program_id == key {
            let i = choose|i: int| 0 <= i < all.len() && #[trigger] all[i].program_id == key;
            let index = body.instructions[i].program_id_index as int;
            assert(keys.take(byte_places)[index] == key);
        } else {
            let (i, j) = choose|i: int, j: int|
                0 <= i < all.len() && 0 <= j < all[i].accounts.len() && (
                #[trigger] all[i].accounts[j]).pubkey == key;
            let index = body.instructions[i].accounts[j] as int;
            assert(keys.take(byte_places)[index] == key);
        }
    }
    vstd::set_lib::lemma_len_subset(signing, signer_bound);
    vstd::set_lib::lemma_len_subset(reading, key_bound.remove(payer));
}

/// The transaction that the priority fee of the copy of `tx` with a blockhash is
/// estimated for.
pub fn priority_estimate(tx: &VersionedTransaction, blockhash: &Blockhash) -> (transaction:
    Transaction)
    requires
        estimable(tx@),
    ensures
        transaction@ == estimate(tx@, *blockhash),
{
    match tx.version {
        MessageVersion::Legacy => new_unsigned(
            Message { body: tx.body.clone(), recent_blockhash: *blockhash },
        ),
        MessageVersion::V0 => {
            let instructions = decompile_by_place(tx);
            proof {
                lemma_decompiled_is_countable(tx.body@);
            }
            let body = compile_message(&instructions, &tx.body.account_keys[0]);
            new_unsigned(Message { body, recent_blockhash: *blockhash })
        },
    }
}

/// Every copy of a transaction has an estimate of its own: those of two
/// blockhashes differ.
pub proof fn law_each_copy_has_its_own_estimate(
    tx: VersionedTransactionView,
    one: Blockhash,
    other: Blockhash,
)
    requires
        one != other,
    ensures
        estimate(tx, one) != estimate(tx, other),
{
    assert(estimate(tx, one).message.recent_blockhash == one);
    assert(estimate(tx, other).message.recent_blockhash == other);
}

/// Why a transaction could not be made.
#[derive(Debug, PartialEq, Eq)]
pub enum AssemblyError {
    /// The keys of the message cannot be counted in bytes.
    TooManyAccounts,
    /// A list of the message is too long to be encoded.
    TooLong,
    /// The message could not be signed; the reason is given.
    Unsigned(String),
}

/// What an `AssemblyError` holds.
pub enum AssemblyErrorView {
    TooManyAccounts,
    TooLong,
    Unsigned(Seq<char>),
}

impl View for AssemblyError {
    type V = AssemblyErrorView;

    open spec fn view(&self) -> AssemblyErrorView {
        match self {
            AssemblyError::TooManyAccounts => AssemblyErrorView::TooManyAccounts,
            AssemblyError::TooLong => AssemblyErrorView::TooLong,
            AssemblyError::Unsigned(reason) => AssemblyErrorView::Unsigned(reason@),
        }
    }
}

/// Whether nobody but the payer has to sign a message of `instructions`.
pub open spec fn signed_by_payer(instructions: Seq<InstructionView>, payer: Pubkey) -> bool {
    forall|key: Pubkey| signs(instructions, payer, key) ==> key == payer
}

/// Whether two bytes can count each list of a message of `instructions` that
/// `payer` pays for: its keys, its instructions, and their accounts and data.
pub open spec fn encodable(instructions: Seq<InstructionView>, payer: Pubkey) -> bool {
    &&& Set::new(|key: Pubkey| occurs(instructions, payer, key)).len() <= u16::MAX
    &&& instructions.len() <= u16::MAX
    &&& forall|i: int|
        #![trigger instructions[i]]
        0 <= i < instructions.len() ==> instructions[i].accounts.len() <= u16::MAX
            && instructions[i].data.len() <= u16::MAX
}

/// Whether `payer` can pay for and sign a message of `instructions`: its keys
/// can be counted, its lists encoded, and nobody else has to sign it.
pub open spec fn makeable(instructions: Seq<InstructionView>, payer: Pubkey) -> bool {
    &&& countable(instructions, payer)
    &&& encodable(instructions, payer)
    &&& signed_by_payer(instructions, payer)
}

/// The signed transaction of `instructions` that `keypair` pays for.
pub open spec fn assembled(
    keypair: Seq<u8>,
    instructions: Seq<InstructionView>,
    blockhash: Blockhash,
) -> Result<TransactionView, AssemblyErrorView> {
    let payer = public_key(keypair);
    let message = MessageView {
        body: compiled_message(instructions, payer),
        recent_blockhash: blockhash,
    };
    if !countable(instructions, payer) {
        Err(AssemblyErrorView::TooManyAccounts)
    } else if !encodable(instructions, payer) {
        Err(AssemblyErrorView::TooLong)
    } else {
        match transaction_signatures(keypair, message) {
            Ok(signatures) => Ok(TransactionView { signatures, message }),
            Err(reason) => Err(AssemblyErrorView::Unsigned(reason)),
        }
    }
}

/// Whether the account at `index` stands, by the counts of `body`, among those that
/// are written.
pub open spec fn placed_to_be_written(body: BodyView, index: int) -> bool {
    ||| index < body.num_required_signatures - body.num_readonly_signed_accounts
    ||| body.num_required_signatures <= index < body.account_keys.len()
        - body.num_readonly_unsigned_accounts
}

/// The transaction of `message` that `keypair` signs, or why there is none.
pub open spec fn signed(keypair: Seq<u8>, message: MessageView) -> Result<
    TransactionView,
    AssemblyErrorView,
> {
    if !short_lists(message.body) {
        Err(AssemblyErrorView::TooLong)
    } else {
        match transaction_signatures(keypair, message) {
            Ok(signatures) => Ok(TransactionView { signatures, message }),
            Err(reason) => Err(AssemblyErrorView::Unsigned(reason)),
        }
    }
}

/// Whether `key` is all that a message of `body` asks to be signed by.
pub open spec fn asks_only(body: BodyView, key: Pubkey) -> bool {
    &&& body.num_required_signatures == 1
    &&& body.account_keys.len() > 0 && body.account_keys[0] == key
}

/// Whether the transaction carries `instructions` and `payer` alone signs it:
/// its first account is the payer, no other account has to sign, and each
/// instruction is compiled against account keys that hold every key once. The
/// counts say of each account whether it is written.
pub open spec fn carries(
    transaction: TransactionView,
    payer: Pubkey,
    instructions: Seq<InstructionView>,
) -> bool {
    let body = transaction.message.body;
    &&& transaction.signatures.len() == 1
    &&& body.num_required_signatures == 1
    &&& body.account_keys.no_duplicates()
    &&& body.account_keys.len() > 0 && body.account_keys[0] == payer
    &&& forall|key: Pubkey|
        #![trigger body.account_keys.contains(key)]
        body.account_keys.contains(key) <==> occurs(instructions, payer, key)
    &&& signed_by_payer(instructions, payer)
    &&& forall|i: int|
        #![trigger body.account_keys[i]]
        0 <= i < body.account_keys.len() ==> (placed_to_be_written(body, i) <==> writes(
            instructions,
            payer,
            body.account_keys[i],
        ))
    &&& body.instructions == all_compiled_with(body.account_keys, instructions)
}

/// Whether two bytes can count each list of `body`.
fn has_short_lists(body: &MessageBody) -> (yes: bool)
    ensures
        yes == short_lists(body@),
{
    if body.account_keys.len() > 65535 || body.instructions.len() > 65535 {
        return false;
    }
    let mut i: usize = 0;
    while i < body.instructions.len()
        invariant
            i <= body.instructions@.len(),
            forall|k: int|
                #![trigger body@.instructions[k]]
                0 <= k < i ==> body@.instructions[k].accounts.len() <= u16::MAX
                    && body@.instructions[k].data.len() <= u16::MAX,
        decreases body.instructions@.len() - i,
    {
        assert(body@.instructions[i as int] == body.instructions@[i as int]@);
        if body.instructions[i].accounts.len() > 65535 || body.instructions[i].data.len() > 65535 {
            return false;
        }
        i += 1;
    }
    true
}

/// The lists of a message are those of its instructions, and the keys that occur
/// in it.
proof fn lemma_short_lists(body: BodyView, instructions: Seq<InstructionView>, payer: Pubkey)
    requires
        body.account_keys.no_duplicates(),
        forall|key: Pubkey|
            #![trigger body.account_keys.contains(key)]
            body.account_keys.contains(key) <==> occurs(instructions, payer, key),
        body.instructions == all_compiled_with(body.account_keys, instructions),
    ensures
        short_lists(body) == encodable(instructions, payer),
{
    let keys = body.account_keys;
    let occurring = Set::new(|key: Pubkey| occurs(instructions, payer, key));
    assert forall|key: Pubkey| occurring.contains(key) == keys.to_set().contains(key) by {
        assert(keys.contains(key) == occurring.contains(key));
    }
    assert(occurring =~= keys.to_set());
    keys.unique_seq_to_set();
    if short_lists(body) {
        assert forall|i: int| 0 <= i < instructions.len() implies (
        #[trigger] instructions[i]).accounts.len() <= u16::MAX && instructions[i].data.len()
            <= u16::MAX by {
            assert(body.instructions[i] == compiled_with(keys, instructions[i]));
        }
    }
    if encodable(instructions, payer) {
        assert forall|i: int| 0 <= i < body.instructions.len() implies (
        #[trigger] body.instructions[i]).accounts.len() <= u16::MAX
            && body.instructions[i].data.len() <= u16::MAX by {
            assert(body.instructions[i] == compiled_with(keys, instructions[i]));
        }
    }
}

/// Signs `message` with `keypair`: that is done where its lists can be encoded and
/// it asks for that signature alone.
pub fn sign(keypair: &Keypair, message: Message) -> (made: Result<Transaction, AssemblyError>)
    ensures
        match made {
            Ok(transaction) => signed(keypair@, message@) == Ok::<
                TransactionView,
                AssemblyErrorView,
            >(transaction@) && transaction@.signatures.len() == 1,
            Err(error) => signed(keypair@, message@) == Err::<TransactionView, AssemblyErrorView>(
                error@,
            ),
        },
        made is Ok <==> short_lists(message@.body) && asks_only(
            message@.body,
            public_key(keypair@),
        ),
{
    let payer = keypair.pubkey();
    if !has_short_lists(&message.body) {
        return Err(AssemblyError::TooLong);
    }
    match sign_message(keypair, &message) {
        Ok(signatures) => {
            assert(message.body.account_keys@[0].0 =~= payer.0);
            Ok(Transaction { signatures, message })
        },
        Err(reason) => Err(AssemblyError::Unsigned(reason)),
    }
}

/// Compiles `instructions` into a message that `keypair` pays for, sets its
/// blockhash, and signs it.
pub fn assemble(
    keypair: &Keypair,
    instructions: &Vec<Instruction>,
    blockhash: &Blockhash,
) -> (made: Result<Transaction, AssemblyError>)
    ensures
        match made {
            Ok(transaction) => {
                &&& assembled(keypair@, instruction_views(instructions@), *blockhash) == Ok::<
                    TransactionView,
                    AssemblyErrorView,
                >(transaction@)
                &&& carries(
                    transaction@,
                    public_key(keypair@),
                    instruction_views(instructions@),
                )
            },
            Err(error) => assembled(keypair@, instruction_views(instructions@), *blockhash) == Err::<
                TransactionView,
                AssemblyErrorView,
            >(error@),
        },
        made is Ok <==> makeable(instruction_views(instructions@), public_key(keypair@)),
{
    let payer = keypair.pubkey();
    if !is_countable(instructions, &payer) {
        return Err(AssemblyError::TooManyAccounts);
    }
    let body = compile_message(instructions, &payer);
    proof {
        let views = instruction_views(instructions@);
        let keys = body.account_keys@;
        lemma_short_lists(body@, views, payer);
        if asks_only(body@, payer) {
            assert forall|key: Pubkey| signs(views, payer, key) implies key == payer by {
                assert(occurs(views, payer, key));
                assert(keys.contains(key));
                let at = choose|i: int| 0 <= i < keys.len() && keys[i] == key;
                assert(keys[at] == key);
            }
        }
        if signed_by_payer(views, payer) {
            assert(signs(views, payer, keys[0]));
            if body.num_required_signatures > 1 {
                assert(signs(views, payer, keys[1]));
            }
        }
    }
    sign(keypair, Message { body, recent_blockhash: *blockhash })
}

/// The priority fee of a transaction that the fee is estimated for.
pub const ESTIMATE_PRIORITY_FEE: u64 = 0;

/// Creates and signs a transaction with the given instructions, blockhash, and
/// priority fee. The instruction that sets the fee comes first.
pub fn create_transaction_with_priority_fee(
    keypair: &Keypair,
    instructions: &Vec<Instruction>,
    blockhash: &Blockhash,
    priority_fee: u64,
) -> (made: Result<Transaction, AssemblyError>)
    ensures
        ({
            let all = seq![unit_price_instruction(priority_fee)] + instruction_views(
                instructions@,
            );
            match made {
                Ok(transaction) => {
                    &&& assembled(keypair@, all, *blockhash) == Ok::<
                        TransactionView,
                        AssemblyErrorView,
                    >(transaction@)
                    &&& carries(transaction@, public_key(keypair@), all)
                },
                Err(error) => assembled(keypair@, all, *blockhash) == Err::<
                    TransactionView,
                    AssemblyErrorView,
                >(error@),
            }
        }),
        made is Ok <==> makeable(
            seq![unit_price_instruction(priority_fee)] + instruction_views(instructions@),
            public_key(keypair@),
        ),
{
    let mut all: Vec<Instruction> = Vec::new();
    all.push(set_compute_unit_price(priority_fee));
    let mut i: usize = 0;
    while i < instructions.len()
        invariant
            i <= instructions@.len(),
            all@.len() == i + 1,
            all@[0]@ == unit_price_instruction(priority_fee),
            forall|k: int| 0 <= k < i ==> (#[trigger] all@[k + 1])@ == instructions@[k]@,
        decreases instructions@.len() - i,
    {
        all.push(instructions[i].clone());
        i += 1;
    }
    proof {
        let views = seq![unit_price_instruction(priority_fee)] + instruction_views(instructions@);
        assert forall|k: int| 0 <= k < all@.len() implies instruction_views(all@)[k] == views[k] by {
            if k > 0 {
                assert(all@[(k - 1) + 1]@ == instructions@[k - 1]@);
            }
        }
        assert(instruction_views(all@) =~= views);
    }
    assemble(keypair, &all, blockhash)
}

/// Rebuilds the instructions of `tx` around a priority fee and a deduplication,
/// and makes of them a transaction that `keypair` pays for and signs.
pub fn rebuild_transaction(
    keypair: &Keypair,
    tx: &VersionedTransaction,
    blockhash: &Blockhash,
    priority_fee: u64,
    deduplication: Vec<Instruction>,
) -> (made: Result<Transaction, AssemblyError>)
    requires
        rebuildable(tx@),
    ensures
        ({
            let all = rebuilt(tx.body@, priority_fee, instruction_views(deduplication@));
            match made {
                Ok(transaction) => {
                    &&& assembled(keypair@, all, *blockhash) == Ok::<
                        TransactionView,
                        AssemblyErrorView,
                    >(transaction@)
                    &&& carries(transaction@, public_key(keypair@), all)
                },
                Err(error) => assembled(keypair@, all, *blockhash) == Err::<
                    TransactionView,
                    AssemblyErrorView,
                >(error@),
            }
        }),
        made is Ok <==> makeable(
            rebuilt(tx.body@, priority_fee, instruction_views(deduplication@)),
            public_key(keypair@),
        ),
{
    let instructions = rebuild_instructions(tx, priority_fee, deduplication);
    assemble(keypair, &instructions, blockhash)
}

/// A transaction that carries instructions leads from each index back to the key
/// that the index stands for, as long as a byte can hold every place of its
/// account keys.
pub proof fn law_carried_instructions_resolve(
    transaction: TransactionView,
    payer: Pubkey,
    instructions: Seq<InstructionView>,
    at: int,
)
    requires
        carries(transaction, payer, instructions),
        transaction.message.body.account_keys.len() <= 256,
        0 <= at < instructions.len(),
    ensures
        ({
            let keys = transaction.message.body.account_keys;
            let compiled = transaction.message.body.instructions[at];
            &&& transaction.message.body.instructions.len() == instructions.len()
            &&& compiled.program_id_index < keys.len()
            &&& keys[compiled.program_id_index as int] == instructions[at].program_id
            &&& compiled.accounts.len() == instructions[at].accounts.len()
            &&& forall|j: int|
                0 <= j < compiled.accounts.len() ==> (#[trigger] compiled.accounts[j]) < keys.len()
                    && keys[compiled.accounts[j] as int] == instructions[at].accounts[j].pubkey
            &&& compiled.data == instructions[at].data
        }),
{
    let keys = transaction.message.body.account_keys;
    let compiled = transaction.message.body.instructions[at];
    assert(compiled == compiled_with(keys, instructions[at]));
    assert(occurs(instructions, payer, instructions[at].program_id));
    assert(keys.contains(instructions[at].program_id));
    lemma_position_holds(keys, instructions[at].program_id);
    assert forall|j: int| 0 <= j < compiled.accounts.len() implies (#[trigger] compiled.accounts[j])
        < keys.len() && keys[compiled.accounts[j] as int]
        == instructions[at].accounts[j].pubkey by {
        let key = instructions[at].accounts[j].pubkey;
        assert(occurs(instructions, payer, key));
        assert(keys.contains(key));
        lemma_position_holds(keys, key);
    }
}

/// A transaction without signatures has the message as it is, and in the place of
/// each signature that it asks for one of which no byte is set.
pub proof fn law_missing_signatures_are_left_open(message: MessageView)
    ensures
        unsigned(message).message == message,
        unsigned(message).signatures.len() == message.body.num_required_signatures,
        forall|i: int, k: int|
            0 <= i < message.body.num_required_signatures && 0 <= k < 64 ==> #[trigger] unsigned(
                message,
            ).signatures[i].0[k] == 0,
{
}

/// A fee can be estimated for every legacy message, and for one of version 0 if it has
/// an account key and every index leads to one.
pub proof fn law_what_can_be_estimated(tx: VersionedTransactionView)
    ensures
        tx.version is Legacy ==> estimable(tx),
        tx.version is V0 ==> (estimable(tx) <==> tx.body.account_keys.len() > 0 && (forall|i: int|
            0 <= i < tx.body.instructions.len() ==> (
            #[trigger] tx.body.instructions[i]).program_id_index < tx.body.account_keys.len()) && (
        forall|i: int, j: int|
            0 <= i < tx.body.instructions.len() && 0 <= j < tx.body.instructions[i].accounts.len()
                ==> (#[trigger] tx.body.instructions[i].accounts[j])
                < tx.body.account_keys.len())),
{
    law_what_can_be_taken_apart(tx);
}

/// The fee of a legacy message is estimated for that message with the blockhash of the
/// copy, and not signed.
pub proof fn law_legacy_message_is_estimated_as_it_is(
    tx: VersionedTransactionView,
    blockhash: Blockhash,
)
    requires
        tx.version is Legacy,
    ensures
        estimate(tx, blockhash).message.body == tx.body,
        estimate(tx, blockhash).message.recent_blockhash == blockhash,
        estimate(tx, blockhash) == unsigned(estimate(tx, blockhash).message),
{
}

/// The fee of a message of version 0 is estimated for a legacy message, not signed and
/// with the blockhash of the copy, that its first account pays for. It is compiled
/// from the same calls: of the programs and on the accounts that the indices lead to,
/// with the same data; an account signs if it stands where the signers do, and is
/// written as in the message.
pub proof fn law_newer_message_is_estimated_by_its_calls(
    tx: VersionedTransactionView,
    blockhash: Blockhash,
    calls: Seq<InstructionView>,
)
    requires
        tx.version is V0,
        estimable(tx),
        calls.len() == tx.body.instructions.len(),
        forall|i: int|
            0 <= i < calls.len() ==> (#[trigger] calls[i]).program_id
                == tx.body.account_keys[tx.body.instructions[i].program_id_index as int]
                && calls[i].data == tx.body.instructions[i].data && calls[i].accounts.len()
                == tx.body.instructions[i].accounts.len(),
        forall|i: int, j: int|
            0 <= i < calls.len() && 0 <= j < calls[i].accounts.len() ==> (
            #[trigger] calls[i].accounts[j]) == (AccountMeta {
                pubkey: tx.body.account_keys[tx.body.instructions[i].accounts[j] as int],
                is_signer: tx.body.instructions[i].accounts[j] < tx.body.num_required_signatures,
                is_writable: maybe_writable(
                    tx.body,
                    tx.body.instructions[i].accounts[j] as int,
                ),
            }),
    ensures
        estimate(tx, blockhash).message.body == compiled_message(calls, tx.body.account_keys[0]),
        estimate(tx, blockhash).message.recent_blockhash == blockhash,
        estimate(tx, blockhash) == unsigned(estimate(tx, blockhash).message),
{
    let all = all_decompiled(tx.body, signer_places(tx.body));
    law_what_can_be_taken_apart(tx);
    assert forall|i: int| 0 <= i < calls.len() implies #[trigger] calls[i] == all[i] by {
        assert forall|j: int| 0 <= j < calls[i].accounts.len() implies calls[i].accounts[j]
            == all[i].accounts[j] by {
            assert(tx.body.instructions[i].accounts[j] < tx.body.account_keys.len());
        }
        assert(calls[i].accounts =~= all[i].accounts);
    }
    assert(calls =~= all);
}

/// Who signs, who is written and who occurs: the payer does all three; another key
/// signs or is written if an account with it does or is somewhere, and occurs if it is
/// an account or a program somewhere.
pub proof fn law_roles_of_a_key(
    instructions: Seq<InstructionView>,
    payer: Pubkey,
    i: int,
    j: int,
    key: Pubkey,
)
    ensures
        signs(instructions, payer, payer),
        writes(instructions, payer, payer),
        occurs(instructions, payer, payer),
        0 <= i < instructions.len() ==> occurs(instructions, payer, instructions[i].program_id),
        0 <= i < instructions.len() && 0 <= j < instructions[i].accounts.len() ==> {
            let account = instructions[i].accounts[j];
            &&& account.is_signer ==> signs(instructions, payer, account.pubkey)
            &&& account.is_writable ==> writes(instructions, payer, account.pubkey)
            &&& occurs(instructions, payer, account.pubkey)
        },
        key != payer && (forall|m: int, n: int|
            0 <= m < instructions.len() && 0 <= n < instructions[m].accounts.len() ==> !((
            #[trigger] instructions[m].accounts[n]).pubkey == key
                && instructions[m].accounts[n].is_signer)) ==> !signs(instructions, payer, key),
        key != payer && (forall|m: int, n: int|
            0 <= m < instructions.len() && 0 <= n < instructions[m].accounts.len() ==> !((
            #[trigger] instructions[m].accounts[n]).pubkey == key
                && instructions[m].accounts[n].is_writable)) ==> !writes(instructions, payer, key),
        key != payer && (forall|m: int|
            0 <= m < instructions.len() ==> (#[trigger] instructions[m]).program_id != key) && (
        forall|m: int, n: int|
            0 <= m < instructions.len() && 0 <= n < instructions[m].accounts.len() ==> (
            #[trigger] instructions[m].accounts[n]).pubkey != key) ==> !occurs(
            instructions,
            payer,
            key,
        ),
{
    if 0 <= i < instructions.len() && 0 <= j < instructions[i].accounts.len() {
        assert(instructions[i].accounts[j].pubkey == instructions[i].accounts[j].pubkey);
    }
}

/// The keys of a message can be counted if and only if there are no more than 255
/// signers, and no more than 255 keys that neither sign nor are written: told by
/// lists of those keys.
pub proof fn law_counted_in_bytes(
    instructions: Seq<InstructionView>,
    payer: Pubkey,
    signers: Seq<Pubkey>,
    readers: Seq<Pubkey>,
)
    requires
        signers.no_duplicates(),
        readers.no_duplicates(),
        forall|key: Pubkey| #[trigger]
            signers.contains(key) <==> signs(instructions, payer, key),
        forall|key: Pubkey| #[trigger]
            readers.contains(key) <==> occurs(instructions, payer, key) && !signs(
                instructions,
                payer,
                key,
            ) && !writes(instructions, payer, key),
    ensures
        countable(instructions, payer) <==> signers.len() <= 255 && readers.len() <= 255,
{
    let signing = Set::new(|key: Pubkey| signs(instructions, payer, key));
    let reading = Set::new(
        |key: Pubkey|
            occurs(instructions, payer, key) && !signs(instructions, payer, key) && !writes(
                instructions,
                payer,
                key,
            ),
    );
    assert forall|key: Pubkey| signing.contains(key) == signers.to_set().contains(key) by {
        assert(signers.contains(key) == signing.contains(key));
    }
    assert forall|key: Pubkey| reading.contains(key) == readers.to_set().contains(key) by {
        assert(readers.contains(key) == reading.contains(key));
    }
    assert(signing =~= signers.to_set());
    assert(reading =~= readers.to_set());
    signers.unique_seq_to_set();
    readers.unique_seq_to_set();
}

/// A message can be encoded if and only if it has no more than 65535 keys, told by a
/// list of them, and as many instructions, each with as many accounts and bytes of
/// data at most.
pub proof fn law_encoded_in_two_bytes(
    instructions: Seq<InstructionView>,
    payer: Pubkey,
    keys: Seq<Pubkey>,
)
    requires
        keys.no_duplicates(),
        forall|key: Pubkey| #[trigger]
            keys.contains(key) <==> occurs(instructions, payer, key),
    ensures
        encodable(instructions, payer) <==> keys.len() <= 65535 && instructions.len() <= 65535 && (
        forall|i: int|
            0 <= i < instructions.len() ==> (#[trigger] instructions[i]).accounts.len() <= 65535
                && instructions[i].data.len() <= 65535),
{
    let occurring = Set::new(|key: Pubkey| occurs(instructions, payer, key));
    assert forall|key: Pubkey| occurring.contains(key) == keys.to_set().contains(key) by {
        assert(keys.contains(key) == occurring.contains(key));
    }
    assert(occurring =~= keys.to_set());
    keys.unique_seq_to_set();
}

/// A transaction can be made if and only if its keys can be counted, its lists encoded,
/// and no account but the payer's is marked as a signer.
pub proof fn law_what_can_be_made(instructions: Seq<InstructionView>, payer: Pubkey)
    ensures
        makeable(instructions, payer) <==> countable(instructions, payer) && encodable(
            instructions,
            payer,
        ) && (forall|i: int, j: int|
            0 <= i < instructions.len() && 0 <= j < instructions[i].accounts.len() && (
            #[trigger] instructions[i].accounts[j]).is_signer
                ==> instructions[i].accounts[j].pubkey == payer),
{
    if signed_by_payer(instructions, payer) {
        assert forall|i: int, j: int|
            0 <= i < instructions.len() && 0 <= j < instructions[i].accounts.len() && (
            #[trigger] instructions[i].accounts[j]).is_signer implies
            instructions[i].accounts[j].pubkey == payer by {
            assert(signs(instructions, payer, instructions[i].accounts[j].pubkey));
        }
    }
}

/// The transaction that is made has the message that the SDK compiles for the
/// instructions and the payer, with the blockhash, and the signatures that the keypair
/// gives that message. Each failure has its own cause.
pub proof fn law_transaction_is_the_signed_message(
    keypair: Seq<u8>,
    instructions: Seq<InstructionView>,
    blockhash: Blockhash,
)
    ensures
        ({
            let payer = public_key(keypair);
            let message = MessageView {
                body: compiled_message(instructions, payer),
                recent_blockhash: blockhash,
            };
            match assembled(keypair, instructions, blockhash) {
                Ok(made) => {
                    &&& countable(instructions, payer) && encodable(instructions, payer)
                    &&& made.message == message
                    &&& transaction_signatures(keypair, message) == Ok::<
                        Seq<Signature>,
                        Seq<char>,
                    >(made.signatures)
                },
                Err(AssemblyErrorView::TooManyAccounts) => !countable(instructions, payer),
                Err(AssemblyErrorView::TooLong) => countable(instructions, payer) && !encodable(
                    instructions,
                    payer,
                ),
                Err(AssemblyErrorView::Unsigned(reason)) => {
                    &&& countable(instructions, payer) && encodable(instructions, payer)
                    &&& transaction_signatures(keypair, message) == Err::<
                        Seq<Signature>,
                        Seq<char>,
                    >(reason)
                },
            }
        }),
{
}

/// A message is signed as it is; it is too long if and only if a list of it has more
/// than 65535 entries.
pub proof fn law_message_is_signed_as_it_is(keypair: Seq<u8>, message: MessageView)
    ensures
        short_lists(message.body) <==> message.body.account_keys.len() <= 65535
            && message.body.instructions.len() <= 65535 && (forall|i: int|
            0 <= i < message.body.instructions.len() ==> (
            #[trigger] message.body.instructions[i]).accounts.len() <= 65535
                && message.body.instructions[i].data.len() <= 65535),
        match signed(keypair, message) {
            Ok(made) => {
                &&& short_lists(message.body)
                &&& made.message == message
                &&& transaction_signatures(keypair, message) == Ok::<Seq<Signature>, Seq<char>>(
                    made.signatures,
                )
            },
            Err(AssemblyErrorView::TooManyAccounts) => false,
            Err(AssemblyErrorView::TooLong) => !short_lists(message.body),
            Err(AssemblyErrorView::Unsigned(reason)) => {
                &&& short_lists(message.body)
                &&& transaction_signatures(keypair, message) == Err::<Seq<Signature>, Seq<char>>(
                    reason,
                )
            },
        },
        forall|key: Pubkey| #[trigger]
            asks_only(message.body, key) <==> message.body.num_required_signatures == 1
                && message.body.account_keys.len() > 0 && message.body.account_keys[0] == key,
{
}

/// A transaction that carries instructions has one signature, that of the payer, whose
/// key comes first; it holds every key that occurs, each once, and no other; nobody
/// else signs; and its counts tell which keys are written.
pub proof fn law_carried_transaction_is_the_payers(
    transaction: TransactionView,
    payer: Pubkey,
    instructions: Seq<InstructionView>,
)
    requires
        carries(transaction, payer, instructions),
    ensures
        ({
            let body = transaction.message.body;
            let keys = body.account_keys;
            &&& transaction.signatures.len() == 1
            &&& body.num_required_signatures == 1
            &&& keys.len() > 0 && keys[0] == payer
            &&& forall|i: int, j: int|
                0 <= i < j < keys.len() ==> #[trigger] keys[i] != #[trigger] keys[j]
            &&& forall|key: Pubkey| #[trigger]
                keys.contains(key) <==> occurs(instructions, payer, key)
            &&& forall|i: int, j: int|
                0 <= i < instructions.len() && 0 <= j < instructions[i].accounts.len() && (
                #[trigger] instructions[i].accounts[j]).is_signer
                    ==> instructions[i].accounts[j].pubkey == payer
            &&& forall|i: int|
                0 <= i < keys.len() ==> (writes(instructions, payer, #[trigger] keys[i]) <==> i < 1
                    - body.num_readonly_signed_accounts || 1 <= i < keys.len()
                    - body.num_readonly_unsigned_accounts)
            &&& body.instructions.len() == instructions.len()
            &&& forall|i: int|
                0 <= i < instructions.len() ==> (#[trigger] body.instructions[i]).data
                    == instructions[i].data && body.instructions[i].accounts.len()
                    == instructions[i].accounts.len()
        }),
{
    assert forall|i: int, j: int|
        0 <= i < instructions.len() && 0 <= j < instructions[i].accounts.len() && (
        #[trigger] instructions[i].accounts[j]).is_signer implies
        instructions[i].accounts[j].pubkey == payer by {
        assert(signs(instructions, payer, instructions[i].accounts[j].pubkey));
    }
}

/// Nothing of an error is left out where it is told of.
pub proof fn law_assembly_error_is_told_in_full(error: AssemblyError)
    ensures
        match error {
            AssemblyError::TooManyAccounts => error@ is TooManyAccounts,
            AssemblyError::TooLong => error@ is TooLong,
            AssemblyError::Unsigned(reason) => error@ == AssemblyErrorView::Unsigned(reason@),
        },
{
}

} // verus!
