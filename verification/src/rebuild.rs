//! Taking a message apart into instructions and putting new ones together.

use crate::instruction::{
    instruction_views, AccountMeta, CompiledInstructionView, Instruction, InstructionView, Pubkey,
};
use crate::message::{
    BodyView, MessageVersion, VersionedTransaction, VersionedTransactionView,
};
use crate::sdk::{
    compute_budget_id, legacy_is_maybe_writable, maybe_writable, set_compute_unit_price,
    unit_price_instruction, v0_is_maybe_writable, COMPUTE_BUDGET_ID,
};
use vstd::prelude::*;

verus! {

/// Whether every index of an instruction is the place of an account key.
pub open spec fn indices_in_range(body: BodyView) -> bool {
    forall|i: int|
        #![trigger body.instructions[i]]
        0 <= i < body.instructions.len() ==> {
            &&& body.instructions[i].program_id_index < body.account_keys.len()
            &&& forall|j: int|
                0 <= j < body.instructions[i].accounts.len() ==> (
                #[trigger] body.instructions[i].accounts[j]) < body.account_keys.len()
        }
}

/// Whether the counts of a message tell of the account at `index` if it is
/// written. Those of a legacy message are subtracted without a test.
pub open spec fn writability_known(tx: VersionedTransactionView, index: int) -> bool {
    tx.version is Legacy ==> {
        &&& tx.body.num_readonly_signed_accounts <= tx.body.num_required_signatures
        &&& index >= tx.body.num_required_signatures ==> tx.body.num_readonly_unsigned_accounts
            <= tx.body.account_keys.len()
    }
}

/// Whether a transaction can be taken apart into instructions.
pub open spec fn readable(tx: VersionedTransactionView) -> bool {
    &&& indices_in_range(tx.body)
    &&& forall|i: int, j: int|
        #![trigger tx.body.instructions[i].accounts[j]]
        0 <= i < tx.body.instructions.len() && 0 <= j < tx.body.instructions[i].accounts.len()
            ==> writability_known(tx, tx.body.instructions[i].accounts[j] as int)
}

/// Whether a transaction can be taken apart and has all the keys of its signers.
pub open spec fn rebuildable(tx: VersionedTransactionView) -> bool {
    &&& readable(tx)
    &&& tx.body.num_required_signatures <= tx.body.account_keys.len()
}

/// Of each account key, whether it stands where the signers do.
pub open spec fn signer_places(body: BodyView) -> Seq<bool> {
    Seq::new(body.account_keys.len(), |i: int| i < body.num_required_signatures)
}

/// Of each account key, whether it is the key of a signer.
pub open spec fn signer_keys(body: BodyView) -> Seq<bool> {
    Seq::new(
        body.account_keys.len(),
        |i: int|
            body.account_keys.take(body.num_required_signatures as int).contains(
                body.account_keys[i],
            ),
    )
}

/// A compiled instruction of `body` with its keys in place of their indices.
/// `signers` says of each account key whether it signs.
pub open spec fn decompiled(
    body: BodyView,
    signers: Seq<bool>,
    instruction: CompiledInstructionView,
) -> InstructionView {
    InstructionView {
        program_id: body.account_keys[instruction.program_id_index as int],
        accounts: Seq::new(
            instruction.accounts.len(),
            |j: int|
                AccountMeta {
                    pubkey: body.account_keys[instruction.accounts[j] as int],
                    is_signer: signers[instruction.accounts[j] as int],
                    is_writable: maybe_writable(body, instruction.accounts[j] as int),
                },
        ),
        data: instruction.data,
    }
}

/// The instructions of `body`.
pub open spec fn all_decompiled(body: BodyView, signers: Seq<bool>) -> Seq<InstructionView> {
    Seq::new(
        body.instructions.len(),
        |i: int| decompiled(body, signers, body.instructions[i]),
    )
}

/// Whether an instruction is not one for the compute budget program.
pub open spec fn is_not_budget() -> spec_fn(InstructionView) -> bool {
    |instruction: InstructionView| instruction.program_id != Pubkey(COMPUTE_BUDGET_ID)
}

/// The instructions of the transaction that is sent: the one that sets the
/// priority fee, those of the message that came in but for its compute budget
/// instructions, and those that prevent a duplicate.
pub open spec fn rebuilt(
    body: BodyView,
    priority_fee: u64,
    deduplication: Seq<InstructionView>,
) -> Seq<InstructionView> {
    seq![unit_price_instruction(priority_fee)] + all_decompiled(body, signer_keys(body)).filter(
        is_not_budget(),
    ) + deduplication
}

/// Whether the message of `tx` may write the account at `index`.
fn is_maybe_writable(tx: &VersionedTransaction, index: usize) -> (writable: bool)
    requires
        index < tx.body.account_keys@.len(),
        writability_known(tx@, index as int),
    ensures
        writable == maybe_writable(tx.body@, index as int),
{
    match tx.version {
        MessageVersion::Legacy => legacy_is_maybe_writable(&tx.body, index),
        MessageVersion::V0 => v0_is_maybe_writable(&tx.body, index),
    }
}

/// The instruction of `tx` at `at`, with keys in place of indices.
fn decompile_one(tx: &VersionedTransaction, signers: &Vec<bool>, at: usize) -> (instruction:
    Instruction)
    requires
        readable(tx@),
        signers@.len() == tx.body.account_keys@.len(),
        at < tx.body.instructions@.len(),
    ensures
        instruction@ == decompiled(tx.body@, signers@, tx.body@.instructions[at as int]),
{
    let compiled = &tx.body.instructions[at];
    assert(compiled@ == tx@.body.instructions[at as int]);
    let mut accounts: Vec<AccountMeta> = Vec::new();
    let mut j: usize = 0;
    while j < compiled.accounts.len()
        invariant
            readable(tx@),
            signers@.len() == tx.body.account_keys@.len(),
            at < tx.body.instructions@.len(),
            compiled@ == tx@.body.instructions[at as int],
            j == accounts@.len() <= compiled.accounts@.len(),
            forall|k: int|
                0 <= k < j ==> accounts@[k] == decompiled(tx.body@, signers@, compiled@).accounts[k],
        decreases compiled.accounts@.len() - j,
    {
        assert(tx@.body.instructions[at as int].accounts[j as int] == compiled.accounts@[j as int]);
        let index: usize = compiled.accounts[j] as usize;
        accounts.push(
            AccountMeta {
                pubkey: tx.body.account_keys[index],
                is_signer: signers[index],
                is_writable: is_maybe_writable(tx, index),
            },
        );
        j += 1;
    }
    let instruction = Instruction {
        program_id: tx.body.account_keys[compiled.program_id_index as usize],
        accounts,
        data: compiled.data.clone(),
    };
    assert(instruction@ =~= decompiled(tx.body@, signers@, compiled@));
    instruction
}

/// The instructions of `tx`, those that stand where the signers do marked as
/// signers.
pub(crate) fn decompile_by_place(tx: &VersionedTransaction) -> (instructions: Vec<Instruction>)
    requires
        readable(tx@),
    ensures
        instruction_views(instructions@) == all_decompiled(tx.body@, signer_places(tx.body@)),
{
    let mut signers: Vec<bool> = Vec::new();
    let mut i: usize = 0;
    while i < tx.body.account_keys.len()
        invariant
            i == signers@.len() <= tx.body.account_keys@.len(),
            forall|k: int| 0 <= k < i ==> signers@[k] == signer_places(tx.body@)[k],
        decreases tx.body.account_keys@.len() - i,
    {
        signers.push(i < tx.body.num_required_signatures as usize);
        i += 1;
    }
    assert(signers@ =~= signer_places(tx.body@));
    let ghost all = all_decompiled(tx.body@, signers@);
    let mut instructions: Vec<Instruction> = Vec::new();
    let mut i: usize = 0;
    while i < tx.body.instructions.len()
        invariant
            readable(tx@),
            signers@.len() == tx.body.account_keys@.len(),
            all == all_decompiled(tx.body@, signers@),
            i == instructions@.len() <= tx.body.instructions@.len(),
            forall|k: int| 0 <= k < i ==> (#[trigger] instructions@[k])@ == all[k],
        decreases tx.body.instructions@.len() - i,
    {
        instructions.push(decompile_one(tx, &signers, i));
        i += 1;
    }
    assert(instruction_views(instructions@) =~= all);
    instructions
}

/// Of each account key of `tx`, whether it is the key of a signer.
fn find_signer_keys(tx: &VersionedTransaction) -> (signers: Vec<bool>)
    requires
        tx.body.num_required_signatures <= tx.body.account_keys@.len(),
    ensures
        signers@ == signer_keys(tx.body@),
{
    let keys = &tx.body.account_keys;
    let required: usize = tx.body.num_required_signatures as usize;
    let mut signers: Vec<bool> = Vec::new();
    let mut i: usize = 0;
    while i < keys.len()
        invariant
            keys@ == tx.body@.account_keys,
            required == tx.body@.num_required_signatures,
            required <= keys@.len(),
            i == signers@.len() <= keys@.len(),
            forall|k: int| 0 <= k < i ==> signers@[k] == signer_keys(tx.body@)[k],
        decreases keys@.len() - i,
    {
        let ghost first = keys@.take(required as int);
        let mut found = false;
        let mut j: usize = 0;
        while j < required && !found
            invariant
                first == keys@.take(required as int),
                required <= keys@.len(),
                i < keys@.len(),
                j <= required,
                found ==> first.contains(keys@[i as int]),
                !found ==> forall|k: int| 0 <= k < j ==> first[k] != keys@[i as int],
            decreases required - j,
        {
            if keys[j] == keys[i] {
                assert(first[j as int] == keys@[i as int]);
                found = true;
            }
            j += 1;
        }
        signers.push(found);
        i += 1;
    }
    assert(signers@ =~= signer_keys(tx.body@));
    signers
}

/// Takes the message of `tx` apart, drops its compute budget instructions, and
/// puts the priority fee before the rest and the deduplication behind it.
pub fn rebuild_instructions(
    tx: &VersionedTransaction,
    priority_fee: u64,
    deduplication: Vec<Instruction>,
) -> (instructions: Vec<Instruction>)
    requires
        rebuildable(tx@),
    ensures
        instruction_views(instructions@) == rebuilt(
            tx.body@,
            priority_fee,
            instruction_views(deduplication@),
        ),
{
    let signers = find_signer_keys(tx);
    let budget = compute_budget_id();
    let mut instructions: Vec<Instruction> = Vec::new();
    instructions.push(set_compute_unit_price(priority_fee));
    let ghost head = seq![unit_price_instruction(priority_fee)];
    let ghost all = all_decompiled(tx.body@, signers@);
    let mut i: usize = 0;
    proof {
        assert(instruction_views(instructions@) =~= head + all.take(0).filter(is_not_budget())) by {
            reveal(Seq::filter);
            assert(all.take(0).filter(is_not_budget()) =~= Seq::<InstructionView>::empty());
        }
    }
    while i < tx.body.instructions.len()
        invariant
            rebuildable(tx@),
            budget == Pubkey(COMPUTE_BUDGET_ID),
            signers@.len() == tx.body.account_keys@.len(),
            all == all_decompiled(tx.body@, signers@),
            i <= tx.body.instructions@.len(),
            instruction_views(instructions@) == head + all.take(i as int).filter(is_not_budget()),
        decreases tx.body.instructions@.len() - i,
    {
        let ghost before = instruction_views(instructions@);
        let instruction = decompile_one(tx, &signers, i);
        proof {
            reveal(Seq::filter);
            assert(all.take(i + 1).drop_last() =~= all.take(i as int));
            assert(all.take(i + 1).last() == instruction@);
        }
        if !(instruction.program_id == budget) {
            instructions.push(instruction);
            assert(instruction_views(instructions@) =~= before.push(instruction@));
            assert(instruction_views(instructions@) =~= head + all.take(i + 1).filter(
                is_not_budget(),
            ));
        }
        i += 1;
    }
    assert(all.take(i as int) =~= all);
    let ghost kept = instruction_views(instructions@);
    let ghost tail = instruction_views(deduplication@);
    let mut deduplication = deduplication;
    instructions.append(&mut deduplication);
    assert(instruction_views(instructions@) =~= kept + tail);
    instructions
}

/// Whether the account at `index` of `tx` can be asked whether it is written.
fn knows_writability(tx: &VersionedTransaction, index: usize) -> (yes: bool)
    ensures
        yes == writability_known(tx@, index as int),
{
    match tx.version {
        MessageVersion::Legacy => tx.body.num_readonly_signed_accounts
            <= tx.body.num_required_signatures && (index
            < tx.body.num_required_signatures as usize
            || tx.body.num_readonly_unsigned_accounts as usize <= tx.body.account_keys.len()),
        MessageVersion::V0 => true,
    }
}

/// Whether every index of the instruction of `tx` at `at` leads to an account key,
/// and whether every account of it can be asked whether it is written.
fn check_instruction(tx: &VersionedTransaction, at: usize) -> (yes: (bool, bool))
    requires
        at < tx.body.instructions@.len(),
    ensures
        yes.0 == ({
            let instruction = tx@.body.instructions[at as int];
            &&& instruction.program_id_index < tx@.body.account_keys.len()
            &&& forall|j: int|
                0 <= j < instruction.accounts.len() ==> (#[trigger] instruction.accounts[j])
                    < tx@.body.account_keys.len()
        }),
        yes.1 == ({
            let instruction = tx@.body.instructions[at as int];
            forall|j: int|
                0 <= j < instruction.accounts.len() ==> writability_known(
                    tx@,
                    #[trigger] instruction.accounts[j] as int,
                )
        }),
{
    let compiled = &tx.body.instructions[at];
    assert(compiled@ == tx@.body.instructions[at as int]);
    let mut in_range = (compiled.program_id_index as usize) < tx.body.account_keys.len();
    let mut known = true;
    let mut j: usize = 0;
    while j < compiled.accounts.len()
        invariant
            j <= compiled.accounts@.len(),
            in_range == (compiled.program_id_index < tx@.body.account_keys.len() && forall|k: int|
                0 <= k < j ==> (#[trigger] compiled.accounts@[k]) < tx@.body.account_keys.len()),
            known == forall|k: int|
                0 <= k < j ==> writability_known(tx@, #[trigger] compiled.accounts@[k] as int),
        decreases compiled.accounts@.len() - j,
    {
        let index: usize = compiled.accounts[j] as usize;
        assert(compiled.accounts@[j as int] == index);
        in_range = in_range && index < tx.body.account_keys.len();
        known = known && knows_writability(tx, index);
        j += 1;
    }
    assert(tx@.body.instructions[at as int].accounts == compiled.accounts@);
    (in_range, known)
}

/// Whether every index in `tx` leads to an account key, and whether `tx` can be
/// taken apart into instructions.
fn check_instructions(tx: &VersionedTransaction) -> (yes: (bool, bool))
    ensures
        yes.0 == indices_in_range(tx@.body),
        yes.1 == readable(tx@),
{
    let ghost body = tx@.body;
    let mut in_range = true;
    let mut known = true;
    let mut i: usize = 0;
    while i < tx.body.instructions.len()
        invariant
            body == tx@.body,
            i <= tx.body.instructions@.len(),
            in_range == forall|k: int|
                #![trigger body.instructions[k]]
                0 <= k < i ==> {
                    &&& body.instructions[k].program_id_index < body.account_keys.len()
                    &&& forall|j: int|
                        0 <= j < body.instructions[k].accounts.len() ==> (
                        #[trigger] body.instructions[k].accounts[j]) < body.account_keys.len()
                },
            known == forall|k: int, j: int|
                #![trigger body.instructions[k].accounts[j]]
                0 <= k < i && 0 <= j < body.instructions[k].accounts.len() ==> writability_known(
                    tx@,
                    body.instructions[k].accounts[j] as int,
                ),
        decreases tx.body.instructions@.len() - i,
    {
        let (leads, asks) = check_instruction(tx, i);
        let ghost here = body.instructions[i as int];
        proof {
            if !asks {
                let j = choose|j: int|
                    0 <= j < here.accounts.len() && !writability_known(
                        tx@,
                        #[trigger] here.accounts[j] as int,
                    );
                assert(!writability_known(tx@, body.instructions[i as int].accounts[j] as int));
            }
        }
        in_range = in_range && leads;
        known = known && asks;
        i += 1;
    }
    (in_range, in_range && known)
}

/// Whether every index of an instruction of `tx` is the place of an account key.
pub fn has_indices_in_range(tx: &VersionedTransaction) -> (yes: bool)
    ensures
        yes == indices_in_range(tx@.body),
{
    check_instructions(tx).0
}

/// Whether `tx` can be taken apart and has all the keys of its signers.
pub fn is_rebuildable(tx: &VersionedTransaction) -> (yes: bool)
    ensures
        yes == rebuildable(tx@),
{
    check_instructions(tx).1 && tx.body.num_required_signatures as usize
        <= tx.body.account_keys.len()
}

/// The instruction that sets the priority fee comes first. None of those that
/// were kept is for the compute budget program, so no other fee is set. The
/// deduplication comes last, unchanged.
pub proof fn law_fee_comes_first_and_once(
    body: BodyView,
    priority_fee: u64,
    deduplication: Seq<InstructionView>,
)
    ensures
        ({
            let all = rebuilt(body, priority_fee, deduplication);
            let kept = all.len() - deduplication.len();
            &&& kept >= 1
            &&& all[0] == unit_price_instruction(priority_fee)
            &&& forall|i: int|
                1 <= i < kept ==> (#[trigger] all[i]).program_id != Pubkey(COMPUTE_BUDGET_ID)
            &&& all.subrange(kept, all.len() as int) == deduplication
        }),
{
    let all = rebuilt(body, priority_fee, deduplication);
    let rest = all_decompiled(body, signer_keys(body)).filter(is_not_budget());
    let kept = all.len() - deduplication.len();
    assert forall|i: int| 1 <= i < kept implies (#[trigger] all[i]).program_id != Pubkey(
        COMPUTE_BUDGET_ID,
    ) by {
        assert(is_not_budget()(rest[i - 1]));
        assert(all[i] == rest[i - 1]);
    }
    assert(all.subrange(kept, all.len() as int) =~= deduplication);
}

/// Each instruction of the message that is not for the compute budget program is
/// sent too.
pub proof fn law_other_instructions_are_kept(
    body: BodyView,
    priority_fee: u64,
    deduplication: Seq<InstructionView>,
    at: int,
)
    requires
        0 <= at < body.instructions.len(),
        decompiled(body, signer_keys(body), body.instructions[at]).program_id != Pubkey(
            COMPUTE_BUDGET_ID,
        ),
    ensures
        rebuilt(body, priority_fee, deduplication).contains(
            decompiled(body, signer_keys(body), body.instructions[at]),
        ),
{
    let all = all_decompiled(body, signer_keys(body));
    let rest = all.filter(is_not_budget());
    assert(is_not_budget()(all[at]));
    assert(rest.contains(all[at]));
    let i = choose|i: int| 0 <= i < rest.len() && rest[i] == all[at];
    assert(rebuilt(body, priority_fee, deduplication)[i + 1] == all[at]);
}

/// Whether a compiled instruction of `body` is for another program than the compute
/// budget program.
pub open spec fn stays(body: BodyView) -> spec_fn(CompiledInstructionView) -> bool {
    |compiled: CompiledInstructionView|
        body.account_keys[compiled.program_id_index as int] != Pubkey(COMPUTE_BUDGET_ID)
}

/// The filters on compiled and on decompiled instructions agree.
proof fn lemma_filters_agree(body: BodyView, signers: Seq<bool>, count: int)
    requires
        0 <= count <= body.instructions.len(),
    ensures
        all_decompiled(body, signers).take(count).filter(is_not_budget()).len()
            == body.instructions.take(count).filter(stays(body)).len(),
    decreases count,
{
    reveal(Seq::filter);
    let all = all_decompiled(body, signers);
    if count > 0 {
        lemma_filters_agree(body, signers, count - 1);
        assert(all.take(count).drop_last() =~= all.take(count - 1));
        assert(body.instructions.take(count).drop_last() =~= body.instructions.take(count - 1));
        assert(all.take(count).last() == decompiled(body, signers, body.instructions[count - 1]));
        assert(body.instructions.take(count).last() == body.instructions[count - 1]);
    }
}

/// What a filter keeps stands behind what it keeps before it.
proof fn lemma_filter_keeps_places(
    all: Seq<InstructionView>,
    keep: spec_fn(InstructionView) -> bool,
    at: int,
)
    requires
        0 <= at < all.len(),
        keep(all[at]),
    ensures
        all.take(at).filter(keep).len() < all.filter(keep).len(),
        all.filter(keep)[all.take(at).filter(keep).len() as int] == all[at],
    decreases all.len(),
{
    reveal(Seq::filter);
    let rest = all.drop_last();
    if at == rest.len() {
        assert(all.take(at) =~= rest);
    } else {
        lemma_filter_keeps_places(rest, keep, at);
        assert(rest.take(at) =~= all.take(at));
    }
}

/// What is sent of a message is its own: each instruction that is not for the
/// compute budget program stands behind the fee and those kept before it, calls the
/// program that its index leads to, carries its data byte for byte, and names the
/// accounts that its indices lead to. An account signs if and only if its key is one
/// of the signers' keys, and is written as in the message. Nothing stands between
/// those instructions and the deduplication.
pub proof fn law_instructions_are_sent_as_they_came(
    body: BodyView,
    priority_fee: u64,
    deduplication: Seq<InstructionView>,
    at: int,
)
    requires
        0 <= at < body.instructions.len(),
        body.account_keys[body.instructions[at].program_id_index as int] != Pubkey(
            COMPUTE_BUDGET_ID,
        ),
        body.num_required_signatures <= body.account_keys.len(),
        indices_in_range(body),
    ensures
        ({
            let all = rebuilt(body, priority_fee, deduplication);
            let came = body.instructions[at];
            let keep = |compiled: CompiledInstructionView|
                body.account_keys[compiled.program_id_index as int] != Pubkey(COMPUTE_BUDGET_ID);
            let place = 1 + body.instructions.take(at).filter(keep).len() as int;
            &&& all.len() == 1 + body.instructions.filter(keep).len() + deduplication.len()
            &&& place < 1 + body.instructions.filter(keep).len()
            &&& all[place].program_id == body.account_keys[came.program_id_index as int]
            &&& all[place].data == came.data
            &&& all[place].accounts.len() == came.accounts.len()
            &&& forall|j: int|
                0 <= j < came.accounts.len() ==> {
                    let index = came.accounts[j] as int;
                    let sent = #[trigger] all[place].accounts[j];
                    &&& sent.pubkey == body.account_keys[index]
                    &&& sent.is_writable == maybe_writable(body, index)
                    &&& sent.is_signer <==> exists|s: int|
                        0 <= s < body.num_required_signatures && #[trigger] body.account_keys[s]
                            == body.account_keys[index]
                }
        }),
{
    let all = rebuilt(body, priority_fee, deduplication);
    let came = body.instructions[at];
    let keep = |compiled: CompiledInstructionView|
        body.account_keys[compiled.program_id_index as int] != Pubkey(COMPUTE_BUDGET_ID);
    let signers = signer_keys(body);
    let decompiled_all = all_decompiled(body, signers);
    let count = body.instructions.len() as int;
    assert(keep =~= stays(body));
    lemma_filters_agree(body, signers, at);
    lemma_filters_agree(body, signers, count);
    assert(decompiled_all.take(count) =~= decompiled_all);
    assert(body.instructions.take(count) =~= body.instructions);
    lemma_filter_keeps_places(decompiled_all, is_not_budget(), at);
    let place = 1 + body.instructions.take(at).filter(keep).len() as int;
    assert(all[place] == decompiled(body, signers, came));
    let first = body.account_keys.take(body.num_required_signatures as int);
    assert forall|j: int| 0 <= j < came.accounts.len() implies {
        let index = came.accounts[j] as int;
        let sent = #[trigger] all[place].accounts[j];
        &&& sent.pubkey == body.account_keys[index]
        &&& sent.is_writable == maybe_writable(body, index)
        &&& sent.is_signer <==> exists|s: int|
            0 <= s < body.num_required_signatures && #[trigger] body.account_keys[s]
                == body.account_keys[index]
    } by {
        let index = came.accounts[j] as int;
        assert(index < body.account_keys.len());
        let key = body.account_keys[index];
        assert(signers[index] == first.contains(key));
        if first.contains(key) {
            let s = choose|s: int| 0 <= s < first.len() && first[s] == key;
            assert(body.account_keys[s] == key);
        }
        if exists|s: int|
            0 <= s < body.num_required_signatures && #[trigger] body.account_keys[s] == key {
            let s = choose|s: int|
                0 <= s < body.num_required_signatures && #[trigger] body.account_keys[s] == key;
            assert(first[s] == key);
        }
    }
}

/// Whether no count of a legacy message is subtracted from a smaller one for the
/// account at `index`.
pub open spec fn adds_up(tx: VersionedTransactionView, index: u8) -> bool {
    ||| tx.version is V0
    ||| tx.body.num_readonly_signed_accounts <= tx.body.num_required_signatures && (index
        < tx.body.num_required_signatures || tx.body.num_readonly_unsigned_accounts
        <= tx.body.account_keys.len())
}

/// Whether the counts of a message add up for every account of an instruction.
pub open spec fn counts_add_up(tx: VersionedTransactionView) -> bool {
    forall|i: int, j: int|
        0 <= i < tx.body.instructions.len() && 0 <= j < tx.body.instructions[i].accounts.len()
            ==> adds_up(tx, #[trigger] tx.body.instructions[i].accounts[j])
}

/// A transaction can be taken apart if and only if every index leads to a key, every
/// required signature has one, and the counts of a legacy message add up.
pub proof fn law_what_can_be_taken_apart(tx: VersionedTransactionView)
    ensures
        indices_in_range(tx.body) <==> {
            &&& forall|i: int|
                0 <= i < tx.body.instructions.len() ==> (
                #[trigger] tx.body.instructions[i]).program_id_index < tx.body.account_keys.len()
            &&& forall|i: int, j: int|
                0 <= i < tx.body.instructions.len() && 0 <= j
                    < tx.body.instructions[i].accounts.len() ==> (
                #[trigger] tx.body.instructions[i].accounts[j]) < tx.body.account_keys.len()
        },
        rebuildable(tx) <==> indices_in_range(tx.body) && tx.body.num_required_signatures
            <= tx.body.account_keys.len() && counts_add_up(tx),
{
    lemma_counts_add_up(tx);
}

/// The counts add up where every account can be asked whether it is written.
proof fn lemma_counts_add_up(tx: VersionedTransactionView)
    ensures
        readable(tx) <==> indices_in_range(tx.body) && counts_add_up(tx),
{
    if readable(tx) {
        assert forall|i: int, j: int|
            0 <= i < tx.body.instructions.len() && 0 <= j
                < tx.body.instructions[i].accounts.len() implies adds_up(
            tx,
            #[trigger] tx.body.instructions[i].accounts[j],
        ) by {
            assert(writability_known(tx, tx.body.instructions[i].accounts[j] as int));
        }
    }
    if counts_add_up(tx) && indices_in_range(tx.body) {
        assert forall|i: int, j: int|
            #![trigger tx.body.instructions[i].accounts[j]]
            0 <= i < tx.body.instructions.len() && 0 <= j
                < tx.body.instructions[i].accounts.len() implies writability_known(
            tx,
            tx.body.instructions[i].accounts[j] as int,
        ) by {
            assert(adds_up(tx, tx.body.instructions[i].accounts[j]));
        }
    }
}

} // verus!
