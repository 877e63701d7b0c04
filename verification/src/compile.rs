//! Turning instructions into their compiled form, and rewriting who signs.

use crate::instruction::{
    AccountMeta, CompiledInstruction, CompiledInstructionView, Instruction, InstructionView, Pubkey,
};
use vstd::prelude::*;

verus! {

/// The first place of `key` in `keys`, or the length of `keys` where it has none.
pub open spec fn position(keys: Seq<Pubkey>, key: Pubkey) -> int
    decreases keys.len(),
{
    if keys.len() == 0 || keys[0] == key {
        0
    } else {
        1 + position(keys.drop_first(), key)
    }
}

/// `keys` with `key` at the end, unless it has a place there already.
pub open spec fn with_key(keys: Seq<Pubkey>, key: Pubkey) -> Seq<Pubkey> {
    if keys.contains(key) {
        keys
    } else {
        keys.push(key)
    }
}

/// `keys` with the keys of `accounts`, in their order, where they were missing.
pub open spec fn with_accounts(keys: Seq<Pubkey>, accounts: Seq<AccountMeta>) -> Seq<Pubkey>
    decreases accounts.len(),
{
    if accounts.len() == 0 {
        keys
    } else {
        with_key(with_accounts(keys, accounts.drop_last()), accounts.last().pubkey)
    }
}

/// The account keys that hold those of `instruction` too: its accounts come
/// first, then its program.
pub open spec fn keys_for(keys: Seq<Pubkey>, instruction: InstructionView) -> Seq<Pubkey> {
    with_key(with_accounts(keys, instruction.accounts), instruction.program_id)
}

/// `instruction` with each key replaced by the low byte of its place in `keys`.
pub open spec fn compiled_with(
    keys: Seq<Pubkey>,
    instruction: InstructionView,
) -> CompiledInstructionView {
    CompiledInstructionView {
        program_id_index: position(keys, instruction.program_id) as u8,
        accounts: Seq::new(
            instruction.accounts.len(),
            |i: int| position(keys, instruction.accounts[i].pubkey) as u8,
        ),
        data: instruction.data,
    }
}

/// The first place that holds a key is its position.
proof fn lemma_position_at(keys: Seq<Pubkey>, key: Pubkey, at: int)
    requires
        0 <= at < keys.len(),
        keys[at] == key,
        forall|k: int| 0 <= k < at ==> keys[k] != key,
    ensures
        position(keys, key) == at,
    decreases keys.len(),
{
    if at > 0 {
        let rest = keys.drop_first();
        assert forall|k: int| 0 <= k < at - 1 implies rest[k] != key by {
            assert(rest[k] == keys[k + 1]);
        }
        lemma_position_at(rest, key, at - 1);
    }
}

/// A key that `keys` holds stands at its position.
pub proof fn lemma_position_holds(keys: Seq<Pubkey>, key: Pubkey)
    requires
        keys.contains(key),
    ensures
        0 <= position(keys, key) < keys.len(),
        keys[position(keys, key)] == key,
    decreases keys.len(),
{
    if keys[0] != key {
        let rest = keys.drop_first();
        let at = choose|k: int| 0 <= k < keys.len() && keys[k] == key;
        assert(rest[at - 1] == key);
        lemma_position_holds(rest, key);
    }
}

/// Keys that come later do not change a position.
proof fn lemma_position_stays(keys: Seq<Pubkey>, key: Pubkey, added: Pubkey)
    requires
        keys.contains(key),
    ensures
        with_key(keys, added).contains(key),
        position(with_key(keys, added), key) == position(keys, key),
    decreases keys.len(),
{
    let grown = keys.push(added);
    let at = choose|k: int| 0 <= k < keys.len() && keys[k] == key;
    assert(grown[at] == key);
    if keys[0] != key && !keys.contains(added) {
        let rest = keys.drop_first();
        assert(rest[at - 1] == key);
        assert(!rest.contains(added)) by {
            if rest.contains(added) {
                let k = choose|k: int| 0 <= k < rest.len() && rest[k] == added;
                assert(keys[k + 1] == added);
            }
        }
        lemma_position_stays(rest, key, added);
        assert(grown.drop_first() =~= rest.push(added));
    }
}

/// Where `key` stands in `keys`, if it does.
fn find(keys: &Vec<Pubkey>, key: &Pubkey) -> (found: Option<usize>)
    ensures
        match found {
            Some(at) => keys@.contains(*key) && at == position(keys@, *key) && at < keys@.len(),
            None => !keys@.contains(*key),
        },
{
    let mut i: usize = 0;
    while i < keys.len()
        invariant
            i <= keys@.len(),
            forall|k: int| 0 <= k < i ==> keys@[k] != *key,
        decreases keys@.len() - i,
    {
        if keys[i] == *key {
            proof {
                lemma_position_at(keys@, *key, i as int);
            }
            return Some(i);
        }
        i += 1;
    }
    None
}

/// The place of `key` in `keys`, in one byte. A key that is missing is appended.
pub(crate) fn place(keys: &mut Vec<Pubkey>, key: &Pubkey) -> (index: u8)
    ensures
        final(keys)@ == with_key(old(keys)@, *key),
        final(keys)@.contains(*key),
        index == position(final(keys)@, *key) as u8,
{
    match find(keys, key) {
        Some(at) => at as u8,
        None => {
            keys.push(*key);
            let last: usize = keys.len() - 1;
            proof {
                assert(keys@[last as int] == *key);
                lemma_position_at(keys@, *key, last as int);
            }
            last as u8
        },
    }
}

/// Compiles `instruction` against `account_keys`. A key that is missing there is
/// appended: those of the accounts in their order, then that of the program.
pub fn instruction_to_compiled(
    instruction: &Instruction,
    account_keys: &mut Vec<Pubkey>,
) -> (compiled: CompiledInstruction)
    ensures
        final(account_keys)@ == keys_for(old(account_keys)@, instruction@),
        compiled@ == compiled_with(final(account_keys)@, instruction@),
{
    let ghost before = account_keys@;
    let metas = &instruction.accounts;
    let mut accounts: Vec<u8> = Vec::new();
    let mut i: usize = 0;
    while i < metas.len()
        invariant
            i == accounts@.len() <= metas@.len(),
            metas@ == instruction@.accounts,
            account_keys@ == with_accounts(before, metas@.take(i as int)),
            forall|k: int|
                0 <= k < i ==> account_keys@.contains(#[trigger] metas@[k].pubkey) && accounts@[k]
                    == position(account_keys@, metas@[k].pubkey) as u8,
        decreases metas@.len() - i,
    {
        let ghost keys = account_keys@;
        let key = metas[i].pubkey;
        let index = place(account_keys, &key);
        accounts.push(index);
        proof {
            assert(metas@.take(i + 1).drop_last() =~= metas@.take(i as int));
            assert forall|k: int| 0 <= k < i + 1 implies account_keys@.contains(
                #[trigger] metas@[k].pubkey,
            ) && accounts@[k] == position(account_keys@, metas@[k].pubkey) as u8 by {
                if k < i {
                    lemma_position_stays(keys, metas@[k].pubkey, key);
                }
            }
        }
        i += 1;
    }
    let ghost keys = account_keys@;
    let program_id_index = place(account_keys, &instruction.program_id);
    let compiled = CompiledInstruction { program_id_index, accounts, data: instruction.data.clone() };
    proof {
        assert(metas@.take(i as int) =~= metas@);
        assert forall|k: int| 0 <= k < metas@.len() implies accounts@[k] == position(
            account_keys@,
            #[trigger] metas@[k].pubkey,
        ) as u8 by {
            lemma_position_stays(keys, metas@[k].pubkey, instruction.program_id);
        }
        assert(compiled@ =~= compiled_with(account_keys@, instruction@));
    }
    compiled
}

/// `instruction` with exactly the accounts of `fee_payer` marked as signers.
pub open spec fn signed_only_by(instruction: InstructionView, fee_payer: Pubkey) -> InstructionView {
    InstructionView {
        accounts: Seq::new(
            instruction.accounts.len(),
            |i: int|
                AccountMeta {
                    is_signer: instruction.accounts[i].pubkey == fee_payer,
                    ..instruction.accounts[i]
                },
        ),
        ..instruction
    }
}

/// Marks the accounts of the fee payer, and no others, as signers.
pub fn force_single_signer(instructions: Vec<Instruction>, fee_payer: &Pubkey) -> (forced: Vec<
    Instruction,
>)
    ensures
        forced@.len() == instructions@.len(),
        forall|i: int|
            0 <= i < forced@.len() ==> (#[trigger] forced@[i])@ == signed_only_by(
                instructions@[i]@,
                *fee_payer,
            ),
{
    let mut forced: Vec<Instruction> = Vec::new();
    let mut i: usize = 0;
    while i < instructions.len()
        invariant
            i == forced@.len() <= instructions@.len(),
            forall|k: int|
                0 <= k < i ==> (#[trigger] forced@[k])@ == signed_only_by(
                    instructions@[k]@,
                    *fee_payer,
                ),
        decreases instructions@.len() - i,
    {
        let instruction = &instructions[i];
        let mut accounts: Vec<AccountMeta> = Vec::new();
        let mut j: usize = 0;
        while j < instruction.accounts.len()
            invariant
                j == accounts@.len() <= instruction.accounts@.len(),
                forall|k: int|
                    0 <= k < j ==> accounts@[k] == signed_only_by(
                        instruction@,
                        *fee_payer,
                    ).accounts[k],
            decreases instruction.accounts@.len() - j,
        {
            let meta = instruction.accounts[j];
            accounts.push(
                AccountMeta {
                    pubkey: meta.pubkey,
                    is_signer: meta.pubkey == *fee_payer,
                    is_writable: meta.is_writable,
                },
            );
            j += 1;
        }
        let rewritten = Instruction {
            program_id: instruction.program_id,
            accounts,
            data: instruction.data.clone(),
        };
        assert(rewritten@ =~= signed_only_by(instruction@, *fee_payer));
        forced.push(rewritten);
        i += 1;
    }
    forced
}

/// What was a key of the table stays one, at the place where it was.
pub proof fn law_keys_keep_their_places(keys: Seq<Pubkey>, instruction: InstructionView)
    ensures
        keys.is_prefix_of(keys_for(keys, instruction)),
    decreases instruction.accounts.len(),
{
    lemma_with_accounts_extends(keys, instruction.accounts);
}

proof fn lemma_with_accounts_extends(keys: Seq<Pubkey>, accounts: Seq<AccountMeta>)
    ensures
        keys.is_prefix_of(with_accounts(keys, accounts)),
        keys.no_duplicates() ==> with_accounts(keys, accounts).no_duplicates(),
        forall|i: int|
            0 <= i < accounts.len() ==> with_accounts(keys, accounts).contains(
                #[trigger] accounts[i].pubkey,
            ),
    decreases accounts.len(),
{
    if accounts.len() > 0 {
        let before = with_accounts(keys, accounts.drop_last());
        let after = with_accounts(keys, accounts);
        lemma_with_accounts_extends(keys, accounts.drop_last());
        assert(after =~= with_key(before, accounts.last().pubkey));
        assert forall|i: int| 0 <= i < accounts.len() implies after.contains(
            #[trigger] accounts[i].pubkey,
        ) by {
            if i < accounts.len() - 1 {
                assert(accounts.drop_last()[i] == accounts[i]);
                let at = choose|k: int| 0 <= k < before.len() && before[k] == accounts[i].pubkey;
                assert(after[at] == accounts[i].pubkey);
            } else if !before.contains(accounts[i].pubkey) {
                assert(after[before.len() as int] == accounts[i].pubkey);
            }
        }
    }
}

/// A table without duplicates stays one.
pub proof fn law_keys_stay_unique(keys: Seq<Pubkey>, instruction: InstructionView)
    requires
        keys.no_duplicates(),
    ensures
        keys_for(keys, instruction).no_duplicates(),
{
    lemma_with_accounts_extends(keys, instruction.accounts);
}

/// Each index of the compiled instruction leads back to the key it stands for,
/// as long as a byte can hold every place of the table.
pub proof fn law_compiled_indices_resolve(keys: Seq<Pubkey>, instruction: InstructionView)
    requires
        keys_for(keys, instruction).len() <= 256,
    ensures
        ({
            let table = keys_for(keys, instruction);
            let compiled = compiled_with(table, instruction);
            &&& compiled.program_id_index < table.len()
            &&& table[compiled.program_id_index as int] == instruction.program_id
            &&& compiled.accounts.len() == instruction.accounts.len()
            &&& forall|i: int|
                0 <= i < instruction.accounts.len() ==> (#[trigger] compiled.accounts[i])
                    < table.len() && table[compiled.accounts[i] as int]
                    == instruction.accounts[i].pubkey
        }),
{
    let before = with_accounts(keys, instruction.accounts);
    let table = keys_for(keys, instruction);
    let compiled = compiled_with(table, instruction);
    lemma_with_accounts_extends(keys, instruction.accounts);
    if !before.contains(instruction.program_id) {
        assert(table[before.len() as int] == instruction.program_id);
    }
    lemma_position_holds(table, instruction.program_id);
    assert forall|i: int| 0 <= i < instruction.accounts.len() implies (
    #[trigger] compiled.accounts[i]) < table.len() && table[compiled.accounts[i] as int]
        == instruction.accounts[i].pubkey by {
        let key = instruction.accounts[i].pubkey;
        assert(before.contains(key));
        let at = choose|k: int| 0 <= k < before.len() && before[k] == key;
        assert(table[at] == key);
        lemma_position_holds(table, key);
    }
}

/// Forcing the signer a second time changes nothing.
pub proof fn law_single_signer_is_idempotent(instruction: InstructionView, fee_payer: Pubkey)
    ensures
        signed_only_by(signed_only_by(instruction, fee_payer), fee_payer) == signed_only_by(
            instruction,
            fee_payer,
        ),
{
    assert(signed_only_by(signed_only_by(instruction, fee_payer), fee_payer) =~= signed_only_by(
        instruction,
        fee_payer,
    ));
}

/// A first account comes before the others.
proof fn lemma_first_account_first(keys: Seq<Pubkey>, first: AccountMeta, rest: Seq<AccountMeta>)
    ensures
        with_accounts(keys, seq![first] + rest) == with_accounts(
            with_key(keys, first.pubkey),
            rest,
        ),
    decreases rest.len(),
{
    let all = seq![first] + rest;
    if rest.len() == 0 {
        reveal_with_fuel(with_accounts, 2);
        assert(all.drop_last() =~= Seq::<AccountMeta>::empty());
        assert(all.last() == first);
    } else {
        lemma_first_account_first(keys, first, rest.drop_last());
        assert(all.drop_last() =~= seq![first] + rest.drop_last());
        assert(all.last() == rest.last());
    }
}

/// The table grows key by key: a first account that is missing goes to its end, the
/// other accounts follow in their order, and the program comes last. A key that is
/// there is not added again.
pub proof fn law_table_grows_key_by_key(
    keys: Seq<Pubkey>,
    program_id: Pubkey,
    first: AccountMeta,
    rest: Seq<AccountMeta>,
    data: Seq<u8>,
)
    ensures
        keys_for(keys, InstructionView { program_id, accounts: Seq::empty(), data }) == if exists|
            k: int,
        |
            0 <= k < keys.len() && #[trigger] keys[k] == program_id {
            keys
        } else {
            keys.push(program_id)
        },
        keys_for(keys, InstructionView { program_id, accounts: seq![first] + rest, data })
            == keys_for(
            if exists|k: int| 0 <= k < keys.len() && #[trigger] keys[k] == first.pubkey {
                keys
            } else {
                keys.push(first.pubkey)
            },
            InstructionView { program_id, accounts: rest, data },
        ),
{
    lemma_first_account_first(keys, first, rest);
}

/// An index is the low byte of the first place of the key it stands for, whatever
/// the length of the table; the data is carried byte for byte.
pub proof fn law_index_is_the_first_place(
    table: Seq<Pubkey>,
    instruction: InstructionView,
    place: int,
)
    requires
        0 <= place < table.len(),
        forall|k: int| 0 <= k < place ==> #[trigger] table[k] != table[place],
    ensures
        ({
            let compiled = compiled_with(table, instruction);
            &&& instruction.program_id == table[place] ==> compiled.program_id_index == place as u8
            &&& compiled.accounts.len() == instruction.accounts.len()
            &&& forall|i: int|
                0 <= i < instruction.accounts.len() && (
                #[trigger] instruction.accounts[i]).pubkey == table[place] ==> compiled.accounts[i]
                    == place as u8
            &&& compiled.data == instruction.data
        }),
{
    lemma_position_at(table, table[place], place);
}

/// Only who signs is changed: the fee payer signs, and nobody else. The program, the
/// data, the accounts and what is written stay.
pub proof fn law_only_the_signers_change(instruction: InstructionView, fee_payer: Pubkey)
    ensures
        ({
            let forced = signed_only_by(instruction, fee_payer);
            &&& forced.program_id == instruction.program_id
            &&& forced.data == instruction.data
            &&& forced.accounts.len() == instruction.accounts.len()
            &&& forall|i: int|
                0 <= i < instruction.accounts.len() ==> {
                    let account = #[trigger] forced.accounts[i];
                    &&& account.pubkey == instruction.accounts[i].pubkey
                    &&& account.is_writable == instruction.accounts[i].is_writable
                    &&& account.is_signer <==> instruction.accounts[i].pubkey == fee_payer
                }
        }),
{
}

} // verus!
