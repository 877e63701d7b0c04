//! The on-chain program that lets a transaction land once.

use crate::dedup::{
    derive_marked_address, law_address_rests_on_three_seeds, marked_address, marking_instruction,
    DeduplicationTarget,
};
use crate::instruction::Pubkey;
use crate::sdk::program_address;
use vstd::prelude::*;
use vstd::slice::slice_subrange;

verus! {

/// The bytes of an instruction's data that identify a transaction.
pub const TX_ID_LENGTH: usize = 32;

/// The code of the error that a duplicate is refused with.
pub const DUPLICATE: u32 = 0;

/// What is lent out of an account's data while an instruction is processed.
#[derive(Debug, Clone, Copy, PartialEq, Eq, Structural)]
pub enum Borrow {
    /// Nothing: the data can be read and written.
    Free,
    /// A shared reference: the data can be read.
    Shared,
    /// An exclusive reference: the data can be neither read nor written.
    Exclusive,
}

/// An account that an instruction was given.
#[derive(Debug)]
pub struct AccountInfo {
    pub key: Pubkey,
    pub data: Vec<u8>,
    pub borrow: Borrow,
}

/// What an `AccountInfo` holds.
#[verifier::ext_equal]
pub struct AccountView {
    pub key: Pubkey,
    pub data: Seq<u8>,
    pub borrow: Borrow,
}

impl View for AccountInfo {
    type V = AccountView;

    open spec fn view(&self) -> AccountView {
        AccountView { key: self.key, data: self.data@, borrow: self.borrow }
    }
}

/// What each of `accounts` holds.
pub open spec fn account_views(accounts: Seq<AccountInfo>) -> Seq<AccountView> {
    Seq::new(accounts.len(), |i: int| accounts[i]@)
}

/// Why an instruction failed.
#[derive(Debug, Clone, Copy, PartialEq, Eq, Structural)]
pub enum ProgramError {
    /// The instruction data is too short to hold a transaction id.
    InvalidInstructionData,
    /// An account is missing.
    NotEnoughAccountKeys,
    /// The account to mark is not the one that the seeds lead to.
    InvalidArgument,
    /// The account's data is lent out.
    AccountBorrowFailed,
    /// An error of this program.
    Custom(u32),
}

/// What becomes of an account that the seeds lead to `expected`: marked, or
/// refused.
pub open spec fn marked(expected: Pubkey, account: AccountView) -> Result<
    AccountView,
    ProgramError,
> {
    if account.key != expected {
        Err(ProgramError::InvalidArgument)
    } else if account.borrow is Exclusive {
        Err(ProgramError::AccountBorrowFailed)
    } else if account.data[0] != 0 {
        Err(ProgramError::Custom(DUPLICATE))
    } else if account.borrow is Shared {
        Err(ProgramError::AccountBorrowFailed)
    } else {
        Ok(AccountView { data: account.data.update(0, 1), ..account })
    }
}

/// Whether marking an account does not read past its data.
pub open spec fn markable(expected: Pubkey, account: AccountView) -> bool {
    account.key == expected && !(account.borrow is Exclusive) ==> account.data.len() > 0
}

/// Marks an account where the seeds lead to `expected`.
pub fn mark(expected: &Pubkey, account: &mut AccountInfo) -> (done: Result<(), ProgramError>)
    requires
        markable(*expected, old(account)@),
    ensures
        match marked(*expected, old(account)@) {
            Ok(after) => done is Ok && final(account)@ == after,
            Err(error) => done == Err::<(), ProgramError>(error) && final(account)@ == old(
                account,
            )@,
        },
{
    if !(*expected == account.key) {
        return Err(ProgramError::InvalidArgument);
    }
    if account.borrow == Borrow::Exclusive {
        return Err(ProgramError::AccountBorrowFailed);
    }
    if account.data[0] != 0 {
        return Err(ProgramError::Custom(DUPLICATE));
    }
    if account.borrow == Borrow::Shared {
        return Err(ProgramError::AccountBorrowFailed);
    }
    account.data.set(0, 1);
    Ok(())
}

/// The account that an instruction has to name second, where its data and its
/// accounts are long enough: the one that the program marks for the transaction
/// that the data starts with, of the signer that it names first.
pub open spec fn expected_account(
    program_id: Pubkey,
    accounts: Seq<AccountView>,
    instruction_data: Seq<u8>,
) -> Option<Pubkey> {
    marked_address(program_id, accounts[0].key, instruction_data.take(TX_ID_LENGTH as int))
}

/// Whether an instruction is processed to an end: the address can be derived,
/// and the account to mark has data.
pub open spec fn processable(
    program_id: Pubkey,
    accounts: Seq<AccountView>,
    instruction_data: Seq<u8>,
) -> bool {
    instruction_data.len() >= TX_ID_LENGTH && accounts.len() >= 2 ==> {
        match expected_account(program_id, accounts, instruction_data) {
            Some(expected) => markable(expected, accounts[1]),
            None => false,
        }
    }
}

/// The accounts after an instruction, or why it failed.
pub open spec fn processed(
    program_id: Pubkey,
    accounts: Seq<AccountView>,
    instruction_data: Seq<u8>,
) -> Result<Seq<AccountView>, ProgramError> {
    if instruction_data.len() < TX_ID_LENGTH {
        Err(ProgramError::InvalidInstructionData)
    } else if accounts.len() < 2 {
        Err(ProgramError::NotEnoughAccountKeys)
    } else {
        match marked(
            expected_account(program_id, accounts, instruction_data).unwrap(),
            accounts[1],
        ) {
            Ok(after) => Ok(accounts.update(1, after)),
            Err(error) => Err(error),
        }
    }
}

/// The outcome of an instruction agrees with what `processed` says.
pub open spec fn agrees(
    program_id: Pubkey,
    before: Seq<AccountView>,
    instruction_data: Seq<u8>,
    done: Result<(), ProgramError>,
    after: Seq<AccountView>,
) -> bool {
    match processed(program_id, before, instruction_data) {
        Ok(accounts) => done is Ok && after == accounts,
        Err(error) => done == Err::<(), ProgramError>(error) && after == before,
    }
}

/// Marks the account of a transaction, unless it is marked already.
///
/// The data starts with the 32 bytes that identify the transaction. The accounts
/// are the signer and the one to mark.
pub fn process_instruction(
    program_id: &Pubkey,
    accounts: &mut Vec<AccountInfo>,
    instruction_data: &[u8],
) -> (done: Result<(), ProgramError>)
    requires
        processable(*program_id, account_views(old(accounts)@), instruction_data@),
    ensures
        agrees(
            *program_id,
            account_views(old(accounts)@),
            instruction_data@,
            done,
            account_views(final(accounts)@),
        ),
{
    if instruction_data.len() < TX_ID_LENGTH {
        return Err(ProgramError::InvalidInstructionData);
    }
    let tx_id = slice_subrange(instruction_data, 0, TX_ID_LENGTH);
    assert(tx_id@ =~= instruction_data@.take(TX_ID_LENGTH as int));
    if accounts.len() < 2 {
        return Err(ProgramError::NotEnoughAccountKeys);
    }
    let expected = derive_marked_address(program_id, &accounts[0].key, tx_id).unwrap();
    let ghost before = account_views(accounts@);
    assert(before[1] == accounts@[1]@);
    let done = mark(&expected, &mut accounts[1]);
    assert(account_views(accounts@) =~= before.update(1, accounts@[1]@));
    assert(before.update(1, before[1]) =~= before);
    done
}

/// Processes an instruction that may not be processed to an end. Nothing is
/// changed and nothing returned where no address can be derived or the account
/// to mark has no data.
pub fn process_instruction_checked(
    program_id: &Pubkey,
    accounts: &mut Vec<AccountInfo>,
    instruction_data: &[u8],
) -> (done: Option<Result<(), ProgramError>>)
    ensures
        done is Some <==> processable(*program_id, account_views(old(accounts)@), instruction_data@),
        match done {
            Some(done) => agrees(
                *program_id,
                account_views(old(accounts)@),
                instruction_data@,
                done,
                account_views(final(accounts)@),
            ),
            None => final(accounts)@ == old(accounts)@,
        },
{
    if instruction_data.len() >= TX_ID_LENGTH && accounts.len() >= 2 {
        let tx_id = slice_subrange(instruction_data, 0, TX_ID_LENGTH);
        assert(tx_id@ =~= instruction_data@.take(TX_ID_LENGTH as int));
        assert(account_views(accounts@)[1] == accounts@[1]@);
        match derive_marked_address(program_id, &accounts[0].key, tx_id) {
            Some(expected) => {
                let account = &accounts[1];
                if account.key == expected && !(account.borrow == Borrow::Exclusive)
                    && account.data.len() == 0 {
                    return None;
                }
            },
            None => {
                return None;
            },
        }
    }
    Some(process_instruction(program_id, accounts, instruction_data))
}

/// How many of the instructions with these data succeed when they are processed
/// one after the other on the same accounts.
pub open spec fn landings(
    program_id: Pubkey,
    accounts: Seq<AccountView>,
    copies: Seq<Seq<u8>>,
) -> nat
    decreases copies.len(),
{
    if copies.len() == 0 {
        0
    } else {
        match processed(program_id, accounts, copies[0]) {
            Ok(after) => 1 + landings(program_id, after, copies.drop_first()),
            Err(_) => landings(program_id, accounts, copies.drop_first()),
        }
    }
}

/// Once an instruction has succeeded, every other that starts with the same
/// transaction id and names the same accounts is refused as a duplicate.
pub proof fn law_second_copy_is_refused(
    program_id: Pubkey,
    accounts: Seq<AccountView>,
    instruction_data: Seq<u8>,
    other_data: Seq<u8>,
)
    requires
        processable(program_id, accounts, instruction_data),
        processed(program_id, accounts, instruction_data) is Ok,
        other_data.len() >= TX_ID_LENGTH,
        other_data.take(TX_ID_LENGTH as int) == instruction_data.take(TX_ID_LENGTH as int),
    ensures
        ({
            let after = processed(program_id, accounts, instruction_data)->Ok_0;
            &&& processable(program_id, after, other_data)
            &&& processed(program_id, after, other_data) == Err::<Seq<AccountView>, ProgramError>(
                ProgramError::Custom(DUPLICATE),
            )
        }),
{
}

/// However many copies are processed, whatever their data, no more than one lands
/// on an account.
pub proof fn law_lands_at_most_once(
    program_id: Pubkey,
    accounts: Seq<AccountView>,
    copies: Seq<Seq<u8>>,
)
    requires
        forall|i: int|
            0 <= i < copies.len() ==> processable(program_id, accounts, #[trigger] copies[i]),
    ensures
        landings(program_id, accounts, copies) <= 1,
    decreases copies.len(),
{
    if copies.len() > 0 {
        let rest = copies.drop_first();
        assert(processable(program_id, accounts, copies[0]));
        assert forall|i: int| 0 <= i < rest.len() implies processable(
            program_id,
            accounts,
            #[trigger] rest[i],
        ) by {
            assert(rest[i] == copies[i + 1]);
        }
        match processed(program_id, accounts, copies[0]) {
            Ok(after) => {
                lemma_nothing_lands_on_a_mark(program_id, after, rest);
            },
            Err(_) => {
                law_lands_at_most_once(program_id, accounts, rest);
            },
        }
    }
}

/// Nothing lands on an account that is marked.
proof fn lemma_nothing_lands_on_a_mark(
    program_id: Pubkey,
    accounts: Seq<AccountView>,
    copies: Seq<Seq<u8>>,
)
    requires
        accounts.len() >= 2,
        accounts[1].data[0] != 0,
    ensures
        landings(program_id, accounts, copies) == 0,
    decreases copies.len(),
{
    if copies.len() > 0 {
        lemma_nothing_lands_on_a_mark(program_id, accounts, copies.drop_first());
    }
}

/// A mark stays: no instruction, of whatever transaction, takes one off.
pub proof fn law_marks_stay(
    program_id: Pubkey,
    accounts: Seq<AccountView>,
    instruction_data: Seq<u8>,
    at: int,
)
    requires
        processable(program_id, accounts, instruction_data),
        0 <= at < accounts.len(),
        accounts[at].data.len() > 0,
        accounts[at].data[0] != 0,
    ensures
        processed(program_id, accounts, instruction_data) matches Ok(after) ==> after.len()
            == accounts.len() && after[at] == accounts[at],
{
}

/// The instruction that the sender builds is the one that the program expects:
/// on an account that is not marked and not lent out it succeeds, and marks that
/// account alone.
pub proof fn law_sender_and_program_agree(
    place: DeduplicationTarget,
    signer: AccountView,
    account: AccountView,
    tx_id: Seq<u8>,
)
    requires
        tx_id.len() == TX_ID_LENGTH,
        marked_address(place.program_id, signer.key, tx_id) == Some(place.account),
        account.key == place.account,
        account.data.len() > 0,
        account.data[0] == 0,
        account.borrow is Free,
    ensures
        ({
            let call = marking_instruction(place, signer.key, tx_id);
            let accounts = seq![signer, account];
            &&& call.accounts[0].pubkey == signer.key
            &&& call.accounts[1].pubkey == account.key
            &&& processable(call.program_id, accounts, call.data)
            &&& processed(call.program_id, accounts, call.data) == Ok::<
                Seq<AccountView>,
                ProgramError,
            >(seq![signer, AccountView { data: account.data.update(0, 1), ..account }])
        }),
{
    assert(tx_id.take(TX_ID_LENGTH as int) =~= tx_id);
    let after = AccountView { data: account.data.update(0, 1), ..account };
    assert(seq![signer, account].update(1, after) =~= seq![signer, after]);
}

/// What comes of an instruction, by its data and its accounts alone. It has to hold
/// an id of 32 bytes and name two accounts, the second being the one that the seeds
/// `unique`, the first account and the id lead to. That account's data may not be
/// lent out, and its first byte may not be set. It is set then, and nothing else is
/// changed.
pub proof fn law_first_byte_is_set_once(
    program_id: Pubkey,
    accounts: Seq<AccountView>,
    instruction_data: Seq<u8>,
)
    requires
        processable(program_id, accounts, instruction_data),
    ensures
        ({
            let done = processed(program_id, accounts, instruction_data);
            let id = instruction_data.subrange(0, 32);
            let derived = program_address(
                seq![seq![117u8, 110, 105, 113, 117, 101], accounts[0].key.0@, id],
                program_id,
            );
            let account = accounts[1];
            if instruction_data.len() < 32 {
                done == Err::<Seq<AccountView>, ProgramError>(ProgramError::InvalidInstructionData)
            } else if accounts.len() < 2 {
                done == Err::<Seq<AccountView>, ProgramError>(ProgramError::NotEnoughAccountKeys)
            } else if derived->Some_0.0 != account.key {
                derived is Some && done == Err::<Seq<AccountView>, ProgramError>(
                    ProgramError::InvalidArgument,
                )
            } else if account.borrow is Exclusive {
                done == Err::<Seq<AccountView>, ProgramError>(ProgramError::AccountBorrowFailed)
            } else if account.data[0] != 0 {
                done == Err::<Seq<AccountView>, ProgramError>(ProgramError::Custom(0))
            } else if account.borrow is Shared {
                done == Err::<Seq<AccountView>, ProgramError>(ProgramError::AccountBorrowFailed)
            } else {
                &&& derived is Some
                &&& done matches Ok(after) && after.len() == accounts.len()
                &&& forall|i: int|
                    0 <= i < accounts.len() && i != 1 ==> #[trigger] done->Ok_0[i] == accounts[i]
                &&& done->Ok_0[1].key == account.key
                &&& done->Ok_0[1].borrow == account.borrow
                &&& done->Ok_0[1].data.len() == account.data.len()
                &&& done->Ok_0[1].data[0] == 1
                &&& forall|k: int|
                    1 <= k < account.data.len() ==> #[trigger] done->Ok_0[1].data[k]
                        == account.data[k]
            }
        }),
{
    assert(instruction_data.len() >= 32 ==> instruction_data.subrange(0, 32)
        =~= instruction_data.take(TX_ID_LENGTH as int));
    law_address_rests_on_three_seeds(
        program_id,
        accounts[0].key,
        instruction_data.take(TX_ID_LENGTH as int),
    );
}

/// An instruction is processed to an end unless no address can be derived, or the
/// account to mark, once it has been found and may be read, has no data.
pub proof fn law_what_is_processed_to_an_end(
    program_id: Pubkey,
    accounts: Seq<AccountView>,
    instruction_data: Seq<u8>,
)
    ensures
        ({
            let derived = program_address(
                seq![
                    seq![117u8, 110, 105, 113, 117, 101],
                    accounts[0].key.0@,
                    instruction_data.subrange(0, 32),
                ],
                program_id,
            );
            processable(program_id, accounts, instruction_data) <==> {
                ||| instruction_data.len() < 32
                ||| accounts.len() < 2
                ||| derived is Some && (derived->Some_0.0 != accounts[1].key
                    || accounts[1].borrow is Exclusive || accounts[1].data.len() > 0)
            }
        }),
{
    assert(instruction_data.len() >= 32 ==> instruction_data.subrange(0, 32)
        =~= instruction_data.take(TX_ID_LENGTH as int));
    law_address_rests_on_three_seeds(
        program_id,
        accounts[0].key,
        instruction_data.take(TX_ID_LENGTH as int),
    );
}

/// Marking an account sets its first byte, once: it has to be the expected one, its
/// data may not be lent out, and the byte may not be set.
pub proof fn law_marking_sets_the_first_byte(expected: Pubkey, account: AccountView)
    requires
        account.data.len() > 0,
    ensures
        markable(expected, account),
        account.key != expected ==> marked(expected, account) == Err::<AccountView, ProgramError>(
            ProgramError::InvalidArgument,
        ),
        account.key == expected && account.borrow is Exclusive ==> marked(expected, account)
            == Err::<AccountView, ProgramError>(ProgramError::AccountBorrowFailed),
        account.key == expected && !(account.borrow is Exclusive) && account.data[0] != 0
            ==> marked(expected, account) == Err::<AccountView, ProgramError>(
            ProgramError::Custom(0),
        ),
        account.key == expected && account.borrow is Shared && account.data[0] == 0 ==> marked(
            expected,
            account,
        ) == Err::<AccountView, ProgramError>(ProgramError::AccountBorrowFailed),
        account.key == expected && account.borrow is Free && account.data[0] == 0 ==> marked(
            expected,
            account,
        ) == Ok::<AccountView, ProgramError>(
            AccountView {
                key: account.key,
                data: account.data.update(0, 1),
                borrow: account.borrow,
            },
        ),
{
}

/// A transaction that has landed does not keep another from landing: what marks the
/// one leaves the account of the other as it was, so that it can still be marked.
pub proof fn law_other_transaction_can_still_land(
    program_id: Pubkey,
    accounts: Seq<AccountView>,
    instruction_data: Seq<u8>,
    other: DeduplicationTarget,
    other_id: Seq<u8>,
    at: int,
)
    requires
        processable(program_id, accounts, instruction_data),
        processed(program_id, accounts, instruction_data) is Ok,
        other.program_id == program_id,
        other_id.len() == TX_ID_LENGTH,
        2 <= at < accounts.len(),
        marked_address(program_id, accounts[0].key, other_id) == Some(other.account),
        accounts[at].key == other.account,
        accounts[at].data.len() > 0,
        accounts[at].data[0] == 0,
        accounts[at].borrow is Free,
    ensures
        ({
            let after = processed(program_id, accounts, instruction_data)->Ok_0;
            &&& after[0] == accounts[0]
            &&& processed(program_id, seq![after[0], after[at]], other_id) is Ok
        }),
{
    law_sender_and_program_agree(other, accounts[0], accounts[at], other_id);
}

/// The outcome of an instruction is its result together with the accounts: those that
/// were marked, or the ones from before where it failed.
pub proof fn law_failure_changes_nothing(
    program_id: Pubkey,
    before: Seq<AccountView>,
    instruction_data: Seq<u8>,
    done: Result<(), ProgramError>,
    after: Seq<AccountView>,
)
    ensures
        agrees(program_id, before, instruction_data, done, after) <==> match processed(
            program_id,
            before,
            instruction_data,
        ) {
            Ok(accounts) => done is Ok && after == accounts,
            Err(error) => done == Err::<(), ProgramError>(error) && after == before,
        },
{
}

/// Nothing of an account is left out where it is told of.
pub proof fn law_accounts_are_told_in_full(accounts: Seq<AccountInfo>)
    ensures
        account_views(accounts).len() == accounts.len(),
        forall|i: int|
            0 <= i < accounts.len() ==> {
                let account = #[trigger] account_views(accounts)[i];
                &&& account == accounts[i]@
                &&& account.key == accounts[i].key
                &&& account.data == accounts[i].data@
                &&& account.borrow == accounts[i].borrow
            },
{
}

} // verus!
