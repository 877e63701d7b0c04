//! The instructions that let only one copy of a transaction land.

use crate::instruction::{
    instruction_views, AccountMeta, Instruction, InstructionView, Pubkey,
};
use crate::sdk::{
    create_account, create_account_instruction, find_program_address, parse_pubkey, parsed_pubkey,
    program_address, seed_views,
};
use vstd::prelude::*;
use vstd::slice::slice_to_vec;

verus! {

/// The bytes of `unique`, the fixed seed of every address that is derived here.
pub const FIXED_SEED: [u8; 6] = [117, 110, 105, 113, 117, 101];

/// The bytes of an account that the program marks.
pub const MARKED_ACCOUNT_SPACE: u64 = 1;

/// The seeds of the account that stands for the transaction `tx_id` of a signer.
pub open spec fn unique_seeds(signer: Pubkey, tx_id: Seq<u8>) -> Seq<Seq<u8>> {
    seq![FIXED_SEED@, signer.0@, tx_id]
}

/// The address that a program marks for the transaction `tx_id` of a signer,
/// where one can be derived.
pub open spec fn marked_address(program_id: Pubkey, signer: Pubkey, tx_id: Seq<u8>) -> Option<
    Pubkey,
> {
    match program_address(unique_seeds(signer, tx_id), program_id) {
        Some((address, _)) => Some(address),
        None => None,
    }
}

/// Derives the address that a program marks for the transaction `tx_id` of a
/// signer.
pub fn derive_marked_address(program_id: &Pubkey, signer: &Pubkey, tx_id: &[u8]) -> (address:
    Option<Pubkey>)
    ensures
        address == marked_address(*program_id, *signer, tx_id@),
        address is Some <==> program_address(
            seq![seq![117u8, 110, 105, 113, 117, 101], signer.0@, tx_id@],
            *program_id,
        ) is Some,
        address matches Some(key) ==> program_address(
            seq![seq![117u8, 110, 105, 113, 117, 101], signer.0@, tx_id@],
            *program_id,
        )->Some_0.0 == key,
{
    let mut seeds: Vec<Vec<u8>> = Vec::new();
    seeds.push(slice_to_vec(&FIXED_SEED));
    seeds.push(slice_to_vec(&signer.0));
    seeds.push(slice_to_vec(tx_id));
    assert(seed_views(seeds@) =~= unique_seeds(*signer, tx_id@));
    assert(FIXED_SEED@ =~= seq![117u8, 110, 105, 113, 117, 101]);
    match find_program_address(&seeds, program_id) {
        Some((address, _bump)) => Some(address),
        None => None,
    }
}

/// Where a transaction is marked: the program, and the account that it marks.
#[derive(Debug, Clone, Copy, PartialEq, Eq)]
pub struct DeduplicationTarget {
    pub program_id: Pubkey,
    pub account: Pubkey,
}

/// Why no deduplication instructions could be built.
#[derive(Debug, PartialEq, Eq)]
pub enum DeduplicationError {
    /// The program id is not set.
    ProgramIdUnset,
    /// The program id is no public key; the reason is given.
    ProgramIdInvalid(String),
    /// No bump seed gives an address.
    NoProgramAddress,
}

/// What a `DeduplicationError` holds.
pub enum DeduplicationErrorView {
    ProgramIdUnset,
    ProgramIdInvalid(Seq<char>),
    NoProgramAddress,
}

impl View for DeduplicationError {
    type V = DeduplicationErrorView;

    open spec fn view(&self) -> DeduplicationErrorView {
        match self {
            DeduplicationError::ProgramIdUnset => DeduplicationErrorView::ProgramIdUnset,
            DeduplicationError::ProgramIdInvalid(reason) => DeduplicationErrorView::ProgramIdInvalid(
                reason@,
            ),
            DeduplicationError::NoProgramAddress => DeduplicationErrorView::NoProgramAddress,
        }
    }
}

impl DeduplicationError {
    /// The error in words.
    pub fn message(&self) -> (text: String)
        ensures
            text@ == match self@ {
                DeduplicationErrorView::ProgramIdUnset =>
                    "Environment variable DUPLICATE_TX_PREVENTION_PROGRAM_ID is not set."@,
                DeduplicationErrorView::ProgramIdInvalid(reason) => reason,
                DeduplicationErrorView::NoProgramAddress =>
                    "Unable to find a viable program address bump seed"@,
            },
    {
        match self {
            DeduplicationError::ProgramIdUnset =>
                "Environment variable DUPLICATE_TX_PREVENTION_PROGRAM_ID is not set.".to_string(),
            DeduplicationError::ProgramIdInvalid(reason) => reason.clone(),
            DeduplicationError::NoProgramAddress =>
                "Unable to find a viable program address bump seed".to_string(),
        }
    }
}

/// Where the transaction `tx_id` of a signer is marked by the program whose id
/// is given in words, if it is.
pub open spec fn target(
    program_id: Option<Seq<char>>,
    signer: Pubkey,
    tx_id: Seq<u8>,
) -> Result<DeduplicationTarget, DeduplicationErrorView> {
    match program_id {
        None => Err(DeduplicationErrorView::ProgramIdUnset),
        Some(text) => match parsed_pubkey(text) {
            Err(reason) => Err(DeduplicationErrorView::ProgramIdInvalid(reason)),
            Ok(program_id) => match marked_address(program_id, signer, tx_id) {
                None => Err(DeduplicationErrorView::NoProgramAddress),
                Some(account) => Ok(DeduplicationTarget { program_id, account }),
            },
        },
    }
}

/// The text of an optional string.
pub open spec fn optional_text(text: Option<&str>) -> Option<Seq<char>> {
    match text {
        Some(text) => Some(text@),
        None => None,
    }
}

/// Reads the program id and derives the account that the program marks for the
/// transaction `tx_id` of a signer.
pub fn deduplication_target(program_id: Option<&str>, signer: &Pubkey, tx_id: &[u8]) -> (found:
    Result<DeduplicationTarget, DeduplicationError>)
    ensures
        match found {
            Ok(place) => target(optional_text(program_id), *signer, tx_id@) == Ok::<
                DeduplicationTarget,
                DeduplicationErrorView,
            >(place),
            Err(error) => target(optional_text(program_id), *signer, tx_id@) == Err::<
                DeduplicationTarget,
                DeduplicationErrorView,
            >(error@),
        },
{
    let text = match program_id {
        Some(text) => text,
        None => {
            return Err(DeduplicationError::ProgramIdUnset);
        },
    };
    let program_id = match parse_pubkey(text) {
        Ok(key) => key,
        Err(reason) => {
            return Err(DeduplicationError::ProgramIdInvalid(reason));
        },
    };
    match derive_marked_address(&program_id, signer, tx_id) {
        Some(account) => Ok(DeduplicationTarget { program_id, account }),
        None => Err(DeduplicationError::NoProgramAddress),
    }
}

/// The call that marks a transaction: the signer and the account that is marked
/// are both written, the signer alone signs, and the data is the `tx_id`.
pub open spec fn marking_instruction(
    place: DeduplicationTarget,
    signer: Pubkey,
    tx_id: Seq<u8>,
) -> InstructionView {
    InstructionView {
        program_id: place.program_id,
        accounts: seq![
            AccountMeta { pubkey: signer, is_signer: true, is_writable: true },
            AccountMeta { pubkey: place.account, is_signer: false, is_writable: true },
        ],
        data: tx_id,
    }
}

/// The instructions that mark a transaction. Where the account does not exist
/// yet, one that makes it, with one byte and owned by the program, comes first.
pub open spec fn marking_instructions(
    place: DeduplicationTarget,
    signer: Pubkey,
    tx_id: Seq<u8>,
    account_exists: bool,
    rent_exemption_lamports: u64,
) -> Seq<InstructionView> {
    let marking = seq![marking_instruction(place, signer, tx_id)];
    if account_exists {
        marking
    } else {
        seq![
            create_account_instruction(
                signer,
                place.account,
                rent_exemption_lamports,
                MARKED_ACCOUNT_SPACE,
                place.program_id,
            ),
        ] + marking
    }
}

/// Builds the instructions that mark the transaction `tx_id` of a signer at
/// `place`.
pub fn build_marking_instructions(
    place: &DeduplicationTarget,
    signer: &Pubkey,
    tx_id: &[u8],
    account_exists: bool,
    rent_exemption_lamports: u64,
) -> (instructions: Vec<Instruction>)
    ensures
        instruction_views(instructions@) == marking_instructions(
            *place,
            *signer,
            tx_id@,
            account_exists,
            rent_exemption_lamports,
        ),
{
    let mut instructions: Vec<Instruction> = Vec::new();
    if !account_exists {
        instructions.push(
            create_account(
                signer,
                &place.account,
                rent_exemption_lamports,
                MARKED_ACCOUNT_SPACE,
                &place.program_id,
            ),
        );
    }
    let mut accounts: Vec<AccountMeta> = Vec::new();
    accounts.push(AccountMeta { pubkey: *signer, is_signer: true, is_writable: true });
    accounts.push(AccountMeta { pubkey: place.account, is_signer: false, is_writable: true });
    let marking = Instruction { program_id: place.program_id, accounts, data: slice_to_vec(tx_id) };
    assert(marking@ =~= marking_instruction(*place, *signer, tx_id@));
    instructions.push(marking);
    assert(instruction_views(instructions@) =~= marking_instructions(
        *place,
        *signer,
        tx_id@,
        account_exists,
        rent_exemption_lamports,
    ));
    instructions
}

/// Builds a set of instructions to interact with the duplicate-prevention
/// program.
///
/// - `signer_pubkey`: the public key of the transaction sender.
/// - `tx_id`: a 32-byte SHA-256 hash that uniquely identifies the transaction.
/// - `program_id`: the id of the program, as it is configured.
/// - `account_exists`: whether the account that the program marks exists.
/// - `rent_exemption_lamports`: the lamports required for rent exemption of that
///   account.
pub fn build_de_duplication_instructions(
    signer_pubkey: &Pubkey,
    tx_id: &[u8],
    program_id: Option<&str>,
    account_exists: bool,
    rent_exemption_lamports: u64,
) -> (built: Result<Vec<Instruction>, DeduplicationError>)
    ensures
        match target(optional_text(program_id), *signer_pubkey, tx_id@) {
            Ok(place) => built matches Ok(instructions) && instruction_views(instructions@)
                == marking_instructions(
                place,
                *signer_pubkey,
                tx_id@,
                account_exists,
                rent_exemption_lamports,
            ),
            Err(reason) => built matches Err(error) && error@ == reason,
        },
{
    match deduplication_target(program_id, signer_pubkey, tx_id) {
        Ok(place) => Ok(
            build_marking_instructions(
                &place,
                signer_pubkey,
                tx_id,
                account_exists,
                rent_exemption_lamports,
            ),
        ),
        Err(error) => Err(error),
    }
}

/// The address is derived from exactly three seeds: the bytes of `unique`, those of
/// the signer, and those of the id.
pub proof fn law_address_rests_on_three_seeds(program_id: Pubkey, signer: Pubkey, tx_id: Seq<u8>)
    ensures
        ({
            let named = program_address(
                seq![seq![117u8, 110, 105, 113, 117, 101], signer.0@, tx_id],
                program_id,
            );
            &&& marked_address(program_id, signer, tx_id) is Some <==> named is Some
            &&& named matches Some((address, _)) ==> marked_address(program_id, signer, tx_id)
                == Some(address)
        }),
{
    assert(FIXED_SEED@ =~= seq![117u8, 110, 105, 113, 117, 101]);
}

/// The seeds tell transactions apart: they are the same only for the same signer and
/// the same id.
pub proof fn law_seeds_tell_transactions_apart(
    one_signer: Pubkey,
    one_id: Seq<u8>,
    other_signer: Pubkey,
    other_id: Seq<u8>,
)
    requires
        unique_seeds(one_signer, one_id) == unique_seeds(other_signer, other_id),
    ensures
        one_signer == other_signer,
        one_id == other_id,
{
    let one = unique_seeds(one_signer, one_id);
    let other = unique_seeds(other_signer, other_id);
    assert(one[1] == other[1] && one[2] == other[2]);
    assert(one_signer.0 =~= other_signer.0);
}

/// Where a transaction is marked, or why it is not: without a program id, with one
/// that is no key, or where no address can be derived.
pub proof fn law_target_is_the_marked_account(
    text: Seq<char>,
    signer: Pubkey,
    tx_id: Seq<u8>,
)
    ensures
        target(None, signer, tx_id) == Err::<DeduplicationTarget, DeduplicationErrorView>(
            DeduplicationErrorView::ProgramIdUnset,
        ),
        match parsed_pubkey(text) {
            Err(reason) => target(Some(text), signer, tx_id) == Err::<
                DeduplicationTarget,
                DeduplicationErrorView,
            >(DeduplicationErrorView::ProgramIdInvalid(reason)),
            Ok(program_id) => match marked_address(program_id, signer, tx_id) {
                Some(account) => target(Some(text), signer, tx_id) == Ok::<
                    DeduplicationTarget,
                    DeduplicationErrorView,
                >(DeduplicationTarget { program_id, account }),
                None => target(Some(text), signer, tx_id) == Err::<
                    DeduplicationTarget,
                    DeduplicationErrorView,
                >(DeduplicationErrorView::NoProgramAddress),
            },
        },
        optional_text(None) is None,
{
}

/// An optional string has a text if it is there, and that text.
pub proof fn law_optional_text_is_the_text(text: &str)
    ensures
        optional_text(Some(text)) == Some(text@),
{
}

/// The last instruction calls the program on the signer, who signs, and the account
/// to mark, both written, with the id byte for byte as its data. It is the only one
/// where the account exists; else the account is made before, by the signer, with one
/// byte, the given lamports and the program as its owner.
pub proof fn law_marking_calls_the_program_last(
    place: DeduplicationTarget,
    signer: Pubkey,
    tx_id: Seq<u8>,
    account_exists: bool,
    rent_exemption_lamports: u64,
)
    ensures
        ({
            let built = marking_instructions(
                place,
                signer,
                tx_id,
                account_exists,
                rent_exemption_lamports,
            );
            let call = marking_instruction(place, signer, tx_id);
            &&& built.len() == if account_exists {
                1int
            } else {
                2
            }
            &&& built.last() == call
            &&& !account_exists ==> built[0] == create_account_instruction(
                signer,
                place.account,
                rent_exemption_lamports,
                1,
                place.program_id,
            )
            &&& call.program_id == place.program_id
            &&& call.data == tx_id
            &&& call.accounts.len() == 2
            &&& call.accounts[0] == (AccountMeta {
                pubkey: signer,
                is_signer: true,
                is_writable: true,
            })
            &&& call.accounts[1] == (AccountMeta {
                pubkey: place.account,
                is_signer: false,
                is_writable: true,
            })
        }),
{
}

/// Nothing of an error is left out where it is told of.
pub proof fn law_deduplication_error_is_told_in_full(error: DeduplicationError)
    ensures
        match error {
            DeduplicationError::ProgramIdUnset => error@ is ProgramIdUnset,
            DeduplicationError::ProgramIdInvalid(reason) => error@
                == DeduplicationErrorView::ProgramIdInvalid(reason@),
            DeduplicationError::NoProgramAddress => error@ is NoProgramAddress,
        },
{
}

} // verus!
