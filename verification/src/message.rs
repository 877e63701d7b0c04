//! Messages and transactions.

use crate::instruction::{
    compiled_views, CompiledInstruction, CompiledInstructionView, Pubkey,
};
use vstd::prelude::*;

verus! {

/// The hash of a recent block.
#[derive(Debug, Clone, Copy, PartialEq, Eq)]
pub struct Blockhash(pub [u8; 32]);

/// An ed25519 signature.
#[derive(Debug, Clone, Copy, PartialEq, Eq)]
pub struct Signature(pub [u8; 64]);

/// A message but for its blockhash. The accounts that sign come first among the
/// account keys; those that are only read come last among the signers and last
/// among the others.
#[derive(Debug, PartialEq, Eq)]
pub struct MessageBody {
    pub num_required_signatures: u8,
    pub num_readonly_signed_accounts: u8,
    pub num_readonly_unsigned_accounts: u8,
    pub account_keys: Vec<Pubkey>,
    pub instructions: Vec<CompiledInstruction>,
}

/// What a `MessageBody` holds.
#[verifier::ext_equal]
pub struct BodyView {
    pub num_required_signatures: u8,
    pub num_readonly_signed_accounts: u8,
    pub num_readonly_unsigned_accounts: u8,
    pub account_keys: Seq<Pubkey>,
    pub instructions: Seq<CompiledInstructionView>,
}

impl View for MessageBody {
    type V = BodyView;

    open spec fn view(&self) -> BodyView {
        BodyView {
            num_required_signatures: self.num_required_signatures,
            num_readonly_signed_accounts: self.num_readonly_signed_accounts,
            num_readonly_unsigned_accounts: self.num_readonly_unsigned_accounts,
            account_keys: self.account_keys@,
            instructions: compiled_views(self.instructions@),
        }
    }
}

impl Clone for MessageBody {
    fn clone(&self) -> (copy: Self)
        ensures
            copy@ == self@,
    {
        let mut instructions: Vec<CompiledInstruction> = Vec::new();
        let mut i: usize = 0;
        while i < self.instructions.len()
            invariant
                i == instructions@.len() <= self.instructions@.len(),
                forall|k: int|
                    0 <= k < i ==> (#[trigger] instructions@[k])@ == self.instructions@[k]@,
            decreases self.instructions@.len() - i,
        {
            instructions.push(self.instructions[i].clone());
            i += 1;
        }
        let copy = MessageBody {
            num_required_signatures: self.num_required_signatures,
            num_readonly_signed_accounts: self.num_readonly_signed_accounts,
            num_readonly_unsigned_accounts: self.num_readonly_unsigned_accounts,
            account_keys: self.account_keys.clone(),
            instructions,
        };
        assert(copy@ =~= self@);
        copy
    }
}

/// The part of a transaction that is signed.
#[derive(Debug, PartialEq, Eq)]
pub struct Message {
    pub body: MessageBody,
    pub recent_blockhash: Blockhash,
}

/// What a `Message` holds.
#[verifier::ext_equal]
pub struct MessageView {
    pub body: BodyView,
    pub recent_blockhash: Blockhash,
}

impl View for Message {
    type V = MessageView;

    open spec fn view(&self) -> MessageView {
        MessageView { body: self.body@, recent_blockhash: self.recent_blockhash }
    }
}

/// A message with the signatures of its signers.
#[derive(Debug, PartialEq, Eq)]
pub struct Transaction {
    pub signatures: Vec<Signature>,
    pub message: Message,
}

/// What a `Transaction` holds.
#[verifier::ext_equal]
pub struct TransactionView {
    pub signatures: Seq<Signature>,
    pub message: MessageView,
}

impl View for Transaction {
    type V = TransactionView;

    open spec fn view(&self) -> TransactionView {
        TransactionView { signatures: self.signatures@, message: self.message@ }
    }
}

/// The formats of a message.
#[derive(Debug, Clone, Copy, PartialEq, Eq)]
pub enum MessageVersion {
    Legacy,
    V0,
}

/// A transaction that came in to be submitted: its message without the
/// blockhash and the lookup tables, and its debug rendering.
#[derive(Debug, PartialEq, Eq)]
pub struct VersionedTransaction {
    pub version: MessageVersion,
    pub body: MessageBody,
    pub rendering: String,
}

/// What a `VersionedTransaction` holds.
#[verifier::ext_equal]
pub struct VersionedTransactionView {
    pub version: MessageVersion,
    pub body: BodyView,
    pub rendering: Seq<char>,
}

impl View for VersionedTransaction {
    type V = VersionedTransactionView;

    open spec fn view(&self) -> VersionedTransactionView {
        VersionedTransactionView {
            version: self.version,
            body: self.body@,
            rendering: self.rendering@,
        }
    }
}

/// Nothing of a message is left out where it is told of.
pub proof fn law_message_is_told_in_full(message: Message)
    ensures
        message@.recent_blockhash == message.recent_blockhash,
        message@.body == message.body@,
        ({
            let body = message.body;
            &&& body@.num_required_signatures == body.num_required_signatures
            &&& body@.num_readonly_signed_accounts == body.num_readonly_signed_accounts
            &&& body@.num_readonly_unsigned_accounts == body.num_readonly_unsigned_accounts
            &&& body@.account_keys == body.account_keys@
            &&& body@.instructions.len() == body.instructions@.len()
            &&& forall|i: int|
                0 <= i < body.instructions@.len() ==> #[trigger] body@.instructions[i]
                    == body.instructions@[i]@
        }),
{
}

/// Nothing of a transaction is left out where it is told of.
pub proof fn law_transaction_is_told_in_full(
    transaction: Transaction,
    versioned: VersionedTransaction,
)
    ensures
        transaction@.signatures == transaction.signatures@,
        transaction@.message == transaction.message@,
        versioned@.version == versioned.version,
        versioned@.body == versioned.body@,
        versioned@.rendering == versioned.rendering@,
{
}

} // verus!
