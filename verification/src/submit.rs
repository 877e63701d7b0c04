//! Accepting a transaction, and what is sent in its place.

use crate::assemble::{
    assembled, carries, makeable, rebuild_transaction, signed_by_payer, AssemblyError,
    AssemblyErrorView,
};
use crate::cache::{CacheEntry, CachedBlockhash};
use crate::dedup::{
    build_de_duplication_instructions, deduplication_target, law_marking_calls_the_program_last,
    marked_address, marking_instruction,
    marking_instructions, optional_text, target, DeduplicationError, DeduplicationErrorView,
    DeduplicationTarget,
};
use crate::encoding::{base58, base64_decoded, decode_base64, encode_base58, sha256, sha256_digest};
use crate::instruction::{CompiledInstructionView, InstructionView, Pubkey};
use crate::keypair::{public_key, Keypair};
use crate::latency::{fastest_first, texts};
use crate::message::{
    Blockhash, Signature, Transaction, TransactionView, VersionedTransaction,
    VersionedTransactionView,
};
use crate::pool::RpcPool;
use crate::program::{
    landings, law_lands_at_most_once, law_sender_and_program_agree, processable, AccountView,
    TX_ID_LENGTH,
};
use crate::rebuild::{
    all_decompiled, decompiled, is_not_budget, law_instructions_are_sent_as_they_came,
    law_other_instructions_are_kept, rebuildable, rebuilt, signer_keys,
};
use crate::sdk::{
    decode_transaction, decoded_transaction, law_le_bytes_tell_values_apart, le_bytes,
    parse_blockhash, parsed_blockhash, serialize_transaction, signature_rendering, signature_text,
    signs, transaction_bytes, unit_price_instruction, COMPUTE_BUDGET_ID,
};
use vstd::prelude::*;
use vstd::string::StringExecFns;
use vstd::utf8::encode_utf8;

verus! {

/// The status of a reply to a request that cannot be understood.
pub const BAD_REQUEST: u16 = 400;

/// The status of a reply to a request that could not be carried out.
pub const INTERNAL_SERVER_ERROR: u16 = 500;

/// The lamports that the account of a marked transaction is made with: those that
/// keep an account of one byte exempt from rent.
pub const RENT_EXEMPTION_LAMPORTS: u64 = 897_840;

/// A reply that turns a request down.
#[derive(Debug, PartialEq, Eq)]
pub struct Rejection {
    pub status: u16,
    pub body: String,
}

/// What a `Rejection` holds.
pub struct RejectionView {
    pub status: u16,
    pub body: Seq<char>,
}

impl View for Rejection {
    type V = RejectionView;

    open spec fn view(&self) -> RejectionView {
        RejectionView { status: self.status, body: self.body@ }
    }
}

/// The reply to a request whose base64 cannot be decoded.
pub open spec fn invalid_base64(reason: Seq<char>) -> RejectionView {
    RejectionView { status: BAD_REQUEST, body: "Invalid base64 encoding: "@ + reason }
}

/// The reply to a request whose bytes are no transaction.
pub open spec fn invalid_transaction(reason: Seq<char>) -> RejectionView {
    RejectionView { status: BAD_REQUEST, body: "Failed to deserialize transaction: "@ + reason }
}

/// The transaction that a text in base64 stands for, or the reply that turns it
/// down.
pub open spec fn submission(base64_tx: Seq<char>) -> Result<
    VersionedTransactionView,
    RejectionView,
> {
    match base64_decoded(base64_tx) {
        Err(reason) => Err(invalid_base64(reason)),
        Ok(bytes) => match decoded_transaction(bytes) {
            Err(reason) => Err(invalid_transaction(reason)),
            Ok(transaction) => Ok(transaction),
        },
    }
}

/// The bytes that were decoded, or the reply where they could not be.
pub fn accept_bytes(decoded: Result<Vec<u8>, String>) -> (accepted: Result<Vec<u8>, Rejection>)
    ensures
        match decoded {
            Ok(bytes) => accepted == Ok::<Vec<u8>, Rejection>(bytes),
            Err(reason) => accepted matches Err(rejection) && rejection@ == invalid_base64(reason@),
        },
{
    match decoded {
        Ok(bytes) => Ok(bytes),
        Err(reason) => Err(
            Rejection {
                status: BAD_REQUEST,
                body: "Invalid base64 encoding: ".to_string().concat(reason.as_str()),
            },
        ),
    }
}

/// The transaction that was decoded, or the reply where none could be.
pub fn accept_transaction(decoded: Result<VersionedTransaction, String>) -> (accepted: Result<
    VersionedTransaction,
    Rejection,
>)
    ensures
        match decoded {
            Ok(transaction) => accepted == Ok::<VersionedTransaction, Rejection>(transaction),
            Err(reason) => accepted matches Err(rejection) && rejection@ == invalid_transaction(
                reason@,
            ),
        },
{
    match decoded {
        Ok(transaction) => Ok(transaction),
        Err(reason) => Err(
            Rejection {
                status: BAD_REQUEST,
                body: "Failed to deserialize transaction: ".to_string().concat(reason.as_str()),
            },
        ),
    }
}

/// Reads the transaction of a request, which is serialized and in base64.
pub fn decode_submission(base64_tx: &str) -> (decoded: Result<VersionedTransaction, Rejection>)
    ensures
        match submission(base64_tx@) {
            Ok(view) => decoded matches Ok(transaction) && transaction@ == view,
            Err(view) => decoded matches Err(rejection) && rejection@ == view,
        },
{
    match accept_bytes(decode_base64(base64_tx)) {
        Ok(bytes) => accept_transaction(decode_transaction(bytes.as_slice())),
        Err(rejection) => Err(rejection),
    }
}

/// The reply to a request whose transaction was sent: the text of the signature
/// under which it was confirmed, or the rejection where none was.
pub fn submission_reply(confirmed: Option<Signature>) -> (reply: Result<String, Rejection>)
    ensures
        match confirmed {
            Some(signature) => reply matches Ok(text) && text@ == signature_rendering(
                signature.0@,
            ),
            None => reply matches Err(rejection) && rejection@ == (RejectionView {
                status: INTERNAL_SERVER_ERROR,
                body: "Failed to submit and confirm transaction"@,
            }),
        },
{
    match confirmed {
        Some(signature) => Ok(signature_text(&signature)),
        None => Err(
            Rejection {
                status: INTERNAL_SERVER_ERROR,
                body: "Failed to submit and confirm transaction".to_string(),
            },
        ),
    }
}

/// The id of a transaction: the digest of its debug rendering.
pub open spec fn transaction_id(tx: VersionedTransactionView) -> Seq<u8> {
    sha256(encode_utf8(tx.rendering))
}

/// Derives the id of a transaction.
pub fn derive_transaction_id(tx: &VersionedTransaction) -> (id: [u8; 32])
    ensures
        id@ == transaction_id(tx@),
{
    sha256_digest(tx.rendering.as_str().as_bytes())
}

/// The options of a question for a priority fee.
#[derive(Debug, PartialEq, Eq)]
pub struct PriorityFeeOptions {
    pub include_all_priority_fee_levels: bool,
}

/// What a priority fee is asked for.
#[derive(Debug, PartialEq, Eq)]
pub struct PriorityFeeParams {
    pub transaction: String,
    pub options: PriorityFeeOptions,
}

/// A question for a priority fee.
#[derive(Debug, PartialEq, Eq)]
pub struct PriorityFeeRequest {
    pub jsonrpc: String,
    pub id: String,
    pub method: String,
    pub params: Vec<PriorityFeeParams>,
}

/// Whether `request` asks for all priority fee levels of the transaction whose
/// bytes are `transaction` in base58.
pub open spec fn asks_for(request: PriorityFeeRequest, transaction: Seq<char>) -> bool {
    &&& request.jsonrpc@ == "2.0"@
    &&& request.id@ == "placeholder"@
    &&& request.method@ == "getPriorityFeeEstimate"@
    &&& request.params@.len() == 1
    &&& request.params@[0].transaction@ == transaction
    &&& request.params@[0].options.include_all_priority_fee_levels
}

/// The bytes of a transaction in base58, or why it has none.
pub open spec fn transaction_base58(transaction: TransactionView) -> Result<Seq<char>, Seq<char>> {
    match transaction_bytes(transaction) {
        Ok(bytes) => Ok(base58(bytes)),
        Err(reason) => Err(reason),
    }
}

/// Serializes a transaction and writes the bytes in base58.
pub fn encode_transaction(transaction: &Transaction) -> (encoded: Result<String, String>)
    ensures
        match transaction_base58(transaction@) {
            Ok(view) => encoded matches Ok(text) && text@ == view,
            Err(view) => encoded matches Err(reason) && reason@ == view,
        },
{
    match serialize_transaction(transaction) {
        Ok(bytes) => Ok(encode_base58(bytes.as_slice())),
        Err(reason) => Err(reason),
    }
}

/// The bytes of a transaction as they are sent.
pub fn transaction_to_bytes(transaction: &Transaction) -> (serialized: Result<Vec<u8>, String>)
    ensures
        match transaction_bytes(transaction@) {
            Ok(view) => serialized matches Ok(bytes) && bytes@ == view,
            Err(view) => serialized matches Err(reason) && reason@ == view,
        },
{
    serialize_transaction(transaction)
}

/// Asks for the priority fee of a transaction that is given in base58.
pub fn priority_fee_request(transaction_base58: String) -> (request: PriorityFeeRequest)
    ensures
        asks_for(request, transaction_base58@),
{
    let mut params: Vec<PriorityFeeParams> = Vec::new();
    params.push(
        PriorityFeeParams {
            transaction: transaction_base58,
            options: PriorityFeeOptions { include_all_priority_fee_levels: true },
        },
    );
    PriorityFeeRequest {
        jsonrpc: "2.0".to_string(),
        id: "placeholder".to_string(),
        method: "getPriorityFeeEstimate".to_string(),
        params,
    }
}

/// The address that priority fees are asked for at.
pub fn priority_fee_url(helius_api_key: &str) -> (url: String)
    ensures
        url@ == "https://mainnet.helius-rpc.com/?api-key="@ + helius_api_key@,
{
    "https://mainnet.helius-rpc.com/?api-key=".to_string().concat(helius_api_key)
}

/// The values of `parsed` that are there, in their order.
pub open spec fn present(parsed: Seq<Option<Blockhash>>) -> Seq<Blockhash>
    decreases parsed.len(),
{
    if parsed.len() == 0 {
        Seq::empty()
    } else {
        match parsed.last() {
            Some(blockhash) => present(parsed.drop_last()).push(blockhash),
            None => present(parsed.drop_last()),
        }
    }
}

/// Keeps the blockhashes that could be parsed, in their order.
pub fn keep_parsed(parsed: &Vec<Option<Blockhash>>) -> (kept: Vec<Blockhash>)
    ensures
        kept@ == present(parsed@),
{
    let mut kept: Vec<Blockhash> = Vec::new();
    let mut i: usize = 0;
    assert(parsed@.take(0) =~= Seq::<Option<Blockhash>>::empty());
    while i < parsed.len()
        invariant
            i <= parsed@.len(),
            kept@ == present(parsed@.take(i as int)),
        decreases parsed@.len() - i,
    {
        assert(parsed@.take(i + 1).drop_last() =~= parsed@.take(i as int));
        if let Some(blockhash) = parsed[i] {
            kept.push(blockhash);
        }
        i += 1;
    }
    assert(parsed@.take(i as int) =~= parsed@);
    kept
}

/// Of each cached blockhash, what it parses to.
pub open spec fn parsed_entries(entries: Seq<CacheEntry>) -> Seq<Option<Blockhash>> {
    Seq::new(entries.len(), |i: int| parsed_blockhash(entries[i].blockhash))
}

/// Parses cached blockhashes and keeps those that are well formed.
pub fn usable_blockhashes(cached: &Vec<CachedBlockhash>) -> (blockhashes: Vec<Blockhash>)
    ensures
        blockhashes@ == present(parsed_entries(Seq::new(cached@.len(), |i: int| cached@[i]@))),
{
    let ghost entries = Seq::new(cached@.len(), |i: int| cached@[i]@);
    let mut parsed: Vec<Option<Blockhash>> = Vec::new();
    let mut i: usize = 0;
    while i < cached.len()
        invariant
            entries == Seq::new(cached@.len(), |i: int| cached@[i]@),
            i == parsed@.len() <= cached@.len(),
            forall|k: int| 0 <= k < i ==> parsed@[k] == parsed_entries(entries)[k],
        decreases cached@.len() - i,
    {
        parsed.push(parse_blockhash(cached[i].blockhash.as_str()));
        i += 1;
    }
    assert(parsed@ =~= parsed_entries(entries));
    keep_parsed(&parsed)
}

/// What a transaction is sent with: the endpoints, the fastest first, and the
/// blockhashes that the copies get.
pub struct SubmissionPlan {
    pub rpc_urls: Vec<String>,
    pub blockhashes: Vec<Blockhash>,
}

/// Submits transactions in the name of a keypair.
pub struct TransactionSubmitter {
    pub helius_api_key: String,
    pub keypair: Keypair,
}

impl TransactionSubmitter {
    /// A submitter with a key to ask for priority fees and a keypair.
    pub fn new(helius_api_key: String, keypair: Keypair) -> (submitter: Self)
        ensures
            submitter.helius_api_key@ == helius_api_key@,
            submitter.keypair@ == keypair@,
    {
        TransactionSubmitter { helius_api_key, keypair }
    }

    /// Plans the submission of a transaction through a pool: its endpoints by
    /// latency, and those of its blockhashes that are well formed.
    pub fn submit_versioned_transaction(&self, pool: &RpcPool) -> (plan: SubmissionPlan)
        requires
            pool.wf(),
        ensures
            fastest_first(texts(plan.rpc_urls@), pool.latency_tracker@),
            plan.blockhashes@ == present(parsed_entries(pool.cache@)),
    {
        let cached = pool.cache.get_all();
        let blockhashes = usable_blockhashes(&cached);
        let rpc_urls = pool.latency_tracker.get_sorted_rpcs();
        proof {
            assert(Seq::new(cached@.len(), |i: int| cached@[i]@) =~= pool.cache@);
        }
        SubmissionPlan { rpc_urls, blockhashes }
    }

    /// Where the transaction `tx` of this submitter is marked.
    pub fn marked_account(&self, tx: &VersionedTransaction, program_id: Option<&str>) -> (found:
        Result<DeduplicationTarget, DeduplicationError>)
        ensures
            match target(
                optional_text(program_id),
                public_key(self.keypair@),
                transaction_id(tx@),
            ) {
                Ok(place) => found == Ok::<DeduplicationTarget, DeduplicationError>(place),
                Err(view) => found matches Err(error) && error@ == view,
            },
    {
        let id = derive_transaction_id(tx);
        deduplication_target(program_id, &self.keypair.pubkey(), &id)
    }

    /// Makes the copy of `tx` that is sent with a blockhash and a priority fee. No
    /// copy can be made before the account to mark exists: it would have to sign
    /// its own making. Nor can one that a further account has to sign.
    pub fn final_transaction(
        &self,
        tx: &VersionedTransaction,
        blockhash: &Blockhash,
        priority_fee: u64,
        program_id: Option<&str>,
        account_exists: bool,
    ) -> (made: Result<Transaction, SubmissionError>)
        requires
            rebuildable(tx@),
        ensures
            match made {
                Ok(transaction) => {
                    &&& final_copy(
                        self.keypair@,
                        tx@,
                        *blockhash,
                        priority_fee,
                        optional_text(program_id),
                        account_exists,
                    ) == Ok::<TransactionView, SubmissionErrorView>(transaction@)
                    &&& target(
                        optional_text(program_id),
                        public_key(self.keypair@),
                        transaction_id(tx@),
                    ) matches Ok(place) && carries(
                        transaction@,
                        public_key(self.keypair@),
                        final_instructions(
                            place,
                            public_key(self.keypair@),
                            tx@,
                            priority_fee,
                            account_exists,
                        ),
                    )
                },
                Err(error) => final_copy(
                    self.keypair@,
                    tx@,
                    *blockhash,
                    priority_fee,
                    optional_text(program_id),
                    account_exists,
                ) == Err::<TransactionView, SubmissionErrorView>(error@),
            },
            made is Ok <==> (target(
                optional_text(program_id),
                public_key(self.keypair@),
                transaction_id(tx@),
            ) matches Ok(place) && makeable(
                final_instructions(
                    place,
                    public_key(self.keypair@),
                    tx@,
                    priority_fee,
                    account_exists,
                ),
                public_key(self.keypair@),
            )),
    {
        let id = derive_transaction_id(tx);
        let built = build_de_duplication_instructions(
            &self.keypair.pubkey(),
            &id,
            program_id,
            account_exists,
            RENT_EXEMPTION_LAMPORTS,
        );
        match built {
            Ok(deduplication) => match rebuild_transaction(
                &self.keypair,
                tx,
                blockhash,
                priority_fee,
                deduplication,
            ) {
                Ok(transaction) => Ok(transaction),
                Err(error) => Err(SubmissionError::Assembly(error)),
            },
            Err(error) => Err(SubmissionError::Deduplication(error)),
        }
    }
}

/// Why the copy of a transaction could not be made.
#[derive(Debug, PartialEq, Eq)]
pub enum SubmissionError {
    Deduplication(DeduplicationError),
    Assembly(AssemblyError),
}

/// What a `SubmissionError` holds.
pub enum SubmissionErrorView {
    Deduplication(DeduplicationErrorView),
    Assembly(AssemblyErrorView),
}

impl View for SubmissionError {
    type V = SubmissionErrorView;

    open spec fn view(&self) -> SubmissionErrorView {
        match self {
            SubmissionError::Deduplication(error) => SubmissionErrorView::Deduplication(error@),
            SubmissionError::Assembly(error) => SubmissionErrorView::Assembly(error@),
        }
    }
}

/// The instructions of the copy of a transaction that is marked at `place`.
pub open spec fn final_instructions(
    place: DeduplicationTarget,
    signer: Pubkey,
    tx: VersionedTransactionView,
    priority_fee: u64,
    account_exists: bool,
) -> Seq<InstructionView> {
    rebuilt(
        tx.body,
        priority_fee,
        marking_instructions(
            place,
            signer,
            transaction_id(tx),
            account_exists,
            RENT_EXEMPTION_LAMPORTS,
        ),
    )
}

/// The copy of a transaction that is sent with a blockhash and a priority fee.
pub open spec fn final_copy(
    keypair: Seq<u8>,
    tx: VersionedTransactionView,
    blockhash: Blockhash,
    priority_fee: u64,
    program_id: Option<Seq<char>>,
    account_exists: bool,
) -> Result<TransactionView, SubmissionErrorView> {
    let signer = public_key(keypair);
    match target(program_id, signer, transaction_id(tx)) {
        Err(error) => Err(SubmissionErrorView::Deduplication(error)),
        Ok(place) => match assembled(
            keypair,
            final_instructions(place, signer, tx, priority_fee, account_exists),
            blockhash,
        ) {
            Err(error) => Err(SubmissionErrorView::Assembly(error)),
            Ok(transaction) => Ok(transaction),
        },
    }
}

/// Every copy of a transaction ends with the same mark, whatever its blockhash
/// and its priority fee, and whether or not the account existed.
pub proof fn law_copies_share_their_mark(
    place: DeduplicationTarget,
    signer: Pubkey,
    tx: VersionedTransactionView,
    priority_fee: u64,
    account_exists: bool,
)
    ensures
        final_instructions(place, signer, tx, priority_fee, account_exists).len() > 0,
        final_instructions(place, signer, tx, priority_fee, account_exists).last()
            == marking_instruction(place, signer, transaction_id(tx)),
{
}

/// The data of the calls that mark the copies of a transaction, of which the
/// priority fees are given and whether the account existed.
pub open spec fn marks(
    place: DeduplicationTarget,
    signer: Pubkey,
    tx: VersionedTransactionView,
    copies: Seq<(u64, bool)>,
) -> Seq<Seq<u8>> {
    Seq::new(
        copies.len(),
        |i: int| final_instructions(place, signer, tx, copies[i].0, copies[i].1).last().data,
    )
}

/// Of the copies of a transaction that reach an account that is not marked and
/// not lent out, exactly one lands, whatever their number and their fees.
pub proof fn law_exactly_one_copy_lands(
    place: DeduplicationTarget,
    signer: AccountView,
    account: AccountView,
    tx: VersionedTransactionView,
    copies: Seq<(u64, bool)>,
)
    requires
        transaction_id(tx).len() == TX_ID_LENGTH,
        marked_address(place.program_id, signer.key, transaction_id(tx)) == Some(place.account),
        account.key == place.account,
        account.data.len() > 0,
        account.data[0] == 0,
        account.borrow is Free,
        copies.len() > 0,
    ensures
        landings(place.program_id, seq![signer, account], marks(place, signer.key, tx, copies))
            == 1,
{
    let accounts = seq![signer, account];
    let calls = marks(place, signer.key, tx, copies);
    law_sender_and_program_agree(place, signer, account, transaction_id(tx));
    assert forall|i: int| 0 <= i < calls.len() implies processable(
        place.program_id,
        accounts,
        #[trigger] calls[i],
    ) by {
        law_copies_share_their_mark(place, signer.key, tx, copies[i].0, copies[i].1);
    }
    law_copies_share_their_mark(place, signer.key, tx, copies[0].0, copies[0].1);
    law_lands_at_most_once(place.program_id, accounts, calls);
}

/// Two copies of a transaction are told apart by their blockhashes or their
/// priority fees.
pub proof fn law_copies_are_unique(
    place: DeduplicationTarget,
    signer: Pubkey,
    tx: VersionedTransactionView,
    one: TransactionView,
    one_fee: u64,
    one_exists: bool,
    other: TransactionView,
    other_fee: u64,
    other_exists: bool,
)
    requires
        carries(one, signer, final_instructions(place, signer, tx, one_fee, one_exists)),
        carries(other, signer, final_instructions(place, signer, tx, other_fee, other_exists)),
        one.message.recent_blockhash != other.message.recent_blockhash || one_fee != other_fee,
    ensures
        one.message != other.message,
{
    if one.message == other.message {
        let one_data = one.message.body.instructions[0].data;
        let other_data = other.message.body.instructions[0].data;
        assert(one_data == unit_price_instruction(one_fee).data);
        assert(other_data == unit_price_instruction(other_fee).data);
        assert(one_data.skip(1) =~= le_bytes(one_fee));
        assert(other_data.skip(1) =~= le_bytes(other_fee));
        law_le_bytes_tell_values_apart(one_fee, other_fee);
    }
}

/// An account that has yet to be made has to sign the copy, so the sender alone
/// cannot make it.
pub proof fn law_new_account_has_to_sign(
    place: DeduplicationTarget,
    signer: Pubkey,
    tx: VersionedTransactionView,
    priority_fee: u64,
)
    ensures
        signs(
            final_instructions(place, signer, tx, priority_fee, false),
            signer,
            place.account,
        ),
        place.account != signer ==> !makeable(
            final_instructions(place, signer, tx, priority_fee, false),
            signer,
        ),
{
    let all = final_instructions(place, signer, tx, priority_fee, false);
    assert(all[all.len() - 2].accounts[1].pubkey == place.account);
}

/// What is left of a sequence was in it.
proof fn lemma_filter_only_drops(
    all: Seq<InstructionView>,
    keep: spec_fn(InstructionView) -> bool,
)
    ensures
        forall|i: int|
            0 <= i < all.filter(keep).len() ==> all.contains(#[trigger] all.filter(keep)[i]),
    decreases all.len(),
{
    reveal(Seq::filter);
    if all.len() > 0 {
        let before = all.drop_last();
        lemma_filter_only_drops(before, keep);
        assert forall|i: int| 0 <= i < all.filter(keep).len() implies all.contains(
            #[trigger] all.filter(keep)[i],
        ) by {
            if i < before.filter(keep).len() {
                assert(before.contains(before.filter(keep)[i]));
                let k = choose|k: int| 0 <= k < before.len() && before[k] == before.filter(keep)[i];
                assert(all[k] == all.filter(keep)[i]);
            } else {
                assert(all[all.len() - 1] == all.filter(keep)[i]);
            }
        }
    }
}

/// Who signed the message that came in has to sign the copy too, if an instruction
/// that is kept names that account. So the sender alone cannot make the copy of a
/// message that another account signed.
pub proof fn law_signers_are_kept(
    place: DeduplicationTarget,
    signer: Pubkey,
    tx: VersionedTransactionView,
    priority_fee: u64,
    account_exists: bool,
    at: int,
    account: int,
)
    requires
        rebuildable(tx),
        0 <= at < tx.body.instructions.len(),
        tx.body.account_keys[tx.body.instructions[at].program_id_index as int] != Pubkey(
            COMPUTE_BUDGET_ID,
        ),
        0 <= account < tx.body.instructions[at].accounts.len(),
        tx.body.account_keys.take(tx.body.num_required_signatures as int).contains(
            tx.body.account_keys[tx.body.instructions[at].accounts[account] as int],
        ),
    ensures
        ({
            let all = final_instructions(place, signer, tx, priority_fee, account_exists);
            let key = tx.body.account_keys[tx.body.instructions[at].accounts[account] as int];
            &&& signs(all, signer, key)
            &&& key != signer ==> !makeable(all, signer)
        }),
{
    let all = final_instructions(place, signer, tx, priority_fee, account_exists);
    let index = tx.body.instructions[at].accounts[account];
    let key = tx.body.account_keys[index as int];
    let kept = decompiled(tx.body, signer_keys(tx.body), tx.body.instructions[at]);
    let marking = marking_instructions(
        place,
        signer,
        transaction_id(tx),
        account_exists,
        RENT_EXEMPTION_LAMPORTS,
    );
    law_other_instructions_are_kept(tx.body, priority_fee, marking, at);
    let i = choose|i: int| 0 <= i < all.len() && all[i] == kept;
    assert(index < tx.body.account_keys.len());
    assert(all[i].accounts[account].pubkey == key && all[i].accounts[account].is_signer);
    assert(signs(all, signer, key));
}

/// Where the account exists and nobody but the sender signed the message that
/// came in, nobody else has to sign the copy.
pub proof fn law_sender_alone_signs(
    place: DeduplicationTarget,
    signer: Pubkey,
    tx: VersionedTransactionView,
    priority_fee: u64,
)
    requires
        rebuildable(tx),
        forall|i: int|
            0 <= i < tx.body.num_required_signatures ==> (#[trigger] tx.body.account_keys[i])
                == signer,
    ensures
        signed_by_payer(final_instructions(place, signer, tx, priority_fee, true), signer),
{
    let all = final_instructions(place, signer, tx, priority_fee, true);
    let first = tx.body.account_keys.take(tx.body.num_required_signatures as int);
    let came = all_decompiled(tx.body, signer_keys(tx.body));
    let kept = came.filter(is_not_budget());
    lemma_filter_only_drops(came, is_not_budget());
    assert forall|key: Pubkey| signs(all, signer, key) implies key == signer by {
        if key != signer {
            let (i, j) = choose|i: int, j: int|
                0 <= i < all.len() && 0 <= j < all[i].accounts.len() && (
                #[trigger] all[i].accounts[j]).pubkey == key && all[i].accounts[j].is_signer;
            assert(0 < i <= kept.len());
            assert(all[i] == kept[i - 1]);
            assert(came.contains(kept[i - 1]));
            let k = choose|k: int| 0 <= k < came.len() && came[k] == kept[i - 1];
            let index = tx.body.instructions[k].accounts[j] as int;
            assert(signer_keys(tx.body)[index]);
            assert(first.contains(key));
            let at = choose|at: int| 0 <= at < first.len() && first[at] == key;
            assert(tx.body.account_keys[at] == signer);
        }
    }
}

/// Whether a blockhash could be parsed.
pub open spec fn is_parsed() -> spec_fn(Option<Blockhash>) -> bool {
    |parsed: Option<Blockhash>| parsed is Some
}

/// Of two lists of parsed blockhashes one after the other, what is kept of the first
/// comes before what is kept of the second; one that is there is kept, one that is
/// not there is not.
pub proof fn law_kept_one_after_the_other(
    first: Seq<Option<Blockhash>>,
    second: Seq<Option<Blockhash>>,
    blockhash: Blockhash,
)
    ensures
        present(first + second) == present(first) + present(second),
        present(seq![Some(blockhash)]) == seq![blockhash],
        present(seq![None]) == Seq::<Blockhash>::empty(),
        present(Seq::empty()) == Seq::<Blockhash>::empty(),
    decreases second.len(),
{
    reveal_with_fuel(present, 2);
    assert(seq![Some(blockhash)].drop_last() =~= Seq::<Option<Blockhash>>::empty());
    assert(seq![None::<Blockhash>].drop_last() =~= Seq::<Option<Blockhash>>::empty());
    assert(present(seq![Some(blockhash)]) =~= seq![blockhash]);
    if second.len() == 0 {
        assert(first + second =~= first);
        assert(present(first) + present(second) =~= present(first));
    } else {
        law_kept_one_after_the_other(first, second.drop_last(), blockhash);
        assert((first + second).drop_last() =~= first + second.drop_last());
        assert((first + second).last() == second.last());
        assert(present(first + second) =~= present(first) + present(second));
    }
}

/// As many blockhashes are kept as are there, and each stands behind those that are
/// there before it: none is left out.
pub proof fn law_no_parsed_blockhash_is_left_out(parsed: Seq<Option<Blockhash>>, at: int)
    ensures
        present(parsed).len() == parsed.filter(is_parsed()).len(),
        0 <= at < parsed.len() && parsed[at] is Some ==> {
            let place = parsed.take(at).filter(is_parsed()).len() as int;
            &&& 0 <= place < present(parsed).len()
            &&& parsed[at] == Some(present(parsed)[place])
        },
        (forall|i: int| 0 <= i < parsed.len() ==> (#[trigger] parsed[i]) is Some)
            ==> present(parsed).len() == parsed.len() && (0 <= at < parsed.len() ==> parsed[at]
            == Some(present(parsed)[at])),
    decreases parsed.len(),
{
    reveal(Seq::filter);
    if parsed.len() > 0 {
        let rest = parsed.drop_last();
        law_no_parsed_blockhash_is_left_out(rest, at);
        if 0 <= at < rest.len() {
            assert(rest.take(at) =~= parsed.take(at));
            assert(rest[at] == parsed[at]);
        }
        if at == rest.len() {
            assert(parsed.take(at) =~= rest);
        }
        if forall|i: int| 0 <= i < parsed.len() ==> (#[trigger] parsed[i]) is Some {
            assert forall|i: int| 0 <= i < rest.len() implies (#[trigger] rest[i]) is Some by {
                assert(rest[i] == parsed[i]);
            }
        }
    }
}

/// Each cached blockhash that parses has its copy in the plan: the blockhash at the
/// place given by those before it that parse. Where all parse, the plan has one for
/// each entry, in their order.
pub proof fn law_plan_uses_every_cached_blockhash(entries: Seq<CacheEntry>, at: int)
    requires
        0 <= at < entries.len(),
    ensures
        ({
            let planned = present(parsed_entries(entries));
            let place = parsed_entries(entries).take(at).filter(is_parsed()).len() as int;
            &&& parsed_entries(entries).len() == entries.len()
            &&& parsed_entries(entries)[at] == parsed_blockhash(entries[at].blockhash)
            &&& parsed_blockhash(entries[at].blockhash) is Some ==> 0 <= place < planned.len()
                && parsed_blockhash(entries[at].blockhash) == Some(planned[place])
            &&& (forall|i: int|
                0 <= i < entries.len() ==> parsed_blockhash(
                    (#[trigger] entries[i]).blockhash,
                ) is Some) ==> planned.len() == entries.len() && parsed_blockhash(
                entries[at].blockhash,
            ) == Some(planned[at])
        }),
{
    let parsed = parsed_entries(entries);
    law_no_parsed_blockhash_is_left_out(parsed, at);
    if forall|i: int|
        0 <= i < entries.len() ==> parsed_blockhash((#[trigger] entries[i]).blockhash) is Some {
        assert forall|i: int| 0 <= i < parsed.len() implies (#[trigger] parsed[i]) is Some by {
            assert(parsed_blockhash(entries[i].blockhash) is Some);
        }
    }
}

/// A request that cannot be read is turned down with the status 400 and the reason,
/// told apart by what could not be read; one that can be read is the transaction that
/// its bytes stand for.
pub proof fn law_submission_is_what_its_bytes_say(base64_tx: Seq<char>)
    ensures
        match base64_decoded(base64_tx) {
            Err(reason) => submission(base64_tx) == Err::<VersionedTransactionView, RejectionView>(
                RejectionView { status: 400, body: "Invalid base64 encoding: "@ + reason },
            ),
            Ok(bytes) => match decoded_transaction(bytes) {
                Err(reason) => submission(base64_tx) == Err::<
                    VersionedTransactionView,
                    RejectionView,
                >(
                    RejectionView {
                        status: 400,
                        body: "Failed to deserialize transaction: "@ + reason,
                    },
                ),
                Ok(transaction) => submission(base64_tx) == Ok::<
                    VersionedTransactionView,
                    RejectionView,
                >(transaction),
            },
        },
{
}

/// The replies to what cannot be read: the status 400, and the reason behind a text.
pub proof fn law_rejections_give_the_reason(reason: Seq<char>)
    ensures
        invalid_base64(reason).status == 400,
        invalid_base64(reason).body == "Invalid base64 encoding: "@ + reason,
        invalid_transaction(reason).status == 400,
        invalid_transaction(reason).body == "Failed to deserialize transaction: "@ + reason,
{
}

/// Nothing of a rejection or an error is left out where it is told of.
pub proof fn law_failures_are_told_in_full(rejection: Rejection, error: SubmissionError)
    ensures
        rejection@.status == rejection.status,
        rejection@.body == rejection.body@,
        match error {
            SubmissionError::Deduplication(inner) => error@ == SubmissionErrorView::Deduplication(
                inner@,
            ),
            SubmissionError::Assembly(inner) => error@ == SubmissionErrorView::Assembly(inner@),
        },
{
}

/// The id of a transaction is the SHA-256 digest of its debug rendering in UTF-8, and
/// of nothing else.
pub proof fn law_id_is_the_digest_of_the_rendering(tx: VersionedTransactionView)
    ensures
        transaction_id(tx) == sha256(encode_utf8(tx.rendering)),
{
}

/// A question for a fee asks for all levels of one transaction, given in base58; and
/// that is the text of the transaction's own bytes.
pub proof fn law_fee_is_asked_for_the_transaction(
    request: PriorityFeeRequest,
    text: Seq<char>,
    transaction: TransactionView,
)
    ensures
        asks_for(request, text) <==> request.jsonrpc@ == "2.0"@ && request.id@ == "placeholder"@
            && request.method@ == "getPriorityFeeEstimate"@ && request.params@.len() == 1
            && request.params@[0].transaction@ == text
            && request.params@[0].options.include_all_priority_fee_levels,
        match transaction_bytes(transaction) {
            Ok(bytes) => transaction_base58(transaction) == Ok::<Seq<char>, Seq<char>>(
                base58(bytes),
            ),
            Err(reason) => transaction_base58(transaction) == Err::<Seq<char>, Seq<char>>(reason),
        },
{
}

/// Of each cached blockhash, what it parses to, in their order.
pub proof fn law_each_entry_is_parsed(entries: Seq<CacheEntry>)
    ensures
        parsed_entries(entries).len() == entries.len(),
        forall|i: int|
            0 <= i < entries.len() ==> #[trigger] parsed_entries(entries)[i] == parsed_blockhash(
                entries[i].blockhash,
            ),
{
}

/// The instructions of a copy are those of the message rebuilt around its fee, and
/// behind them the mark of the transaction's id, for which an account that is missing
/// is made with the lamports that exempt one byte from rent.
pub proof fn law_copy_is_the_message_with_fee_and_mark(
    place: DeduplicationTarget,
    signer: Pubkey,
    tx: VersionedTransactionView,
    priority_fee: u64,
    account_exists: bool,
)
    ensures
        final_instructions(place, signer, tx, priority_fee, account_exists) == rebuilt(
            tx.body,
            priority_fee,
            marking_instructions(
                place,
                signer,
                sha256(encode_utf8(tx.rendering)),
                account_exists,
                897_840,
            ),
        ),
{
}

/// Each instruction of the message that is not for the compute budget program is in
/// the copy, in its order, behind the fee and before the mark, with its program, its
/// accounts and its data as they came.
pub proof fn law_copy_carries_the_message(
    place: DeduplicationTarget,
    signer: Pubkey,
    tx: VersionedTransactionView,
    priority_fee: u64,
    account_exists: bool,
    at: int,
)
    requires
        rebuildable(tx),
        0 <= at < tx.body.instructions.len(),
        tx.body.account_keys[tx.body.instructions[at].program_id_index as int] != Pubkey(
            COMPUTE_BUDGET_ID,
        ),
    ensures
        ({
            let all = final_instructions(place, signer, tx, priority_fee, account_exists);
            let came = tx.body.instructions[at];
            let keep = |compiled: CompiledInstructionView|
                tx.body.account_keys[compiled.program_id_index as int] != Pubkey(
                    COMPUTE_BUDGET_ID,
                );
            let sent = 1 + tx.body.instructions.take(at).filter(keep).len() as int;
            let marks = if account_exists {
                1int
            } else {
                2
            };
            &&& all.len() == 1 + tx.body.instructions.filter(keep).len() + marks
            &&& 0 < sent < all.len() - marks
            &&& all[0] == unit_price_instruction(priority_fee)
            &&& all[sent].program_id == tx.body.account_keys[came.program_id_index as int]
            &&& all[sent].data == came.data
            &&& all[sent].accounts.len() == came.accounts.len()
            &&& forall|j: int|
                0 <= j < came.accounts.len() ==> (#[trigger] all[sent].accounts[j]).pubkey
                    == tx.body.account_keys[came.accounts[j] as int]
            &&& all.last().data == sha256(encode_utf8(tx.rendering))
        }),
{
    let id = sha256(encode_utf8(tx.rendering));
    let marking = marking_instructions(place, signer, id, account_exists, 897_840);
    law_marking_calls_the_program_last(place, signer, id, account_exists, 897_840);
    law_instructions_are_sent_as_they_came(tx.body, priority_fee, marking, at);
    law_copies_share_their_mark(place, signer, tx, priority_fee, account_exists);
}

/// The copy of a transaction is the one that is made of its instructions and the
/// blockhash; where it is not, the deduplication or the making of it failed.
pub proof fn law_copy_is_made_of_its_instructions(
    keypair: Seq<u8>,
    tx: VersionedTransactionView,
    blockhash: Blockhash,
    priority_fee: u64,
    program_id: Option<Seq<char>>,
    account_exists: bool,
)
    ensures
        ({
            let signer = public_key(keypair);
            let copy = final_copy(keypair, tx, blockhash, priority_fee, program_id, account_exists);
            match target(program_id, signer, sha256(encode_utf8(tx.rendering))) {
                Err(error) => copy == Err::<TransactionView, SubmissionErrorView>(
                    SubmissionErrorView::Deduplication(error),
                ),
                Ok(place) => {
                    let made = assembled(
                        keypair,
                        final_instructions(place, signer, tx, priority_fee, account_exists),
                        blockhash,
                    );
                    match made {
                        Ok(transaction) => copy == Ok::<TransactionView, SubmissionErrorView>(
                            transaction,
                        ) && transaction.message.recent_blockhash == blockhash,
                        Err(error) => copy == Err::<TransactionView, SubmissionErrorView>(
                            SubmissionErrorView::Assembly(error),
                        ),
                    }
                },
            }
        }),
{
}

} // verus!
