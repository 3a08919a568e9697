//! The two operations on the ledger: the submission of a batch of queries, and the audit
//! that brings the ledger up to date with what the graph store has confirmed.

use crate::hash;
use crate::hash::parsed_hash;
use crate::neo4j::BlockChangesResponse;
use crate::neo4j::ExecuteResponse;
use crate::neo4j::ExecuteResponseView;
use crate::neo4j::TransactionChanges;
use crate::neo4j::TransactionChangesView;
use crate::neo4j::TransactionResult;
use crate::neo4j::TransactionResultView;
use crate::neo4j::compose_diagnostic;
use crate::neo4j::failure_diagnostic;
use crate::neo4j::generate_database_changes;
use crate::neo4j::node_changes;
use crate::schema::LedgerState;
use crate::schema::Schema;
use crate::structures::ErrorMsg;
use crate::structures::Neo4jTransaction;
use crate::structures::Neo4jTransactionView;
use crate::structures::NodeChange;
use crate::structures::NodeChangeView;
use crate::structures::PublicKey;
use crate::structures::Resolution;
use crate::structures::ResolutionView;
use crate::structures::TransactionStatus;
use vstd::prelude::*;
use vstd::string::*;

verus! {

/// The storage after `change` is appended to the history of each of `nodes`, in their
/// order.
pub open spec fn with_change_at(
    st: LedgerState,
    nodes: Seq<Seq<char>>,
    change: NodeChangeView,
) -> LedgerState
    decreases nodes.len(),
{
    if nodes.len() == 0 {
        st
    } else {
        with_change_at(st, nodes.drop_last(), change).append_history(nodes.last(), change)
    }
}

/// The storage after `change` is appended to the history of each node it touched.
pub open spec fn with_change(st: LedgerState, change: NodeChangeView) -> LedgerState {
    with_change_at(st, change.affected(), change)
}

/// The storage after each of `changes`, in their order, is appended to the history of the
/// nodes it touched.
pub open spec fn with_changes(st: LedgerState, changes: Seq<NodeChangeView>) -> LedgerState
    decreases changes.len(),
{
    if changes.len() == 0 {
        st
    } else {
        with_change(with_changes(st, changes.drop_last()), changes.last())
    }
}

/// The storage after the store's confirmation `tc` for one batch is applied.
///
/// A confirmation whose identifier is no hash, or names no recorded batch, or names a
/// batch that is resolved already, changes nothing. A success appends the changes it
/// stands for to the history and resolves the record as succeeded; a failure resolves the
/// record as failed, with the composed diagnostic.
pub open spec fn after_transaction(st: LedgerState, tc: TransactionChangesView) -> LedgerState {
    match parsed_hash(tc.transaction_id) {
        Some(id) => match st.record_of(id) {
            Some(record) => if record.is_pending() {
                match tc.result {
                    TransactionResultView::Success { modifications } => with_changes(
                        st,
                        node_changes(modifications, id),
                    ).resolve(id, ResolutionView::Success),
                    TransactionResultView::Failure { message, failed_query, error } => st.resolve(
                        id,
                        ResolutionView::Error(failure_diagnostic(message, failed_query, error)),
                    ),
                }
            } else {
                st
            },
            None => st,
        },
        None => st,
    }
}

/// The storage after the confirmations of one block are applied, in the store's order.
pub open spec fn after_block(st: LedgerState, block: Seq<TransactionChangesView>) -> LedgerState
    decreases block.len(),
{
    if block.len() == 0 {
        st
    } else {
        after_transaction(after_block(st, block.drop_last()), block.last())
    }
}

/// The storage after the confirmations of `blocks` are applied, block by block.
pub open spec fn after_blocks(
    st: LedgerState,
    blocks: Seq<Seq<TransactionChangesView>>,
) -> LedgerState
    decreases blocks.len(),
{
    if blocks.len() == 0 {
        st
    } else {
        after_block(after_blocks(st, blocks.drop_last()), blocks.last())
    }
}

/// Appends `change` to the history of each node it touched.
pub fn record_change(schema: &mut Schema, change: &NodeChange)
    ensures
        final(schema)@ == with_change(old(schema)@, change@),
{
    let nodes = change.get_uuis();
    let mut i: usize = 0;
    while i < nodes.len()
        invariant
            i <= nodes.len(),
            nodes.deep_view() == change@.affected(),
            schema@ == with_change_at(
                old(schema)@,
                nodes.deep_view().subrange(0, i as int),
                change@,
            ),
        decreases nodes.len() - i,
    {
        let ghost next = nodes.deep_view().subrange(0, i + 1);
        assert(next.drop_last() =~= nodes.deep_view().subrange(0, i as int));
        assert(next.last() == nodes@[i as int]@);
        schema.add_node_history(nodes[i].as_str(), change);
        i += 1;
    }
    assert(nodes.deep_view().subrange(0, i as int) =~= nodes.deep_view());
}

/// Appends each of `changes`, in their order, to the history of the nodes it touched.
pub fn record_changes(schema: &mut Schema, changes: &Vec<NodeChange>)
    ensures
        final(schema)@ == with_changes(old(schema)@, changes.deep_view()),
{
    let mut i: usize = 0;
    while i < changes.len()
        invariant
            i <= changes.len(),
            schema@ == with_changes(old(schema)@, changes.deep_view().subrange(0, i as int)),
        decreases changes.len() - i,
    {
        let ghost next = changes.deep_view().subrange(0, i + 1);
        assert(next.drop_last() =~= changes.deep_view().subrange(0, i as int));
        assert(next.last() == changes@[i as int]@);
        record_change(schema, &changes[i]);
        i += 1;
    }
    assert(changes.deep_view().subrange(0, i as int) =~= changes.deep_view());
}

/// Applies the store's confirmation for one batch.
pub fn apply_transaction(schema: &mut Schema, tc: &TransactionChanges)
    ensures
        final(schema)@ == after_transaction(old(schema)@, tc@),
{
    match hash::Hash::from_hex(tc.transaction_id.as_str()) {
        Ok(id) => {
            match schema.neo4j_transaction(&id) {
                Some(record) => {
                    if record.status() == TransactionStatus::Pending {
                        match &tc.result {
                            TransactionResult::Success { modifications } => {
                                let changes = generate_database_changes(modifications, &id);
                                record_changes(schema, &changes);
                                schema.update_neo4j_transaction(&id, Resolution::Success);
                            },
                            TransactionResult::Failure { message, failed_query, error } => {
                                let diagnostic = compose_diagnostic(
                                    message.as_str(),
                                    failed_query.as_str(),
                                    error.as_str(),
                                );
                                schema.update_neo4j_transaction(
                                    &id,
                                    Resolution::Error(diagnostic),
                                );
                            },
                        }
                    }
                },
                None => {},
            }
        },
        Err(_) => {},
    }
}

/// Applies the store's confirmations for one block, in the store's order.
pub fn apply_block(schema: &mut Schema, block: &BlockChangesResponse)
    ensures
        final(schema)@ == after_block(old(schema)@, block@),
{
    let mut i: usize = 0;
    while i < block.transactions.len()
        invariant
            i <= block.transactions.len(),
            schema@ == after_block(old(schema)@, block@.subrange(0, i as int)),
        decreases block.transactions.len() - i,
    {
        let ghost next = block@.subrange(0, i + 1);
        assert(next.drop_last() =~= block@.subrange(0, i as int));
        assert(next.last() == block.transactions@[i as int]@);
        apply_transaction(schema, &block.transactions[i]);
        i += 1;
    }
    assert(block@.subrange(0, i as int) =~= block@);
}

/// `later` is what reconciliation can make of `earlier`: the same batches in the same order,
/// each with its text and its submitter, every batch that was resolved exactly as it was;
/// the same relationships, audited blocks and checkpoint; and a history that has only grown
/// at its end.
pub open spec fn reconciled_from(earlier: LedgerState, later: LedgerState) -> bool {
    &&& later.transactions.len() == earlier.transactions.len()
    &&& forall|i: int|
        #![trigger earlier.transactions[i]]
        #![trigger later.transactions[i]]
        0 <= i < earlier.transactions.len() ==> {
            &&& later.transactions[i].id == earlier.transactions[i].id
            &&& later.transactions[i].record.queries == earlier.transactions[i].record.queries
            &&& later.transactions[i].record.pub_key == earlier.transactions[i].record.pub_key
            &&& !earlier.transactions[i].record.is_pending() ==> later.transactions[i]
                == earlier.transactions[i]
        }
    &&& later.relations == earlier.relations
    &&& later.audited == earlier.audited
    &&& later.checkpoint == earlier.checkpoint
    &&& earlier.history.is_prefix_of(later.history)
}

/// Reconciliation keeps the identifiers, so every batch is found where it was.
pub proof fn lemma_reconciled_ids(earlier: LedgerState, later: LedgerState)
    requires
        reconciled_from(earlier, later),
    ensures
        later.ids() == earlier.ids(),
        forall|id: Seq<u8>| later.position(id) == earlier.position(id),
{
    assert(later.ids() =~= earlier.ids());
}

/// Reconciliation after reconciliation is reconciliation.
pub proof fn lemma_reconciled_trans(a: LedgerState, b: LedgerState, c: LedgerState)
    requires
        reconciled_from(a, b),
        reconciled_from(b, c),
    ensures
        reconciled_from(a, c),
{
}

/// Resolving a batch is reconciliation.
pub proof fn lemma_resolve(st: LedgerState, id: Seq<u8>, resolution: ResolutionView)
    ensures
        reconciled_from(st, st.resolve(id, resolution)),
{
    st.ids().index_of_first_ensures(id);
}

/// Appending a change to histories is reconciliation, and leaves every record alone.
pub proof fn lemma_with_change_at(st: LedgerState, nodes: Seq<Seq<char>>, change: NodeChangeView)
    ensures
        reconciled_from(st, with_change_at(st, nodes, change)),
        with_change_at(st, nodes, change).transactions == st.transactions,
    decreases nodes.len(),
{
    if nodes.len() > 0 {
        lemma_with_change_at(st, nodes.drop_last(), change);
    }
}

/// Appending changes to histories is reconciliation, and leaves every record alone.
pub proof fn lemma_with_changes(st: LedgerState, changes: Seq<NodeChangeView>)
    ensures
        reconciled_from(st, with_changes(st, changes)),
        with_changes(st, changes).transactions == st.transactions,
    decreases changes.len(),
{
    if changes.len() > 0 {
        let before = with_changes(st, changes.drop_last());
        lemma_with_changes(st, changes.drop_last());
        lemma_with_change_at(before, changes.last().affected(), changes.last());
    }
}

/// Reconciliation keeps the ledger well-formed.
pub proof fn lemma_reconciled_keeps_wf(earlier: LedgerState, later: LedgerState)
    requires
        reconciled_from(earlier, later),
        earlier.wf(),
    ensures
        later.wf(),
{
    lemma_reconciled_ids(earlier, later);
    assert(later.relation_keys() =~= earlier.relation_keys());
}

/// Applying one confirmation is reconciliation.
pub proof fn lemma_after_transaction(st: LedgerState, tc: TransactionChangesView)
    ensures
        reconciled_from(st, after_transaction(st, tc)),
{
    match parsed_hash(tc.transaction_id) {
        Some(id) => {
            match tc.result {
                TransactionResultView::Success { modifications } => {
                    let changed = with_changes(st, node_changes(modifications, id));
                    lemma_with_changes(st, node_changes(modifications, id));
                    lemma_resolve(changed, id, ResolutionView::Success);
                    lemma_reconciled_trans(
                        st,
                        changed,
                        changed.resolve(id, ResolutionView::Success),
                    );
                },
                TransactionResultView::Failure { message, failed_query, error } => {
                    lemma_resolve(
                        st,
                        id,
                        ResolutionView::Error(failure_diagnostic(message, failed_query, error)),
                    );
                },
            }
        },
        None => {},
    }
}

/// Applying the confirmations of a block is reconciliation.
pub proof fn lemma_after_block(st: LedgerState, block: Seq<TransactionChangesView>)
    ensures
        reconciled_from(st, after_block(st, block)),
    decreases block.len(),
{
    if block.len() > 0 {
        let before = after_block(st, block.drop_last());
        lemma_after_block(st, block.drop_last());
        lemma_after_transaction(before, block.last());
        lemma_reconciled_trans(st, before, after_transaction(before, block.last()));
    }
}

/// Applying the confirmations of several blocks is reconciliation.
pub proof fn lemma_after_blocks(st: LedgerState, blocks: Seq<Seq<TransactionChangesView>>)
    ensures
        reconciled_from(st, after_blocks(st, blocks)),
    decreases blocks.len(),
{
    if blocks.len() > 0 {
        let before = after_blocks(st, blocks.drop_last());
        lemma_after_blocks(st, blocks.drop_last());
        lemma_after_block(before, blocks.last());
        lemma_reconciled_trans(st, before, after_block(before, blocks.last()));
    }
}

/// The faults that an operation on the ledger reports.
#[derive(Debug, PartialEq, Eq)]
pub enum Error {
    /// The ledger's own data does not fit together.
    DataBaseError(ErrorMsg),
    /// The graph store could not be reached, or it answered with a fault.
    PossibleConnectionError(ErrorMsg),
}

/// The mathematical value of an [`Error`].
pub enum ErrorView {
    DataBaseError(Seq<char>),
    PossibleConnectionError(Seq<char>),
}

impl View for Error {
    type V = ErrorView;

    open spec fn view(&self) -> ErrorView {
        match self {
            Error::DataBaseError(e) => ErrorView::DataBaseError(e@),
            Error::PossibleConnectionError(e) => ErrorView::PossibleConnectionError(e@),
        }
    }
}

/// A fault as the host of the ledger is told of it: a code and a description.
#[derive(Debug, PartialEq, Eq)]
pub struct ExecutionError {
    pub code: u8,
    pub description: String,
}

/// The mathematical value of an [`ExecutionError`].
pub struct ExecutionErrorView {
    pub code: u8,
    pub description: Seq<char>,
}

impl View for ExecutionError {
    type V = ExecutionErrorView;

    open spec fn view(&self) -> ExecutionErrorView {
        ExecutionErrorView { code: self.code, description: self.description@ }
    }
}

/// What the host is told of the fault `e`.
pub open spec fn execution_error_of(e: ErrorView) -> ExecutionErrorView {
    match e {
        ErrorView::DataBaseError(msg) => ExecutionErrorView {
            code: 1,
            description: "Database error: "@ + msg,
        },
        ErrorView::PossibleConnectionError(msg) => ExecutionErrorView {
            code: 2,
            description: "Possible connection error: "@ + msg,
        },
    }
}

impl ExecutionError {
    /// An error with the given code and description.
    pub fn with_description(code: u8, description: String) -> (e: ExecutionError)
        ensures
            e@ == (ExecutionErrorView { code, description: description@ }),
    {
        ExecutionError { code, description }
    }

    /// What the host is told of the fault `value`.
    pub fn from(value: Error) -> (e: ExecutionError)
        ensures
            e@ == execution_error_of(value@),
    {
        match value {
            Error::DataBaseError(error) => {
                let description = String::from_str("Database error: ").concat(error.msg());
                ExecutionError::with_description(1, description)
            },
            Error::PossibleConnectionError(error) => {
                let description = String::from_str("Possible connection error: ").concat(
                    error.msg(),
                );
                ExecutionError::with_description(2, description)
            },
        }
    }

    /// What the host is told of a fault that is known by its message alone.
    pub fn from_msg(error: ErrorMsg) -> (e: ExecutionError)
        ensures
            e@ == (ExecutionErrorView { code: 1, description: error@ }),
    {
        ExecutionError::with_description(1, String::from_str(error.msg()))
    }
}

/// The submission of a batch of queries.
#[derive(Debug, PartialEq, Eq)]
pub struct CommitQueries {
    /// The text of the batch.
    pub queries: String,
    /// Who submits the batch.
    pub pub_key: PublicKey,
    /// The identifier of the submission: the hash of its content.
    pub hash: hash::Hash,
}

impl CommitQueries {
    /// The submission of `queries` by `pub_key`, identified by `hash`.
    pub fn new(queries: &str, pub_key: PublicKey, hash: hash::Hash) -> (tx: CommitQueries)
        ensures
            tx.queries@ == queries@,
            tx.pub_key == pub_key,
            tx.hash == hash,
    {
        CommitQueries { queries: String::from_str(queries), pub_key, hash }
    }

    /// The identifier of the submission.
    pub fn hash(&self) -> (h: hash::Hash)
        ensures
            h == self.hash,
    {
        self.hash
    }

    /// The record that the submission leaves on the ledger: pending.
    pub open spec fn record(&self) -> Neo4jTransactionView {
        Neo4jTransactionView {
            queries: self.queries@,
            pub_key: self.pub_key@,
            resolution: ResolutionView::Pending,
        }
    }

    /// Every submission is acceptable to the ledger: the store judges the queries.
    pub fn verify(&self) -> (ok: bool)
        ensures
            ok,
    {
        true
    }

    /// Records the batch as pending, as the newest entry. A submission that is recorded
    /// already changes nothing. There is no fault to report.
    pub fn execute(&self, schema: &mut Schema) -> (r: Result<(), ExecutionError>)
        ensures
            r is Ok,
            final(schema)@ == old(schema)@.submit(self.hash@, self.record()),
            old(schema)@.wf() ==> final(schema)@.wf(),
    {
        let q = Neo4jTransaction::new(self.queries.as_str(), self.pub_key);
        schema.add_neo4j_transaction(q, &self.hash);
        Ok(())
    }
}

/// The height of the first block that is not reconciled yet: the one after the
/// checkpoint, or the first of all where there is no checkpoint. None where the
/// checkpoint is no block of the chain.
pub open spec fn first_unaudited(st: LedgerState, chain: Seq<Seq<u8>>) -> Option<int> {
    match st.checkpoint {
        None => Some(0),
        Some(block) => match chain.index_of_first(block) {
            Some(height) => Some(height + 1),
            None => None,
        },
    }
}

/// The number of replies before the first that is a fault.
pub open spec fn leading_changes(replies: Seq<ExecuteResponseView>) -> nat
    decreases replies.len(),
{
    if replies.len() == 0 || replies[0] is Error {
        0
    } else {
        1 + leading_changes(replies.drop_first())
    }
}

/// The number of blocks that one run can ask the store for: those from `start` to the end
/// of the chain, and no more than `max_blocks`.
pub open spec fn blocks_in_reach(start: int, chain_len: int, max_blocks: int) -> int {
    if chain_len - start <= max_blocks {
        chain_len - start
    } else {
        max_blocks
    }
}

/// The number of blocks that one run reconciles: those in reach, up to the first for which
/// the store's reply is missing or a fault.
pub open spec fn blocks_in_run(
    start: int,
    chain_len: int,
    replies: Seq<ExecuteResponseView>,
    max_blocks: int,
) -> int {
    if leading_changes(replies) <= blocks_in_reach(start, chain_len, max_blocks) {
        leading_changes(replies) as int
    } else {
        blocks_in_reach(start, chain_len, max_blocks)
    }
}

/// The confirmations of the first `n` replies.
pub open spec fn accepted_changes(
    replies: Seq<ExecuteResponseView>,
    n: int,
) -> Seq<Seq<TransactionChangesView>> {
    Seq::new(n as nat, |i: int| replies[i]->ChangeResponse_0)
}

/// The storage with the checkpoint moved over `reconciled` blocks, where there are that
/// many after it; unchanged where `reconciled` is 0.
pub open spec fn after_checkpoint(
    st: LedgerState,
    chain: Seq<Seq<u8>>,
    reconciled: int,
) -> LedgerState {
    match first_unaudited(st, chain) {
        Some(start) => if 0 < reconciled && start + reconciled <= chain.len() {
            st.confirm(chain[start + reconciled - 1])
        } else {
            st
        },
        None => st,
    }
}

/// The storage after one audit run over the chain `chain`, where `replies[i]` is what the
/// store answered for the block `i` places after the first unreconciled one.
///
/// Where the checkpoint is no block of the chain, nothing changes. Else the confirmations
/// of the blocks of this run are applied in ascending height, and the checkpoint moves to
/// the last of them.
pub open spec fn after_audit(
    st: LedgerState,
    chain: Seq<Seq<u8>>,
    replies: Seq<ExecuteResponseView>,
    max_blocks: int,
) -> LedgerState {
    match first_unaudited(st, chain) {
        Some(start) => {
            let n = blocks_in_run(start, chain.len() as int, replies, max_blocks);
            after_checkpoint(after_blocks(st, accepted_changes(replies, n)), chain, n)
        },
        None => st,
    }
}

/// The store's fault that stops a run before the last block in its reach, if one does.
pub open spec fn interruption(
    start: int,
    chain_len: int,
    replies: Seq<ExecuteResponseView>,
    max_blocks: int,
) -> Option<Seq<char>> {
    let n = blocks_in_run(start, chain_len, replies, max_blocks);
    if n < blocks_in_reach(start, chain_len, max_blocks) && n < replies.len() {
        match replies[n] {
            ExecuteResponseView::Error(msg) => Some(msg),
            ExecuteResponseView::ChangeResponse(_) => None,
        }
    } else {
        None
    }
}

/// The message of the fault that the checkpoint is no block of the chain.
pub open spec fn missing_block_message() -> Seq<char> {
    "the last confirmed block is not in the ledger"@
}

/// `leading_changes` is the first place where a reply is missing or a fault.
pub proof fn lemma_leading_changes(replies: Seq<ExecuteResponseView>, n: int)
    requires
        0 <= n <= replies.len(),
        forall|j: int| 0 <= j < n ==> replies[j] is ChangeResponse,
    ensures
        n <= leading_changes(replies) <= replies.len(),
        n == replies.len() || replies[n] is Error ==> leading_changes(replies) == n,
    decreases replies.len(),
{
    if replies.len() > 0 && replies[0] is ChangeResponse {
        let rest = replies.drop_first();
        if n > 0 {
            assert forall|j: int| 0 <= j < n - 1 implies rest[j] is ChangeResponse by {
                assert(rest[j] == replies[j + 1]);
            }
            lemma_leading_changes(rest, n - 1);
            if n < replies.len() {
                assert(rest[n - 1] == replies[n]);
            }
        } else {
            lemma_leading_changes(rest, 0);
        }
    }
}

/// What one audit run did.
#[derive(Debug, PartialEq, Eq)]
pub struct AuditReport {
    /// The height of the first block that the run had to reconcile.
    pub first_block: usize,
    /// The number of blocks that the run reconciled.
    pub blocks_reconciled: usize,
    /// The store's fault that stopped the run before the last block in its reach, if one
    /// did.
    pub interrupted: Option<Error>,
}

/// The audit: the operation that reconciles the ledger with the graph store.
#[derive(Clone, Copy, Debug, PartialEq, Eq)]
pub struct AuditBlocks {
    /// The largest number of blocks that one run reconciles.
    pub max_blocks: usize,
}

/// Where `block` stands in `block_hashes`, if it is one of them.
pub fn find_block(block_hashes: &Vec<hash::Hash>, block: &hash::Hash) -> (r: Option<usize>)
    ensures
        match r {
            Some(height) => block_hashes.deep_view().index_of_first(block@) == Some(
                height as int,
            ) && height < block_hashes.len(),
            None => block_hashes.deep_view().index_of_first(block@) is None,
        },
{
    let mut i: usize = 0;
    while i < block_hashes.len()
        invariant
            i <= block_hashes.len(),
            forall|j: int| 0 <= j < i ==> block_hashes.deep_view()[j] != block@,
        decreases block_hashes.len() - i,
    {
        if block_hashes[i].same(block) {
            proof {
                block_hashes.deep_view().index_of_first_ensures(block@);
                assert(block_hashes.deep_view()[i as int] == block@);
            }
            return Some(i);
        }
        i += 1;
    }
    proof {
        block_hashes.deep_view().index_of_first_ensures(block@);
    }
    None
}

impl AuditBlocks {
    /// An audit that reconciles at most `max_blocks` blocks in one run.
    pub fn new(max_blocks: usize) -> (audit: AuditBlocks)
        ensures
            audit.max_blocks == max_blocks,
    {
        AuditBlocks { max_blocks }
    }

    /// An audit is always acceptable to the ledger.
    pub fn verify(&self) -> (ok: bool)
        ensures
            ok,
    {
        true
    }

    /// The height of the first block that is not reconciled yet, in the chain whose blocks
    /// are `block_hashes` by height. Reports the fault that the checkpoint is no block of
    /// the chain.
    pub fn first_block_to_audit(&self, schema: &Schema, block_hashes: &Vec<hash::Hash>) -> (r:
        Result<usize, Error>)
        ensures
            match r {
                Ok(start) => first_unaudited(schema@, block_hashes.deep_view()) == Some(
                    start as int,
                ) && start <= block_hashes.len(),
                Err(e) => first_unaudited(schema@, block_hashes.deep_view()) is None && e@
                    == ErrorView::DataBaseError(missing_block_message()),
            },
    {
        match schema.get_last_confirmed_block() {
            Some(block) => match find_block(block_hashes, &block) {
                Some(height) => Ok(height + 1),
                None => Err(
                    Error::DataBaseError(
                        ErrorMsg::new("the last confirmed block is not in the ledger"),
                    ),
                ),
            },
            None => Ok(0),
        }
    }

    /// The blocks that this run has to ask the store about, in ascending height: those
    /// after the checkpoint, and no more than the run may reconcile.
    pub fn blocks_to_audit(&self, schema: &Schema, block_hashes: &Vec<hash::Hash>) -> (r: Result<
        Vec<hash::Hash>,
        Error,
    >)
        ensures
            match r {
                Ok(blocks) => first_unaudited(schema@, block_hashes.deep_view()) matches Some(
                    start,
                ) && blocks.deep_view() == block_hashes.deep_view().subrange(
                    start,
                    start + blocks_in_reach(
                        start,
                        block_hashes.len() as int,
                        self.max_blocks as int,
                    ),
                ),
                Err(e) => first_unaudited(schema@, block_hashes.deep_view()) is None && e@
                    == ErrorView::DataBaseError(missing_block_message()),
            },
    {
        let start = match self.first_block_to_audit(schema, block_hashes) {
            Ok(start) => start,
            Err(e) => {
                return Err(e);
            },
        };
        let reach = if block_hashes.len() - start <= self.max_blocks {
            block_hashes.len() - start
        } else {
            self.max_blocks
        };
        let mut out: Vec<hash::Hash> = Vec::new();
        let mut i: usize = 0;
        while i < reach
            invariant
                i <= reach,
                start + reach <= block_hashes.len(),
                out.len() == i,
                forall|j: int| 0 <= j < i ==> out@[j]@ == block_hashes@[start + j]@,
            decreases reach - i,
        {
            out.push(block_hashes[start + i]);
            i += 1;
        }
        assert(out.deep_view() =~= block_hashes.deep_view().subrange(
            start as int,
            start + reach,
        ));
        Ok(out)
    }

    /// Where this run starts and how many blocks it reconciles, given the store's replies.
    fn plan(
        &self,
        schema: &Schema,
        block_hashes: &Vec<hash::Hash>,
        replies: &Vec<ExecuteResponse>,
    ) -> (r: Result<(usize, usize), Error>)
        ensures
            match r {
                Ok((start, n)) => {
                    &&& first_unaudited(schema@, block_hashes.deep_view()) == Some(start as int)
                    &&& n == blocks_in_run(
                        start as int,
                        block_hashes.len() as int,
                        replies.deep_view(),
                        self.max_blocks as int,
                    )
                    &&& start + n <= block_hashes.len()
                    &&& n <= replies.len()
                    &&& forall|j: int| 0 <= j < n ==> replies@[j] is ChangeResponse
                },
                Err(e) => first_unaudited(schema@, block_hashes.deep_view()) is None && e@
                    == ErrorView::DataBaseError(missing_block_message()),
            },
    {
        let start = match self.first_block_to_audit(schema, block_hashes) {
            Ok(start) => start,
            Err(e) => {
                return Err(e);
            },
        };
        let reach = if block_hashes.len() - start <= self.max_blocks {
            block_hashes.len() - start
        } else {
            self.max_blocks
        };
        let mut n: usize = 0;
        while n < reach && n < replies.len() && is_change_response(&replies[n])
            invariant
                n <= reach,
                n <= replies.len(),
                forall|j: int| 0 <= j < n ==> replies@[j] is ChangeResponse,
            decreases replies.len() - n,
        {
            n += 1;
        }
        proof {
            assert forall|j: int| 0 <= j < n implies replies.deep_view()[j] is ChangeResponse by {
                assert(replies.deep_view()[j] == replies@[j]@);
            }
            lemma_leading_changes(replies.deep_view(), n as int);
            if n < replies.len() {
                assert(replies.deep_view()[n as int] == replies@[n as int]@);
            }
        }
        Ok((start, n))
    }

    /// Takes from the store's replies the confirmations that this run applies: those of the
    /// blocks in its reach, in ascending height, up to the first block for which the reply
    /// is missing or a fault. `replies[i]` is the reply for the block `i` places after the
    /// first unreconciled one.
    pub fn retrieve_changes_from_neo4j(
        &self,
        schema: &Schema,
        block_hashes: &Vec<hash::Hash>,
        replies: &Vec<ExecuteResponse>,
    ) -> (r: Result<Vec<BlockChangesResponse>, Error>)
        ensures
            match r {
                Ok(changes) => first_unaudited(schema@, block_hashes.deep_view()) matches Some(
                    start,
                ) && changes.deep_view() == accepted_changes(
                    replies.deep_view(),
                    blocks_in_run(
                        start,
                        block_hashes.len() as int,
                        replies.deep_view(),
                        self.max_blocks as int,
                    ),
                ),
                Err(e) => first_unaudited(schema@, block_hashes.deep_view()) is None && e@
                    == ErrorView::DataBaseError(missing_block_message()),
            },
    {
        let (start, n) = match self.plan(schema, block_hashes, replies) {
            Ok(p) => p,
            Err(e) => {
                return Err(e);
            },
        };
        let mut out: Vec<BlockChangesResponse> = Vec::new();
        let mut i: usize = 0;
        while i < n
            invariant
                i <= n,
                n <= replies.len(),
                forall|j: int| 0 <= j < n ==> replies@[j] is ChangeResponse,
                out.len() == i,
                forall|j: int| 0 <= j < i ==> out@[j]@ == replies@[j]@->ChangeResponse_0,
            decreases n - i,
        {
            match &replies[i] {
                ExecuteResponse::ChangeResponse(changes) => {
                    out.push(changes.clone());
                },
                ExecuteResponse::Error(_) => {},
            }
            i += 1;
        }
        assert(out.deep_view() =~= accepted_changes(replies.deep_view(), n as int));
        Ok(out)
    }

    /// Applies the confirmations of the blocks `changes_per_block`, block by block, each in
    /// the store's order.
    pub fn add_changes_to_exonum(
        &self,
        schema: &mut Schema,
        changes_per_block: &Vec<BlockChangesResponse>,
    )
        ensures
            final(schema)@ == after_blocks(old(schema)@, changes_per_block.deep_view()),
            old(schema)@.wf() ==> final(schema)@.wf(),
    {
        proof {
            if schema@.wf() {
                lemma_after_blocks(schema@, changes_per_block.deep_view());
                lemma_reconciled_keeps_wf(
                    schema@,
                    after_blocks(schema@, changes_per_block.deep_view()),
                );
            }
        }
        let mut i: usize = 0;
        while i < changes_per_block.len()
            invariant
                i <= changes_per_block.len(),
                schema@ == after_blocks(
                    old(schema)@,
                    changes_per_block.deep_view().subrange(0, i as int),
                ),
            decreases changes_per_block.len() - i,
        {
            let ghost next = changes_per_block.deep_view().subrange(0, i + 1);
            assert(next.drop_last() =~= changes_per_block.deep_view().subrange(0, i as int));
            assert(next.last() == changes_per_block@[i as int]@);
            apply_block(schema, &changes_per_block[i]);
            i += 1;
        }
        assert(changes_per_block.deep_view().subrange(0, i as int)
            =~= changes_per_block.deep_view());
    }

    /// Moves the checkpoint over the `reconciled` blocks that follow it in the chain. Where
    /// `reconciled` is 0, or the chain has not that many blocks after the checkpoint, or the
    /// checkpoint is no block of the chain, nothing changes.
    pub fn update_last_block(
        &self,
        schema: &mut Schema,
        block_hashes: &Vec<hash::Hash>,
        reconciled: usize,
    )
        ensures
            final(schema)@ == after_checkpoint(
                old(schema)@,
                block_hashes.deep_view(),
                reconciled as int,
            ),
            old(schema)@.wf() ==> final(schema)@.wf(),
    {
        match self.first_block_to_audit(schema, block_hashes) {
            Ok(start) => {
                if 0 < reconciled && reconciled <= block_hashes.len() - start {
                    schema.set_last_confirmed_block(block_hashes[start + reconciled - 1]);
                }
            },
            Err(_) => {},
        }
    }

    /// Runs the audit on the store's replies: `replies[i]` is what the store answered for
    /// the block `i` places after the first unreconciled one.
    ///
    /// Where the checkpoint is no block of the chain, the fault is reported and nothing
    /// changes. Else the confirmations of the blocks in reach are applied, in ascending
    /// height, up to the first block for which the reply is missing or a fault; the
    /// checkpoint moves to the last block applied; and the report says where the run
    /// started, how many blocks it reconciled, and which fault of the store stopped it.
    pub fn execute(
        &self,
        schema: &mut Schema,
        block_hashes: &Vec<hash::Hash>,
        replies: &Vec<ExecuteResponse>,
    ) -> (r: Result<AuditReport, ExecutionError>)
        ensures
            final(schema)@ == after_audit(
                old(schema)@,
                block_hashes.deep_view(),
                replies.deep_view(),
                self.max_blocks as int,
            ),
            old(schema)@.wf() ==> final(schema)@.wf(),
            match r {
                Ok(report) => {
                    &&& first_unaudited(old(schema)@, block_hashes.deep_view()) == Some(
                        report.first_block as int,
                    )
                    &&& report.blocks_reconciled == blocks_in_run(
                        report.first_block as int,
                        block_hashes.len() as int,
                        replies.deep_view(),
                        self.max_blocks as int,
                    )
                    &&& match report.interrupted {
                        Some(e) => interruption(
                            report.first_block as int,
                            block_hashes.len() as int,
                            replies.deep_view(),
                            self.max_blocks as int,
                        ) matches Some(msg) && e@ == ErrorView::PossibleConnectionError(msg),
                        None => interruption(
                            report.first_block as int,
                            block_hashes.len() as int,
                            replies.deep_view(),
                            self.max_blocks as int,
                        ) is None,
                    }
                },
                Err(e) => {
                    &&& first_unaudited(old(schema)@, block_hashes.deep_view()) is None
                    &&& e@ == execution_error_of(
                        ErrorView::DataBaseError(missing_block_message()),
                    )
                },
            },
    {
        let (start, n) = match self.plan(schema, block_hashes, replies) {
            Ok(p) => p,
            Err(e) => {
                return Err(ExecutionError::from(e));
            },
        };
        let changes = match self.retrieve_changes_from_neo4j(schema, block_hashes, replies) {
            Ok(changes) => changes,
            Err(e) => {
                return Err(ExecutionError::from(e));
            },
        };
        self.add_changes_to_exonum(schema, &changes);
        proof {
            lemma_after_blocks(old(schema)@, changes.deep_view());
        }
        self.update_last_block(schema, block_hashes, n);
        let reach = if block_hashes.len() - start <= self.max_blocks {
            block_hashes.len() - start
        } else {
            self.max_blocks
        };
        let interrupted = if n < reach && n < replies.len() {
            proof {
                assert(replies.deep_view()[n as int] == replies@[n as int]@);
            }
            match &replies[n] {
                ExecuteResponse::Error(e) => Some(Error::PossibleConnectionError(e.clone())),
                ExecuteResponse::ChangeResponse(_) => None,
            }
        } else {
            None
        };
        Ok(AuditReport { first_block: start, blocks_reconciled: n, interrupted })
    }
}

/// Whether `reply` holds confirmations.
pub fn is_change_response(reply: &ExecuteResponse) -> (b: bool)
    ensures
        b == (reply is ChangeResponse),
{
    match reply {
        ExecuteResponse::ChangeResponse(_) => true,
        ExecuteResponse::Error(_) => false,
    }
}

} // verus!
