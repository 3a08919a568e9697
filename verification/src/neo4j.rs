//! What the graph store answers when it is asked for the confirmed changes of a block.

use crate::hash;
use crate::structures::ErrorMsg;
use crate::structures::NodeChange;
use crate::structures::NodeChangeView;
use crate::structures::clone_names;
use vstd::prelude::*;
use vstd::string::*;

verus! {

/// One modification that a confirmed batch made, with the nodes it touched.
#[derive(Debug, PartialEq, Eq)]
pub struct Modification {
    /// The identifiers of the nodes that the modification touched.
    pub node_uuids: Vec<String>,
    /// A summary of the modification for a reader.
    pub description: String,
}

/// The mathematical value of a [`Modification`].
pub struct ModificationView {
    pub node_uuids: Seq<Seq<char>>,
    pub description: Seq<char>,
}

impl View for Modification {
    type V = ModificationView;

    open spec fn view(&self) -> ModificationView {
        ModificationView {
            node_uuids: self.node_uuids.deep_view(),
            description: self.description@,
        }
    }
}

impl DeepView for Modification {
    type V = ModificationView;

    open spec fn deep_view(&self) -> ModificationView {
        self@
    }
}

impl Clone for Modification {
    fn clone(&self) -> (r: Self)
        ensures
            r@ == self@,
    {
        Modification {
            node_uuids: clone_names(&self.node_uuids),
            description: self.description.clone(),
        }
    }
}

/// A copy of `modifications`.
pub fn clone_modifications(modifications: &Vec<Modification>) -> (r: Vec<Modification>)
    ensures
        r.deep_view() == modifications.deep_view(),
{
    let mut out: Vec<Modification> = Vec::new();
    let mut i: usize = 0;
    while i < modifications.len()
        invariant
            i <= modifications.len(),
            out.len() == i,
            forall|j: int| 0 <= j < i ==> out@[j]@ == modifications@[j]@,
        decreases modifications.len() - i,
    {
        out.push(modifications[i].clone());
        i += 1;
    }
    assert(out.deep_view() =~= modifications.deep_view());
    out
}

/// What the store confirms of one batch.
#[derive(Debug, PartialEq, Eq)]
pub enum TransactionResult {
    /// The batch was executed; these are the modifications it made.
    Success { modifications: Vec<Modification> },
    /// The batch failed: the store's message, the query that failed, and the detail of
    /// the error.
    Failure { message: String, failed_query: String, error: String },
}

/// The mathematical value of a [`TransactionResult`].
pub enum TransactionResultView {
    Success { modifications: Seq<ModificationView> },
    Failure { message: Seq<char>, failed_query: Seq<char>, error: Seq<char> },
}

impl View for TransactionResult {
    type V = TransactionResultView;

    open spec fn view(&self) -> TransactionResultView {
        match self {
            TransactionResult::Success { modifications } => TransactionResultView::Success {
                modifications: modifications.deep_view(),
            },
            TransactionResult::Failure {
                message,
                failed_query,
                error,
            } => TransactionResultView::Failure {
                message: message@,
                failed_query: failed_query@,
                error: error@,
            },
        }
    }
}

impl Clone for TransactionResult {
    fn clone(&self) -> (r: Self)
        ensures
            r@ == self@,
    {
        match self {
            TransactionResult::Success { modifications } => TransactionResult::Success {
                modifications: clone_modifications(modifications),
            },
            TransactionResult::Failure {
                message,
                failed_query,
                error,
            } => TransactionResult::Failure {
                message: message.clone(),
                failed_query: failed_query.clone(),
                error: error.clone(),
            },
        }
    }
}

/// The store's confirmation for one batch of a block.
#[derive(Debug, PartialEq, Eq)]
pub struct TransactionChanges {
    /// The identifier of the batch, as hexadecimal text.
    pub transaction_id: String,
    /// What the store confirms of the batch.
    pub result: TransactionResult,
}

/// The mathematical value of a [`TransactionChanges`].
pub struct TransactionChangesView {
    pub transaction_id: Seq<char>,
    pub result: TransactionResultView,
}

impl View for TransactionChanges {
    type V = TransactionChangesView;

    open spec fn view(&self) -> TransactionChangesView {
        TransactionChangesView { transaction_id: self.transaction_id@, result: self.result@ }
    }
}

impl DeepView for TransactionChanges {
    type V = TransactionChangesView;

    open spec fn deep_view(&self) -> TransactionChangesView {
        self@
    }
}

impl Clone for TransactionChanges {
    fn clone(&self) -> (r: Self)
        ensures
            r@ == self@,
    {
        TransactionChanges {
            transaction_id: self.transaction_id.clone(),
            result: self.result.clone(),
        }
    }
}

/// The store's confirmations for the batches of one block, in the store's order.
#[derive(Debug, PartialEq, Eq)]
pub struct BlockChangesResponse {
    pub transactions: Vec<TransactionChanges>,
}

impl View for BlockChangesResponse {
    type V = Seq<TransactionChangesView>;

    open spec fn view(&self) -> Seq<TransactionChangesView> {
        self.transactions.deep_view()
    }
}

impl DeepView for BlockChangesResponse {
    type V = Seq<TransactionChangesView>;

    open spec fn deep_view(&self) -> Seq<TransactionChangesView> {
        self@
    }
}

impl Clone for BlockChangesResponse {
    fn clone(&self) -> (r: Self)
        ensures
            r@ == self@,
    {
        let mut out: Vec<TransactionChanges> = Vec::new();
        let mut i: usize = 0;
        while i < self.transactions.len()
            invariant
                i <= self.transactions.len(),
                out.len() == i,
                forall|j: int| 0 <= j < i ==> out@[j]@ == self.transactions@[j]@,
            decreases self.transactions.len() - i,
        {
            out.push(self.transactions[i].clone());
            i += 1;
        }
        assert(out.deep_view() =~= self.transactions.deep_view());
        BlockChangesResponse { transactions: out }
    }
}

/// What came back when the store was asked for the changes of one block.
#[derive(Debug, PartialEq, Eq)]
pub enum ExecuteResponse {
    /// The confirmations for the block.
    ChangeResponse(BlockChangesResponse),
    /// The store could not be reached, or it answered with a fault.
    Error(ErrorMsg),
}

/// The mathematical value of an [`ExecuteResponse`].
pub enum ExecuteResponseView {
    ChangeResponse(Seq<TransactionChangesView>),
    Error(Seq<char>),
}

impl View for ExecuteResponse {
    type V = ExecuteResponseView;

    open spec fn view(&self) -> ExecuteResponseView {
        match self {
            ExecuteResponse::ChangeResponse(changes) => ExecuteResponseView::ChangeResponse(
                changes@,
            ),
            ExecuteResponse::Error(e) => ExecuteResponseView::Error(e@),
        }
    }
}

impl DeepView for ExecuteResponse {
    type V = ExecuteResponseView;

    open spec fn deep_view(&self) -> ExecuteResponseView {
        self@
    }
}

/// The diagnostic recorded for a failed batch: the store's message, the query that
/// failed, and the detail of the error, each on a line of its own.
pub open spec fn failure_diagnostic(
    message: Seq<char>,
    failed_query: Seq<char>,
    error: Seq<char>,
) -> Seq<char> {
    message + "\nHappened in query: "@ + failed_query + "\n"@ + error
}

/// The diagnostic of a failed batch is never empty, and holds the store's message, the
/// query that failed and the detail of the error, in this order.
pub proof fn lemma_diagnostic_holds_parts(
    message: Seq<char>,
    failed_query: Seq<char>,
    error: Seq<char>,
)
    ensures
        ({
            let d = failure_diagnostic(message, failed_query, error);
            let q: int = message.len() as int + 20;
            &&& d.len() == message.len() + failed_query.len() + error.len() + 21
            &&& d.subrange(0, message.len() as int) == message
            &&& d.subrange(q, q + failed_query.len()) == failed_query
            &&& d.subrange(d.len() - error.len(), d.len() as int) == error
        }),
{
    reveal_strlit("\nHappened in query: ");
    reveal_strlit("\n");
    let d = failure_diagnostic(message, failed_query, error);
    let q: int = message.len() as int + 20;
    assert(d.subrange(0, message.len() as int) =~= message);
    assert(d.subrange(q, q + failed_query.len()) =~= failed_query);
    assert(d.subrange(d.len() - error.len(), d.len() as int) =~= error);
}

/// Composes the diagnostic recorded for a failed batch.
pub fn compose_diagnostic(message: &str, failed_query: &str, error: &str) -> (text: String)
    ensures
        text@ == failure_diagnostic(message@, failed_query@, error@),
{
    let mut text = String::from_str(message);
    text.append("\nHappened in query: ");
    text.append(failed_query);
    text.append("\n");
    text.append(error);
    text
}

/// The changes that the modifications `modifications` of the batch `transaction_id` stand
/// for: one for each modification, in their order.
pub open spec fn node_changes(
    modifications: Seq<ModificationView>,
    transaction_id: Seq<u8>,
) -> Seq<NodeChangeView> {
    Seq::new(
        modifications.len(),
        |i: int|
            NodeChangeView {
                uuids: modifications[i].node_uuids,
                description: modifications[i].description,
                transaction_id,
            },
    )
}

/// Derives the changes to record from the modifications that the store confirmed for the
/// batch `transaction_id`.
pub fn generate_database_changes(
    modifications: &Vec<Modification>,
    transaction_id: &hash::Hash,
) -> (changes: Vec<NodeChange>)
    ensures
        changes.deep_view() == node_changes(modifications.deep_view(), transaction_id@),
{
    let mut out: Vec<NodeChange> = Vec::new();
    let mut i: usize = 0;
    while i < modifications.len()
        invariant
            i <= modifications.len(),
            out.len() == i,
            forall|j: int|
                0 <= j < i ==> out@[j]@ == node_changes(
                    modifications.deep_view(),
                    transaction_id@,
                )[j],
        decreases modifications.len() - i,
    {
        let m = &modifications[i];
        out.push(
            NodeChange {
                uuids: clone_names(&m.node_uuids),
                description: m.description.clone(),
                transaction_id: *transaction_id,
            },
        );
        i += 1;
    }
    assert(out.deep_view() =~= node_changes(modifications.deep_view(), transaction_id@));
    out
}

} // verus!
