//! The read operations that are served from a read view of the ledger, and the answer to
//! a submission.

use crate::hash;
use crate::hash::HexError;
use crate::hash::encode_hex;
use crate::hash::parse_outcome;
use crate::hash::parsed_hash;
use crate::schema::Schema;
use crate::structures::Neo4jTransaction;
use crate::structures::NodeChangeView;
use vstd::prelude::*;
use vstd::string::*;

verus! {

/// The answer to a submission: the identifier under which the batch will be recorded, and
/// the fault met when the submission was handed on for ordering, empty if there was none.
#[derive(Debug, PartialEq, Eq)]
pub struct CommitResponse {
    pub tx_hash: hash::Hash,
    pub error_msg: String,
}

/// The answer to a submission that was handed on for ordering.
#[derive(Clone, Copy, Debug, PartialEq, Eq)]
pub struct TransactionResponse {
    pub tx_hash: hash::Hash,
}

/// One line of a node's history: the batch that caused a change, as hexadecimal text, and
/// the summary of the change.
#[derive(Debug, PartialEq, Eq)]
pub struct NodeHistoryLine {
    pub transaction_id: String,
    pub description: String,
}

/// The mathematical value of a [`NodeHistoryLine`].
pub struct NodeHistoryLineView {
    pub transaction_id: Seq<char>,
    pub description: Seq<char>,
}

impl View for NodeHistoryLine {
    type V = NodeHistoryLineView;

    open spec fn view(&self) -> NodeHistoryLineView {
        NodeHistoryLineView {
            transaction_id: self.transaction_id@,
            description: self.description@,
        }
    }
}

impl DeepView for NodeHistoryLine {
    type V = NodeHistoryLineView;

    open spec fn deep_view(&self) -> NodeHistoryLineView {
        self@
    }
}

/// The line that shows `change`.
pub open spec fn history_line(change: NodeChangeView) -> NodeHistoryLineView {
    NodeHistoryLineView {
        transaction_id: encode_hex(change.transaction_id),
        description: change.description,
    }
}

/// Why a batch was not found.
#[derive(Clone, Copy, Debug, PartialEq, Eq)]
pub enum ApiError {
    /// No batch is recorded under the identifier.
    NoQueryFound,
    /// The text given as the identifier is no hash.
    BadHash(HexError),
}

impl ApiError {
    /// The fault in words.
    pub fn message(&self) -> (text: String)
        ensures
            text@ == match *self {
                ApiError::NoQueryFound => "No query found"@,
                ApiError::BadHash(_) => "Error unpacking hash"@,
            },
    {
        match self {
            ApiError::NoQueryFound => String::from_str("No query found"),
            ApiError::BadHash(_) => String::from_str("Error unpacking hash"),
        }
    }
}

/// The read operations on the ledger.
#[derive(Clone, Copy, Debug)]
pub struct Neo4JApi;

impl Neo4JApi {
    /// All recorded batches, in the order of their submission.
    pub fn get_queries(schema: &Schema) -> (r: Vec<Neo4jTransaction>)
        ensures
            r.deep_view() == schema@.records(),
    {
        schema.neo4j_transactions()
    }

    /// The record of the batch whose identifier is `hash_string` in hexadecimal. It is not
    /// found where the text is no hash, and where no batch is recorded under the hash.
    pub fn get_transaction(schema: &Schema, hash_string: &str) -> (r: Result<
        Neo4jTransaction,
        ApiError,
    >)
        ensures
            match r {
                Ok(record) => parsed_hash(hash_string@) matches Some(id) && schema@.record_of(id)
                    == Some(record@),
                Err(ApiError::NoQueryFound) => parsed_hash(hash_string@) matches Some(id)
                    && schema@.record_of(id) is None,
                Err(ApiError::BadHash(e)) => parsed_hash(hash_string@) is None && parse_outcome(
                    hash_string.spec_bytes(),
                    Err(e),
                ),
            },
    {
        match hash::Hash::from_hex(hash_string) {
            Ok(query_hash) => {
                match schema.neo4j_transaction(&query_hash) {
                    Some(x) => Ok(x),
                    None => Err(ApiError::NoQueryFound),
                }
            },
            Err(e) => Err(ApiError::BadHash(e)),
        }
    }

    /// The history of the node `node_uuid`, oldest first, a line for each change; empty
    /// where the node has no history.
    pub fn get_node_history(schema: &Schema, node_uuid: &str) -> (r: Vec<NodeHistoryLine>)
        ensures
            r.deep_view() == schema@.node_history(node_uuid@).map_values(
                |c: NodeChangeView| history_line(c),
            ),
    {
        let changes = schema.node_history(node_uuid);
        let mut values: Vec<NodeHistoryLine> = Vec::new();
        let mut i: usize = 0;
        while i < changes.len()
            invariant
                i <= changes.len(),
                values.len() == i,
                forall|j: int| 0 <= j < i ==> values@[j]@ == history_line(changes@[j]@),
            decreases changes.len() - i,
        {
            let val = &changes[i];
            values.push(
                NodeHistoryLine {
                    transaction_id: val.get_transaction_id().to_hex(),
                    description: String::from_str(val.description()),
                },
            );
            i += 1;
        }
        assert(values.deep_view() =~= changes.deep_view().map_values(
            |c: NodeChangeView| history_line(c),
        ));
        values
    }

    /// The answer to the submission `tx_hash`, given how handing it on for ordering went:
    /// `Err` holds the fault met, in words. The submitter learns the identifier either way.
    pub fn post_transaction(tx_hash: hash::Hash, sent: Result<(), String>) -> (r: CommitResponse)
        ensures
            r.tx_hash == tx_hash,
            r.error_msg@ == match sent {
                Ok(_) => Seq::<char>::empty(),
                Err(err) => "got error: "@ + err@,
            },
    {
        match sent {
            Ok(_) => CommitResponse { tx_hash, error_msg: String::new() },
            Err(err) => CommitResponse {
                tx_hash,
                error_msg: String::from_str("got error: ").concat(err.as_str()),
            },
        }
    }
}

/// The submission endpoint in its plainest form.
#[derive(Clone, Copy, Debug)]
pub struct TestApi;

impl TestApi {
    /// The answer to the submission `tx_hash`, given how handing it on for ordering went:
    /// a fault met there is the answer.
    pub fn post_transaction(tx_hash: hash::Hash, sent: Result<(), String>) -> (r: Result<
        TransactionResponse,
        String,
    >)
        ensures
            match (r, sent) {
                (Ok(response), Ok(_)) => response.tx_hash == tx_hash,
                (Err(e), Err(err)) => e == err,
                _ => false,
            },
    {
        match sent {
            Ok(_) => Ok(TransactionResponse { tx_hash }),
            Err(err) => Err(err),
        }
    }
}

} // verus!
