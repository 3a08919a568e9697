//! What holds of every ledger, whatever is submitted and whatever the store answers.

use crate::hash::parsed_hash;
use crate::neo4j::ExecuteResponseView;
use crate::neo4j::TransactionChangesView;
use crate::neo4j::TransactionResultView;
use crate::neo4j::failure_diagnostic;
use crate::neo4j::node_changes;
use crate::schema::LedgerState;
use crate::schema::lemma_notes_keep_wf;
use crate::structures::ResolutionView;
use crate::transactions::accepted_changes;
use crate::transactions::after_audit;
use crate::transactions::after_block;
use crate::transactions::after_blocks;
use crate::transactions::after_transaction;
use crate::transactions::blocks_in_reach;
use crate::transactions::blocks_in_run;
use crate::transactions::first_unaudited;
use crate::transactions::interruption;
use crate::transactions::leading_changes;
use crate::transactions::lemma_after_block;
use crate::transactions::lemma_after_blocks;
use crate::transactions::lemma_after_transaction;
use crate::transactions::lemma_leading_changes;
use crate::transactions::lemma_reconciled_ids;
use crate::transactions::lemma_reconciled_keeps_wf;
use crate::transactions::lemma_with_changes;
use crate::transactions::reconciled_from;
use crate::transactions::with_changes;
use vstd::prelude::*;

verus! {

/// The confirmation `tc` has nothing left to do on `st`: its identifier is no hash, or
/// names no recorded batch, or names a batch that is resolved.
pub open spec fn settled(st: LedgerState, tc: TransactionChangesView) -> bool {
    match parsed_hash(tc.transaction_id) {
        Some(id) => match st.record_of(id) {
            Some(record) => !record.is_pending(),
            None => true,
        },
        None => true,
    }
}

/// Every confirmation of `block` is settled on `st`.
pub open spec fn block_settled(st: LedgerState, block: Seq<TransactionChangesView>) -> bool {
    forall|k: int| 0 <= k < block.len() ==> settled(st, #[trigger] block[k])
}

/// A record that has taken a confirmation is resolved, and a second confirmation for the
/// same batch, whatever it says, changes nothing.
pub proof fn lemma_resolve_once(
    st: LedgerState,
    id: Seq<u8>,
    first: ResolutionView,
    second: ResolutionView,
)
    requires
        !(first is Pending),
    ensures
        st.resolve(id, first).resolve(id, second) == st.resolve(id, first),
        st.record_of(id) is Some ==> (st.resolve(id, first).record_of(id) matches Some(r)
            && !r.is_pending()),
{
    st.ids().index_of_first_ensures(id);
    let once = st.resolve(id, first);
    assert(once.ids() =~= st.ids());
}

/// A settled confirmation changes nothing.
pub proof fn lemma_settled_is_noop(st: LedgerState, tc: TransactionChangesView)
    requires
        settled(st, tc),
    ensures
        after_transaction(st, tc) == st,
{
}

/// Once a confirmation has been applied it is settled.
pub proof fn lemma_applied_is_settled(st: LedgerState, tc: TransactionChangesView)
    ensures
        settled(after_transaction(st, tc), tc),
{
    match parsed_hash(tc.transaction_id) {
        Some(id) => {
            st.ids().index_of_first_ensures(id);
            match st.record_of(id) {
                Some(record) => {
                    if record.is_pending() {
                        match tc.result {
                            TransactionResultView::Success { modifications } => {
                                let changed = with_changes(st, node_changes(modifications, id));
                                lemma_with_changes(st, node_changes(modifications, id));
                                assert(changed.ids() =~= st.ids());
                                lemma_resolve_once(
                                    changed,
                                    id,
                                    ResolutionView::Success,
                                    ResolutionView::Success,
                                );
                            },
                            TransactionResultView::Failure { message, failed_query, error } => {
                                let r = ResolutionView::Error(
                                    failure_diagnostic(message, failed_query, error),
                                );
                                lemma_resolve_once(st, id, r, r);
                            },
                        }
                    }
                },
                None => {},
            }
        },
        None => {},
    }
}

/// What is settled stays settled through reconciliation.
pub proof fn lemma_settled_stays(
    earlier: LedgerState,
    later: LedgerState,
    tc: TransactionChangesView,
)
    requires
        reconciled_from(earlier, later),
        settled(earlier, tc),
    ensures
        settled(later, tc),
{
    lemma_reconciled_ids(earlier, later);
    match parsed_hash(tc.transaction_id) {
        Some(id) => {
            earlier.ids().index_of_first_ensures(id);
        },
        None => {},
    }
}

/// Applying the same confirmation of the store twice leaves the ledger as applying it
/// once does. The record is the same, and no change is
/// appended to a history a second time.
pub proof fn lemma_transaction_idempotent(st: LedgerState, tc: TransactionChangesView)
    ensures
        after_transaction(after_transaction(st, tc), tc) == after_transaction(st, tc),
{
    lemma_applied_is_settled(st, tc);
    lemma_settled_is_noop(after_transaction(st, tc), tc);
}

/// A block whose confirmations are all settled changes nothing.
pub proof fn lemma_settled_block_is_noop(st: LedgerState, block: Seq<TransactionChangesView>)
    requires
        block_settled(st, block),
    ensures
        after_block(st, block) == st,
    decreases block.len(),
{
    if block.len() > 0 {
        let rest = block.drop_last();
        assert forall|k: int| 0 <= k < rest.len() implies settled(st, #[trigger] rest[k]) by {
            assert(rest[k] == block[k]);
        }
        lemma_settled_block_is_noop(st, rest);
        assert(settled(st, block[block.len() - 1]));
    }
}

/// Once a block has been applied, each of its confirmations is settled.
pub proof fn lemma_applied_block_is_settled(st: LedgerState, block: Seq<TransactionChangesView>)
    ensures
        block_settled(after_block(st, block), block),
    decreases block.len(),
{
    if block.len() > 0 {
        let rest = block.drop_last();
        let before = after_block(st, rest);
        let after = after_transaction(before, block.last());
        lemma_applied_block_is_settled(st, rest);
        lemma_after_transaction(before, block.last());
        lemma_applied_is_settled(before, block.last());
        assert forall|k: int| 0 <= k < block.len() implies settled(after, #[trigger] block[k]) by {
            if k < block.len() - 1 {
                assert(rest[k] == block[k]);
                lemma_settled_stays(before, after, block[k]);
            }
        }
    }
}

/// Applying the confirmations of a block a second time, as happens where the checkpoint
/// was not moved after the first, changes nothing.
pub proof fn lemma_block_idempotent(st: LedgerState, block: Seq<TransactionChangesView>)
    ensures
        after_block(after_block(st, block), block) == after_block(st, block),
{
    lemma_applied_block_is_settled(st, block);
    lemma_settled_block_is_noop(after_block(st, block), block);
}

/// An audit run is reconciliation, except that it may move the checkpoint.
pub proof fn lemma_audit_reconciles(
    st: LedgerState,
    chain: Seq<Seq<u8>>,
    replies: Seq<ExecuteResponseView>,
    max_blocks: int,
)
    ensures
        reconciled_from(
            st,
            LedgerState {
                checkpoint: st.checkpoint,
                ..after_audit(st, chain, replies, max_blocks)
            },
        ),
{
    match first_unaudited(st, chain) {
        Some(start) => {
            let n = blocks_in_run(start, chain.len() as int, replies, max_blocks);
            lemma_after_blocks(st, accepted_changes(replies, n));
        },
        None => {},
    }
}

/// No audit run changes a batch that is resolved. It stands where it
/// stood, under its identifier, with every field as it was. A batch that is still
/// pending keeps its text and its submitter.
pub proof fn lemma_audit_keeps_resolved(
    st: LedgerState,
    chain: Seq<Seq<u8>>,
    replies: Seq<ExecuteResponseView>,
    max_blocks: int,
)
    ensures
        after_audit(st, chain, replies, max_blocks).ids() == st.ids(),
        forall|i: int|
            0 <= i < st.transactions.len() && !st.transactions[i].record.is_pending()
                ==> #[trigger] after_audit(st, chain, replies, max_blocks).transactions[i]
                == st.transactions[i],
        forall|i: int|
            0 <= i < st.transactions.len() ==> {
                &&& (#[trigger] after_audit(
                    st,
                    chain,
                    replies,
                    max_blocks,
                ).transactions[i]).record.queries == st.transactions[i].record.queries
                &&& after_audit(st, chain, replies, max_blocks).transactions[i].record.pub_key
                    == st.transactions[i].record.pub_key
            },
        forall|id: Seq<u8>|
            (st.record_of(id) matches Some(r) && !r.is_pending()) ==> after_audit(
                st,
                chain,
                replies,
                max_blocks,
            ).record_of(id) == st.record_of(id),
{
    let after = after_audit(st, chain, replies, max_blocks);
    let kept = LedgerState { checkpoint: st.checkpoint, ..after };
    lemma_audit_reconciles(st, chain, replies, max_blocks);
    lemma_reconciled_ids(st, kept);
    assert(after.ids() =~= kept.ids());
    assert forall|id: Seq<u8>| (st.record_of(id) matches Some(r) && !r.is_pending())
        implies after.record_of(id) == st.record_of(id) by {
        st.ids().index_of_first_ensures(id);
        assert(kept.position(id) == st.position(id));
    }
}

/// The history is append-only: an audit run leaves every line of the history where it
/// was, and adds lines only at the end.
pub proof fn lemma_audit_appends_history(
    st: LedgerState,
    chain: Seq<Seq<u8>>,
    replies: Seq<ExecuteResponseView>,
    max_blocks: int,
)
    ensures
        st.history.is_prefix_of(after_audit(st, chain, replies, max_blocks).history),
        after_audit(st, chain, replies, max_blocks).relations == st.relations,
{
    lemma_audit_reconciles(st, chain, replies, max_blocks);
}

/// In a chain that holds no block twice, an audit run moves the checkpoint forward by
/// exactly the blocks it reconciled, never back, so that the next run starts behind them.
/// A run that reconciles no block, as where there is no block after the checkpoint,
/// leaves the checkpoint as it is.
pub proof fn lemma_checkpoint_advances(
    st: LedgerState,
    chain: Seq<Seq<u8>>,
    replies: Seq<ExecuteResponseView>,
    max_blocks: int,
)
    requires
        chain.no_duplicates(),
        0 <= max_blocks,
        first_unaudited(st, chain) is Some,
    ensures
        ({
            let start = first_unaudited(st, chain)->Some_0;
            let n = blocks_in_run(start, chain.len() as int, replies, max_blocks);
            let after = after_audit(st, chain, replies, max_blocks);
            &&& 0 <= n
            &&& 0 <= start <= start + n <= chain.len()
            &&& first_unaudited(after, chain) == Some(start + n)
            &&& n == 0 ==> after.checkpoint == st.checkpoint
            &&& start == chain.len() ==> n == 0
            &&& n > 0 ==> after.checkpoint == Some(chain[start + n - 1])
        }),
{
    let start = first_unaudited(st, chain)->Some_0;
    let n = blocks_in_run(start, chain.len() as int, replies, max_blocks);
    let applied = after_blocks(st, accepted_changes(replies, n));
    match st.checkpoint {
        Some(block) => {
            chain.index_of_first_ensures(block);
        },
        None => {},
    }
    lemma_after_blocks(st, accepted_changes(replies, n));
    assert(first_unaudited(applied, chain) == Some(start));
    if n > 0 {
        let last = chain[start + n - 1];
        chain.index_of_first_ensures(last);
    }
}

/// After the confirmations of several blocks are applied, each of them is settled.
pub proof fn lemma_applied_blocks_are_settled(
    st: LedgerState,
    blocks: Seq<Seq<TransactionChangesView>>,
)
    ensures
        forall|b: int| 0 <= b < blocks.len() ==> block_settled(
            after_blocks(st, blocks),
            #[trigger] blocks[b],
        ),
    decreases blocks.len(),
{
    if blocks.len() > 0 {
        let rest = blocks.drop_last();
        let before = after_blocks(st, rest);
        let after = after_block(before, blocks.last());
        lemma_applied_blocks_are_settled(st, rest);
        lemma_after_block(before, blocks.last());
        lemma_applied_block_is_settled(before, blocks.last());
        assert forall|b: int| 0 <= b < blocks.len() implies block_settled(
            after,
            #[trigger] blocks[b],
        ) by {
            if b < blocks.len() - 1 {
                assert(rest[b] == blocks[b]);
                assert forall|k: int| 0 <= k < blocks[b].len() implies settled(
                    after,
                    #[trigger] blocks[b][k],
                ) by {
                    lemma_settled_stays(before, after, blocks[b][k]);
                }
            }
        }
    }
}

/// A first audit catches up in one run. On a ledger without a checkpoint, where the store
/// answers for every block of the chain and the run may reconcile that many blocks, one
/// audit run moves the checkpoint to the last block of the chain and leaves no batch
/// pending that the store has confirmed: every confirmation with a well-formed identifier
/// names a batch that is resolved, or none that the ledger holds.
pub proof fn lemma_cold_start_complete(
    st: LedgerState,
    chain: Seq<Seq<u8>>,
    replies: Seq<ExecuteResponseView>,
    max_blocks: int,
)
    requires
        st.checkpoint is None,
        chain.len() <= max_blocks,
        chain.len() <= replies.len(),
        forall|b: int| 0 <= b < chain.len() ==> replies[b] is ChangeResponse,
    ensures
        chain.len() > 0 ==> after_audit(st, chain, replies, max_blocks).checkpoint == Some(
            chain.last(),
        ),
        forall|b: int|
            0 <= b < chain.len() ==> block_settled(
                after_audit(st, chain, replies, max_blocks),
                #[trigger] replies[b]->ChangeResponse_0,
            ),
{
    let n = chain.len() as int;
    lemma_leading_changes(replies, n);
    assert(blocks_in_run(0, n, replies, max_blocks) == n);
    let blocks = accepted_changes(replies, n);
    let applied = after_blocks(st, blocks);
    let after = after_audit(st, chain, replies, max_blocks);
    lemma_after_blocks(st, blocks);
    lemma_applied_blocks_are_settled(st, blocks);
    assert(after.transactions == applied.transactions);
    assert forall|b: int| 0 <= b < chain.len() implies block_settled(
        after,
        #[trigger] replies[b]->ChangeResponse_0,
    ) by {
        assert(blocks[b] == replies[b]->ChangeResponse_0);
        assert(block_settled(applied, blocks[b]));
        assert forall|k: int| 0 <= k < blocks[b].len() implies settled(
            after,
            #[trigger] blocks[b][k],
        ) by {
            assert(settled(applied, blocks[b][k]));
            assert(after.ids() =~= applied.ids());
        }
    }
}

/// A run is stopped only by a fault of the store: where it reconciles fewer blocks than
/// are in its reach and the store has answered for the next, that answer is a fault.
pub proof fn lemma_interruption_is_fault(
    start: int,
    chain_len: int,
    replies: Seq<ExecuteResponseView>,
    max_blocks: int,
)
    ensures
        ({
            let n = blocks_in_run(start, chain_len, replies, max_blocks);
            0 <= n < blocks_in_reach(start, chain_len, max_blocks) && n < replies.len()
                ==> interruption(start, chain_len, replies, max_blocks) is Some
        }),
{
    lemma_leading_stops(replies);
}

/// Every reply before the first fault holds confirmations, and the reply there, if there
/// is one, is a fault.
pub proof fn lemma_leading_stops(replies: Seq<ExecuteResponseView>)
    ensures
        leading_changes(replies) <= replies.len(),
        forall|j: int| 0 <= j < leading_changes(replies) ==> replies[j] is ChangeResponse,
        leading_changes(replies) < replies.len() ==> replies[
            leading_changes(replies) as int
        ] is Error,
    decreases replies.len(),
{
    if replies.len() > 0 && replies[0] is ChangeResponse {
        let rest = replies.drop_first();
        lemma_leading_stops(rest);
        assert forall|j: int| 0 <= j < leading_changes(replies) implies replies[j]
            is ChangeResponse by {
            if j > 0 {
                assert(rest[j - 1] == replies[j]);
            }
        }
        if leading_changes(replies) < replies.len() {
            assert(rest[leading_changes(rest) as int] == replies[leading_changes(replies) as int]);
        }
    }
}

/// An audit run keeps the ledger well-formed.
pub proof fn lemma_audit_keeps_wf(
    st: LedgerState,
    chain: Seq<Seq<u8>>,
    replies: Seq<ExecuteResponseView>,
    max_blocks: int,
)
    requires
        st.wf(),
    ensures
        after_audit(st, chain, replies, max_blocks).wf(),
{
    match first_unaudited(st, chain) {
        Some(start) => {
            let n = blocks_in_run(start, chain.len() as int, replies, max_blocks);
            let applied = after_blocks(st, accepted_changes(replies, n));
            lemma_after_blocks(st, accepted_changes(replies, n));
            lemma_reconciled_keeps_wf(st, applied);
            lemma_notes_keep_wf(applied);
        },
        None => {},
    }
}

/// Between audit runs the chain only grows at its end, and that moves no checkpoint: the
/// first block that is not reconciled is the same in the longer chain.
pub proof fn lemma_chain_growth_keeps_checkpoint(
    st: LedgerState,
    chain: Seq<Seq<u8>>,
    longer: Seq<Seq<u8>>,
)
    requires
        chain.is_prefix_of(longer),
        first_unaudited(st, chain) is Some,
    ensures
        first_unaudited(st, longer) == first_unaudited(st, chain),
{
    match st.checkpoint {
        Some(block) => {
            chain.index_of_first_ensures(block);
            longer.index_of_first_ensures(block);
            let height = chain.index_of_first(block)->Some_0;
            assert(longer[height] == block);
            let found = longer.index_of_first(block)->Some_0;
            if found < height {
                assert(chain[found] == longer[found]);
            }
        },
        None => {},
    }
}

} // verus!
