//! The ledger's storage and the accessor through which every read and write goes.
//!
//! A `&Schema` is a read view and a `&mut Schema` a write view.

use crate::hash;
use crate::structures::Neo4jTransaction;
use crate::structures::Neo4jTransactionView;
use crate::structures::NodeChange;
use crate::structures::NodeChangeView;
use crate::structures::Relation;
use crate::structures::RelationView;
use crate::structures::Resolution;
use crate::structures::ResolutionView;
use crate::structures::str_eq;
use vstd::prelude::*;
use vstd::string::*;

verus! {

/// A recorded batch with the identifier it is kept under.
pub struct TransactionEntry {
    pub id: Seq<u8>,
    pub record: Neo4jTransactionView,
}

/// A relationship with the key it is kept under.
pub struct RelationEntry {
    pub key: Seq<u8>,
    pub relation: RelationView,
}

/// One line of the change history: a change, filed under one node it touched.
pub struct HistoryEntry {
    pub node: Seq<char>,
    pub change: NodeChangeView,
}

/// A block, filed under the audit transaction that reconciled it.
pub struct AuditedEntry {
    pub audit: Seq<u8>,
    pub block: Seq<u8>,
}

/// The mathematical value of the ledger's storage.
pub struct LedgerState {
    /// The recorded batches, in the order of their submission.
    pub transactions: Seq<TransactionEntry>,
    /// The relationships, in the order in which their keys were first written.
    pub relations: Seq<RelationEntry>,
    /// The change history of all nodes, in the order in which audits appended to it.
    pub history: Seq<HistoryEntry>,
    /// The newest block whose batches have all been reconciled, if any.
    pub checkpoint: Option<Seq<u8>>,
    /// The audited blocks, in the order in which they were noted.
    pub audited: Seq<AuditedEntry>,
}

/// The changes filed under `node` in `history`, oldest first.
pub open spec fn changes_of(history: Seq<HistoryEntry>, node: Seq<char>) -> Seq<NodeChangeView>
    decreases history.len(),
{
    if history.len() == 0 {
        Seq::empty()
    } else {
        let before = changes_of(history.drop_last(), node);
        if history.last().node == node {
            before.push(history.last().change)
        } else {
            before
        }
    }
}

/// The blocks filed under the audit transaction `audit` in `audited`, oldest first.
pub open spec fn blocks_of(audited: Seq<AuditedEntry>, audit: Seq<u8>) -> Seq<Seq<u8>>
    decreases audited.len(),
{
    if audited.len() == 0 {
        Seq::empty()
    } else {
        let before = blocks_of(audited.drop_last(), audit);
        if audited.last().audit == audit {
            before.push(audited.last().block)
        } else {
            before
        }
    }
}

impl LedgerState {
    /// The storage of a ledger on which nothing has happened yet.
    pub open spec fn empty() -> LedgerState {
        LedgerState {
            transactions: Seq::empty(),
            relations: Seq::empty(),
            history: Seq::empty(),
            checkpoint: None,
            audited: Seq::empty(),
        }
    }

    /// The identifiers of the recorded batches, in the order of their submission.
    pub open spec fn ids(self) -> Seq<Seq<u8>> {
        Seq::new(self.transactions.len(), |i: int| self.transactions[i].id)
    }

    /// The recorded batches, in the order of their submission.
    pub open spec fn records(self) -> Seq<Neo4jTransactionView> {
        Seq::new(self.transactions.len(), |i: int| self.transactions[i].record)
    }

    /// The keys of the relationships.
    pub open spec fn relation_keys(self) -> Seq<Seq<u8>> {
        Seq::new(self.relations.len(), |i: int| self.relations[i].key)
    }

    /// No identifier and no relation key is recorded twice.
    pub open spec fn wf(self) -> bool {
        self.ids().no_duplicates() && self.relation_keys().no_duplicates()
    }

    /// Where the batch `id` stands in the order of submission, if it is recorded.
    pub open spec fn position(self, id: Seq<u8>) -> Option<int> {
        self.ids().index_of_first(id)
    }

    /// The record of the batch `id`, if there is one.
    pub open spec fn record_of(self, id: Seq<u8>) -> Option<Neo4jTransactionView> {
        match self.position(id) {
            Some(i) => Some(self.transactions[i].record),
            None => None,
        }
    }

    /// The relationship kept under `key`, if there is one.
    pub open spec fn relation_of(self, key: Seq<u8>) -> Option<RelationView> {
        match self.relation_keys().index_of_first(key) {
            Some(i) => Some(self.relations[i].relation),
            None => None,
        }
    }

    /// The change history of `node`, oldest first.
    pub open spec fn node_history(self, node: Seq<char>) -> Seq<NodeChangeView> {
        changes_of(self.history, node)
    }

    /// The blocks that the audit transaction `audit` reconciled, oldest first.
    pub open spec fn audited_blocks(self, audit: Seq<u8>) -> Seq<Seq<u8>> {
        blocks_of(self.audited, audit)
    }

    /// The storage after the submission of `record` under `id`: a new last entry, or, where
    /// `id` is recorded already, no change.
    pub open spec fn submit(self, id: Seq<u8>, record: Neo4jTransactionView) -> LedgerState {
        if self.ids().contains(id) {
            self
        } else {
            LedgerState {
                transactions: self.transactions.push(TransactionEntry { id, record }),
                ..self
            }
        }
    }

    /// The storage after the store's confirmation `resolution` for the batch `id`: the
    /// record keeps its text and its submitter and takes the resolution, if it is recorded
    /// and still pending; else no change.
    pub open spec fn resolve(self, id: Seq<u8>, resolution: ResolutionView) -> LedgerState {
        match self.position(id) {
            Some(i) => if self.transactions[i].record.is_pending() {
                LedgerState {
                    transactions: self.transactions.update(
                        i,
                        TransactionEntry {
                            id,
                            record: self.transactions[i].record.resolved(resolution),
                        },
                    ),
                    ..self
                }
            } else {
                self
            },
            None => self,
        }
    }

    /// The storage after `relation` is written under `key`: it takes the place of the one
    /// kept there, or is a new last entry.
    pub open spec fn put_relation(self, key: Seq<u8>, relation: RelationView) -> LedgerState {
        match self.relation_keys().index_of_first(key) {
            Some(i) => LedgerState {
                relations: self.relations.update(i, RelationEntry { key, relation }),
                ..self
            },
            None => LedgerState {
                relations: self.relations.push(RelationEntry { key, relation }),
                ..self
            },
        }
    }

    /// The storage after `change` is appended to the history of `node`.
    pub open spec fn append_history(self, node: Seq<char>, change: NodeChangeView) -> LedgerState {
        LedgerState { history: self.history.push(HistoryEntry { node, change }), ..self }
    }

    /// The storage with `block` as its checkpoint.
    pub open spec fn confirm(self, block: Seq<u8>) -> LedgerState {
        LedgerState { checkpoint: Some(block), ..self }
    }

    /// The storage after `block` is noted as reconciled by the audit transaction `audit`.
    pub open spec fn note_audited(self, audit: Seq<u8>, block: Seq<u8>) -> LedgerState {
        LedgerState { audited: self.audited.push(AuditedEntry { audit, block }), ..self }
    }
}

/// A ledger on which nothing has happened yet is well-formed.
pub proof fn lemma_empty_is_wf()
    ensures
        LedgerState::empty().wf(),
{
}

/// A submission never touches what is recorded: it adds the batch as the newest entry, or
/// does nothing, and keeps the identifiers free of duplicates.
pub proof fn lemma_submit_keeps_records(
    st: LedgerState,
    id: Seq<u8>,
    record: Neo4jTransactionView,
)
    ensures
        st.transactions.is_prefix_of(st.submit(id, record).transactions),
        st.submit(id, record).submit(id, record) == st.submit(id, record),
        st.submit(id, record).record_of(id) is Some,
        st.record_of(id) is None ==> st.submit(id, record).record_of(id) == Some(record),
        st.record_of(id) is Some ==> st.submit(id, record) == st,
        st.wf() ==> st.submit(id, record).wf(),
{
    let after = st.submit(id, record);
    st.ids().index_of_first_ensures(id);
    after.ids().index_of_first_ensures(id);
    if !st.ids().contains(id) {
        assert(after.ids() =~= st.ids().push(id));
        assert(after.ids()[st.ids().len() as int] == id);
        assert(after.ids().contains(id));
        assert(after.relation_keys() =~= st.relation_keys());
    }
}

/// Writing a relationship keeps the relation keys free of duplicates, leaves every other
/// relationship as it was, and is read back under its key.
pub proof fn lemma_put_relation(st: LedgerState, key: Seq<u8>, relation: RelationView)
    ensures
        st.put_relation(key, relation).relation_of(key) == Some(relation),
        forall|other: Seq<u8>|
            other != key ==> st.put_relation(key, relation).relation_of(other) == st.relation_of(
                other,
            ),
        st.wf() ==> st.put_relation(key, relation).wf(),
        st.put_relation(key, relation).transactions == st.transactions,
{
    let after = st.put_relation(key, relation);
    st.relation_keys().index_of_first_ensures(key);
    after.relation_keys().index_of_first_ensures(key);
    match st.relation_keys().index_of_first(key) {
        Some(i) => {
            assert(after.relation_keys() =~= st.relation_keys());
        },
        None => {
            assert(after.relation_keys() =~= st.relation_keys().push(key));
            assert(after.relation_keys()[st.relations.len() as int] == key);
        },
    }
    assert forall|other: Seq<u8>| other != key implies after.relation_of(other)
        == st.relation_of(other) by {
        st.relation_keys().index_of_first_ensures(other);
        after.relation_keys().index_of_first_ensures(other);
        match st.relation_keys().index_of_first(other) {
            Some(j) => {
                assert(after.relation_keys()[j] == other);
                let found = after.relation_keys().index_of_first(other)->Some_0;
                if found < j {
                    assert(st.relation_keys()[found] == other);
                }
            },
            None => {
                if after.relation_keys().contains(other) {
                    let found = after.relation_keys().index_of_first(other)->Some_0;
                    if found < st.relations.len() {
                        assert(st.relation_keys()[found] == other);
                    }
                }
            },
        }
    }
    assert(after.ids() =~= st.ids());
}

/// Resolving a batch keeps the ledger well-formed.
pub proof fn lemma_resolve_keeps_wf(st: LedgerState, id: Seq<u8>, resolution: ResolutionView)
    requires
        st.wf(),
    ensures
        st.resolve(id, resolution).wf(),
{
    st.ids().index_of_first_ensures(id);
    assert(st.resolve(id, resolution).ids() =~= st.ids());
    assert(st.resolve(id, resolution).relation_keys() =~= st.relation_keys());
}

/// Moving the checkpoint, appending to the history and noting an audited block keep the
/// ledger well-formed.
pub proof fn lemma_notes_keep_wf(st: LedgerState)
    requires
        st.wf(),
    ensures
        forall|block: Seq<u8>| st.confirm(block).wf(),
        forall|node: Seq<char>, change: NodeChangeView| st.append_history(node, change).wf(),
        forall|audit: Seq<u8>, block: Seq<u8>| st.note_audited(audit, block).wf(),
{
    assert forall|block: Seq<u8>| st.confirm(block).wf() by {
        assert(st.confirm(block).ids() =~= st.ids());
        assert(st.confirm(block).relation_keys() =~= st.relation_keys());
    }
    assert forall|node: Seq<char>, change: NodeChangeView| st.append_history(node, change).wf() by {
        assert(st.append_history(node, change).ids() =~= st.ids());
        assert(st.append_history(node, change).relation_keys() =~= st.relation_keys());
    }
    assert forall|audit: Seq<u8>, block: Seq<u8>| st.note_audited(audit, block).wf() by {
        assert(st.note_audited(audit, block).ids() =~= st.ids());
        assert(st.note_audited(audit, block).relation_keys() =~= st.relation_keys());
    }
}

struct StoredTransaction {
    id: hash::Hash,
    record: Neo4jTransaction,
}

struct StoredRelation {
    key: hash::Hash,
    relation: Relation,
}

/// One line of the change history as it is stored: a change, and the node it is filed
/// under.
#[derive(Debug, PartialEq, Eq)]
pub struct StoredChange {
    pub node: String,
    pub change: NodeChange,
}

impl View for StoredChange {
    type V = HistoryEntry;

    open spec fn view(&self) -> HistoryEntry {
        HistoryEntry { node: self.node@, change: self.change@ }
    }
}

impl DeepView for StoredChange {
    type V = HistoryEntry;

    open spec fn deep_view(&self) -> HistoryEntry {
        self@
    }
}

struct StoredAudit {
    audit: hash::Hash,
    block: hash::Hash,
}

/// The ledger's storage: the table of recorded batches with the order of their submission,
/// the table of relationships, the change history, the checkpoint and the audited blocks.
pub struct Ledger {
    transactions: Vec<StoredTransaction>,
    relations: Vec<StoredRelation>,
    history: Vec<StoredChange>,
    last_confirmed_block: Option<hash::Hash>,
    audited: Vec<StoredAudit>,
}

impl View for Ledger {
    type V = LedgerState;

    closed spec fn view(&self) -> LedgerState {
        LedgerState {
            transactions: Seq::new(
                self.transactions@.len(),
                |i: int|
                    TransactionEntry {
                        id: self.transactions@[i].id@,
                        record: self.transactions@[i].record@,
                    },
            ),
            relations: Seq::new(
                self.relations@.len(),
                |i: int|
                    RelationEntry {
                        key: self.relations@[i].key@,
                        relation: self.relations@[i].relation@,
                    },
            ),
            history: Seq::new(
                self.history@.len(),
                |i: int|
                    HistoryEntry {
                        node: self.history@[i].node@,
                        change: self.history@[i].change@,
                    },
            ),
            checkpoint: match self.last_confirmed_block {
                Some(h) => Some(h@),
                None => None,
            },
            audited: Seq::new(
                self.audited@.len(),
                |i: int|
                    AuditedEntry { audit: self.audited@[i].audit@, block: self.audited@[i].block@ },
            ),
        }
    }
}

impl Ledger {
    /// The storage of a ledger on which nothing has happened yet.
    pub fn new() -> (l: Ledger)
        ensures
            l@ == LedgerState::empty(),
            l@.wf(),
    {
        let l = Ledger {
            transactions: Vec::new(),
            relations: Vec::new(),
            history: Vec::new(),
            last_confirmed_block: None,
            audited: Vec::new(),
        };
        assert(l@.transactions =~= Seq::empty());
        assert(l@.relations =~= Seq::empty());
        assert(l@.history =~= Seq::empty());
        assert(l@.audited =~= Seq::empty());
        l
    }
}

/// The accessor of the ledger's storage.
pub struct Schema {
    view: Ledger,
}

impl View for Schema {
    type V = LedgerState;

    closed spec fn view(&self) -> LedgerState {
        self.view@
    }
}

impl Schema {
    /// The accessor of the storage `view`.
    pub fn new(view: Ledger) -> (s: Schema)
        ensures
            s@ == view@,
    {
        Schema { view }
    }

    /// Gives the storage back.
    pub fn into_view(self) -> (l: Ledger)
        ensures
            l@ == self@,
    {
        self.view
    }

    /// Where the batch `id` stands among the recorded ones.
    fn find_transaction(&self, id: &hash::Hash) -> (r: Option<usize>)
        ensures
            match r {
                Some(i) => self@.position(id@) == Some(i as int) && i
                    < self.view.transactions.len(),
                None => self@.position(id@) is None,
            },
    {
        let mut i: usize = 0;
        while i < self.view.transactions.len()
            invariant
                i <= self.view.transactions.len(),
                forall|j: int| 0 <= j < i ==> self@.ids()[j] != id@,
            decreases self.view.transactions.len() - i,
        {
            if self.view.transactions[i].id.same(id) {
                proof {
                    self@.ids().index_of_first_ensures(id@);
                    assert(self@.ids()[i as int] == id@);
                }
                return Some(i);
            }
            i += 1;
        }
        proof {
            self@.ids().index_of_first_ensures(id@);
        }
        None
    }

    /// Where the relationship `key` stands among the recorded ones.
    fn find_relation(&self, key: &hash::Hash) -> (r: Option<usize>)
        ensures
            match r {
                Some(i) => self@.relation_keys().index_of_first(key@) == Some(i as int) && i
                    < self.view.relations.len(),
                None => self@.relation_keys().index_of_first(key@) is None,
            },
    {
        let mut i: usize = 0;
        while i < self.view.relations.len()
            invariant
                i <= self.view.relations.len(),
                forall|j: int| 0 <= j < i ==> self@.relation_keys()[j] != key@,
            decreases self.view.relations.len() - i,
        {
            if self.view.relations[i].key.same(key) {
                proof {
                    self@.relation_keys().index_of_first_ensures(key@);
                    assert(self@.relation_keys()[i as int] == key@);
                }
                return Some(i);
            }
            i += 1;
        }
        proof {
            self@.relation_keys().index_of_first_ensures(key@);
        }
        None
    }

    /// All recorded batches, in the order of their submission.
    pub fn neo4j_transactions(&self) -> (r: Vec<Neo4jTransaction>)
        ensures
            r.deep_view() == self@.records(),
    {
        let mut out: Vec<Neo4jTransaction> = Vec::new();
        let mut i: usize = 0;
        while i < self.view.transactions.len()
            invariant
                i <= self.view.transactions.len(),
                out.len() == i,
                forall|j: int| 0 <= j < i ==> out@[j]@ == self@.transactions[j].record,
            decreases self.view.transactions.len() - i,
        {
            out.push(self.view.transactions[i].record.clone());
            i += 1;
        }
        assert(out.deep_view() =~= self@.records());
        out
    }

    /// The identifiers of all recorded batches, in the order of their submission.
    pub fn neo4j_transaction_ids(&self) -> (r: Vec<hash::Hash>)
        ensures
            r.deep_view() == self@.ids(),
    {
        let mut out: Vec<hash::Hash> = Vec::new();
        let mut i: usize = 0;
        while i < self.view.transactions.len()
            invariant
                i <= self.view.transactions.len(),
                out.len() == i,
                forall|j: int| 0 <= j < i ==> out@[j]@ == self@.transactions[j].id,
            decreases self.view.transactions.len() - i,
        {
            out.push(self.view.transactions[i].id);
            i += 1;
        }
        assert(out.deep_view() =~= self@.ids());
        out
    }

    /// The block up to which the ledger has been reconciled with the store, if any.
    pub fn get_last_confirmed_block(&self) -> (r: Option<hash::Hash>)
        ensures
            r is Some <==> self@.checkpoint is Some,
            r matches Some(h) ==> self@.checkpoint == Some(h@),
    {
        self.view.last_confirmed_block
    }

    /// The record of the batch `hash`, if there is one.
    pub fn neo4j_transaction(&self, hash: &hash::Hash) -> (r: Option<Neo4jTransaction>)
        ensures
            r is Some <==> self@.record_of(hash@) is Some,
            r matches Some(t) ==> self@.record_of(hash@) == Some(t@),
    {
        match self.find_transaction(hash) {
            Some(i) => Some(self.view.transactions[i].record.clone()),
            None => None,
        }
    }

    /// All relationships, in the order in which their keys were first written.
    pub fn relations(&self) -> (r: Vec<Relation>)
        ensures
            r.deep_view() == Seq::new(
                self@.relations.len(),
                |i: int| self@.relations[i].relation,
            ),
    {
        let mut out: Vec<Relation> = Vec::new();
        let mut i: usize = 0;
        while i < self.view.relations.len()
            invariant
                i <= self.view.relations.len(),
                out.len() == i,
                forall|j: int| 0 <= j < i ==> out@[j]@ == self@.relations[j].relation,
            decreases self.view.relations.len() - i,
        {
            out.push(self.view.relations[i].relation.clone());
            i += 1;
        }
        assert(out.deep_view() =~= Seq::new(
            self@.relations.len(),
            |i: int| self@.relations[i].relation,
        ));
        out
    }

    /// The relationship kept under `key`, if there is one.
    pub fn relation(&self, key: &hash::Hash) -> (r: Option<Relation>)
        ensures
            r is Some <==> self@.relation_of(key@) is Some,
            r matches Some(t) ==> self@.relation_of(key@) == Some(t@),
    {
        match self.find_relation(key) {
            Some(i) => Some(self.view.relations[i].relation.clone()),
            None => None,
        }
    }

    /// The change history of all nodes, in the order in which audits appended to it.
    pub fn history(&self) -> (r: Vec<StoredChange>)
        ensures
            r.deep_view() == self@.history,
    {
        let mut out: Vec<StoredChange> = Vec::new();
        let mut i: usize = 0;
        while i < self.view.history.len()
            invariant
                i <= self.view.history.len(),
                out.len() == i,
                forall|j: int| 0 <= j < i ==> out@[j]@ == self@.history[j],
            decreases self.view.history.len() - i,
        {
            out.push(
                StoredChange {
                    node: self.view.history[i].node.clone(),
                    change: self.view.history[i].change.clone(),
                },
            );
            i += 1;
        }
        assert(out.deep_view() =~= self@.history);
        out
    }

    /// The change history of the node `node_name`, oldest first; empty if it has none.
    pub fn node_history(&self, node_name: &str) -> (r: Vec<NodeChange>)
        ensures
            r.deep_view() == self@.node_history(node_name@),
    {
        let mut out: Vec<NodeChange> = Vec::new();
        let mut i: usize = 0;
        while i < self.view.history.len()
            invariant
                i <= self.view.history.len(),
                out.deep_view() == changes_of(self@.history.subrange(0, i as int), node_name@),
            decreases self.view.history.len() - i,
        {
            let ghost seen = self@.history.subrange(0, i as int);
            let ghost next = self@.history.subrange(0, i + 1);
            assert(next.drop_last() =~= seen);
            assert(next.last() == self@.history[i as int]);
            if str_eq(self.view.history[i].node.as_str(), node_name) {
                let ghost before = out.deep_view();
                out.push(self.view.history[i].change.clone());
                assert(out.deep_view() =~= before.push(self@.history[i as int].change));
            }
            i += 1;
        }
        assert(self@.history.subrange(0, i as int) =~= self@.history);
        out
    }

    /// The blocks that the audit transaction `transaction_hash` reconciled, oldest first.
    pub fn audited_blocks(&self, transaction_hash: &hash::Hash) -> (r: Vec<hash::Hash>)
        ensures
            r.deep_view() == self@.audited_blocks(transaction_hash@),
    {
        let mut out: Vec<hash::Hash> = Vec::new();
        let mut i: usize = 0;
        while i < self.view.audited.len()
            invariant
                i <= self.view.audited.len(),
                out.deep_view() == blocks_of(
                    self@.audited.subrange(0, i as int),
                    transaction_hash@,
                ),
            decreases self.view.audited.len() - i,
        {
            let ghost seen = self@.audited.subrange(0, i as int);
            let ghost next = self@.audited.subrange(0, i + 1);
            assert(next.drop_last() =~= seen);
            assert(next.last() == self@.audited[i as int]);
            if self.view.audited[i].audit.same(transaction_hash) {
                let ghost before = out.deep_view();
                out.push(self.view.audited[i].block);
                assert(out.deep_view() =~= before.push(self@.audited[i as int].block));
            }
            i += 1;
        }
        assert(self@.audited.subrange(0, i as int) =~= self@.audited);
        out
    }

    /// Records the batch `q` under `hash`, as the newest entry, unless a batch is recorded
    /// under `hash` already: then nothing changes. Tells whether the batch was recorded.
    pub fn add_neo4j_transaction(&mut self, q: Neo4jTransaction, hash: &hash::Hash) -> (added:
        bool)
        ensures
            final(self)@ == old(self)@.submit(hash@, q@),
            added == !old(self)@.ids().contains(hash@),
            old(self)@.wf() ==> final(self)@.wf(),
    {
        proof {
            self@.ids().index_of_first_ensures(hash@);
            lemma_submit_keeps_records(self@, hash@, q@);
        }
        match self.find_transaction(hash) {
            Some(_) => false,
            None => {
                self.view.transactions.push(StoredTransaction { id: *hash, record: q });
                assert(self@.transactions =~= old(self)@.transactions.push(
                    TransactionEntry { id: hash@, record: q@ },
                ));
                true
            },
        }
    }

    /// Records what the store has confirmed of the batch `hash`. The record keeps its text
    /// and its submitter. A batch that is not recorded, or that has been resolved before,
    /// is left as it is. Tells whether the record changed.
    pub fn update_neo4j_transaction(
        &mut self,
        hash: &hash::Hash,
        resolution: Resolution,
    ) -> (updated: bool)
        ensures
            final(self)@ == old(self)@.resolve(hash@, resolution@),
            updated == (old(self)@.record_of(hash@) matches Some(r) && r.is_pending()),
            old(self)@.wf() ==> final(self)@.wf(),
    {
        proof {
            if self@.wf() {
                lemma_resolve_keeps_wf(self@, hash@, resolution@);
            }
        }
        match self.find_transaction(hash) {
            Some(i) => {
                match &self.view.transactions[i].record.resolution {
                    Resolution::Pending => {
                        let record = self.view.transactions[i].record.with_resolution(resolution);
                        self.view.transactions.set(i, StoredTransaction { id: *hash, record });
                        assert(self@.transactions =~= old(self)@.transactions.update(
                            i as int,
                            TransactionEntry {
                                id: hash@,
                                record: old(self)@.transactions[i as int].record.resolved(
                                    resolution@,
                                ),
                            },
                        ));
                        true
                    },
                    _ => false,
                }
            },
            None => false,
        }
    }

    /// Makes `block_hash` the checkpoint, in place of the one before.
    pub fn set_last_confirmed_block(&mut self, block_hash: hash::Hash)
        ensures
            final(self)@ == old(self)@.confirm(block_hash@),
            old(self)@.wf() ==> final(self)@.wf(),
    {
        proof {
            if self@.wf() {
                lemma_notes_keep_wf(self@);
            }
        }
        self.view.last_confirmed_block = Some(block_hash);
    }

    /// Writes the relationship `r` under `key`, in place of the one kept there, if any.
    pub fn add_relation(&mut self, r: Relation, key: hash::Hash)
        ensures
            final(self)@ == old(self)@.put_relation(key@, r@),
            old(self)@.wf() ==> final(self)@.wf(),
    {
        proof {
            lemma_put_relation(self@, key@, r@);
        }
        match self.find_relation(&key) {
            Some(i) => {
                self.view.relations.set(i, StoredRelation { key, relation: r });
                assert(self@.relations =~= old(self)@.relations.update(
                    i as int,
                    RelationEntry { key: key@, relation: r@ },
                ));
            },
            None => {
                self.view.relations.push(StoredRelation { key, relation: r });
                assert(self@.relations =~= old(self)@.relations.push(
                    RelationEntry { key: key@, relation: r@ },
                ));
            },
        }
    }

    /// Appends `node_change` to the change history of the node `uuid`.
    pub fn add_node_history(&mut self, uuid: &str, node_change: &NodeChange)
        ensures
            final(self)@ == old(self)@.append_history(uuid@, node_change@),
            old(self)@.wf() ==> final(self)@.wf(),
    {
        proof {
            if self@.wf() {
                lemma_notes_keep_wf(self@);
            }
        }
        self.view.history.push(
            StoredChange { node: String::from_str(uuid), change: node_change.clone() },
        );
        assert(self@.history =~= old(self)@.history.push(
            HistoryEntry { node: uuid@, change: node_change@ },
        ));
    }

    /// Notes `block_hash` as reconciled by the audit transaction `transaction_hash`.
    pub fn add_audited_block(&mut self, transaction_hash: &hash::Hash, block_hash: hash::Hash)
        ensures
            final(self)@ == old(self)@.note_audited(transaction_hash@, block_hash@),
            old(self)@.wf() ==> final(self)@.wf(),
    {
        proof {
            if self@.wf() {
                lemma_notes_keep_wf(self@);
            }
        }
        self.view.audited.push(StoredAudit { audit: *transaction_hash, block: block_hash });
        assert(self@.audited =~= old(self)@.audited.push(
            AuditedEntry { audit: transaction_hash@, block: block_hash@ },
        ));
    }
}

} // verus!
