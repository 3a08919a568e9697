//! The records that the ledger keeps.

use crate::hash;
use vstd::prelude::*;
use vstd::string::*;

verus! {

/// The identity of a submitter: the 32 bytes of a public key.
#[derive(Clone, Copy, Debug, PartialEq, Eq)]
pub struct PublicKey(pub [u8; 32]);

impl View for PublicKey {
    type V = Seq<u8>;

    open spec fn view(&self) -> Seq<u8> {
        self.0@
    }
}

/// Where a submitted batch of queries stands.
#[derive(Clone, Copy, Debug, PartialEq, Eq, Structural)]
pub enum TransactionStatus {
    /// Recorded, and not yet confirmed by the graph store.
    Pending,
    /// Confirmed by the graph store as executed.
    Success,
    /// Confirmed by the graph store as failed.
    Error,
}

/// What the graph store has confirmed of a batch: nothing yet, its execution, or its
/// failure with a diagnostic.
#[derive(Debug, PartialEq, Eq)]
pub enum Resolution {
    Pending,
    Success,
    Error(String),
}

/// The mathematical value of a [`Resolution`].
pub enum ResolutionView {
    Pending,
    Success,
    Error(Seq<char>),
}

impl View for Resolution {
    type V = ResolutionView;

    open spec fn view(&self) -> ResolutionView {
        match self {
            Resolution::Pending => ResolutionView::Pending,
            Resolution::Success => ResolutionView::Success,
            Resolution::Error(msg) => ResolutionView::Error(msg@),
        }
    }
}

impl DeepView for Resolution {
    type V = ResolutionView;

    open spec fn deep_view(&self) -> ResolutionView {
        self@
    }
}

impl Clone for Resolution {
    fn clone(&self) -> (r: Self)
        ensures
            r == *self,
    {
        match self {
            Resolution::Pending => Resolution::Pending,
            Resolution::Success => Resolution::Success,
            Resolution::Error(msg) => Resolution::Error(msg.clone()),
        }
    }
}

impl ResolutionView {
    /// The status that this resolution shows.
    pub open spec fn status(self) -> TransactionStatus {
        match self {
            ResolutionView::Pending => TransactionStatus::Pending,
            ResolutionView::Success => TransactionStatus::Success,
            ResolutionView::Error(_) => TransactionStatus::Error,
        }
    }

    /// The diagnostic: empty unless the batch failed.
    pub open spec fn error_msg(self) -> Seq<char> {
        match self {
            ResolutionView::Error(msg) => msg,
            _ => Seq::empty(),
        }
    }

    /// The result marker: `SUCCESS` once the batch has succeeded, else empty.
    pub open spec fn result(self) -> Seq<char> {
        match self {
            ResolutionView::Success => "SUCCESS"@,
            _ => Seq::empty(),
        }
    }
}

/// One submitted batch of queries, as the ledger records it.
#[derive(Debug, PartialEq, Eq)]
pub struct Neo4jTransaction {
    /// The text of the batch; never changed after submission.
    pub queries: String,
    /// Who submitted the batch; never changed after submission.
    pub pub_key: PublicKey,
    /// What the graph store has confirmed of the batch.
    pub resolution: Resolution,
}

/// The mathematical value of a [`Neo4jTransaction`].
pub struct Neo4jTransactionView {
    pub queries: Seq<char>,
    pub pub_key: Seq<u8>,
    pub resolution: ResolutionView,
}

impl View for Neo4jTransaction {
    type V = Neo4jTransactionView;

    open spec fn view(&self) -> Neo4jTransactionView {
        Neo4jTransactionView {
            queries: self.queries@,
            pub_key: self.pub_key@,
            resolution: self.resolution@,
        }
    }
}

impl DeepView for Neo4jTransaction {
    type V = Neo4jTransactionView;

    open spec fn deep_view(&self) -> Neo4jTransactionView {
        self@
    }
}

impl Clone for Neo4jTransaction {
    fn clone(&self) -> (r: Self)
        ensures
            r == *self,
    {
        Neo4jTransaction {
            queries: self.queries.clone(),
            pub_key: self.pub_key,
            resolution: self.resolution.clone(),
        }
    }
}

impl Neo4jTransactionView {
    /// The same batch, with `resolution` as what the store has confirmed.
    pub open spec fn resolved(self, resolution: ResolutionView) -> Neo4jTransactionView {
        Neo4jTransactionView { queries: self.queries, pub_key: self.pub_key, resolution }
    }

    /// The batch is still waiting for the store's confirmation.
    pub open spec fn is_pending(self) -> bool {
        self.resolution is Pending
    }
}

impl Neo4jTransaction {
    /// A batch as it stands at submission: pending, with no diagnostic and no result.
    pub fn new(queries: &str, pub_key: PublicKey) -> (t: Neo4jTransaction)
        ensures
            t@ == (Neo4jTransactionView {
                queries: queries@,
                pub_key: pub_key@,
                resolution: ResolutionView::Pending,
            }),
    {
        Neo4jTransaction {
            queries: String::from_str(queries),
            pub_key,
            resolution: Resolution::Pending,
        }
    }

    /// The same batch with another resolution: text and submitter are copied unchanged.
    pub fn with_resolution(&self, resolution: Resolution) -> (t: Neo4jTransaction)
        ensures
            t@ == self@.resolved(resolution@),
    {
        Neo4jTransaction { queries: self.queries.clone(), pub_key: self.pub_key, resolution }
    }

    /// The text of the batch.
    pub fn queries(&self) -> (q: &str)
        ensures
            q@ == self@.queries,
    {
        self.queries.as_str()
    }

    /// The submitter of the batch.
    pub fn pub_key(&self) -> (k: PublicKey)
        ensures
            k == self.pub_key,
    {
        self.pub_key
    }

    /// Where the batch stands.
    pub fn status(&self) -> (s: TransactionStatus)
        ensures
            s == self@.resolution.status(),
    {
        match &self.resolution {
            Resolution::Pending => TransactionStatus::Pending,
            Resolution::Success => TransactionStatus::Success,
            Resolution::Error(_) => TransactionStatus::Error,
        }
    }

    /// The diagnostic of a failed batch; empty for any other.
    pub fn error_msg(&self) -> (m: String)
        ensures
            m@ == self@.resolution.error_msg(),
    {
        match &self.resolution {
            Resolution::Error(msg) => msg.clone(),
            _ => String::new(),
        }
    }

    /// The result marker: `SUCCESS` for a batch that succeeded; empty for any other.
    pub fn result(&self) -> (m: String)
        ensures
            m@ == self@.resolution.result(),
    {
        match &self.resolution {
            Resolution::Success => String::from_str("SUCCESS"),
            _ => String::new(),
        }
    }
}

/// A message that explains a fault.
#[derive(Debug, PartialEq, Eq)]
pub struct ErrorMsg {
    pub msg: String,
}

impl View for ErrorMsg {
    type V = Seq<char>;

    open spec fn view(&self) -> Seq<char> {
        self.msg@
    }
}

impl Clone for ErrorMsg {
    fn clone(&self) -> (r: Self)
        ensures
            r == *self,
    {
        ErrorMsg { msg: self.msg.clone() }
    }
}

impl ErrorMsg {
    /// A message with the given text.
    pub fn new(msg: &str) -> (e: ErrorMsg)
        ensures
            e@ == msg@,
    {
        ErrorMsg { msg: String::from_str(msg) }
    }

    /// The text of the message.
    pub fn msg(&self) -> (m: &str)
        ensures
            m@ == self@,
    {
        self.msg.as_str()
    }
}

/// A copy of `names`.
pub fn clone_names(names: &Vec<String>) -> (r: Vec<String>)
    ensures
        r.deep_view() == names.deep_view(),
{
    let mut out: Vec<String> = Vec::new();
    let mut i: usize = 0;
    while i < names.len()
        invariant
            i <= names.len(),
            out.len() == i,
            forall|j: int| 0 <= j < i ==> out@[j]@ == names@[j]@,
        decreases names.len() - i,
    {
        out.push(names[i].clone());
        i += 1;
    }
    assert(out.deep_view() =~= names.deep_view());
    out
}

/// Whether `names` holds `name`.
pub fn contains_name(names: &Vec<String>, name: &str) -> (b: bool)
    ensures
        b == names.deep_view().contains(name@),
{
    let mut i: usize = 0;
    while i < names.len()
        invariant
            i <= names.len(),
            forall|j: int| 0 <= j < i ==> names@[j]@ != name@,
        decreases names.len() - i,
    {
        if str_eq(names[i].as_str(), name) {
            assert(names.deep_view()[i as int] == name@);
            return true;
        }
        i += 1;
    }
    assert(forall|j: int| 0 <= j < names.len() ==> names.deep_view()[j] == names@[j]@);
    false
}

/// Whether two texts hold the same characters.
pub fn str_eq(a: &str, b: &str) -> (r: bool)
    ensures
        r == (a@ == b@),
{
    let x = String::from_str(a);
    let y = String::from_str(b);
    x == y
}

/// The names of `names` in the order of their first occurrence, each once.
pub open spec fn distinct(names: Seq<Seq<char>>) -> Seq<Seq<char>>
    decreases names.len(),
{
    if names.len() == 0 {
        Seq::empty()
    } else {
        let before = distinct(names.drop_last());
        if before.contains(names.last()) {
            before
        } else {
            before.push(names.last())
        }
    }
}

/// `distinct` keeps exactly the names that occur, and none of them twice.
pub proof fn lemma_distinct(names: Seq<Seq<char>>)
    ensures
        distinct(names).no_duplicates(),
        forall|n: Seq<char>| distinct(names).contains(n) <==> names.contains(n),
    decreases names.len(),
{
    if names.len() > 0 {
        let rest = names.drop_last();
        let before = distinct(rest);
        lemma_distinct(rest);
        assert forall|n: Seq<char>| distinct(names).contains(n) <==> names.contains(n) by {
            if names.contains(n) {
                let k = choose|k: int| 0 <= k < names.len() && names[k] == n;
                if k < names.len() - 1 {
                    assert(rest[k] == n);
                    assert(rest.contains(n));
                    let m = choose|m: int| 0 <= m < before.len() && before[m] == n;
                    assert(distinct(names)[m] == n);
                } else if before.contains(n) {
                } else {
                    assert(distinct(names)[before.len() as int] == n);
                }
            }
            if distinct(names).contains(n) {
                let m = choose|m: int| 0 <= m < distinct(names).len() && distinct(names)[m] == n;
                if m < before.len() {
                    assert(before[m] == n);
                    assert(before.contains(n));
                    assert(rest.contains(n));
                    let k = choose|k: int| 0 <= k < rest.len() && rest[k] == n;
                    assert(names[k] == n);
                } else {
                    assert(names[names.len() - 1] == n);
                }
            }
        }
    }
}

/// One change that a confirmed batch made to the graph: the nodes it touched and a
/// summary, with the batch that caused it.
#[derive(Debug, PartialEq, Eq)]
pub struct NodeChange {
    /// The identifiers of the nodes that the change touched.
    pub uuids: Vec<String>,
    /// A summary of the change for a reader.
    pub description: String,
    /// The batch that caused the change.
    pub transaction_id: hash::Hash,
}

/// The mathematical value of a [`NodeChange`].
pub struct NodeChangeView {
    pub uuids: Seq<Seq<char>>,
    pub description: Seq<char>,
    pub transaction_id: Seq<u8>,
}

impl View for NodeChange {
    type V = NodeChangeView;

    open spec fn view(&self) -> NodeChangeView {
        NodeChangeView {
            uuids: self.uuids.deep_view(),
            description: self.description@,
            transaction_id: self.transaction_id@,
        }
    }
}

impl DeepView for NodeChange {
    type V = NodeChangeView;

    open spec fn deep_view(&self) -> NodeChangeView {
        self@
    }
}

impl Clone for NodeChange {
    fn clone(&self) -> (r: Self)
        ensures
            r@ == self@,
    {
        NodeChange {
            uuids: clone_names(&self.uuids),
            description: self.description.clone(),
            transaction_id: self.transaction_id,
        }
    }
}

impl NodeChangeView {
    /// The nodes that the change touched, each once.
    pub open spec fn affected(self) -> Seq<Seq<char>> {
        distinct(self.uuids)
    }
}

impl NodeChange {
    /// A change to the nodes `uuids`, caused by the batch `transaction_id`.
    pub fn new(uuids: Vec<String>, description: &str, transaction_id: hash::Hash) -> (c:
        NodeChange)
        ensures
            c@ == (NodeChangeView {
                uuids: uuids.deep_view(),
                description: description@,
                transaction_id: transaction_id@,
            }),
    {
        NodeChange { uuids, description: String::from_str(description), transaction_id }
    }

    /// The nodes that the change touched, in the order of their first mention, each once.
    pub fn get_uuis(&self) -> (r: Vec<String>)
        ensures
            r.deep_view() == self@.affected(),
    {
        let mut out: Vec<String> = Vec::new();
        let mut i: usize = 0;
        while i < self.uuids.len()
            invariant
                i <= self.uuids.len(),
                out.deep_view() == distinct(self.uuids.deep_view().subrange(0, i as int)),
            decreases self.uuids.len() - i,
        {
            let ghost seen = self.uuids.deep_view().subrange(0, i as int);
            let ghost next = self.uuids.deep_view().subrange(0, i + 1);
            assert(next.drop_last() =~= seen);
            assert(next.last() == self.uuids@[i as int]@);
            if !contains_name(&out, self.uuids[i].as_str()) {
                let ghost before = out.deep_view();
                out.push(self.uuids[i].clone());
                assert(out.deep_view() =~= before.push(self.uuids@[i as int]@));
            }
            i += 1;
        }
        assert(self.uuids.deep_view().subrange(0, i as int) =~= self.uuids.deep_view());
        out
    }

    /// The batch that caused the change.
    pub fn get_transaction_id(&self) -> (h: hash::Hash)
        ensures
            h == self.transaction_id,
    {
        self.transaction_id
    }

    /// The summary of the change.
    pub fn description(&self) -> (d: &str)
        ensures
            d@ == self@.description,
    {
        self.description.as_str()
    }
}

/// A named relationship between two nodes of the graph.
#[derive(Debug, PartialEq, Eq)]
pub struct Relation {
    /// The identifier of the relationship.
    pub uuid: String,
    /// The kind of the relationship.
    pub label: String,
    /// The node the relationship starts at.
    pub from_uuid: String,
    /// The node the relationship ends at.
    pub to_uuid: String,
}

/// The mathematical value of a [`Relation`].
pub struct RelationView {
    pub uuid: Seq<char>,
    pub label: Seq<char>,
    pub from_uuid: Seq<char>,
    pub to_uuid: Seq<char>,
}

impl View for Relation {
    type V = RelationView;

    open spec fn view(&self) -> RelationView {
        RelationView {
            uuid: self.uuid@,
            label: self.label@,
            from_uuid: self.from_uuid@,
            to_uuid: self.to_uuid@,
        }
    }
}

impl DeepView for Relation {
    type V = RelationView;

    open spec fn deep_view(&self) -> RelationView {
        self@
    }
}

impl Clone for Relation {
    fn clone(&self) -> (r: Self)
        ensures
            r == *self,
    {
        Relation {
            uuid: self.uuid.clone(),
            label: self.label.clone(),
            from_uuid: self.from_uuid.clone(),
            to_uuid: self.to_uuid.clone(),
        }
    }
}

impl Relation {
    /// The relationship `uuid` of kind `label` from one node to another.
    pub fn new(uuid: &str, label: &str, from_uuid: &str, to_uuid: &str) -> (r: Relation)
        ensures
            r@ == (RelationView {
                uuid: uuid@,
                label: label@,
                from_uuid: from_uuid@,
                to_uuid: to_uuid@,
            }),
    {
        Relation {
            uuid: String::from_str(uuid),
            label: String::from_str(label),
            from_uuid: String::from_str(from_uuid),
            to_uuid: String::from_str(to_uuid),
        }
    }
}

} // verus!
