//! Transactions over the graph: each transaction works on its own copy of the committed graph;
//! a commit is refused when another commit came first.

use vstd::prelude::*;
use crate::cypher::FloatOps;
use crate::errors::{ErrorCode, GraphDbError};
use crate::graph::InMemoryGraphStore;
use crate::query::{QueryResult, execute_query, query_rel, state, StoreState};
use crate::strmap::StrMap;
use crate::text::{chars_of, concat, decimal, decimal_chars, string_from_chars};

verus! {

/// An open transaction: its copy of the graph and the version of the committed graph it
/// was taken from.
#[derive(Debug)]
pub struct TxSession {
    pub graph: InMemoryGraphStore,
    pub base_version: u64,
}

/// The transactions of a database: the committed graph, its version, the open transactions
/// by id, and how many transactions were begun.
#[derive(Debug)]
pub struct TxState {
    base_graph: InMemoryGraphStore,
    sessions: StrMap<TxSession>,
    tx_seq: u64,
    graph_version: u64,
}

/// The id of the `n`-th transaction begun: `tx-` and the decimal number.
pub open spec fn tx_id_for(n: nat) -> Seq<char> {
    "tx-"@ + decimal(n)
}

/// The error for a transaction id that names no open transaction.
pub open spec fn is_unknown_tx_error(e: GraphDbError, tx_id: Seq<char>) -> bool {
    e.code == ErrorCode::RetryableConflict && e.message@ == "unknown transaction: "@ + tx_id && e.details is None
}

/// The error for a commit that another commit overtook.
pub open spec fn is_conflict_error(e: GraphDbError, tx_id: Seq<char>) -> bool {
    e.code == ErrorCode::RetryableConflict && e.message@ == "deterministic conflict for tx_id="@ + tx_id && e.details is None
}

fn unknown_tx(tx_id: &str) -> (res: GraphDbError)
    ensures
        is_unknown_tx_error(res, tx_id@),
{
    let m = concat(&chars_of("unknown transaction: "), &chars_of(tx_id));
    let s = string_from_chars(m.as_slice());
    GraphDbError::new(ErrorCode::RetryableConflict, s.as_str())
}

fn conflict(tx_id: &str) -> (res: GraphDbError)
    ensures
        is_conflict_error(res, tx_id@),
{
    let m = concat(&chars_of("deterministic conflict for tx_id="), &chars_of(tx_id));
    let s = string_from_chars(m.as_slice());
    GraphDbError::new(ErrorCode::RetryableConflict, s.as_str())
}

/// What the first step of a commit does: an unknown transaction is refused and nothing changes;
/// a known one is closed, and its graph is handed back unless another commit came after it
/// began, in which case it is refused with a conflict. The committed graph stays.
pub open spec fn commit_begin_rel(t: TxState, tx_id: Seq<char>, res: Result<InMemoryGraphStore, GraphDbError>,
    after: TxState) -> bool
{
    &&& !t.sessions().contains_key(tx_id) ==> (res matches Err(e) && is_unknown_tx_error(e, tx_id)
        && after.sessions() == t.sessions())
    &&& t.sessions().contains_key(tx_id) ==> after.sessions() == t.sessions().remove(tx_id)
    &&& t.sessions().contains_key(tx_id) && t.sessions()[tx_id].base_version != t.version()
        ==> (res matches Err(e) && is_conflict_error(e, tx_id))
    &&& t.sessions().contains_key(tx_id) && t.sessions()[tx_id].base_version == t.version()
        ==> res == Ok::<InMemoryGraphStore, GraphDbError>(t.sessions()[tx_id].graph)
    &&& after.base() == t.base()
    &&& after.seq() == t.seq()
    &&& after.version() == t.version()
}

/// What the last step of a commit does: the graph becomes the committed graph of the next
/// version; open transactions stay.
pub open spec fn commit_finish_rel(t: TxState, snapshot: InMemoryGraphStore, after: TxState) -> bool {
    &&& after.base() == snapshot
    &&& after.version() == t.version() + 1
    &&& after.sessions() == t.sessions()
    &&& after.seq() == t.seq()
}

impl TxState {
    /// The committed graph.
    pub closed spec fn base(&self) -> InMemoryGraphStore {
        self.base_graph
    }

    /// The open transactions by id.
    pub closed spec fn sessions(&self) -> Map<Seq<char>, TxSession> {
        self.sessions@
    }

    /// How many transactions were begun.
    pub closed spec fn seq(&self) -> nat {
        self.tx_seq as nat
    }

    /// How many commits (and recoveries) replaced the committed graph.
    pub closed spec fn version(&self) -> nat {
        self.graph_version as nat
    }

    /// No transactions over the given committed graph.
    pub fn new(base_graph: InMemoryGraphStore) -> (res: Self)
        ensures
            res.base() == base_graph,
            res.sessions() == Map::<Seq<char>, TxSession>::empty(),
            res.seq() == 0,
            res.version() == 0,
    {
        TxState { base_graph, sessions: StrMap::new(), tx_seq: 0, graph_version: 0 }
    }

    /// Begins a transaction `tx-<n>` on a copy of the committed graph.
    pub fn begin(&mut self) -> (res: String)
        requires
            old(self).seq() < u64::MAX,
        ensures
            res@ == tx_id_for(old(self).seq() + 1),
            final(self).seq() == old(self).seq() + 1,
            final(self).sessions() == old(self).sessions().insert(res@, final(self).sessions()[res@]),
            state(final(self).sessions()[res@].graph) == state(old(self).base()),
            final(self).sessions()[res@].base_version == old(self).version(),
            final(self).base() == old(self).base(),
            final(self).version() == old(self).version(),
    {
        self.tx_seq = self.tx_seq + 1;
        let id_chars = concat(&chars_of("tx-"), &decimal_chars(self.tx_seq));
        let tx_id = string_from_chars(id_chars.as_slice());
        let session = TxSession { graph: self.base_graph.snapshot(), base_version: self.graph_version };
        let ghost sv = session;
        self.sessions.insert(tx_id.clone(), session);
        assert(self.sessions@ =~= old(self).sessions@.insert(tx_id@, self.sessions@[tx_id@]));
        tx_id
    }

    /// The graph of an open transaction.
    pub fn graph(&self, tx_id: &str) -> (res: Result<&InMemoryGraphStore, GraphDbError>)
        ensures
            match res {
                Ok(g) => self.sessions().contains_key(tx_id@) && *g == self.sessions()[tx_id@].graph,
                Err(e) => !self.sessions().contains_key(tx_id@) && is_unknown_tx_error(e, tx_id@),
            },
    {
        match self.sessions.get(tx_id) {
            Some(s) => Ok(&s.graph),
            None => Err(unknown_tx(tx_id)),
        }
    }

    /// Runs a query inside an open transaction; only that transaction's graph changes.
    pub fn run_query<F: FloatOps>(&mut self, tx_id: &str, query: &str, floats: &F) -> (res: Result<QueryResult, GraphDbError>)
        requires
            old(self).sessions().contains_key(tx_id@) ==> old(self).sessions()[tx_id@].graph.node_seq() < u64::MAX,
        ensures
            !old(self).sessions().contains_key(tx_id@) ==> (res matches Err(e) && is_unknown_tx_error(e, tx_id@)
                && final(self).sessions() == old(self).sessions()),
            old(self).sessions().contains_key(tx_id@) ==> (
                final(self).sessions().contains_key(tx_id@)
                && query_rel(old(self).sessions()[tx_id@].graph, query@, res, state(final(self).sessions()[tx_id@].graph))
                && final(self).sessions()[tx_id@].base_version == old(self).sessions()[tx_id@].base_version
                && final(self).sessions() == old(self).sessions().insert(tx_id@, final(self).sessions()[tx_id@])),
            final(self).base() == old(self).base(),
            final(self).seq() == old(self).seq(),
            final(self).version() == old(self).version(),
    {
        let taken = self.sessions.remove(tx_id);
        match taken {
            None => Err(unknown_tx(tx_id)),
            Some(mut s) => {
                let r = execute_query(&mut s.graph, query, floats);
                let ghost sv = s;
                self.sessions.insert(crate::text::owned(tx_id), s);
                assert(self.sessions@ =~= old(self).sessions@.insert(tx_id@, sv));
                r
            },
        }
    }

    /// The first step of a commit: the transaction is closed, and its graph is handed back to be
    /// made durable unless another commit came after the transaction began.
    pub fn commit_begin(&mut self, tx_id: &str) -> (res: Result<InMemoryGraphStore, GraphDbError>)
        ensures
            commit_begin_rel(*old(self), tx_id@, res, *final(self)),
    {
        match self.sessions.remove(tx_id) {
            None => {
                assert(self.sessions@ =~= old(self).sessions@);
                Err(unknown_tx(tx_id))
            },
            Some(s) => {
                assert(self.sessions@ =~= old(self).sessions@.remove(tx_id@));
                if s.base_version != self.graph_version {
                    return Err(conflict(tx_id));
                }
                Ok(s.graph)
            },
        }
    }

    /// The last step of a commit, once the graph is durable: it becomes the committed graph of
    /// the next version.
    pub fn commit_finish(&mut self, snapshot: InMemoryGraphStore)
        requires
            old(self).version() < u64::MAX,
        ensures
            commit_finish_rel(*old(self), snapshot, *final(self)),
    {
        self.base_graph = snapshot;
        self.graph_version = self.graph_version + 1;
    }

    /// Abandons an open transaction; the committed graph stays as it is.
    pub fn rollback(&mut self, tx_id: &str) -> (res: Result<(), GraphDbError>)
        ensures
            res is Ok <==> old(self).sessions().contains_key(tx_id@),
            res matches Err(e) ==> is_unknown_tx_error(e, tx_id@),
            final(self).sessions() == old(self).sessions().remove(tx_id@),
            final(self).base() == old(self).base(),
            final(self).seq() == old(self).seq(),
            final(self).version() == old(self).version(),
    {
        match self.sessions.remove(tx_id) {
            None => {
                assert(self.sessions@ =~= old(self).sessions@.remove(tx_id@));
                Err(unknown_tx(tx_id))
            },
            Some(_s) => Ok(()),
        }
    }

    /// How many transactions were begun, and the version of the committed graph.
    pub fn counters(&self) -> (res: (u64, u64))
        ensures
            res.0 == self.seq(),
            res.1 == self.version(),
    {
        (self.tx_seq, self.graph_version)
    }

    /// The committed graph.
    pub fn current_graph(&self) -> (res: &InMemoryGraphStore)
        ensures
            *res == self.base(),
    {
        &self.base_graph
    }

    /// Replaces the committed graph with a recovered one; open transactions are dropped.
    pub fn recover_with(&mut self, graph: InMemoryGraphStore)
        requires
            old(self).version() < u64::MAX,
        ensures
            final(self).base() == graph,
            final(self).sessions() == Map::<Seq<char>, TxSession>::empty(),
            final(self).version() == old(self).version() + 1,
            final(self).seq() == old(self).seq(),
    {
        self.base_graph = graph;
        self.sessions = StrMap::new();
        self.graph_version = self.graph_version + 1;
    }
}

/// Two transactions begun on the same version: once one has committed, the other's commit is
/// refused.
pub proof fn lemma_second_commit_conflicts(t: TxState, after: TxState, other: Seq<char>)
    requires
        t.sessions().contains_key(other),
        t.sessions()[other].base_version == t.version(),
        after.sessions() == t.sessions(),
        after.version() == t.version() + 1,
    ensures
        after.sessions().contains_key(other),
        after.sessions()[other].base_version != after.version(),
{
}

/// Two transactions open on the same version: once the first has committed (both steps), the
/// second's commit is refused with a conflict, its transaction is closed, and the committed
/// graph stays the first one's.
pub proof fn lemma_parallel_commit_conflicts(t0: TxState, tx1: Seq<char>, tx2: Seq<char>,
    r1: Result<InMemoryGraphStore, GraphDbError>, t1: TxState, t2: TxState,
    r2: Result<InMemoryGraphStore, GraphDbError>, t3: TxState)
    requires
        tx1 != tx2,
        t0.sessions().contains_key(tx1),
        t0.sessions().contains_key(tx2),
        t0.sessions()[tx1].base_version == t0.version(),
        t0.sessions()[tx2].base_version == t0.version(),
        commit_begin_rel(t0, tx1, r1, t1),
        r1 is Ok,
        commit_finish_rel(t1, r1->Ok_0, t2),
        commit_begin_rel(t2, tx2, r2, t3),
    ensures
        r1 == Ok::<InMemoryGraphStore, GraphDbError>(t0.sessions()[tx1].graph),
        r2 matches Err(e) && is_conflict_error(e, tx2),
        t3.base() == t0.sessions()[tx1].graph,
        !t3.sessions().contains_key(tx2),
{
}

} // verus!
