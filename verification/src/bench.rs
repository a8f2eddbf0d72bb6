//! The latency probe of the P0 profile.

use vstd::prelude::*;
use crate::cypher::FloatOps;
use crate::graph::InMemoryGraphStore;
use crate::query::{execute_query, query_rel, state, normalized_query, is_match_query, StoreState};
use crate::text::{trim, trim_start, trim_end, starts_with, contains, find, find_from, is_ws};

verus! {

/// A latency profile: its name, the expected 95th percentile, warm-up queries and concurrency.
#[derive(Debug)]
pub struct LatencyProfile {
    pub name: &'static str,
    pub expected_p95_ms: u64,
    pub warmup_queries: usize,
    pub concurrency: usize,
}

/// The P0 latency baseline.
pub fn p0_latency_baseline() -> (res: LatencyProfile)
    ensures
        res.name@ == "P0-LATENCY-BASELINE"@,
        res.expected_p95_ms == 50,
        res.warmup_queries == 5,
        res.concurrency == 1,
{
    LatencyProfile { name: "P0-LATENCY-BASELINE", expected_p95_ms: 50, warmup_queries: 5, concurrency: 1 }
}

/// The least number of concurrent connections the P0 server profile supports.
pub const P0_SERVER_CONCURRENCY_MIN: usize = 32;

#[verifier::external_type_specification]
#[verifier::external_body]
pub struct ExInstant(std::time::Instant);

/// The current instant of the monotonic clock (`Instant::now`). Nothing is claimed of it.
#[verifier::external_body]
fn instant_now() -> (res: std::time::Instant) {
    std::time::Instant::now()
}

/// The time passed since `start` (`Instant::elapsed`). Nothing is claimed of it.
#[verifier::external_body]
fn elapsed_since(start: &std::time::Instant) -> (res: std::time::Duration) {
    start.elapsed()
}

/// No occurrence of `p` at or after `i` in `s` means `find_from` finds none.
proof fn lemma_no_match_from(s: Seq<char>, p: Seq<char>, i: int)
    requires
        0 <= i,
        forall|j: int| i <= j && j + p.len() <= s.len() ==> !#[trigger] crate::text::match_at(s, p, j),
    ensures
        find_from(s, p, i) is None,
    decreases s.len() + 1 - i,
{
    if i + p.len() <= s.len() {
        lemma_no_match_from(s, p, i + 1);
    }
}

/// `MATCH (n) RETURN n` reads the store and leaves it as it was.
proof fn lemma_match_all_reads(store: InMemoryGraphStore, res: Result<crate::query::QueryResult, crate::errors::GraphDbError>, new: StoreState)
    requires
        query_rel(store, "MATCH (n) RETURN n"@, res, new),
    ensures
        new == state(store),
{
    let q = "MATCH (n) RETURN n"@;
    reveal_strlit("MATCH (n) RETURN n");
    reveal_strlit("MATCH ");
    reveal_strlit(" WITH ");
    reveal_strlit(" WITH n,r,m RETURN n,r,m");
    assert(!is_ws(q[0]));
    assert(trim_start(q) == q);
    assert(!is_ws(q.last()));
    assert(trim_end(q) == q);
    assert(trim(q) == q);
    assert(q.subrange(0, 6) =~= "MATCH "@);
    assert(starts_with(q, "MATCH "@));
    assert(find_from(q, " WITH n,r,m RETURN n,r,m"@, 0) is None);
    let p = " WITH "@;
    assert(p =~= seq![' ', 'W', 'I', 'T', 'H', ' ']);
    assert(q =~= seq!['M', 'A', 'T', 'C', 'H', ' ', '(', 'n', ')', ' ', 'R', 'E', 'T', 'U', 'R', 'N', ' ', 'n']);
    assert forall|i: int| 0 <= i <= 12 implies !#[trigger] crate::text::match_at(q, p, i) by {
        if crate::text::match_at(q, p, i) {
            assert(q.subrange(i, i + 6)[0] == p[0]);
            assert(q.subrange(i, i + 6)[1] == p[1]);
            if i == 0 {} else if i == 1 {} else if i == 2 {} else if i == 3 {} else if i == 4 {} else if i == 5 {} else if i == 6 {} else if i == 7 {} else if i == 8 {} else if i == 9 {} else if i == 10 {} else if i == 11 {} else if i == 12 {}
        }
    }
    assert forall|i: int| 0 <= i <= 13 implies #[trigger] find_from(q, p, i) is None by {
        lemma_no_match_from(q, p, i);
    }
    assert(find_from(q, p, 0) is None);
    assert(normalized_query(q) == Ok::<Seq<char>, crate::cypher::QErr>(q));
}

/// Creates one node, then runs `MATCH (n) RETURN n` `iterations` times and returns how long
/// the loop took; `floats` is handed to the query engine.
pub fn run_match_latency_probe<F: FloatOps>(iterations: usize, floats: &F) -> (res: std::time::Duration) {
    let mut store = InMemoryGraphStore::new();
    let ghost fresh = store;
    let r0 = execute_query(&mut store, "CREATE (n:Paper)", floats);
    proof { crate::query::lemma_query_counters(fresh, "CREATE (n:Paper)"@, r0, state(store)); }
    let start = instant_now();
    let mut i: usize = 0;
    while i < iterations
        invariant
            store.node_seq() <= 1,
        decreases iterations - i,
    {
        let ghost before = store;
        let r = execute_query(&mut store, "MATCH (n) RETURN n", floats);
        proof { lemma_match_all_reads(before, r, state(store)); }
        i += 1;
    }
    elapsed_since(&start)
}

} // verus!
