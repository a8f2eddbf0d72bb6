//! Execution of the Cypher subset against the in-memory graph.

use vstd::prelude::*;
use crate::errors::{ErrorCode, GraphDbError};
use crate::graph::{Value, ValueView, GraphNode, NodeView, EdgeView, InMemoryGraphStore, nodes_view,
    strings_view, labels_contain};
use crate::cypher::{QErr, error_is, unsupported, plain, syntax, fail, fail_plain, syntax_error,
    match_filters, parse_match_filters, return_modifiers, parse_return_modifiers, opt_string_view,
    value_like, values_like, values_view, FloatOps};
use crate::text::{chars_of, string_from_chars, trim, starts_with, find, contains, lex_lt, lex_less,
    lemma_lex_trichotomy, lemma_lex_transitive,
    slice_chars, trim_chars, starts_with_str, contains_str, str_eq, concat, lemma_find};

verus! {

/// The result of a query: nodes, a table of rows, or an acknowledgement.
#[derive(Debug)]
pub enum QueryResult {
    Nodes(Vec<GraphNode>),
    Table { columns: Vec<String>, rows: Vec<Vec<Value>> },
    Ack,
}

/// What a query result stands for.
pub enum QueryView {
    Nodes(Seq<NodeView>),
    Table { columns: Seq<Seq<char>>, rows: Seq<Seq<ValueView>> },
    Ack,
}

/// The views of the rows of a table.
pub open spec fn rows_view(rows: Seq<Vec<Value>>) -> Seq<Seq<ValueView>> {
    rows.map_values(|r: Vec<Value>| values_view(r@))
}

impl View for QueryResult {
    type V = QueryView;

    open spec fn view(&self) -> QueryView {
        match self {
            QueryResult::Nodes(n) => QueryView::Nodes(nodes_view(n@)),
            QueryResult::Table { columns, rows } => QueryView::Table {
                columns: strings_view(columns@),
                rows: rows_view(rows@),
            },
            QueryResult::Ack => QueryView::Ack,
        }
    }
}

/// Two results agree, but for the bits of floats.
pub open spec fn result_like(a: QueryView, b: QueryView) -> bool {
    match (a, b) {
        (QueryView::Nodes(x), QueryView::Nodes(y)) => x == y,
        (QueryView::Table { columns: c1, rows: r1 }, QueryView::Table { columns: c2, rows: r2 }) =>
            c1 == c2 && r1.len() == r2.len() && forall|i: int| 0 <= i < r1.len() ==> values_like(#[trigger] r1[i], r2[i]),
        (QueryView::Ack, QueryView::Ack) => true,
        _ => false,
    }
}

/// The outcome of a query is `o`.
pub open spec fn outcome_is(res: Result<QueryResult, GraphDbError>, o: Result<QueryView, QErr>) -> bool {
    match res {
        Ok(r) => o == Ok::<QueryView, QErr>(r@),
        Err(e) => o matches Err(q) && error_is(e, q),
    }
}

/// The outcome of a query agrees with `o`, but for the bits of floats.
pub open spec fn outcome_like(res: Result<QueryResult, GraphDbError>, o: Result<QueryView, QErr>) -> bool {
    match res {
        Ok(r) => o matches Ok(v) && result_like(r@, v),
        Err(e) => o matches Err(q) && error_is(e, q),
    }
}

/// How rows returned by a query are to be compared with expected rows.
#[derive(Debug, Clone, Copy, PartialEq, Eq, Structural)]
pub enum RowComparisonStrategy {
    Ordered,
    AsMultiset,
}

/// Rows of an `ORDER BY` query are compared in order, others as a multiset.
pub fn resolve_row_comparison_strategy(query: &str) -> (res: RowComparisonStrategy)
    ensures
        res == (if contains(query@, "ORDER BY"@) { RowComparisonStrategy::Ordered } else { RowComparisonStrategy::AsMultiset }),
{
    if contains_str(&chars_of(query), "ORDER BY") {
        RowComparisonStrategy::Ordered
    } else {
        RowComparisonStrategy::AsMultiset
    }
}

/// `s` without its first `skip` items, then cut to `limit` items.
pub open spec fn skip_limit<A>(s: Seq<A>, skip: Option<usize>, limit: Option<usize>) -> Seq<A> {
    let a = match skip {
        Some(k) => if k >= s.len() { Seq::empty() } else { s.subrange(k as int, s.len() as int) },
        None => s,
    };
    match limit {
        Some(l) => if l < a.len() { a.take(l as int) } else { a },
        None => a,
    }
}

/// The nodes of `s` that carry the label and have the id, where these are given.
pub open spec fn select_nodes(s: Seq<NodeView>, label: Option<Seq<char>>, id: Option<Seq<char>>) -> Seq<NodeView>
    decreases s.len(),
{
    if s.len() == 0 {
        Seq::empty()
    } else {
        let r = select_nodes(s.drop_last(), label, id);
        let n = s.last();
        let keep = (label matches Some(l) ==> n.labels.contains(l)) && (id matches Some(i) ==> n.id == i);
        if keep { r.push(n) } else { r }
    }
}

/// The outcome of `MATCH (n[:Label]) [WHERE n.id = 'id'] RETURN n [SKIP k] [LIMIT l]`.
pub open spec fn match_outcome(store: InMemoryGraphStore, q: Seq<char>) -> Result<QueryView, QErr> {
    let c = trim(q);
    if !(starts_with(c, "MATCH "@) && contains(c, "RETURN n"@)) {
        Err(unsupported("unsupported MATCH form"@, "MATCH"@))
    } else {
        match match_filters(c) {
            Err(e) => Err(e),
            Ok((label, id)) => match return_modifiers(c) {
                Err(e) => Err(e),
                Ok((_o, skip, limit)) => Ok(QueryView::Nodes(skip_limit(select_nodes(store.node_list(), label, id), skip, limit))),
            },
        }
    }
}

/// A copy of `v` without its first `skip` items, cut to `limit` items.
pub fn apply_skip_limit<T: Clone + View>(v: Vec<T>, skip: Option<usize>, limit: Option<usize>) -> (res: Vec<T>)
    ensures
        res@ == skip_limit(v@, skip, limit),
{
    let mut out = v;
    match skip {
        Some(k) => {
            if k >= out.len() {
                out = Vec::new();
            } else {
                let rest = out.split_off(k);
                out = rest;
            }
        },
        None => {},
    }
    match limit {
        Some(l) => {
            if l < out.len() {
                out.truncate(l);
            }
        },
        None => {},
    }
    out
}

/// The nodes of the store that pass the label and id filters, in increasing order of id.
fn filtered_nodes(store: &InMemoryGraphStore, label: &Option<String>, id: &Option<String>) -> (res: Vec<GraphNode>)
    ensures
        nodes_view(res@) == select_nodes(store.node_list(), opt_string_view(*label), opt_string_view(*id)),
{
    let all = store.list_nodes();
    let ghost s = nodes_view(all@);
    let mut out: Vec<GraphNode> = Vec::new();
    let mut i: usize = 0;
    assert(s.take(0) =~= Seq::<NodeView>::empty());
    while i < all.len()
        invariant
            s == nodes_view(all@),
            s == store.node_list(),
            i <= all@.len(),
            nodes_view(out@) == select_nodes(s.take(i as int), opt_string_view(*label), opt_string_view(*id)),
        decreases all@.len() - i,
    {
        let n = &all[i];
        assert(s.take(i as int + 1).drop_last() =~= s.take(i as int));
        assert(s.take(i as int + 1).last() == n@);
        let label_ok = match label {
            Some(l) => labels_contain(&n.labels, l.as_str()),
            None => true,
        };
        let id_ok = match id {
            Some(x) => str_eq(n.id.as_str(), x.as_str()),
            None => true,
        };
        if label_ok && id_ok {
            let ghost before = nodes_view(out@);
            out.push(n.clone());
            assert(nodes_view(out@) =~= before.push(n@));
        }
        i += 1;
    }
    assert(s.take(all@.len() as int) =~= s);
    out
}

/// Runs `MATCH (n[:Label]) [WHERE n.id = 'id'] RETURN n [SKIP k] [LIMIT l]`.
pub fn execute_match(store: &InMemoryGraphStore, query: &str) -> (res: Result<QueryResult, GraphDbError>)
    ensures
        outcome_is(res, match_outcome(*store, query@)),
{
    let c = trim_chars(&chars_of(query));
    if !(starts_with_str(&c, "MATCH ") && contains_str(&c, "RETURN n")) {
        return Err(fail(ErrorCode::UnsupportedFeature, "unsupported MATCH form", "MATCH"));
    }
    let cs = string_from_chars(c.as_slice());
    let (label, id) = match parse_match_filters(cs.as_str()) {
        Err(e) => return Err(e),
        Ok(f) => f,
    };
    let (_order, skip, limit) = match parse_return_modifiers(cs.as_str()) {
        Err(e) => return Err(e),
        Ok(m) => m,
    };
    let nodes = filtered_nodes(store, &label, &id);
    let ghost nv = nodes_view(nodes@);
    let out = apply_skip_limit(nodes, skip, limit);
    assert(nodes_view(out@) =~= skip_limit(nv, skip, limit));
    Ok(QueryResult::Nodes(out))
}

/// `s` with the first occurrence of `p` replaced by `r` (`str::replacen(p, r, 1)`).
pub open spec fn replace_first(s: Seq<char>, p: Seq<char>, r: Seq<char>) -> Seq<char> {
    match find(s, p) {
        Some(i) => s.subrange(0, i) + r + s.subrange(i + p.len(), s.len() as int),
        None => s,
    }
}

/// `v` with the first occurrence of the literal `p` replaced by the literal `r`.
pub fn replace_first_exec(v: &Vec<char>, p: &str, r: &str) -> (res: Vec<char>)
    ensures
        res@ == replace_first(v@, p@, r@),
{
    let n = v.len();
    proof { lemma_find(v@, p@); }
    match crate::text::find_str(v, p) {
        Some(i) => {
            let pc = chars_of(p);
            assert(i + pc@.len() <= n);
            let a = slice_chars(v, 0, i);
            let b = slice_chars(v, i + pc.len(), n);
            let ab = concat(&a, &chars_of(r));
            concat(&ab, &b)
        },
        None => slice_chars(v, 0, n),
    }
}

/// The outcome of `OPTIONAL MATCH (n...) RETURN n ...`: that of the same MATCH.
pub open spec fn optional_match_outcome(store: InMemoryGraphStore, q: Seq<char>) -> Result<QueryView, QErr> {
    match_outcome(store, replace_first(q, "OPTIONAL MATCH"@, "MATCH"@))
}

/// Runs `OPTIONAL MATCH (n...) RETURN n ...` as the same MATCH.
pub fn execute_optional_match(store: &InMemoryGraphStore, query: &str) -> (res: Result<QueryResult, GraphDbError>)
    ensures
        outcome_is(res, optional_match_outcome(*store, query@)),
{
    let rewritten = replace_first_exec(&chars_of(query), "OPTIONAL MATCH", "MATCH");
    let s = string_from_chars(rewritten.as_slice());
    execute_match(store, s.as_str())
}

} // verus!

verus! {

/// A row of a table.
pub type RowView = Seq<ValueView>;

/// Walking the edges `es` in order, skipping those `keep` leaves out: the rows `(n, r, m)`
/// (and `(m, r, n)` when undirected), the ids of the source nodes and of all end nodes met.
/// An edge whose end node is missing gives an error.
pub open spec fn rel_fold(nodes: Map<Seq<char>, NodeView>, es: Seq<EdgeView>, keep: Seq<bool>, directed: bool)
    -> Result<(Seq<RowView>, Set<Seq<char>>, Set<Seq<char>>), QErr>
    decreases es.len(),
{
    if es.len() == 0 {
        Ok((Seq::empty(), Set::empty(), Set::empty()))
    } else {
        match rel_fold(nodes, es.drop_last(), keep, directed) {
            Err(e) => Err(e),
            Ok((rows, src, any)) => {
                let e = es.last();
                if !keep[es.len() - 1] {
                    Ok((rows, src, any))
                } else if !nodes.contains_key(e.from) {
                    Err(plain(ErrorCode::ReferentialIntegrityViolation, "missing edge source node"@))
                } else if !nodes.contains_key(e.to) {
                    Err(plain(ErrorCode::ReferentialIntegrityViolation, "missing edge target node"@))
                } else {
                    let r1 = rows.push(seq![ValueView::String(e.from), ValueView::String(e.id), ValueView::String(e.to)]);
                    let r2 = if directed { r1 } else { r1.push(seq![ValueView::String(e.to), ValueView::String(e.id), ValueView::String(e.from)]) };
                    Ok((r2, src.insert(e.from), any.insert(e.from).insert(e.to)))
                }
            },
        }
    }
}

/// One row `(id, NULL, NULL)` for each node of `ns` whose id is not in `matched`, in order.
pub open spec fn unmatched_rows(ns: Seq<NodeView>, matched: Set<Seq<char>>) -> Seq<RowView>
    decreases ns.len(),
{
    if ns.len() == 0 {
        Seq::empty()
    } else {
        let r = unmatched_rows(ns.drop_last(), matched);
        if matched.contains(ns.last().id) {
            r
        } else {
            r.push(seq![ValueView::String(ns.last().id), ValueView::String("NULL"@), ValueView::String("NULL"@)])
        }
    }
}

/// The rows of a relationship query over the edges that `keep` selects; an optional match
/// adds a row for every node without a match.
pub open spec fn rel_rows(store: InMemoryGraphStore, keep: Seq<bool>, directed: bool, optional: bool) -> Result<Seq<RowView>, QErr> {
    match rel_fold(store.nodes(), store.edge_list(), keep, directed) {
        Err(e) => Err(e),
        Ok((rows, src, any)) => Ok(
            if optional { rows + unmatched_rows(store.node_list(), if directed { src } else { any }) } else { rows },
        ),
    }
}

/// The sort key of a row: its first value when that is a string, else the empty string.
pub open spec fn row_key(r: RowView) -> Seq<char> {
    if r.len() > 0 && r[0] is String { r[0]->String_0 } else { Seq::empty() }
}

/// `x` put into the sorted rows after every row whose key is not greater.
pub open spec fn insert_row(sorted: Seq<RowView>, x: RowView) -> Seq<RowView>
    decreases sorted.len(),
{
    if sorted.len() == 0 {
        seq![x]
    } else if lex_lt(row_key(x), row_key(sorted.last())) {
        insert_row(sorted.drop_last(), x).push(sorted.last())
    } else {
        sorted.push(x)
    }
}

/// The rows stably sorted by key.
pub open spec fn sort_rows(rows: Seq<RowView>) -> Seq<RowView>
    decreases rows.len(),
{
    if rows.len() == 0 {
        Seq::empty()
    } else {
        insert_row(sort_rows(rows.drop_last()), rows.last())
    }
}

/// The rows of a table after `ORDER BY n.id`, `SKIP` and `LIMIT`.
pub open spec fn table_modifiers(rows: Seq<RowView>, q: Seq<char>) -> Result<Seq<RowView>, QErr> {
    match return_modifiers(q) {
        Err(e) => Err(e),
        Ok((o, s, l)) => Ok(skip_limit(if o { sort_rows(rows) } else { rows }, s, l)),
    }
}

/// A copy of a row.
pub fn clone_row(r: &Vec<Value>) -> (res: Vec<Value>)
    ensures
        values_view(res@) == values_view(r@),
{
    let mut out: Vec<Value> = Vec::new();
    let mut i: usize = 0;
    while i < r.len()
        invariant
            i <= r@.len(),
            out@.len() == i,
            forall|j: int| 0 <= j < i ==> (#[trigger] out@[j])@ == r@[j]@,
        decreases r@.len() - i,
    {
        out.push(r[i].clone());
        i += 1;
    }
    assert(values_view(out@) =~= values_view(r@));
    out
}

fn row_key_exec(r: &Vec<Value>) -> (res: String)
    ensures
        res@ == row_key(values_view(r@)),
{
    if r.len() > 0 {
        match &r[0] {
            Value::String(s) => s.clone(),
            _ => String::new(),
        }
    } else {
        String::new()
    }
}

fn insert_row_exec(sorted: &mut Vec<Vec<Value>>, x: Vec<Value>)
    ensures
        rows_view(final(sorted)@) == insert_row(rows_view(old(sorted)@), values_view(x@)),
    decreases old(sorted)@.len(),
{
    let ghost s0 = rows_view(sorted@);
    let n = sorted.len();
    if n == 0 {
        sorted.push(x);
        assert(rows_view(sorted@) =~= seq![values_view(x@)]);
        return;
    }
    let last_key = row_key_exec(&sorted[n - 1]);
    let xk = row_key_exec(&x);
    assert(s0.last() == values_view(sorted@[n - 1]@));
    if lex_less(&xk, &last_key) {
        let last = sorted.pop().unwrap();
        assert(rows_view(sorted@) =~= s0.drop_last());
        insert_row_exec(sorted, x);
        let ghost mid = rows_view(sorted@);
        sorted.push(last);
        assert(rows_view(sorted@) =~= mid.push(s0.last()));
    } else {
        sorted.push(x);
        assert(rows_view(sorted@) =~= s0.push(values_view(x@)));
    }
}

/// The rows stably sorted by their first string value.
pub fn sort_rows_exec(rows: &Vec<Vec<Value>>) -> (res: Vec<Vec<Value>>)
    ensures
        rows_view(res@) == sort_rows(rows_view(rows@)),
{
    let ghost s = rows_view(rows@);
    let mut out: Vec<Vec<Value>> = Vec::new();
    let mut i: usize = 0;
    assert(s.take(0) =~= Seq::<RowView>::empty());
    while i < rows.len()
        invariant
            s == rows_view(rows@),
            i <= rows@.len(),
            rows_view(out@) == sort_rows(s.take(i as int)),
        decreases rows@.len() - i,
    {
        let r = clone_row(&rows[i]);
        assert(s.take(i as int + 1).drop_last() =~= s.take(i as int));
        assert(s.take(i as int + 1).last() == values_view(rows@[i as int]@));
        insert_row_exec(&mut out, r);
        i += 1;
    }
    assert(s.take(rows@.len() as int) =~= s);
    out
}

/// Dropping and taking rows commutes with viewing them.
proof fn lemma_rows_skip_limit(v: Seq<Vec<Value>>, skip: Option<usize>, limit: Option<usize>)
    ensures
        rows_view(skip_limit(v, skip, limit)) == skip_limit(rows_view(v), skip, limit),
{
    let a = match skip {
        Some(k) => if k >= v.len() { Seq::empty() } else { v.subrange(k as int, v.len() as int) },
        None => v,
    };
    let av = match skip {
        Some(k) => if k >= v.len() { Seq::empty() } else { rows_view(v).subrange(k as int, v.len() as int) },
        None => rows_view(v),
    };
    assert(rows_view(a) =~= av);
    match limit {
        Some(l) => {
            if l < a.len() {
                assert(rows_view(a.take(l as int)) =~= av.take(l as int));
            }
        },
        None => {},
    }
    assert(rows_view(skip_limit(v, skip, limit)) =~= skip_limit(rows_view(v), skip, limit));
}

/// Dropping and taking nodes commutes with viewing them.
proof fn lemma_nodes_skip_limit(v: Seq<GraphNode>, skip: Option<usize>, limit: Option<usize>)
    ensures
        nodes_view(skip_limit(v, skip, limit)) == skip_limit(nodes_view(v), skip, limit),
{
    let a = match skip {
        Some(k) => if k >= v.len() { Seq::empty() } else { v.subrange(k as int, v.len() as int) },
        None => v,
    };
    let av = match skip {
        Some(k) => if k >= v.len() { Seq::empty() } else { nodes_view(v).subrange(k as int, v.len() as int) },
        None => nodes_view(v),
    };
    assert(nodes_view(a) =~= av);
    match limit {
        Some(l) => {
            if l < a.len() {
                assert(nodes_view(a.take(l as int)) =~= av.take(l as int));
            }
        },
        None => {},
    }
    assert(nodes_view(skip_limit(v, skip, limit)) =~= skip_limit(nodes_view(v), skip, limit));
}

/// The rows after `ORDER BY n.id` (a stable sort on the first column), `SKIP` and `LIMIT`.
pub fn apply_table_modifiers(rows: Vec<Vec<Value>>, query: &str) -> (res: Result<Vec<Vec<Value>>, GraphDbError>)
    ensures
        match res {
            Ok(r) => table_modifiers(rows_view(rows@), query@) == Ok::<Seq<RowView>, QErr>(rows_view(r@)),
            Err(e) => table_modifiers(rows_view(rows@), query@) matches Err(x) && error_is(e, x),
        },
{
    let (order, skip, limit) = match parse_return_modifiers(query) {
        Err(e) => return Err(e),
        Ok(m) => m,
    };
    let sorted = if order { sort_rows_exec(&rows) } else { rows };
    let ghost sv = sorted@;
    let out = apply_skip_limit(sorted, skip, limit);
    proof { lemma_rows_skip_limit(sv, skip, limit); }
    Ok(out)
}

/// The nodes after `SKIP` and `LIMIT` (they are already in increasing order of id).
pub fn apply_return_modifiers(nodes: Vec<GraphNode>, query: &str) -> (res: Result<Vec<GraphNode>, GraphDbError>)
    ensures
        match res {
            Ok(n) => return_modifiers(query@) matches Ok((_o, s, l)) && nodes_view(n@) == skip_limit(nodes_view(nodes@), s, l),
            Err(e) => return_modifiers(query@) matches Err(x) && error_is(e, x),
        },
{
    let (_order, skip, limit) = match parse_return_modifiers(query) {
        Err(e) => return Err(e),
        Ok(m) => m,
    };
    let ghost nv = nodes@;
    let out = apply_skip_limit(nodes, skip, limit);
    proof { lemma_nodes_skip_limit(nv, skip, limit); }
    Ok(out)
}

} // verus!

verus! {

/// The outcome of building rows is `o`.
pub open spec fn rows_outcome(res: Result<Vec<Vec<Value>>, GraphDbError>, o: Result<Seq<RowView>, QErr>) -> bool {
    match res {
        Ok(r) => o == Ok::<Seq<RowView>, QErr>(rows_view(r@)),
        Err(e) => o matches Err(x) && error_is(e, x),
    }
}

/// Only the choices for the edges walked matter.
proof fn lemma_rel_fold_keep(nodes: Map<Seq<char>, NodeView>, es: Seq<EdgeView>, k1: Seq<bool>, k2: Seq<bool>, directed: bool)
    requires
        forall|i: int| 0 <= i < es.len() ==> k1[i] == k2[i],
    ensures
        rel_fold(nodes, es, k1, directed) == rel_fold(nodes, es, k2, directed),
    decreases es.len(),
{
    if es.len() > 0 {
        lemma_rel_fold_keep(nodes, es.drop_last(), k1, k2, directed);
    }
}

/// An error on a prefix of the edges is the error on all of them.
proof fn lemma_rel_fold_err(nodes: Map<Seq<char>, NodeView>, es: Seq<EdgeView>, keep: Seq<bool>, j: int, directed: bool)
    requires
        0 <= j <= es.len(),
        rel_fold(nodes, es.take(j), keep, directed) is Err,
    ensures
        rel_fold(nodes, es, keep, directed) == rel_fold(nodes, es.take(j), keep, directed),
    decreases es.len() - j,
{
    if j < es.len() {
        assert(es.take(j + 1).drop_last() =~= es.take(j));
        lemma_rel_fold_err(nodes, es, keep, j + 1, directed);
    } else {
        assert(es.take(j) =~= es);
    }
}

/// The rows of a relationship query over the store's edges in increasing order of id: for each
/// edge (whose weight, when a threshold is given, is above it as `floats` compares) the row
/// `(from, edge, to)`, and `(to, edge, from)` too when undirected; an optional match adds
/// `(id, NULL, NULL)` for every node without a match. An edge with a missing end node is an error.
#[verifier::loop_isolation(false)]
pub fn build_relationship_rows<F: FloatOps>(store: &InMemoryGraphStore, directed: bool, optional: bool, weight_filter: Option<u64>, floats: &F)
    -> (res: Result<Vec<Vec<Value>>, GraphDbError>)
    ensures
        exists|keep: Seq<bool>| #![trigger rel_rows(*store, keep, directed, optional)]
            keep.len() == store.edge_list().len()
            && (weight_filter is None ==> forall|i: int| 0 <= i < keep.len() ==> keep[i])
            && rows_outcome(res, rel_rows(*store, keep, directed, optional)),
{
    let edges = store.list_edges();
    let ghost el = crate::graph::edges_view(edges@);
    let ghost nodes = store.nodes();
    let ghost mut keep: Seq<bool> = Seq::empty();
    let ghost mut src_set: Set<Seq<char>> = Set::empty();
    let ghost mut any_set: Set<Seq<char>> = Set::empty();
    let mut rows: Vec<Vec<Value>> = Vec::new();
    let mut src: Vec<String> = Vec::new();
    let mut any: Vec<String> = Vec::new();
    let mut i: usize = 0;
    assert(el.take(0) =~= Seq::<EdgeView>::empty());
    assert(rows_view(rows@) =~= Seq::<RowView>::empty());
    while i < edges.len()
        invariant
            el == crate::graph::edges_view(edges@),
            el == store.edge_list(),
            nodes == store.nodes(),
            i <= edges@.len(),
            keep.len() == i,
            weight_filter is None ==> forall|j: int| 0 <= j < i ==> keep[j],
            rel_fold(nodes, el.take(i as int), keep, directed) == Ok::<(Seq<RowView>, Set<Seq<char>>, Set<Seq<char>>), QErr>((rows_view(rows@), src_set, any_set)),
            forall|k: Seq<char>| #[trigger] strings_view(src@).contains(k) <==> src_set.contains(k),
            forall|k: Seq<char>| #[trigger] strings_view(any@).contains(k) <==> any_set.contains(k),
        decreases edges@.len() - i,
    {
        let e = &edges[i];
        assert(el[i as int] == e@);
        assert(el.take(i as int + 1).drop_last() =~= el.take(i as int));
        assert(el.take(i as int + 1).last() == e@);
        let kept: bool = match weight_filter {
            None => true,
            Some(min) => {
                let w: u64 = match e.properties.get("weight") {
                    Some(Value::Int64(n)) => floats.int_to_float(*n),
                    Some(Value::Float64(b)) => *b,
                    _ => 0u64,
                };
                !floats.float_le(w, min)
            },
        };
        let ghost old_keep = keep;
        proof { keep = keep.push(kept); }
        proof { lemma_rel_fold_keep(nodes, el.take(i as int), old_keep, keep, directed); }
        if kept {
            if !store.has_node(e.from.as_str()) {
                let err = fail_plain(ErrorCode::ReferentialIntegrityViolation, "missing edge source node");
                proof {
                    let kf = keep + Seq::new((edges@.len() - i - 1) as nat, |j: int| true);
                    lemma_rel_fold_keep(nodes, el.take(i as int + 1), keep, kf, directed);
                    lemma_rel_fold_err(nodes, el, kf, i as int + 1, directed);
                    assert(forall|j: int| 0 <= j < kf.len() ==> weight_filter is None ==> kf[j]);
                    assert(rows_outcome(Err(err), rel_rows(*store, kf, directed, optional)));
                }
                return Err(err);
            }
            if !store.has_node(e.to.as_str()) {
                let err = fail_plain(ErrorCode::ReferentialIntegrityViolation, "missing edge target node");
                proof {
                    let kf = keep + Seq::new((edges@.len() - i - 1) as nat, |j: int| true);
                    lemma_rel_fold_keep(nodes, el.take(i as int + 1), keep, kf, directed);
                    lemma_rel_fold_err(nodes, el, kf, i as int + 1, directed);
                    assert(forall|j: int| 0 <= j < kf.len() ==> weight_filter is None ==> kf[j]);
                    assert(rows_outcome(Err(err), rel_rows(*store, kf, directed, optional)));
                }
                return Err(err);
            }
            let ghost before = rows_view(rows@);
            let r1 = vec![Value::String(e.from.clone()), Value::String(e.id.clone()), Value::String(e.to.clone())];
            let ghost r1v = values_view(r1@);
            assert(r1v =~= seq![ValueView::String(e@.from), ValueView::String(e@.id), ValueView::String(e@.to)]);
            rows.push(r1);
            if !directed {
                let r2 = vec![Value::String(e.to.clone()), Value::String(e.id.clone()), Value::String(e.from.clone())];
                assert(values_view(r2@) =~= seq![ValueView::String(e@.to), ValueView::String(e@.id), ValueView::String(e@.from)]);
                rows.push(r2);
                assert(rows_view(rows@) =~= before.push(r1v).push(values_view(r2@)));
            } else {
                assert(rows_view(rows@) =~= before.push(r1v));
            }
            let ghost sv0 = strings_view(src@);
            let ghost av0 = strings_view(any@);
            src.push(e.from.clone());
            any.push(e.from.clone());
            any.push(e.to.clone());
            proof {
                let sb = src_set;
                let ab = any_set;
                assert(forall|k: Seq<char>| #[trigger] sv0.contains(k) <==> sb.contains(k));
                assert(forall|k: Seq<char>| #[trigger] av0.contains(k) <==> ab.contains(k));
                src_set = src_set.insert(e@.from);
                any_set = any_set.insert(e@.from).insert(e@.to);
                assert(strings_view(src@) =~= sv0.push(e@.from));
                assert(strings_view(any@) =~= av0.push(e@.from).push(e@.to));
                assert forall|k: Seq<char>| #[trigger] strings_view(src@).contains(k) <==> src_set.contains(k) by {
                    crate::graph::lemma_push_contains(sv0, e@.from, k);
                }
                assert forall|k: Seq<char>| #[trigger] strings_view(any@).contains(k) <==> any_set.contains(k) by {
                    crate::graph::lemma_push_contains(av0, e@.from, k);
                    crate::graph::lemma_push_contains(av0.push(e@.from), e@.to, k);
                }
            }
        }
        i += 1;
    }
    assert(el.take(edges@.len() as int) =~= el);
    if optional {
        let ghost matched = if directed { src_set } else { any_set };
        let ghost base = rows_view(rows@);
        let all = store.list_nodes();
        let ghost nl = nodes_view(all@);
        let mut j: usize = 0;
        assert(nl.take(0) =~= Seq::<NodeView>::empty());
        assert(base + unmatched_rows(nl.take(0), matched) =~= base);
        while j < all.len()
            invariant
                nl == nodes_view(all@),
                nl == store.node_list(),
                j <= all@.len(),
                rows_view(rows@) == base + unmatched_rows(nl.take(j as int), matched),
            decreases all@.len() - j,
        {
            let n = &all[j];
            assert(nl.take(j as int + 1).drop_last() =~= nl.take(j as int));
            assert(nl.take(j as int + 1).last() == n@);
            let hit = if directed { labels_contain(&src, n.id.as_str()) } else { labels_contain(&any, n.id.as_str()) };
            if !hit {
                let ghost before = rows_view(rows@);
                let r = vec![Value::String(n.id.clone()), Value::String(crate::text::owned("NULL")), Value::String(crate::text::owned("NULL"))];
                let ghost rv = values_view(r@);
                assert(rv =~= seq![ValueView::String(n@.id), ValueView::String("NULL"@), ValueView::String("NULL"@)]);
                rows.push(r);
                assert(rows_view(rows@) =~= before.push(rv));
                assert(base + unmatched_rows(nl.take(j as int + 1), matched) =~= (base + unmatched_rows(nl.take(j as int), matched)).push(rv));
            }
            j += 1;
        }
        assert(nl.take(all@.len() as int) =~= nl);
    }
    assert(rows_outcome(Ok(rows), rel_rows(*store, keep, directed, optional)));
    Ok(rows)
}

} // verus!

verus! {

/// The outcome of a relationship query `MATCH (n)-[r]->(m) [WHERE r.weight > x] RETURN n,r,m ...`
/// (or `-[r]-` for both directions) over the edges that `keep` selects.
pub open spec fn rel_table(store: InMemoryGraphStore, q: Seq<char>, keep: Seq<bool>, directed: bool, optional: bool) -> Result<QueryView, QErr> {
    match rel_rows(store, keep, directed, optional) {
        Err(e) => Err(e),
        Ok(rows) => match table_modifiers(rows, q) {
            Err(e) => Err(e),
            Ok(r) => Ok(QueryView::Table { columns: seq!["n"@, "r"@, "m"@], rows: r }),
        },
    }
}

/// What a relationship query gives: its outcome is that over the edges selected by some
/// choice, which keeps every edge when there is no weight filter.
pub open spec fn rel_query_rel(store: InMemoryGraphStore, q: Seq<char>, optional: bool, res: Result<QueryResult, GraphDbError>) -> bool {
    if !contains(q, "RETURN n,r,m"@) {
        outcome_is(res, Err(unsupported("relationship query must return n,r,m"@, "MATCH"@)))
    } else if !contains(q, "-[r]->("@) && !contains(q, "-[r]-("@) {
        outcome_is(res, Err(unsupported("unsupported relationship pattern"@, "MATCH"@)))
    } else {
        let directed = contains(q, "-[r]->("@);
        match crate::cypher::weight_filter_shape(q) {
            Err(e) => outcome_is(res, Err(e)),
            Ok(filtered) => exists|keep: Seq<bool>| #![trigger rel_table(store, q, keep, directed, optional)]
                keep.len() == store.edge_list().len()
                && (!filtered ==> forall|i: int| 0 <= i < keep.len() ==> keep[i])
                && outcome_is(res, rel_table(store, q, keep, directed, optional)),
        }
    }
}

/// Runs a relationship query; `floats` compares weights.
pub fn execute_match_relationship<F: FloatOps>(store: &InMemoryGraphStore, query: &str, optional: bool, floats: &F) -> (res: Result<QueryResult, GraphDbError>)
    ensures
        rel_query_rel(*store, query@, optional, res),
{
    let q = chars_of(query);
    if !contains_str(&q, "RETURN n,r,m") {
        return Err(fail(ErrorCode::UnsupportedFeature, "relationship query must return n,r,m", "MATCH"));
    }
    let directed = if contains_str(&q, "-[r]->(") {
        true
    } else if contains_str(&q, "-[r]-(") {
        false
    } else {
        return Err(fail(ErrorCode::UnsupportedFeature, "unsupported relationship pattern", "MATCH"));
    };
    let weight = match crate::cypher::parse_relationship_weight_filter(query, floats) {
        Err(e) => return Err(e),
        Ok(w) => w,
    };
    let built = build_relationship_rows(store, directed, optional, weight, floats);
    let ghost keep = choose|keep: Seq<bool>| #![trigger rel_rows(*store, keep, directed, optional)]
        keep.len() == store.edge_list().len()
        && (weight is None ==> forall|i: int| 0 <= i < keep.len() ==> keep[i])
        && rows_outcome(built, rel_rows(*store, keep, directed, optional));
    let rows = match built {
        Err(e) => {
            assert(outcome_is(Err(e), rel_table(*store, query@, keep, directed, optional)));
            return Err(e);
        },
        Ok(r) => r,
    };
    let modified = apply_table_modifiers(rows, query);
    match modified {
        Err(e) => {
            assert(outcome_is(Err(e), rel_table(*store, query@, keep, directed, optional)));
            Err(e)
        },
        Ok(r) => {
            let columns = vec![crate::text::owned("n"), crate::text::owned("r"), crate::text::owned("m")];
            assert(strings_view(columns@) =~= seq!["n"@, "r"@, "m"@]);
            let res = QueryResult::Table { columns, rows: r };
            assert(outcome_is(Ok(res), rel_table(*store, query@, keep, directed, optional)));
            Ok(res)
        },
    }
}

/// The observable state of a store: its nodes and edges by id and its id counters.
pub struct StoreState {
    pub nodes: Map<Seq<char>, NodeView>,
    pub edges: Map<Seq<char>, EdgeView>,
    pub node_seq: nat,
    pub edge_seq: nat,
}

/// The observable state of a store.
pub open spec fn state(s: InMemoryGraphStore) -> StoreState {
    StoreState { nodes: s.nodes(), edges: s.edges(), node_seq: s.node_seq(), edge_seq: s.edge_seq() }
}

/// Two nodes agree, but for the bits of floats in their properties.
pub open spec fn node_like(a: NodeView, b: NodeView) -> bool {
    a.id == b.id && a.labels == b.labels && crate::cypher::props_like(a.properties, b.properties)
}

/// Two states agree, but for the bits of floats in node properties.
pub open spec fn state_like(a: StoreState, b: StoreState) -> bool {
    &&& a.nodes.dom() == b.nodes.dom()
    &&& forall|k: Seq<char>| #[trigger] a.nodes.contains_key(k) ==> node_like(a.nodes[k], b.nodes[k])
    &&& a.edges == b.edges
    &&& a.node_seq == b.node_seq
    &&& a.edge_seq == b.edge_seq
}

/// The node a CREATE or MERGE adds: the next node id, one label and the properties.
pub open spec fn created_node(s: StoreState, label: Seq<char>, props: Map<Seq<char>, ValueView>) -> NodeView {
    NodeView { id: crate::graph::node_id_for(s.node_seq + 1), labels: seq![label], properties: props }
}

/// The state after adding a created node.
pub open spec fn with_created(s: StoreState, label: Seq<char>, props: Map<Seq<char>, ValueView>) -> StoreState {
    StoreState {
        nodes: s.nodes.insert(crate::graph::node_id_for(s.node_seq + 1), created_node(s, label, props)),
        node_seq: s.node_seq + 1,
        ..s
    }
}

/// The state with property `k` of node `id` set to `v`.
pub open spec fn with_prop(s: StoreState, id: Seq<char>, k: Seq<char>, v: ValueView) -> StoreState {
    StoreState {
        nodes: s.nodes.insert(id, NodeView { properties: s.nodes[id].properties.insert(k, v), ..s.nodes[id] }),
        ..s
    }
}

/// The state with property `k` of node `id` removed.
pub open spec fn without_prop(s: StoreState, id: Seq<char>, k: Seq<char>) -> StoreState {
    StoreState {
        nodes: s.nodes.insert(id, NodeView { properties: s.nodes[id].properties.remove(k), ..s.nodes[id] }),
        ..s
    }
}

/// What `CREATE (n:Label {k=v, ...})` does.
pub open spec fn create_rel(old: StoreState, q: Seq<char>, res: Result<QueryResult, GraphDbError>, new: StoreState) -> bool {
    if !(starts_with(q, "CREATE ("@) && crate::text::ends_with(q, ")"@)) {
        outcome_is(res, Err(syntax("invalid CREATE syntax"@))) && new == old
    } else {
        match crate::cypher::payload_shape(q, "CREATE "@) {
            Err(e) => outcome_is(res, Err(e)) && new == old,
            Ok((label, m)) => outcome_is(res, Ok(QueryView::Ack)) && state_like(new, with_created(old, label, m)),
        }
    }
}

/// Runs `CREATE (n:Label {k=v, ...})`.
pub fn execute_create<F: FloatOps>(store: &mut InMemoryGraphStore, query: &str, floats: &F) -> (res: Result<QueryResult, GraphDbError>)
    requires
        old(store).node_seq() < u64::MAX,
    ensures
        create_rel(state(*old(store)), query@, res, state(*final(store))),
{
    let q = chars_of(query);
    if !(starts_with_str(&q, "CREATE (") && crate::text::ends_with_chars(&q, &chars_of(")"))) {
        return Err(syntax_error("invalid CREATE syntax"));
    }
    let (label, props) = match crate::cypher::parse_create_or_merge_payload(query, "CREATE ", floats) {
        Err(e) => return Err(e),
        Ok(p) => p,
    };
    let ghost old_state = state(*store);
    let ghost lv = label@;
    let ghost pv = crate::graph::props_view(props);
    let labels = vec![label];
    assert(strings_view(labels@) =~= seq![lv]);
    let created = store.create_node(labels, props);
    proof {
        let m = crate::cypher::payload_shape(query@, "CREATE "@)->Ok_0.1;
        let target = with_created(old_state, lv, m);
        let now = state(*store);
        assert forall|k: Seq<char>| #[trigger] now.nodes.contains_key(k) implies node_like(now.nodes[k], target.nodes[k]) by {
            if k != created@.id {
                assert(crate::cypher::props_like(now.nodes[k].properties, now.nodes[k].properties));
            }
        }
        assert(now.nodes.dom() =~= target.nodes.dom());
    }
    Ok(QueryResult::Ack)
}

/// `s` split at its first two spaces (`str::splitn(3, ' ')`).
pub open spec fn splitn3(s: Seq<char>) -> (Seq<char>, Option<Seq<char>>, Option<Seq<char>>) {
    match find(s, seq![' ']) {
        None => (s, None, None),
        Some(a) => {
            let rest = s.subrange(a + 1, s.len() as int);
            match find(rest, seq![' ']) {
                None => (s.subrange(0, a), Some(rest), None),
                Some(b) => (s.subrange(0, a), Some(rest.subrange(0, b)), Some(rest.subrange(b + 1, rest.len() as int))),
            }
        },
    }
}

/// `v` split at its first two spaces.
fn splitn3_exec(v: &Vec<char>) -> (res: (Vec<char>, Option<Vec<char>>, Option<Vec<char>>))
    ensures
        splitn3(v@) == (res.0@, match res.1 { Some(x) => Some(x@), None => None::<Seq<char>> },
            match res.2 { Some(x) => Some(x@), None => None::<Seq<char>> }),
{
    let n = v.len();
    match crate::text::find_char(v, ' ') {
        None => (slice_chars(v, 0, n), None, None),
        Some(a) => {
            let rest = slice_chars(v, a + 1, n);
            let m = rest.len();
            match crate::text::find_char(&rest, ' ') {
                None => (slice_chars(v, 0, a), Some(rest), None),
                Some(b) => (slice_chars(v, 0, a), Some(slice_chars(&rest, 0, b)), Some(slice_chars(&rest, b + 1, m))),
            }
        },
    }
}

/// What `SET NODE <id> <key>=<value>` does.
pub open spec fn set_rel(old: StoreState, q: Seq<char>, res: Result<QueryResult, GraphDbError>, new: StoreState) -> bool {
    let content = trim(crate::cypher::strip_all(q, "SET "@));
    if !starts_with(content, "NODE "@) {
        outcome_is(res, Err(unsupported("unsupported SET form"@, "SET"@))) && new == old
    } else {
        match splitn3(content) {
            (_kw, None, _) => outcome_is(res, Err(plain(ErrorCode::UnsupportedFeature, "SET NODE requires node id"@))) && new == old,
            (_kw, Some(_id), None) => outcome_is(res, Err(plain(ErrorCode::UnsupportedFeature, "SET NODE requires key=value assignment"@))) && new == old,
            (_kw, Some(id), Some(a)) => match crate::cypher::assignment_shape(a) {
                Err(e) => outcome_is(res, Err(e)) && new == old,
                Ok((k, v)) => if !old.nodes.contains_key(id) {
                    outcome_is(res, Err(plain(ErrorCode::ReferentialIntegrityViolation, "SET NODE target does not exist"@))) && new == old
                } else {
                    outcome_is(res, Ok(QueryView::Ack)) && state_like(new, with_prop(old, id, k, v))
                },
            },
        }
    }
}

/// Runs `SET NODE <id> <key>=<value>`.
pub fn execute_set<F: FloatOps>(store: &mut InMemoryGraphStore, query: &str, floats: &F) -> (res: Result<QueryResult, GraphDbError>)
    ensures
        set_rel(state(*old(store)), query@, res, state(*final(store))),
{
    let content = trim_chars(&crate::cypher::strip_all_exec(&chars_of(query), "SET "));
    if !starts_with_str(&content, "NODE ") {
        return Err(fail(ErrorCode::UnsupportedFeature, "unsupported SET form", "SET"));
    }
    let (_kw, id, assign) = splitn3_exec(&content);
    let id = match id {
        None => return Err(fail_plain(ErrorCode::UnsupportedFeature, "SET NODE requires node id")),
        Some(i) => i,
    };
    let assign = match assign {
        None => return Err(fail_plain(ErrorCode::UnsupportedFeature, "SET NODE requires key=value assignment")),
        Some(a) => a,
    };
    let a = string_from_chars(assign.as_slice());
    let (key, value) = match crate::cypher::parse_assignment(a.as_str(), floats) {
        Err(e) => return Err(e),
        Ok(kv) => kv,
    };
    let ids = string_from_chars(id.as_slice());
    let ghost old_state = state(*store);
    let ghost kv = key@;
    let ghost vv = value@;
    if !store.set_node_property(ids.as_str(), key, value) {
        return Err(fail_plain(ErrorCode::ReferentialIntegrityViolation, "SET NODE target does not exist"));
    }
    proof {
        let w = crate::cypher::assignment_shape(a@)->Ok_0.1;
        let target = with_prop(old_state, ids@, kv, w);
        let now = state(*store);
        assert forall|k: Seq<char>| #[trigger] now.nodes.contains_key(k) implies node_like(now.nodes[k], target.nodes[k]) by {
            if k != ids@ {
                assert(crate::cypher::props_like(now.nodes[k].properties, now.nodes[k].properties));
            } else {
                let p = old_state.nodes[k].properties;
                assert(crate::cypher::props_like(p.insert(kv, vv), p.insert(kv, w))) by {
                    assert(p.insert(kv, vv).dom() =~= p.insert(kv, w).dom());
                }
            }
        }
        assert(now.nodes.dom() =~= target.nodes.dom());
    }
    Ok(QueryResult::Ack)
}

/// What `REMOVE NODE <id> <key>` does.
pub open spec fn remove_rel(old: StoreState, q: Seq<char>, res: Result<QueryResult, GraphDbError>, new: StoreState) -> bool {
    let content = trim(crate::cypher::strip_all(q, "REMOVE "@));
    if !starts_with(content, "NODE "@) {
        outcome_is(res, Err(unsupported("unsupported REMOVE form"@, "REMOVE"@))) && new == old
    } else {
        match splitn3(content) {
            (_kw, None, _) => outcome_is(res, Err(plain(ErrorCode::UnsupportedFeature, "REMOVE NODE requires node id"@))) && new == old,
            (_kw, Some(_id), None) => outcome_is(res, Err(plain(ErrorCode::UnsupportedFeature, "REMOVE NODE requires property key"@))) && new == old,
            (_kw, Some(id), Some(k)) => {
                let key = if starts_with(trim(k), "n."@) { trim(k).subrange(2, trim(k).len() as int) } else { k };
                if !old.nodes.contains_key(id) {
                    outcome_is(res, Err(plain(ErrorCode::ReferentialIntegrityViolation, "REMOVE NODE target does not exist"@))) && new == old
                } else {
                    outcome_is(res, Ok(QueryView::Ack)) && new == without_prop(old, id, key)
                }
            },
        }
    }
}

/// Runs `REMOVE NODE <id> <key>`.
pub fn execute_remove(store: &mut InMemoryGraphStore, query: &str) -> (res: Result<QueryResult, GraphDbError>)
    ensures
        remove_rel(state(*old(store)), query@, res, state(*final(store))),
{
    let content = trim_chars(&crate::cypher::strip_all_exec(&chars_of(query), "REMOVE "));
    if !starts_with_str(&content, "NODE ") {
        return Err(fail(ErrorCode::UnsupportedFeature, "unsupported REMOVE form", "REMOVE"));
    }
    let (_kw, id, key) = splitn3_exec(&content);
    let id = match id {
        None => return Err(fail_plain(ErrorCode::UnsupportedFeature, "REMOVE NODE requires node id")),
        Some(i) => i,
    };
    let key = match key {
        None => return Err(fail_plain(ErrorCode::UnsupportedFeature, "REMOVE NODE requires property key")),
        Some(k) => k,
    };
    let tk = trim_chars(&key);
    proof { reveal_strlit("n."); }
    let key = if starts_with_str(&tk, "n.") { slice_chars(&tk, 2, tk.len()) } else { key };
    let ids = string_from_chars(id.as_slice());
    let ks = string_from_chars(key.as_slice());
    let ghost old_state = state(*store);
    if !store.remove_node_property(ids.as_str(), ks.as_str()) {
        return Err(fail_plain(ErrorCode::ReferentialIntegrityViolation, "REMOVE NODE target does not exist"));
    }
    assert(state(*store).nodes =~= without_prop(old_state, ids@, ks@).nodes);
    Ok(QueryResult::Ack)
}

/// Whether some edge of `edges` starts or ends at `id`.
pub open spec fn is_referenced(edges: Map<Seq<char>, EdgeView>, id: Seq<char>) -> bool {
    exists|k: Seq<char>| #[trigger] edges.contains_key(k) && crate::graph::edge_touches(edges[k], id)
}

/// What `DELETE NODE <id> [DETACH]` does: a node that edges still reference is deleted only
/// with `DETACH`, which deletes those edges too; deleting a missing node does nothing.
pub open spec fn delete_rel(old: StoreState, q: Seq<char>, res: Result<QueryResult, GraphDbError>, new: StoreState) -> bool {
    let parts = crate::text::split_whitespace(q);
    if parts.len() < 3 || parts[0] != "DELETE"@ || parts[1] != "NODE"@ {
        outcome_is(res, Err(unsupported("unsupported DELETE form"@, "DELETE"@))) && new == old
    } else {
        let id = parts[2];
        let detach = parts.len() > 3 && parts[3] == "DETACH"@;
        if !old.nodes.contains_key(id) {
            outcome_is(res, Ok(QueryView::Ack)) && new == old
        } else if is_referenced(old.edges, id) && !detach {
            outcome_is(res, Err(plain(ErrorCode::ReferentialIntegrityViolation, "node is still referenced by edges; use DETACH"@))) && new == old
        } else if detach {
            outcome_is(res, Ok(QueryView::Ack))
                && new == (StoreState { nodes: old.nodes.remove(id), edges: crate::graph::edges_not_touching(old.edges, id), ..old })
        } else {
            outcome_is(res, Ok(QueryView::Ack)) && new == (StoreState { nodes: old.nodes.remove(id), ..old })
        }
    }
}

/// Runs `DELETE NODE <id> [DETACH]`.
pub fn execute_delete(store: &mut InMemoryGraphStore, query: &str) -> (res: Result<QueryResult, GraphDbError>)
    ensures
        delete_rel(state(*old(store)), query@, res, state(*final(store))),
{
    let parts = crate::text::split_whitespace_exec(&chars_of(query));
    let ghost pv = parts@.map_values(|p: Vec<char>| p@);
    if parts.len() < 3 || !crate::text::chars_eq_str(&parts[0], "DELETE") || !crate::text::chars_eq_str(&parts[1], "NODE") {
        proof {
            if parts@.len() >= 3 {
                assert(pv[0] == parts@[0]@);
                assert(pv[1] == parts@[1]@);
            }
        }
        return Err(fail(ErrorCode::UnsupportedFeature, "unsupported DELETE form", "DELETE"));
    }
    assert(pv[0] == parts@[0]@);
    assert(pv[1] == parts@[1]@);
    assert(pv[2] == parts@[2]@);
    let node_id = string_from_chars(parts[2].as_slice());
    let detach = parts.len() > 3 && crate::text::chars_eq_str(&parts[3], "DETACH");
    proof {
        if parts@.len() > 3 {
            assert(pv[3] == parts@[3]@);
        }
    }
    if !store.has_node(node_id.as_str()) {
        return Ok(QueryResult::Ack);
    }
    let touching = store.edges_touching_node(node_id.as_str());
    proof {
        let tv = strings_view(touching@);
        if is_referenced(store.edges(), node_id@) {
            let k = choose|k: Seq<char>| #[trigger] store.edges().contains_key(k) && crate::graph::edge_touches(store.edges()[k], node_id@);
            assert(tv.contains(k));
        }
        if tv.len() > 0 {
            assert(tv.contains(tv[0]));
        }
    }
    if touching.len() > 0 && !detach {
        return Err(fail_plain(ErrorCode::ReferentialIntegrityViolation, "node is still referenced by edges; use DETACH"));
    }
    if detach {
        store.delete_node_detach(node_id.as_str());
    } else {
        store.delete_node(node_id.as_str());
    }
    Ok(QueryResult::Ack)
}

} // verus!

verus! {

/// The first node of `s`, in order, that matches the label and properties.
pub open spec fn first_match(s: Seq<NodeView>, label: Option<Seq<char>>, props: Map<Seq<char>, ValueView>) -> Option<NodeView> {
    if exists|i: int| 0 <= i < s.len() && crate::graph::node_matches(#[trigger] s[i], label, props) {
        Some(s[choose|i: int| 0 <= i < s.len() && crate::graph::node_matches(#[trigger] s[i], label, props)
            && forall|j: int| 0 <= j < i ==> !crate::graph::node_matches(#[trigger] s[j], label, props)])
    } else {
        None
    }
}

proof fn lemma_first_match(s: Seq<NodeView>, label: Option<Seq<char>>, props: Map<Seq<char>, ValueView>, i: int)
    requires
        0 <= i < s.len(),
        crate::graph::node_matches(s[i], label, props),
        forall|j: int| 0 <= j < i ==> !crate::graph::node_matches(#[trigger] s[j], label, props),
    ensures
        first_match(s, label, props) == Some(s[i]),
{
    let c = choose|c: int| 0 <= c < s.len() && crate::graph::node_matches(#[trigger] s[c], label, props)
        && forall|j: int| 0 <= j < c ==> !crate::graph::node_matches(#[trigger] s[j], label, props);
    assert(0 <= c < s.len() && crate::graph::node_matches(s[c], label, props));
    if c < i {
        assert(!crate::graph::node_matches(s[c], label, props));
    }
    if i < c {
        assert(!crate::graph::node_matches(s[i], label, props));
    }
}

/// What a MERGE does once its pattern has been read with the actual property values `act`:
/// the first node with the label and those properties gets the `ON MATCH SET` assignment;
/// with none, a node is created and gets the `ON CREATE SET` assignment.
pub open spec fn merge_with(old: StoreState, nl: Seq<NodeView>, label: Seq<char>, act: Map<Seq<char>, ValueView>,
    tail: Seq<char>, res: Result<QueryResult, GraphDbError>, new: StoreState) -> bool
{
    match first_match(nl, Some(label), act) {
        Some(n) => match crate::cypher::merge_set_shape(tail, "ON MATCH SET"@) {
            Err(e) => outcome_is(res, Err(e)) && new == old,
            Ok(None) => outcome_is(res, Ok(QueryView::Ack)) && new == old,
            Ok(Some((k, v))) => outcome_is(res, Ok(QueryView::Ack)) && state_like(new, with_prop(old, n.id, k, v)),
        },
        None => {
            let s1 = with_created(old, label, act);
            match crate::cypher::merge_set_shape(tail, "ON CREATE SET"@) {
                Err(e) => outcome_is(res, Err(e)) && state_like(new, s1),
                Ok(None) => outcome_is(res, Ok(QueryView::Ack)) && state_like(new, s1),
                Ok(Some((k, v))) => outcome_is(res, Ok(QueryView::Ack))
                    && state_like(new, with_prop(s1, crate::graph::node_id_for(old.node_seq + 1), k, v)),
            }
        },
    }
}

/// What a MERGE does with some reading of the pattern's property values that agrees with
/// `m` but for the bits of floats.
pub open spec fn merged(store: InMemoryGraphStore, label: Seq<char>, m: Map<Seq<char>, ValueView>, tail: Seq<char>,
    res: Result<QueryResult, GraphDbError>, new: StoreState) -> bool
{
    exists|act: Map<Seq<char>, ValueView>| #![trigger merge_with(state(store), store.node_list(), label, act, tail, res, new)]
        crate::cypher::props_like(act, m) && merge_with(state(store), store.node_list(), label, act, tail, res, new)
}

/// What `MERGE (n:Label {k=v, ...}) [ON CREATE SET ...] [ON MATCH SET ...]` does.
pub open spec fn merge_rel(store: InMemoryGraphStore, q: Seq<char>, res: Result<QueryResult, GraphDbError>, new: StoreState) -> bool {
    let old = state(store);
    if !starts_with(q, "MERGE ("@) {
        outcome_is(res, Err(unsupported("unsupported MERGE form"@, "MERGE"@))) && new == old
    } else {
        match crate::cypher::pattern_split(q, "MERGE "@) {
            Err(e) => outcome_is(res, Err(e)) && new == old,
            Ok((pat, tail)) => match crate::cypher::payload_shape(pat, "MERGE "@) {
                Err(e) => outcome_is(res, Err(e)) && new == old,
                Ok((label, m)) => merged(store, label, m, tail, res, new),
            },
        }
    }
}

proof fn lemma_props_like_refl(p: Map<Seq<char>, ValueView>)
    ensures
        crate::cypher::props_like(p, p),
{
}

/// Setting a property to a value that agrees with the specified one gives a state that agrees.
proof fn lemma_like_with_prop(now: StoreState, old: StoreState, id: Seq<char>, k: Seq<char>, v: ValueView, w: ValueView)
    requires
        old.nodes.contains_key(id),
        now == with_prop(old, id, k, v),
        value_like(v, w),
    ensures
        state_like(now, with_prop(old, id, k, w)),
{
    let target = with_prop(old, id, k, w);
    assert forall|x: Seq<char>| #[trigger] now.nodes.contains_key(x) implies node_like(now.nodes[x], target.nodes[x]) by {
        if x != id {
            lemma_props_like_refl(now.nodes[x].properties);
        } else {
            let p = old.nodes[x].properties;
            assert(p.insert(k, v).dom() =~= p.insert(k, w).dom());
        }
    }
    assert(now.nodes.dom() =~= target.nodes.dom());
}

proof fn lemma_merge_intro(store: InMemoryGraphStore, q: Seq<char>, res: Result<QueryResult, GraphDbError>, new: StoreState,
    pat: Seq<char>, tail: Seq<char>, label: Seq<char>, m: Map<Seq<char>, ValueView>, act: Map<Seq<char>, ValueView>)
    requires
        starts_with(q, "MERGE ("@),
        crate::cypher::pattern_split(q, "MERGE "@) == Ok::<(Seq<char>, Seq<char>), QErr>((pat, tail)),
        crate::cypher::payload_shape(pat, "MERGE "@) == Ok::<(Seq<char>, Map<Seq<char>, ValueView>), QErr>((label, m)),
        crate::cypher::props_like(act, m),
        merge_with(state(store), store.node_list(), label, act, tail, res, new),
    ensures
        merge_rel(store, q, res, new),
{
    assert(merged(store, label, m, tail, res, new));
}

/// Runs `MERGE (n:Label {k=v, ...}) [ON CREATE SET k=v] [ON MATCH SET k=v]`.
pub fn execute_merge<F: FloatOps>(store: &mut InMemoryGraphStore, query: &str, floats: &F) -> (res: Result<QueryResult, GraphDbError>)
    requires
        old(store).node_seq() < u64::MAX,
    ensures
        merge_rel(*old(store), query@, res, state(*final(store))),
{
    let ghost old_store = *store;
    let ghost old_state = state(*store);
    let q = chars_of(query);
    if !starts_with_str(&q, "MERGE (") {
        return Err(fail(ErrorCode::UnsupportedFeature, "unsupported MERGE form", "MERGE"));
    }
    let (pat, tail) = match crate::cypher::split_pattern_and_tail(query, "MERGE ") {
        Err(e) => return Err(e),
        Ok(pt) => pt,
    };
    let (label, props) = match crate::cypher::parse_create_or_merge_payload(pat.as_str(), "MERGE ", floats) {
        Err(e) => return Err(e),
        Ok(lp) => lp,
    };
    let ghost act = crate::graph::props_view(props);
    let ghost lv = label@;
    let ghost m = crate::cypher::payload_shape(pat@, "MERGE "@)->Ok_0.1;
    assert(crate::cypher::payload_shape(pat@, "MERGE "@) == Ok::<(Seq<char>, Map<Seq<char>, ValueView>), QErr>((lv, m)));
    let found = store.find_node_by_label_and_props(Some(label.as_str()), &props);
    store.node_list_agrees();
    match found {
        Some(ex) => {
            proof {
                let i = choose|i: int| 0 <= i < store.node_list().len() && store.node_list()[i] == ex@
                    && crate::graph::node_matches(ex@, Some(lv), act)
                    && forall|j: int| 0 <= j < i ==> !crate::graph::node_matches(#[trigger] store.node_list()[j], Some(lv), act);
                lemma_first_match(store.node_list(), Some(lv), act, i);
                assert(store.nodes().contains_key(store.node_list()[i].id));
            }
            let set = match crate::cypher::parse_merge_set_clause(tail.as_str(), "ON MATCH SET", floats) {
                Err(e) => {
                    assert(merge_with(old_state, old_store.node_list(), lv, act, tail@, Err(e), state(*store)));
                    proof { lemma_merge_intro(old_store, query@, Err(e), state(*store), pat@, tail@, lv, m, act); }
                    return Err(e);
                },
                Ok(s) => s,
            };
            match set {
                None => {
                    assert(merge_with(old_state, old_store.node_list(), lv, act, tail@, Ok(QueryResult::Ack), state(*store)));
                    proof { lemma_merge_intro(old_store, query@, Ok(QueryResult::Ack), state(*store), pat@, tail@, lv, m, act); }
                    Ok(QueryResult::Ack)
                },
                Some((k, v)) => {
                    let ghost kv = k@;
                    let ghost vv = v@;
                    if !store.set_node_property(ex.id.as_str(), k, v) {
                        return Err(fail_plain(ErrorCode::ReferentialIntegrityViolation, "MERGE target missing"));
                    }
                    proof {
                        let w = crate::cypher::merge_set_shape(tail@, "ON MATCH SET"@)->Ok_0->Some_0.1;
                        assert(state(*store) == with_prop(old_state, ex@.id, kv, vv));
                        lemma_like_with_prop(state(*store), old_state, ex@.id, kv, vv, w);
                        assert(merge_with(old_state, old_store.node_list(), lv, act, tail@, Ok(QueryResult::Ack), state(*store)));
                    lemma_merge_intro(old_store, query@, Ok(QueryResult::Ack), state(*store), pat@, tail@, lv, m, act);
                    }
                    Ok(QueryResult::Ack)
                },
            }
        },
        None => {
            proof {
                if exists|i: int| 0 <= i < old_store.node_list().len() && crate::graph::node_matches(#[trigger] old_store.node_list()[i], Some(lv), act) {
                    let i = choose|i: int| 0 <= i < old_store.node_list().len() && crate::graph::node_matches(#[trigger] old_store.node_list()[i], Some(lv), act);
                    assert(!crate::graph::node_matches(old_store.node_list()[i], Some(lv), act));
                }
            }
            let labels = vec![label];
            assert(strings_view(labels@) =~= seq![lv]);
            let created = store.create_node(labels, props);
            let ghost s1 = state(*store);
            proof {
                assert(s1.nodes =~= with_created(old_state, lv, act).nodes);
                assert(s1 == with_created(old_state, lv, act));
                lemma_props_like_refl(act);
                assert forall|x: Seq<char>| #[trigger] s1.nodes.contains_key(x) implies node_like(s1.nodes[x], s1.nodes[x]) by {
                    lemma_props_like_refl(s1.nodes[x].properties);
                }
            }
            let set = match crate::cypher::parse_merge_set_clause(tail.as_str(), "ON CREATE SET", floats) {
                Err(e) => {
                    assert(merge_with(old_state, old_store.node_list(), lv, act, tail@, Err(e), state(*store)));
                    proof { lemma_merge_intro(old_store, query@, Err(e), state(*store), pat@, tail@, lv, m, act); }
                    return Err(e);
                },
                Ok(s) => s,
            };
            match set {
                None => {
                    assert(merge_with(old_state, old_store.node_list(), lv, act, tail@, Ok(QueryResult::Ack), state(*store)));
                    proof { lemma_merge_intro(old_store, query@, Ok(QueryResult::Ack), state(*store), pat@, tail@, lv, m, act); }
                    Ok(QueryResult::Ack)
                },
                Some((k, v)) => {
                    let ghost kv = k@;
                    let ghost vv = v@;
                    if !store.set_node_property(created.id.as_str(), k, v) {
                        return Err(fail_plain(ErrorCode::ReferentialIntegrityViolation, "MERGE create target missing"));
                    }
                    proof {
                        let w = crate::cypher::merge_set_shape(tail@, "ON CREATE SET"@)->Ok_0->Some_0.1;
                        assert(state(*store) == with_prop(s1, created@.id, kv, vv));
                        lemma_like_with_prop(state(*store), s1, created@.id, kv, vv, w);
                        assert(merge_with(old_state, old_store.node_list(), lv, act, tail@, Ok(QueryResult::Ack), state(*store)));
                    lemma_merge_intro(old_store, query@, Ok(QueryResult::Ack), state(*store), pat@, tail@, lv, m, act);
                    }
                    Ok(QueryResult::Ack)
                },
            }
        },
    }
}

} // verus!

verus! {

/// The list, the variable and the projection of `UNWIND <list> AS <var> RETURN <projection>`.
pub open spec fn unwind_parts(q: Seq<char>) -> Result<(Seq<char>, Seq<char>, Seq<char>), QErr> {
    let t = trim(q);
    if !starts_with(t, "UNWIND "@) {
        Err(plain(ErrorCode::UnsupportedFeature, "unsupported UNWIND form"@))
    } else {
        let content = t.subrange(7, t.len() as int);
        match find(content, " AS "@) {
            None => Err(plain(ErrorCode::UnsupportedFeature, "UNWIND requires AS variable"@)),
            Some(a) => {
                let list = trim(content.subrange(0, a));
                let rest = trim(content.subrange(a + 4, content.len() as int));
                match find(rest, " RETURN "@) {
                    None => Err(plain(ErrorCode::UnsupportedFeature, "UNWIND requires RETURN"@)),
                    Some(r) => Ok((list, trim(rest.subrange(0, r)), trim(rest.subrange(r + 8, rest.len() as int)))),
                }
            },
        }
    }
}

/// The text `name(var)`.
pub open spec fn agg(name: Seq<char>, var: Seq<char>) -> Seq<char> {
    name + seq!['('] + var + seq![')']
}

/// Whether every value is a number.
pub open spec fn all_numeric(vs: Seq<ValueView>) -> bool {
    forall|i: int| 0 <= i < vs.len() ==> (#[trigger] vs[i] is Int64 || vs[i] is Float64)
}

/// A table of one column and one row.
pub open spec fn single(column: Seq<char>, v: ValueView) -> QueryView {
    QueryView::Table { columns: seq![column], rows: seq![seq![v]] }
}

/// The outcome of `UNWIND [..] AS x RETURN count(x)|collect(x)|sum(x)|avg(x)|min(x)|max(x)|x`,
/// with float results as zero bits. Any projection but `count` and `collect` needs numbers.
pub open spec fn unwind_outcome(q: Seq<char>) -> Result<QueryView, QErr> {
    match unwind_parts(q) {
        Err(e) => Err(e),
        Ok((list, var, proj)) => match crate::cypher::list_shape(list) {
            Err(e) => Err(e),
            Ok(vs) => if proj == agg("count"@, var) {
                Ok(single("count"@, ValueView::Int64(vs.len() as i64)))
            } else if proj == agg("collect"@, var) {
                Ok(QueryView::Table { columns: seq!["collect"@], rows: seq![vs] })
            } else if !all_numeric(vs) {
                Err(unsupported("aggregation requires numeric values"@, "UNWIND"@))
            } else if proj == agg("sum"@, var) {
                Ok(single("sum"@, ValueView::Float64(0)))
            } else if proj == agg("avg"@, var) {
                Ok(single("avg"@, ValueView::Float64(0)))
            } else if proj == agg("min"@, var) {
                Ok(single("min"@, ValueView::Float64(0)))
            } else if proj == agg("max"@, var) {
                Ok(single("max"@, ValueView::Float64(0)))
            } else if proj == var {
                Ok(QueryView::Table { columns: seq![var], rows: vs.map_values(|v: ValueView| seq![v]) })
            } else {
                Err(unsupported("unsupported UNWIND projection"@, "UNWIND"@))
            },
        },
    }
}

fn agg_exec(name: &str, var: &Vec<char>) -> (res: Vec<char>)
    ensures
        res@ == agg(name@, var@),
{
    let mut out = concat(&chars_of(name), &chars_of("("));
    proof { reveal_strlit("("); reveal_strlit(")"); }
    out = concat(&out, var);
    out.push(')');
    assert(out@ =~= agg(name@, var@));
    out
}

fn single_table(column: &str, v: Value) -> (res: QueryResult)
    ensures
        res@ == single(column@, v@),
{
    let columns = vec![crate::text::owned(column)];
    let row = vec![v];
    let ghost rv = values_view(row@);
    let rows = vec![row];
    assert(strings_view(columns@) =~= seq![column@]);
    assert(rv =~= seq![v@]);
    assert(rows_view(rows@) =~= seq![seq![v@]]);
    QueryResult::Table { columns, rows }
}

/// Runs `UNWIND [..] AS x RETURN count(x)|collect(x)|sum(x)|avg(x)|min(x)|max(x)|x`;
/// `floats` reads float literals and computes the float aggregates.
#[verifier::loop_isolation(false)]
pub fn execute_unwind<F: FloatOps>(query: &str, floats: &F) -> (res: Result<QueryResult, GraphDbError>)
    ensures
        outcome_like(res, unwind_outcome(query@)),
{
    let t = trim_chars(&chars_of(query));
    let tl = t.len();
    proof {
        reveal_strlit("UNWIND ");
        reveal_strlit(" AS ");
        reveal_strlit(" RETURN ");
    }
    if !starts_with_str(&t, "UNWIND ") {
        return Err(fail_plain(ErrorCode::UnsupportedFeature, "unsupported UNWIND form"));
    }
    let content = slice_chars(&t, 7, tl);
    let cl = content.len();
    let a = match crate::cypher::find_lit(&content, " AS ") {
        None => return Err(fail_plain(ErrorCode::UnsupportedFeature, "UNWIND requires AS variable")),
        Some(a) => a,
    };
    let list = trim_chars(&slice_chars(&content, 0, a));
    let rest = trim_chars(&slice_chars(&content, a + 4, cl));
    let rl = rest.len();
    let r = match crate::cypher::find_lit(&rest, " RETURN ") {
        None => return Err(fail_plain(ErrorCode::UnsupportedFeature, "UNWIND requires RETURN")),
        Some(r) => r,
    };
    let var = trim_chars(&slice_chars(&rest, 0, r));
    let proj = trim_chars(&slice_chars(&rest, r + 8, rl));
    let list_s = string_from_chars(list.as_slice());
    let values = match crate::cypher::parse_list_values(list_s.as_str(), floats) {
        Err(e) => return Err(e),
        Ok(v) => v,
    };
    let ghost vs = crate::cypher::list_shape(list@)->Ok_0;
    if crate::text::chars_eq(&proj, &agg_exec("count", &var)) {
        let n = values.len() as i64;
        return Ok(single_table("count", Value::Int64(n)));
    }
    if crate::text::chars_eq(&proj, &agg_exec("collect", &var)) {
        let columns = vec![crate::text::owned("collect")];
        assert(strings_view(columns@) =~= seq!["collect"@]);
        let ghost vv = values_view(values@);
        let rows = vec![values];
        assert(rows_view(rows@) =~= seq![vv]);
        return Ok(QueryResult::Table { columns, rows });
    }
    let mut numeric: Vec<u64> = Vec::new();
    let mut i: usize = 0;
    while i < values.len()
        invariant
            i <= values@.len(),
            values_like(values_view(values@), vs),
            forall|j: int| 0 <= j < i ==> (#[trigger] vs[j] is Int64 || vs[j] is Float64),
        decreases values@.len() - i,
    {
        assert(values_view(values@)[i as int] == values@[i as int]@);
        match &values[i] {
            Value::Int64(n) => numeric.push(floats.int_to_float(*n)),
            Value::Float64(b) => numeric.push(*b),
            _ => {
                assert(!(vs[i as int] is Int64 || vs[i as int] is Float64));
                return Err(fail(ErrorCode::UnsupportedFeature, "aggregation requires numeric values", "UNWIND"));
            },
        }
        i += 1;
    }
    if crate::text::chars_eq(&proj, &agg_exec("sum", &var)) {
        return Ok(single_table("sum", Value::Float64(floats.float_sum(&numeric))));
    }
    if crate::text::chars_eq(&proj, &agg_exec("avg", &var)) {
        return Ok(single_table("avg", Value::Float64(floats.float_avg(&numeric))));
    }
    if crate::text::chars_eq(&proj, &agg_exec("min", &var)) {
        return Ok(single_table("min", Value::Float64(floats.float_min(&numeric))));
    }
    if crate::text::chars_eq(&proj, &agg_exec("max", &var)) {
        return Ok(single_table("max", Value::Float64(floats.float_max(&numeric))));
    }
    if crate::text::chars_eq(&proj, &var) {
        let mut rows: Vec<Vec<Value>> = Vec::new();
        let mut j: usize = 0;
        while j < values.len()
            invariant
                j <= values@.len(),
                rows@.len() == j,
                forall|k: int| 0 <= k < j ==> values_view((#[trigger] rows@[k])@) == seq![values@[k]@],
            decreases values@.len() - j,
        {
            let row = vec![values[j].clone()];
            assert(values_view(row@) =~= seq![values@[j as int]@]);
            rows.push(row);
            j += 1;
        }
        let columns = vec![string_from_chars(var.as_slice())];
        assert(strings_view(columns@) =~= seq![var@]);
        let res = QueryResult::Table { columns, rows };
        proof {
            let want = vs.map_values(|v: ValueView| seq![v]);
            assert forall|k: int| 0 <= k < rows_view(rows@).len() implies values_like(#[trigger] rows_view(rows@)[k], want[k]) by {
                assert(rows_view(rows@)[k] == seq![values@[k]@]);
                assert(values_view(values@)[k] == values@[k]@);
                assert(value_like(values@[k]@, vs[k]));
            }
        }
        return Ok(res);
    }
    Err(fail(ErrorCode::UnsupportedFeature, "unsupported UNWIND projection", "UNWIND"))
}

} // verus!

verus! {

/// The name and the argument text of `CALL name(args)`.
pub open spec fn call_parts(q: Seq<char>) -> Result<(Seq<char>, Seq<char>), QErr> {
    if !starts_with(q, "CALL "@) {
        Err(syntax("invalid CALL syntax"@))
    } else {
        let call = trim(q.subrange(5, q.len() as int));
        match find(call, seq!['(']) {
            None => Err(syntax("CALL requires ("@)),
            Some(o) => match crate::text::rfind_char(call, ')') {
                None => Err(syntax("CALL requires )"@)),
                Some(c) => if c <= o {
                    Err(syntax("invalid CALL argument list"@))
                } else {
                    Ok((trim(call.subrange(0, o)), trim(call.subrange(o + 1, c))))
                },
            },
        }
    }
}

/// The values without repetitions, each where it first occurs.
pub open spec fn dedup(vs: Seq<ValueView>) -> Seq<ValueView>
    decreases vs.len(),
{
    if vs.len() == 0 {
        Seq::empty()
    } else {
        let r = dedup(vs.drop_last());
        if r.contains(vs.last()) { r } else { r.push(vs.last()) }
    }
}

/// The decimal text of an integer (`i64::to_string`).
pub open spec fn int_text(n: i64) -> Seq<char> {
    if n < 0 {
        seq!['-'] + crate::text::decimal((-(n as int)) as nat)
    } else {
        crate::text::decimal(n as nat)
    }
}

/// Whether `p` is the text of `v` in `apoc.text.join`; any text stands for a float.
pub open spec fn render_fits(v: ValueView, p: Seq<char>) -> bool {
    match v {
        ValueView::String(s) => p == s,
        ValueView::Int64(n) => p == int_text(n),
        ValueView::Float64(_) => true,
        ValueView::Bool(b) => p == (if b { "true"@ } else { "false"@ }),
        ValueView::Bytes(_) => p == "<bytes>"@,
    }
}

/// The texts joined with the delimiter between them.
pub open spec fn join_text(parts: Seq<Seq<char>>, d: Seq<char>) -> Seq<char>
    decreases parts.len(),
{
    if parts.len() == 0 {
        Seq::empty()
    } else if parts.len() == 1 {
        parts[0]
    } else {
        join_text(parts.drop_last(), d) + d + parts.last()
    }
}

/// What `apoc.coll.toSet` gives for values read as some values that agree with `vs`.
pub open spec fn to_set_done(vs: Seq<ValueView>, res: Result<QueryResult, GraphDbError>) -> bool {
    exists|act: Seq<ValueView>| #![trigger dedup(act)]
        values_like(act, vs)
        && outcome_is(res, Ok(QueryView::Table { columns: seq!["values"@], rows: seq![dedup(act)] }))
}

/// What `apoc.text.join` gives: the texts of the values joined by `d`.
pub open spec fn joined(vs: Seq<ValueView>, d: Seq<char>, res: Result<QueryResult, GraphDbError>) -> bool {
    exists|texts: Seq<Seq<char>>| #![trigger join_text(texts, d)]
        texts.len() == vs.len()
        && (forall|i: int| 0 <= i < vs.len() ==> render_fits(#[trigger] vs[i], texts[i]))
        && outcome_is(res, Ok(single("value"@, ValueView::String(join_text(texts, d)))))
}

/// What `CALL apoc.text.join([..], 'd')` gives.
pub open spec fn join_rel(args: Seq<char>, res: Result<QueryResult, GraphDbError>) -> bool {
    let parts = crate::cypher::call_args(args);
    if parts.len() != 2 {
        outcome_is(res, Err(plain(ErrorCode::InvalidArgument, "apoc.text.join requires values, delimiter"@)))
    } else {
        match crate::cypher::list_shape(parts[0]) {
            Err(e) => outcome_is(res, Err(e)),
            Ok(vs) => match crate::cypher::literal_shape(parts[1]) {
                Err(e) => outcome_is(res, Err(e)),
                Ok(ValueView::String(d)) => joined(vs, d, res),
                Ok(_) => outcome_is(res, Err(plain(ErrorCode::InvalidArgument, "delimiter must be string"@))),
            },
        }
    }
}

/// What `CALL apoc.refactor.rename.label('from','to')` does.
pub open spec fn rename_rel(store: InMemoryGraphStore, args: Seq<char>, res: Result<QueryResult, GraphDbError>, new: StoreState) -> bool {
    let old = state(store);
    let parts = crate::cypher::call_args(args);
    if parts.len() != 2 {
        outcome_is(res, Err(plain(ErrorCode::InvalidArgument, "apoc.refactor.rename.label requires from,to"@))) && new == old
    } else {
        match crate::cypher::literal_shape(parts[0]) {
            Err(e) => outcome_is(res, Err(e)) && new == old,
            Ok(ValueView::String(from)) => match crate::cypher::literal_shape(parts[1]) {
                Err(e) => outcome_is(res, Err(e)) && new == old,
                Ok(ValueView::String(to)) => if trim(from).len() == 0 || trim(to).len() == 0 {
                    outcome_is(res, Err(plain(ErrorCode::InvalidArgument, "from/to must not be empty"@))) && new == old
                } else {
                    outcome_is(res, Ok(single("updatedNodeCount"@, ValueView::Int64(crate::graph::label_count(store.node_list(), from) as i64))))
                        && new == (StoreState {
                            nodes: old.nodes.map_values(|n: NodeView| crate::graph::renamed_node(n, from, to)),
                            ..old
                        })
                },
                Ok(_) => outcome_is(res, Err(plain(ErrorCode::InvalidArgument, "to must be string"@))) && new == old,
            },
            Ok(_) => outcome_is(res, Err(plain(ErrorCode::InvalidArgument, "from must be string"@))) && new == old,
        }
    }
}

/// What `CALL <procedure>(<args>)` does for the procedures of the APOC manifest.
pub open spec fn call_rel(store: InMemoryGraphStore, q: Seq<char>, res: Result<QueryResult, GraphDbError>, new: StoreState) -> bool {
    let old = state(store);
    match call_parts(q) {
        Err(e) => outcome_is(res, Err(e)) && new == old,
        Ok((name, args)) => if !crate::contracts::allowed_procedure_names().contains(name) {
            outcome_is(res, Err(unsupported("unsupported procedure: "@ + name, "CALL"@))) && new == old
        } else if name == "apoc.meta.schema"@ {
            outcome_is(res, Ok(QueryView::Table {
                columns: seq!["nodes"@, "relationships"@],
                rows: seq![seq![ValueView::Int64(store.node_list().len() as i64), ValueView::Int64(store.edge_list().len() as i64)]],
            })) && new == old
        } else if name == "apoc.coll.toSet"@ {
            new == old && match crate::cypher::list_shape(args) {
                Err(e) => outcome_is(res, Err(e)),
                Ok(vs) => to_set_done(vs, res),
            }
        } else if name == "apoc.text.join"@ {
            new == old && join_rel(args, res)
        } else if name == "apoc.refactor.rename.label"@ {
            rename_rel(store, args, res, new)
        } else {
            outcome_is(res, Err(unsupported("unsupported procedure: "@ + name, "CALL"@))) && new == old
        }
    }
}

proof fn lemma_rfind_bounds(s: Seq<char>, c: char)
    ensures
        crate::text::rfind_char(s, c) matches Some(k) ==> 0 <= k < s.len(),
    decreases s.len(),
{
    if s.len() > 0 {
        lemma_rfind_bounds(s.drop_last(), c);
    }
}

/// The decimal text of an integer.
pub fn int_text_exec(n: i64) -> (res: Vec<char>)
    ensures
        res@ == int_text(n),
{
    if n < 0 {
        let a: u64 = (-(n as i128)) as u64;
        let mut out: Vec<char> = Vec::new();
        out.push('-');
        let out = concat(&out, &crate::text::decimal_chars(a));
        assert(out@ =~= int_text(n));
        out
    } else {
        crate::text::decimal_chars(n as u64)
    }
}

/// Whether the values hold one equal to `v`.
fn values_contain(vs: &Vec<Value>, v: &Value) -> (res: bool)
    ensures
        res == values_view(vs@).contains(v@),
{
    let mut i: usize = 0;
    while i < vs.len()
        invariant
            i <= vs@.len(),
            forall|j: int| 0 <= j < i ==> vs@[j]@ != v@,
        decreases vs@.len() - i,
    {
        if crate::graph::value_eq(&vs[i], v) {
            assert(values_view(vs@)[i as int] == v@);
            return true;
        }
        i += 1;
    }
    assert forall|j: int| 0 <= j < values_view(vs@).len() implies values_view(vs@)[j] != v@ by {
        assert(values_view(vs@)[j] == vs@[j]@);
    }
    false
}

/// `apoc.coll.toSet`: the values without repetitions.
fn dedup_values(values: &Vec<Value>) -> (res: Vec<Value>)
    ensures
        values_view(res@) == dedup(values_view(values@)),
{
    let ghost s = values_view(values@);
    let mut out: Vec<Value> = Vec::new();
    let mut i: usize = 0;
    assert(s.take(0) =~= Seq::<ValueView>::empty());
    while i < values.len()
        invariant
            s == values_view(values@),
            i <= values@.len(),
            values_view(out@) == dedup(s.take(i as int)),
        decreases values@.len() - i,
    {
        assert(s.take(i as int + 1).drop_last() =~= s.take(i as int));
        assert(s.take(i as int + 1).last() == values@[i as int]@);
        if !values_contain(&out, &values[i]) {
            let ghost before = values_view(out@);
            out.push(values[i].clone());
            assert(values_view(out@) =~= before.push(values@[i as int]@));
        }
        i += 1;
    }
    assert(s.take(values@.len() as int) =~= s);
    out
}

/// `apoc.text.join`: the texts of the values joined by `d`; `floats` writes floats.
fn join_values<F: FloatOps>(values: &Vec<Value>, d: &Vec<char>, floats: &F) -> (res: Vec<char>)
    ensures
        exists|texts: Seq<Seq<char>>| #![trigger join_text(texts, d@)]
            texts.len() == values@.len()
            && (forall|i: int| 0 <= i < values@.len() ==> render_fits(#[trigger] values@[i]@, texts[i]))
            && res@ == join_text(texts, d@),
{
    let ghost mut texts: Seq<Seq<char>> = Seq::empty();
    let mut out: Vec<char> = Vec::new();
    let mut i: usize = 0;
    while i < values.len()
        invariant
            i <= values@.len(),
            texts.len() == i,
            forall|j: int| 0 <= j < i ==> render_fits(#[trigger] values@[j]@, texts[j]),
            out@ == join_text(texts, d@),
        decreases values@.len() - i,
    {
        let text: Vec<char> = match &values[i] {
            Value::String(s) => chars_of(s.as_str()),
            Value::Int64(n) => int_text_exec(*n),
            Value::Float64(b) => {
                let t = floats.float_text(*b);
                chars_of(t.as_str())
            },
            Value::Bool(b) => if *b { chars_of("true") } else { chars_of("false") },
            Value::Bytes(_) => chars_of("<bytes>"),
        };
        let ghost before = texts;
        proof { texts = texts.push(text@); }
        assert(texts.drop_last() =~= before);
        if i > 0 {
            let with_d = concat(&out, d);
            out = concat(&with_d, &text);
        } else {
            out = text;
        }
        i += 1;
    }
    out
}

/// Runs `CALL <procedure>(<args>)` for `apoc.meta.schema`, `apoc.coll.toSet`,
/// `apoc.text.join` and `apoc.refactor.rename.label`.
pub fn execute_call<F: FloatOps>(store: &mut InMemoryGraphStore, query: &str, floats: &F) -> (res: Result<QueryResult, GraphDbError>)
    ensures
        call_rel(*old(store), query@, res, state(*final(store))),
{
    let q = chars_of(query);
    let ql = q.len();
    proof { reveal_strlit("CALL "); }
    if !starts_with_str(&q, "CALL ") {
        return Err(syntax_error("invalid CALL syntax"));
    }
    let call = trim_chars(&slice_chars(&q, 5, ql));
    let cl = call.len();
    let open = match crate::text::find_char(&call, '(') {
        None => return Err(syntax_error("CALL requires (")),
        Some(o) => o,
    };
    let close = match crate::text::rfind_char_exec(&call, ')') {
        None => return Err(syntax_error("CALL requires )")),
        Some(c) => c,
    };
    proof { lemma_rfind_bounds(call@, ')'); }
    if close <= open {
        return Err(syntax_error("invalid CALL argument list"));
    }
    let name = trim_chars(&slice_chars(&call, 0, open));
    let args = trim_chars(&slice_chars(&call, open + 1, close));
    let name_s = string_from_chars(name.as_slice());
    let args_s = string_from_chars(args.as_slice());
    let allowed = crate::contracts::load_apoc_procedure_names();
    assert(strings_view(allowed@) =~= crate::contracts::allowed_procedure_names());
    if !labels_contain(&allowed, name_s.as_str()) {
        let msg = concat(&chars_of("unsupported procedure: "), &name);
        let msg_s = string_from_chars(msg.as_slice());
        return Err(fail(ErrorCode::UnsupportedFeature, msg_s.as_str(), "CALL"));
    }
    if crate::text::chars_eq_str(&name, "apoc.meta.schema") {
        let columns = vec![crate::text::owned("nodes"), crate::text::owned("relationships")];
        let row = vec![Value::Int64(store.node_count() as i64), Value::Int64(store.edge_count() as i64)];
        let ghost rv = values_view(row@);
        let rows = vec![row];
        assert(strings_view(columns@) =~= seq!["nodes"@, "relationships"@]);
        assert(rows_view(rows@) =~= seq![rv]);
        assert(rv =~= seq![ValueView::Int64(store.node_list().len() as i64), ValueView::Int64(store.edge_list().len() as i64)]);
        return Ok(QueryResult::Table { columns, rows });
    }
    if crate::text::chars_eq_str(&name, "apoc.coll.toSet") {
        let values = match crate::cypher::parse_list_values(args_s.as_str(), floats) {
            Err(e) => return Err(e),
            Ok(v) => v,
        };
        let out = dedup_values(&values);
        let ghost ov = values_view(out@);
        let columns = vec![crate::text::owned("values")];
        let rows = vec![out];
        assert(strings_view(columns@) =~= seq!["values"@]);
        assert(rows_view(rows@) =~= seq![ov]);
        let res = QueryResult::Table { columns, rows };
        assert(outcome_is(Ok(res), Ok(QueryView::Table { columns: seq!["values"@], rows: seq![dedup(values_view(values@))] })));
        return Ok(res);
    }
    if crate::text::chars_eq_str(&name, "apoc.text.join") {
        let parts = crate::cypher::split_call_args(args_s.as_str());
        if parts.len() != 2 {
            return Err(fail_plain(ErrorCode::InvalidArgument, "apoc.text.join requires values, delimiter"));
        }
        assert(strings_view(parts@)[0] == parts@[0]@);
        assert(strings_view(parts@)[1] == parts@[1]@);
        let values = match crate::cypher::parse_list_values(parts[0].as_str(), floats) {
            Err(e) => return Err(e),
            Ok(v) => v,
        };
        let delim = match crate::cypher::literal_shape_exec(&chars_of(parts[1].as_str())) {
            Err(e) => return Err(e),
            Ok(Value::String(d)) => d,
            Ok(_) => return Err(fail_plain(ErrorCode::InvalidArgument, "delimiter must be string")),
        };
        let dc = chars_of(delim.as_str());
        let text = join_values(&values, &dc, floats);
        let res = single_table("value", Value::String(string_from_chars(text.as_slice())));
        proof {
            let vs = crate::cypher::list_shape(parts@[0]@)->Ok_0;
            let texts = choose|texts: Seq<Seq<char>>| #![trigger join_text(texts, dc@)]
                texts.len() == values@.len()
                && (forall|i: int| 0 <= i < values@.len() ==> render_fits(#[trigger] values@[i]@, texts[i]))
                && text@ == join_text(texts, dc@);
            assert forall|i: int| 0 <= i < vs.len() implies render_fits(#[trigger] vs[i], texts[i]) by {
                assert(values_view(values@)[i] == values@[i]@);
                assert(render_fits(values@[i]@, texts[i]));
                assert(value_like(values@[i]@, vs[i]));
            }
            assert(joined(vs, dc@, Ok(res)));
        }
        return Ok(res);
    }
    if crate::text::chars_eq_str(&name, "apoc.refactor.rename.label") {
        let parts = crate::cypher::split_call_args(args_s.as_str());
        if parts.len() != 2 {
            return Err(fail_plain(ErrorCode::InvalidArgument, "apoc.refactor.rename.label requires from,to"));
        }
        assert(strings_view(parts@)[0] == parts@[0]@);
        assert(strings_view(parts@)[1] == parts@[1]@);
        let from = match crate::cypher::literal_shape_exec(&chars_of(parts[0].as_str())) {
            Err(e) => return Err(e),
            Ok(Value::String(f)) => f,
            Ok(_) => return Err(fail_plain(ErrorCode::InvalidArgument, "from must be string")),
        };
        let to = match crate::cypher::literal_shape_exec(&chars_of(parts[1].as_str())) {
            Err(e) => return Err(e),
            Ok(Value::String(t)) => t,
            Ok(_) => return Err(fail_plain(ErrorCode::InvalidArgument, "to must be string")),
        };
        if trim_chars(&chars_of(from.as_str())).len() == 0 || trim_chars(&chars_of(to.as_str())).len() == 0 {
            return Err(fail_plain(ErrorCode::InvalidArgument, "from/to must not be empty"));
        }
        let updated = store.rename_label(from.as_str(), to.as_str());
        return Ok(single_table("updatedNodeCount", Value::Int64(updated as i64)));
    }
    let msg = concat(&chars_of("unsupported procedure: "), &name);
    let msg_s = string_from_chars(msg.as_slice());
    Err(fail(ErrorCode::UnsupportedFeature, msg_s.as_str(), "CALL"))
}

} // verus!

verus! {

/// Whether a query starts with `MATCH ` or `OPTIONAL MATCH `.
pub open spec fn is_match_query(q: Seq<char>) -> bool {
    starts_with(q, "MATCH "@) || starts_with(q, "OPTIONAL MATCH "@)
}

/// The query after trimming, dropping a pass-through `WITH n,r,m` and rewriting a `WITH`.
pub open spec fn normalized_query(query: Seq<char>) -> Result<Seq<char>, QErr> {
    let q0 = trim(query);
    let q1 = if is_match_query(q0) && contains(q0, " WITH n,r,m RETURN n,r,m"@) {
        replace_first(q0, " WITH n,r,m RETURN n,r,m"@, " RETURN n,r,m"@)
    } else {
        q0
    };
    if is_match_query(q1) && contains(q1, " WITH "@) { crate::cypher::normalized_with(q1) } else { Ok(q1) }
}

/// Whether a MATCH names a relationship `-[r]->` or `-[r]-`.
pub open spec fn is_rel_pattern(q: Seq<char>) -> bool {
    contains(q, "-[r]->("@) || contains(q, "-[r]-("@)
}

/// What a query does: its outcome and the state of the store after it, by its leading clause.
pub open spec fn query_rel(store: InMemoryGraphStore, query: Seq<char>, res: Result<QueryResult, GraphDbError>, new: StoreState) -> bool {
    let old = state(store);
    match normalized_query(query) {
        Err(e) => outcome_is(res, Err(e)) && new == old,
        Ok(q) => if starts_with(q, "MATCH "@) {
            new == old && if is_rel_pattern(q) { rel_query_rel(store, q, false, res) } else { outcome_is(res, match_outcome(store, q)) }
        } else if starts_with(q, "OPTIONAL MATCH "@) {
            new == old && if is_rel_pattern(q) { rel_query_rel(store, q, true, res) } else { outcome_is(res, optional_match_outcome(store, q)) }
        } else if starts_with(q, "UNWIND "@) {
            new == old && outcome_like(res, unwind_outcome(q))
        } else if starts_with(q, "CREATE "@) {
            create_rel(old, q, res, new)
        } else if starts_with(q, "MERGE "@) {
            merge_rel(store, q, res, new)
        } else if starts_with(q, "DELETE "@) {
            delete_rel(old, q, res, new)
        } else if starts_with(q, "SET "@) {
            set_rel(old, q, res, new)
        } else if starts_with(q, "REMOVE "@) {
            remove_rel(old, q, res, new)
        } else if starts_with(q, "CALL "@) {
            call_rel(store, q, res, new)
        } else {
            outcome_is(res, Err(unsupported("unsupported cypher clause for openCypher 9 profile"@,
                match crate::cypher::first_token(q) { Some(t) => t, None => "UNKNOWN"@ }))) && new == old
        },
    }
}

/// Runs one query of the supported openCypher subset against the store; `floats` reads float
/// literals and does float arithmetic.
pub fn execute_query<F: FloatOps>(store: &mut InMemoryGraphStore, query: &str, floats: &F) -> (res: Result<QueryResult, GraphDbError>)
    requires
        old(store).node_seq() < u64::MAX,
    ensures
        query_rel(*old(store), query@, res, state(*final(store))),
        final(store).lists_agree(),
{
    let res = run_query_on(store, query, floats);
    store.node_list_agrees();
    store.edge_list_agrees();
    res
}

fn run_query_on<F: FloatOps>(store: &mut InMemoryGraphStore, query: &str, floats: &F) -> (res: Result<QueryResult, GraphDbError>)
    requires
        old(store).node_seq() < u64::MAX,
    ensures
        query_rel(*old(store), query@, res, state(*final(store))),
{
    let q0 = trim_chars(&chars_of(query));
    let m0 = starts_with_str(&q0, "MATCH ") || starts_with_str(&q0, "OPTIONAL MATCH ");
    let q1 = if m0 && contains_str(&q0, " WITH n,r,m RETURN n,r,m") {
        replace_first_exec(&q0, " WITH n,r,m RETURN n,r,m", " RETURN n,r,m")
    } else {
        q0
    };
    let m1 = starts_with_str(&q1, "MATCH ") || starts_with_str(&q1, "OPTIONAL MATCH ");
    let q = if m1 && contains_str(&q1, " WITH ") {
        let s1 = string_from_chars(q1.as_slice());
        match crate::cypher::normalize_with_query(s1.as_str()) {
            Err(e) => return Err(e),
            Ok(n) => n,
        }
    } else {
        string_from_chars(q1.as_slice())
    };
    let qc = chars_of(q.as_str());
    let qs = q.as_str();
    if starts_with_str(&qc, "MATCH ") {
        if contains_str(&qc, "-[r]->(") || contains_str(&qc, "-[r]-(") {
            return execute_match_relationship(store, qs, false, floats);
        }
        return execute_match(store, qs);
    }
    if starts_with_str(&qc, "OPTIONAL MATCH ") {
        if contains_str(&qc, "-[r]->(") || contains_str(&qc, "-[r]-(") {
            return execute_match_relationship(store, qs, true, floats);
        }
        return execute_optional_match(store, qs);
    }
    if starts_with_str(&qc, "UNWIND ") {
        return execute_unwind(qs, floats);
    }
    if starts_with_str(&qc, "CREATE ") {
        return execute_create(store, qs, floats);
    }
    if starts_with_str(&qc, "MERGE ") {
        return execute_merge(store, qs, floats);
    }
    if starts_with_str(&qc, "DELETE ") {
        return execute_delete(store, qs);
    }
    if starts_with_str(&qc, "SET ") {
        return execute_set(store, qs, floats);
    }
    if starts_with_str(&qc, "REMOVE ") {
        return execute_remove(store, qs);
    }
    if starts_with_str(&qc, "CALL ") {
        return execute_call(store, qs, floats);
    }
    let toks = crate::text::split_whitespace_exec(&qc);
    let clause = if toks.len() > 0 {
        assert(toks@.map_values(|p: Vec<char>| p@)[0] == toks@[0]@);
        string_from_chars(toks[0].as_slice())
    } else {
        crate::text::owned("UNKNOWN")
    };
    Err(fail(ErrorCode::UnsupportedFeature, "unsupported cypher clause for openCypher 9 profile", clause.as_str()))
}

} // verus!

verus! {

/// A query creates at most one node id and no edge id: the node counter grows by at most one
/// and the edge counter stays.
pub proof fn lemma_query_counters(store: InMemoryGraphStore, q: Seq<char>, res: Result<QueryResult, GraphDbError>, new: StoreState)
    requires
        query_rel(store, q, res, new),
    ensures
        state(store).node_seq <= new.node_seq <= state(store).node_seq + 1,
        new.edge_seq == state(store).edge_seq,
{
    let old = state(store);
    match normalized_query(q) {
        Err(_) => {},
        Ok(q2) => {
            if !starts_with(q2, "MATCH "@) && !starts_with(q2, "OPTIONAL MATCH "@) && !starts_with(q2, "UNWIND "@)
                && !starts_with(q2, "CREATE "@) && starts_with(q2, "MERGE "@) && starts_with(q2, "MERGE ("@) {
                match crate::cypher::pattern_split(q2, "MERGE "@) {
                    Ok((pat, tail)) => match crate::cypher::payload_shape(pat, "MERGE "@) {
                        Ok((label, m)) => {
                            let act = choose|act: Map<Seq<char>, ValueView>| #![trigger merge_with(state(store), store.node_list(), label, act, tail, res, new)]
                                crate::cypher::props_like(act, m) && merge_with(state(store), store.node_list(), label, act, tail, res, new);
                            assert(merge_with(old, store.node_list(), label, act, tail, res, new));
                        },
                        Err(_) => {},
                    },
                    Err(_) => {},
                }
            }
        },
    }
}

} // verus!

verus! {

/// Rows whose sort keys never decrease.
pub open spec fn rows_in_key_order(s: Seq<RowView>) -> bool {
    forall|i: int, j: int| 0 <= i < j < s.len() ==> !lex_lt(#[trigger] row_key(s[j]), #[trigger] row_key(s[i]))
}

proof fn lemma_insert_row_orders(s: Seq<RowView>, x: RowView)
    requires
        rows_in_key_order(s),
    ensures
        rows_in_key_order(insert_row(s, x)),
        insert_row(s, x).to_multiset() == s.to_multiset().insert(x),
    decreases s.len(),
{
    broadcast use vstd::seq_lib::group_to_multiset_ensures;
    broadcast use vstd::multiset::group_multiset_axioms;
    if s.len() == 0 {
        assert(seq![x] =~= Seq::<RowView>::empty().push(x));
        assert(s =~= Seq::<RowView>::empty());
    } else {
        let d = s.drop_last();
        let last = s.last();
        assert(s =~= d.push(last));
        if lex_lt(row_key(x), row_key(last)) {
            assert(rows_in_key_order(d)) by {
                assert forall|i: int, j: int| 0 <= i < j < d.len() implies !lex_lt(#[trigger] row_key(d[j]), #[trigger] row_key(d[i])) by {
                    assert(d[i] == s[i] && d[j] == s[j]);
                }
            }
            lemma_insert_row_orders(d, x);
            let r = insert_row(d, x);
            assert(insert_row(s, x) == r.push(last));
            assert forall|i: int, j: int| 0 <= i < j < r.push(last).len()
                implies !lex_lt(#[trigger] row_key(r.push(last)[j]), #[trigger] row_key(r.push(last)[i])) by {
                if j < r.len() {
                    assert(r.push(last)[i] == r[i] && r.push(last)[j] == r[j]);
                } else {
                    let e = r[i];
                    assert(r.push(last)[i] == e);
                    assert(r.contains(e));
                    assert(r.to_multiset().count(e) > 0);
                    if e == x {
                        lemma_lex_trichotomy(row_key(x), row_key(last));
                    } else {
                        assert(d.to_multiset().count(e) > 0);
                        assert(d.contains(e));
                        let k = choose|k: int| 0 <= k < d.len() && d[k] == e;
                        assert(s[k] == e && s[s.len() - 1] == last);
                    }
                }
            }
        } else {
            assert(insert_row(s, x) == s.push(x));
            assert forall|i: int, j: int| 0 <= i < j < s.push(x).len()
                implies !lex_lt(#[trigger] row_key(s.push(x)[j]), #[trigger] row_key(s.push(x)[i])) by {
                if j < s.len() {
                    assert(s.push(x)[i] == s[i] && s.push(x)[j] == s[j]);
                } else {
                    let e = s[i];
                    assert(s.push(x)[i] == e);
                    if i < s.len() - 1 {
                        assert(!lex_lt(row_key(s[s.len() - 1]), row_key(s[i])));
                        lemma_lex_trichotomy(row_key(e), row_key(last));
                        lemma_lex_trichotomy(row_key(x), row_key(last));
                        if lex_lt(row_key(x), row_key(e)) {
                            if lex_lt(row_key(e), row_key(last)) {
                                lemma_lex_transitive(row_key(x), row_key(e), row_key(last));
                            }
                        }
                    }
                }
            }
        }
    }
}

/// `ORDER BY n.id` orders rows by their first value: the sorted rows are the same rows, and
/// their keys never decrease.
pub proof fn lemma_sort_rows_orders(rows: Seq<RowView>)
    ensures
        rows_in_key_order(sort_rows(rows)),
        sort_rows(rows).to_multiset() == rows.to_multiset(),
    decreases rows.len(),
{
    broadcast use vstd::seq_lib::group_to_multiset_ensures;
    if rows.len() == 0 {
        assert(rows =~= Seq::<RowView>::empty());
    } else {
        lemma_sort_rows_orders(rows.drop_last());
        lemma_insert_row_orders(sort_rows(rows.drop_last()), rows.last());
        assert(rows =~= rows.drop_last().push(rows.last()));
    }
}

/// A node pattern's filters: exactly the nodes of the list that carry the label and have the
/// id, where these are given, are selected, in list order.
pub proof fn lemma_select_nodes_filters(s: Seq<NodeView>, label: Option<Seq<char>>, id: Option<Seq<char>>, n: NodeView)
    ensures
        select_nodes(s, label, id).contains(n) <==> (s.contains(n)
            && (label matches Some(l) ==> n.labels.contains(l))
            && (id matches Some(i) ==> n.id == i)),
        select_nodes(s, label, id) == s.filter(|m: NodeView|
            (label matches Some(l) ==> m.labels.contains(l)) && (id matches Some(i) ==> m.id == i)),
    decreases s.len(),
{
    if s.len() == 0 {
        assert(s.filter(|m: NodeView|
            (label matches Some(l) ==> m.labels.contains(l)) && (id matches Some(i) ==> m.id == i)) =~= Seq::<NodeView>::empty()) by {
            reveal(Seq::filter);
        }
    }
    if s.len() > 0 {
        let d = s.drop_last();
        lemma_select_nodes_filters(d, label, id, n);
        assert(s =~= d.push(s.last()));
        d.lemma_filter_push(s.last(), |m: NodeView|
            (label matches Some(l) ==> m.labels.contains(l)) && (id matches Some(i) ==> m.id == i));
        crate::graph::lemma_push_contains(d, s.last(), n);
        crate::graph::lemma_push_contains(select_nodes(d, label, id), s.last(), n);
    }
}

/// `apoc.coll.toSet` holds no value twice, and holds exactly the values of its input.
pub proof fn lemma_dedup_is_set(vs: Seq<ValueView>)
    ensures
        dedup(vs).no_duplicates(),
        forall|v: ValueView| dedup(vs).contains(v) <==> vs.contains(v),
    decreases vs.len(),
{
    if vs.len() > 0 {
        let d = vs.drop_last();
        lemma_dedup_is_set(d);
        let r = dedup(d);
        assert(vs =~= d.push(vs.last()));
        assert forall|v: ValueView| dedup(vs).contains(v) <==> vs.contains(v) by {
            crate::graph::lemma_push_contains(d, vs.last(), v);
            crate::graph::lemma_push_contains(r, vs.last(), v);
        }
        if !r.contains(vs.last()) {
            assert forall|i: int, j: int| 0 <= i < r.push(vs.last()).len() && 0 <= j < r.push(vs.last()).len() && i != j
                implies r.push(vs.last())[i] != r.push(vs.last())[j] by {
                if i == r.len() {
                    assert(r.contains(r[j]));
                } else if j == r.len() {
                    assert(r.contains(r[i]));
                }
            }
        }
    }
}

} // verus!
