//! The in-memory property graph: values, nodes, edges and the store that holds them.

use vstd::prelude::*;
use crate::strmap::{StrMap, keys_distinct, entries_map};
use crate::keyed::{Keyed, sorted_keys, keyed_map, key_index, has_key, locate, put, take_at, lemma_keyed_map_at, lemma_keyed_map_key, lemma_sorted_distinct};
use crate::text::{owned, str_eq, decimal_chars, decimal, lex_lt, lex_less, string_from_chars,
    lemma_lex_irreflexive, lemma_lex_trichotomy, lemma_lex_transitive};

verus! {

/// A property value. A 64-bit float is held by its IEEE-754 bit pattern.
#[derive(Debug, PartialEq)]
pub enum Value {
    String(String),
    Int64(i64),
    Float64(u64),
    Bool(bool),
    Bytes(Vec<u8>),
}

/// What a value stands for.
pub enum ValueView {
    String(Seq<char>),
    Int64(i64),
    Float64(u64),
    Bool(bool),
    Bytes(Seq<u8>),
}

impl View for Value {
    type V = ValueView;

    open spec fn view(&self) -> ValueView {
        match self {
            Value::String(s) => ValueView::String(s@),
            Value::Int64(n) => ValueView::Int64(*n),
            Value::Float64(b) => ValueView::Float64(*b),
            Value::Bool(b) => ValueView::Bool(*b),
            Value::Bytes(b) => ValueView::Bytes(b@),
        }
    }
}

fn copy_bytes(b: &Vec<u8>) -> (res: Vec<u8>)
    ensures
        res@ == b@,
{
    let mut out: Vec<u8> = Vec::new();
    let mut i: usize = 0;
    while i < b.len()
        invariant
            i <= b@.len(),
            out@ == b@.subrange(0, i as int),
        decreases b@.len() - i,
    {
        out.push(b[i]);
        i += 1;
        assert(out@ =~= b@.subrange(0, i as int));
    }
    assert(b@.subrange(0, b@.len() as int) =~= b@);
    out
}

impl Clone for Value {
    fn clone(&self) -> (res: Self)
        ensures
            res@ == self@,
    {
        match self {
            Value::String(s) => Value::String(s.clone()),
            Value::Int64(n) => Value::Int64(*n),
            Value::Float64(b) => Value::Float64(*b),
            Value::Bool(b) => Value::Bool(*b),
            Value::Bytes(b) => Value::Bytes(copy_bytes(b)),
        }
    }
}

/// Whether two values stand for the same thing.
pub fn value_eq(a: &Value, b: &Value) -> (res: bool)
    ensures
        res == (a@ == b@),
{
    match (a, b) {
        (Value::String(x), Value::String(y)) => *x == *y,
        (Value::Int64(x), Value::Int64(y)) => *x == *y,
        (Value::Float64(x), Value::Float64(y)) => *x == *y,
        (Value::Bool(x), Value::Bool(y)) => *x == *y,
        (Value::Bytes(x), Value::Bytes(y)) => {
            if x.len() != y.len() {
                return false;
            }
            let mut i: usize = 0;
            #[verifier::loop_isolation(false)]
            while i < x.len()
                invariant
                    x@.len() == y@.len(),
                    i <= x@.len(),
                    forall|j: int| 0 <= j < i ==> x@[j] == y@[j],
                decreases x@.len() - i,
            {
                if x[i] != y[i] {
                    assert(x@[i as int] != y@[i as int]);
                    return false;
                }
                i += 1;
            }
            assert(x@ =~= y@);
            true
        },
        _ => false,
    }
}

/// Named property values of a node or an edge.
pub type Properties = StrMap<Value>;

/// What a property map stands for.
pub open spec fn props_view(p: Properties) -> Map<Seq<char>, ValueView> {
    p@.map_values(|v: Value| v@)
}

/// A copy of a property map.
pub fn clone_properties(p: &Properties) -> (res: Properties)
    ensures
        props_view(res) == props_view(*p),
{
    let mut out: Properties = StrMap::new();
    p.keys_are_distinct();
    let n = p.len();
    let mut i: usize = 0;
    while i < n
        invariant
            n == p.entries().len(),
            keys_distinct(p.entries()),
            i <= n,
            forall|k: Seq<char>| #[trigger] out@.contains_key(k) <==>
                exists|j: int| 0 <= j < i && p.entries()[j].0@ == k,
            forall|j: int| 0 <= j < i ==> out@.contains_key((#[trigger] p.entries()[j]).0@),
            forall|k: Seq<char>| #[trigger] out@.contains_key(k) ==> p@.contains_key(k) && out@[k]@ == p@[k]@,
        decreases n - i,
    {
        let (k, v) = p.entry_at(i);
        proof { p.lemma_entry_in_map(i as int); }
        out.insert(k.clone(), v.clone());
        i += 1;
        assert forall|q: Seq<char>| #[trigger] out@.contains_key(q) <==>
            exists|j: int| 0 <= j < i && p.entries()[j].0@ == q by {
            if q == k@ {
                assert(p.entries()[i - 1].0@ == q);
            }
        }
    }
    assert forall|k: Seq<char>| #[trigger] p@.contains_key(k) implies out@.contains_key(k) by {
        p.lemma_key_has_entry(k);
        let j = choose|j: int| 0 <= j < p.entries().len() && p.entries()[j].0@ == k;
        assert(out@.contains_key(p.entries()[j].0@));
    }
    assert(props_view(out) =~= props_view(*p));
    out
}

} // verus!

verus! {

/// What a list of strings stands for.
pub open spec fn strings_view(v: Seq<String>) -> Seq<Seq<char>> {
    v.map_values(|s: String| s@)
}

/// A copy of a list of strings.
pub fn clone_strings(v: &Vec<String>) -> (res: Vec<String>)
    ensures
        strings_view(res@) == strings_view(v@),
{
    let mut out: Vec<String> = Vec::new();
    let mut i: usize = 0;
    while i < v.len()
        invariant
            i <= v@.len(),
            out@.len() == i,
            forall|j: int| 0 <= j < i ==> (#[trigger] out@[j])@ == v@[j]@,
        decreases v@.len() - i,
    {
        let c = v[i].clone();
        out.push(c);
        i += 1;
    }
    assert(strings_view(out@) =~= strings_view(v@));
    out
}

/// A node: an id, its labels and its properties.
#[derive(Debug)]
pub struct GraphNode {
    pub id: String,
    pub labels: Vec<String>,
    pub properties: Properties,
}

/// An edge between two nodes, with a type and properties.
#[derive(Debug)]
pub struct GraphEdge {
    pub id: String,
    pub from: String,
    pub to: String,
    pub edge_type: String,
    pub properties: Properties,
}

/// What a node stands for.
pub struct NodeView {
    pub id: Seq<char>,
    pub labels: Seq<Seq<char>>,
    pub properties: Map<Seq<char>, ValueView>,
}

/// What an edge stands for.
pub struct EdgeView {
    pub id: Seq<char>,
    pub from: Seq<char>,
    pub to: Seq<char>,
    pub edge_type: Seq<char>,
    pub properties: Map<Seq<char>, ValueView>,
}

impl View for GraphNode {
    type V = NodeView;

    open spec fn view(&self) -> NodeView {
        NodeView { id: self.id@, labels: strings_view(self.labels@), properties: props_view(self.properties) }
    }
}

impl View for GraphEdge {
    type V = EdgeView;

    open spec fn view(&self) -> EdgeView {
        EdgeView {
            id: self.id@,
            from: self.from@,
            to: self.to@,
            edge_type: self.edge_type@,
            properties: props_view(self.properties),
        }
    }
}

impl Keyed for GraphNode {
    open spec fn key(&self) -> Seq<char> {
        self.id@
    }

    fn key_string(&self) -> (res: &String) {
        &self.id
    }
}

impl Keyed for GraphEdge {
    open spec fn key(&self) -> Seq<char> {
        self.id@
    }

    fn key_string(&self) -> (res: &String) {
        &self.id
    }
}

impl Clone for GraphNode {
    fn clone(&self) -> (res: Self)
        ensures
            res@ == self@,
    {
        GraphNode {
            id: self.id.clone(),
            labels: clone_strings(&self.labels),
            properties: clone_properties(&self.properties),
        }
    }
}

impl Clone for GraphEdge {
    fn clone(&self) -> (res: Self)
        ensures
            res@ == self@,
    {
        GraphEdge {
            id: self.id.clone(),
            from: self.from.clone(),
            to: self.to.clone(),
            edge_type: self.edge_type.clone(),
            properties: clone_properties(&self.properties),
        }
    }
}

/// The views of a sequence of nodes.
pub open spec fn nodes_view(s: Seq<GraphNode>) -> Seq<NodeView> {
    s.map_values(|n: GraphNode| n@)
}

/// The views of a sequence of edges.
pub open spec fn edges_view(s: Seq<GraphEdge>) -> Seq<EdgeView> {
    s.map_values(|e: GraphEdge| e@)
}

/// The id of the `seq`-th node created: `n` followed by the decimal number.
pub open spec fn node_id_for(seq: nat) -> Seq<char> {
    seq!['n'] + decimal(seq)
}

/// The id of the `seq`-th edge created: `e` followed by the decimal number.
pub open spec fn edge_id_for(seq: nat) -> Seq<char> {
    seq!['e'] + decimal(seq)
}

/// Whether a node matches an optional label and every given property value.
pub open spec fn node_matches(n: NodeView, label: Option<Seq<char>>, props: Map<Seq<char>, ValueView>) -> bool {
    &&& (label matches Some(l) ==> n.labels.contains(l))
    &&& forall|k: Seq<char>| #[trigger] props.contains_key(k) ==>
            n.properties.contains_key(k) && n.properties[k] == props[k]
}

/// Whether an edge starts or ends at the node with the given id.
pub open spec fn edge_touches(e: EdgeView, node_id: Seq<char>) -> bool {
    e.from == node_id || e.to == node_id
}

/// The labels of a node after renaming every label `from` to `to`.
pub open spec fn renamed_labels(labels: Seq<Seq<char>>, from: Seq<char>, to: Seq<char>) -> Seq<Seq<char>> {
    labels.map_values(|l: Seq<char>| if l == from { to } else { l })
}

/// A node after renaming its labels.
pub open spec fn renamed_node(n: NodeView, from: Seq<char>, to: Seq<char>) -> NodeView {
    NodeView { labels: renamed_labels(n.labels, from, to), ..n }
}

/// The view of an optional string slice.
pub open spec fn opt_str_view(o: Option<&str>) -> Option<Seq<char>> {
    match o {
        Some(s) => Some(s@),
        None => None,
    }
}

/// The ids of the edges of `s` that start or end at `node_id`, in the order of `s`.
pub open spec fn touching_ids(s: Seq<EdgeView>, node_id: Seq<char>) -> Seq<Seq<char>>
    decreases s.len(),
{
    if s.len() == 0 {
        Seq::empty()
    } else {
        let rest = touching_ids(s.drop_last(), node_id);
        if edge_touches(s.last(), node_id) { rest.push(s.last().id) } else { rest }
    }
}

/// The edges of `m` that neither start nor end at `node_id`.
pub open spec fn edges_not_touching(m: Map<Seq<char>, EdgeView>, node_id: Seq<char>) -> Map<Seq<char>, EdgeView> {
    Map::new(|k: Seq<char>| m.contains_key(k) && !edge_touches(m[k], node_id), |k: Seq<char>| m[k])
}

/// How many nodes of `s` carry the label `l`.
pub open spec fn label_count(s: Seq<NodeView>, l: Seq<char>) -> nat
    decreases s.len(),
{
    if s.len() == 0 {
        0
    } else {
        label_count(s.drop_last(), l) + if s.last().labels.contains(l) { 1nat } else { 0nat }
    }
}

/// Whether the list of labels holds `l`.
pub fn labels_contain(labels: &Vec<String>, l: &str) -> (res: bool)
    ensures
        res == strings_view(labels@).contains(l@),
{
    let mut i: usize = 0;
    while i < labels.len()
        invariant
            i <= labels@.len(),
            forall|j: int| 0 <= j < i ==> labels@[j]@ != l@,
        decreases labels@.len() - i,
    {
        if str_eq(labels[i].as_str(), l) {
            assert(strings_view(labels@)[i as int] == l@);
            return true;
        }
        i += 1;
    }
    assert forall|j: int| 0 <= j < strings_view(labels@).len() implies strings_view(labels@)[j] != l@ by {
        assert(strings_view(labels@)[j] == labels@[j]@);
    }
    false
}

/// Whether `have` holds every property of `want` with the same value.
pub fn props_match(have: &Properties, want: &Properties) -> (res: bool)
    ensures
        res == forall|k: Seq<char>| #[trigger] props_view(*want).contains_key(k) ==>
            props_view(*have).contains_key(k) && props_view(*have)[k] == props_view(*want)[k],
{
    want.keys_are_distinct();
    let n = want.len();
    let mut i: usize = 0;
    while i < n
        invariant
            n == want.entries().len(),
            keys_distinct(want.entries()),
            i <= n,
            forall|j: int| 0 <= j < i ==> {
                let k = (#[trigger] want.entries()[j]).0@;
                props_view(*have).contains_key(k) && props_view(*have)[k] == props_view(*want)[k]
            },
        decreases n - i,
    {
        let (k, v) = want.entry_at(i);
        proof { want.lemma_entry_in_map(i as int); }
        match have.get(k.as_str()) {
            Some(w) => {
                if !value_eq(w, v) {
                    assert(props_view(*want).contains_key(k@));
                    assert(props_view(*have)[k@] == w@);
                    return false;
                }
            },
            None => {
                assert(props_view(*want).contains_key(k@));
                return false;
            },
        }
        assert(props_view(*have).contains_key(k@) && props_view(*have)[k@] == props_view(*want)[k@]);
        i += 1;
    }
    assert forall|k: Seq<char>| #[trigger] props_view(*want).contains_key(k) implies
        props_view(*have).contains_key(k) && props_view(*have)[k] == props_view(*want)[k] by {
        want.lemma_key_has_entry(k);
        let j = choose|j: int| 0 <= j < want.entries().len() && want.entries()[j].0@ == k;
        assert(want.entries()[j].0@ == k);
    }
    true
}

/// A copy of `labels` with every `from` replaced by `to`, and whether any was replaced.
pub fn rename_in_labels(labels: &Vec<String>, from: &str, to: &str) -> (res: (Vec<String>, bool))
    ensures
        strings_view(res.0@) == renamed_labels(strings_view(labels@), from@, to@),
        res.1 == strings_view(labels@).contains(from@),
{
    let mut out: Vec<String> = Vec::new();
    let mut changed = false;
    let mut i: usize = 0;
    while i < labels.len()
        invariant
            i <= labels@.len(),
            out@.len() == i,
            forall|j: int| 0 <= j < i ==> (#[trigger] out@[j])@ == (if labels@[j]@ == from@ { to@ } else { labels@[j]@ }),
            changed == exists|j: int| 0 <= j < i && labels@[j]@ == from@,
        decreases labels@.len() - i,
    {
        if str_eq(labels[i].as_str(), from) {
            out.push(owned(to));
            changed = true;
        } else {
            out.push(labels[i].clone());
        }
        i += 1;
    }
    assert(strings_view(out@) =~= renamed_labels(strings_view(labels@), from@, to@));
    proof {
        if changed {
            let j = choose|j: int| 0 <= j < labels@.len() && labels@[j]@ == from@;
            assert(strings_view(labels@)[j] == from@);
        } else {
            assert forall|j: int| 0 <= j < strings_view(labels@).len() implies strings_view(labels@)[j] != from@ by {
                assert(strings_view(labels@)[j] == labels@[j]@);
            }
        }
    }
    (out, changed)
}

/// Renaming labels position by position in a sorted node list renames them in the node map.
proof fn lemma_renamed_map(old_s: Seq<GraphNode>, s: Seq<GraphNode>, from: Seq<char>, to: Seq<char>)
    requires
        sorted_keys(old_s),
        sorted_keys(s),
        s.len() == old_s.len(),
        forall|j: int| 0 <= j < s.len() ==> (#[trigger] s[j])@ == renamed_node(old_s[j]@, from, to),
    ensures
        keyed_map(s).map_values(|n: GraphNode| n@)
            == keyed_map(old_s).map_values(|n: GraphNode| n@).map_values(|n: NodeView| renamed_node(n, from, to)),
{
    let lhs = keyed_map(s).map_values(|n: GraphNode| n@);
    let rhs = keyed_map(old_s).map_values(|n: GraphNode| n@).map_values(|n: NodeView| renamed_node(n, from, to));
    assert forall|k: Seq<char>| lhs.contains_key(k) <==> rhs.contains_key(k) by {
        if lhs.contains_key(k) {
            lemma_keyed_map_key(s, k);
            let i = choose|i: int| 0 <= i < s.len() && s[i].key() == k;
            assert(old_s[i].key() == s[i]@.id);
            lemma_keyed_map_at(old_s, i);
        }
        if rhs.contains_key(k) {
            lemma_keyed_map_key(old_s, k);
            let i = choose|i: int| 0 <= i < old_s.len() && old_s[i].key() == k;
            assert(s[i].key() == s[i]@.id);
            lemma_keyed_map_at(s, i);
        }
    }
    assert forall|k: Seq<char>| lhs.contains_key(k) implies lhs[k] == rhs[k] by {
        lemma_keyed_map_key(s, k);
        let i = choose|i: int| 0 <= i < s.len() && s[i].key() == k;
        assert(old_s[i].key() == s[i]@.id);
        lemma_keyed_map_at(s, i);
        lemma_keyed_map_at(old_s, i);
    }
    assert(lhs =~= rhs);
}

/// An element is in `s.push(x)` exactly when it is `x` or in `s`.
pub proof fn lemma_push_contains<A>(s: Seq<A>, x: A, k: A)
    ensures
        s.push(x).contains(k) <==> (s.contains(k) || k == x),
{
    if s.push(x).contains(k) {
        let p = choose|p: int| 0 <= p < s.push(x).len() && s.push(x)[p] == k;
        if p < s.len() {
            assert(s[p] == k);
        }
    }
    if s.contains(k) {
        let p = choose|p: int| 0 <= p < s.len() && s[p] == k;
        assert(s.push(x)[p] == k);
    }
    if k == x {
        assert(s.push(x)[s.len() as int] == k);
    }
}

/// The nodes of a list by id; a later node replaces an earlier one with the same id.
pub open spec fn nodes_by_id(s: Seq<GraphNode>) -> Map<Seq<char>, NodeView>
    decreases s.len(),
{
    if s.len() == 0 {
        Map::empty()
    } else {
        nodes_by_id(s.drop_last()).insert(s.last().id@, s.last()@)
    }
}

/// The edges of a list by id; a later edge replaces an earlier one with the same id.
pub open spec fn edges_by_id(s: Seq<GraphEdge>) -> Map<Seq<char>, EdgeView>
    decreases s.len(),
{
    if s.len() == 0 {
        Map::empty()
    } else {
        edges_by_id(s.drop_last()).insert(s.last().id@, s.last()@)
    }
}

/// An id made from the next count is in no map whose ids are made from counts up to `seq`.
proof fn lemma_next_id_fresh<V>(m: Map<Seq<char>, V>, seq: nat, prefix: char)
    requires
        forall|k: Seq<char>| #[trigger] m.contains_key(k) ==> exists|j: nat| 1 <= j <= seq && k == seq![prefix] + decimal(j),
    ensures
        !m.contains_key(seq![prefix] + decimal(seq + 1)),
{
    let k = seq![prefix] + decimal(seq + 1);
    if m.contains_key(k) {
        let j = choose|j: nat| 1 <= j <= seq && k == seq![prefix] + decimal(j);
        assert((seq![prefix] + decimal(j)).drop_first() =~= decimal(j));
        assert((seq![prefix] + decimal(seq + 1)).drop_first() =~= decimal(seq + 1));
        crate::text::lemma_decimal_injective(j, seq + 1);
    }
}

/// `ids` holds each element of `dom` once, in strictly increasing order.
pub open spec fn ids_listed(ids: Seq<Seq<char>>, dom: Set<Seq<char>>) -> bool {
    &&& forall|i: int, j: int| 0 <= i < j < ids.len() ==> lex_lt(#[trigger] ids[i], #[trigger] ids[j])
    &&& forall|i: int| 0 <= i < ids.len() ==> dom.contains(#[trigger] ids[i])
    &&& forall|k: Seq<char>| #[trigger] dom.contains(k) ==> exists|i: int| 0 <= i < ids.len() && ids[i] == k
}

/// Two strictly increasing listings of one set are the same.
pub proof fn lemma_ids_listed_unique(a: Seq<Seq<char>>, b: Seq<Seq<char>>, dom: Set<Seq<char>>)
    requires
        ids_listed(a, dom),
        ids_listed(b, dom),
    ensures
        a == b,
    decreases a.len(),
{
    if a.len() == 0 {
        if b.len() > 0 {
            assert(dom.contains(b[0]));
        }
        assert(a =~= b);
    } else {
        assert(dom.contains(a[0]));
        let j = choose|j: int| 0 <= j < b.len() && b[j] == a[0];
        assert(dom.contains(b[0]));
        let i = choose|i: int| 0 <= i < a.len() && a[i] == b[0];
        if i > 0 {
            assert(lex_lt(a[0], a[i]));
            if j > 0 {
                assert(lex_lt(b[0], b[j]));
                crate::text::lemma_lex_transitive(a[0], b[0], a[0]);
                crate::text::lemma_lex_irreflexive(a[0]);
            } else {
                crate::text::lemma_lex_irreflexive(a[0]);
            }
        }
        assert(a[0] == b[0]);
        let d = dom.remove(a[0]);
        let ra = a.drop_first();
        let rb = b.drop_first();
        assert forall|k: Seq<char>| #[trigger] d.contains(k) implies exists|q: int| 0 <= q < ra.len() && ra[q] == k by {
            let q = choose|q: int| 0 <= q < a.len() && a[q] == k;
            assert(q != 0);
            assert(ra[q - 1] == k);
        }
        assert forall|k: Seq<char>| #[trigger] d.contains(k) implies exists|q: int| 0 <= q < rb.len() && rb[q] == k by {
            let q = choose|q: int| 0 <= q < b.len() && b[q] == k;
            assert(q != 0);
            assert(rb[q - 1] == k);
        }
        assert forall|q: int| 0 <= q < ra.len() implies d.contains(#[trigger] ra[q]) by {
            assert(ra[q] == a[q + 1]);
            assert(lex_lt(a[0], a[q + 1]));
            crate::text::lemma_lex_irreflexive(a[0]);
        }
        assert forall|q: int| 0 <= q < rb.len() implies d.contains(#[trigger] rb[q]) by {
            assert(rb[q] == b[q + 1]);
            assert(lex_lt(b[0], b[q + 1]));
            crate::text::lemma_lex_irreflexive(b[0]);
        }
        assert forall|p: int, q: int| 0 <= p < q < ra.len() implies lex_lt(#[trigger] ra[p], #[trigger] ra[q]) by {
            assert(ra[p] == a[p + 1] && ra[q] == a[q + 1]);
        }
        assert forall|p: int, q: int| 0 <= p < q < rb.len() implies lex_lt(#[trigger] rb[p], #[trigger] rb[q]) by {
            assert(rb[p] == b[p + 1] && rb[q] == b[q + 1]);
        }
        lemma_ids_listed_unique(ra, rb, d);
        assert(a =~= seq![a[0]] + ra);
        assert(b =~= seq![b[0]] + rb);
    }
}

/// `list` holds the nodes of `map`, each once, in strictly increasing order of id.
pub open spec fn nodes_listed(list: Seq<NodeView>, map: Map<Seq<char>, NodeView>) -> bool {
    &&& forall|i: int, j: int| 0 <= i < j < list.len() ==> lex_lt(#[trigger] list[i].id, #[trigger] list[j].id)
    &&& forall|i: int| 0 <= i < list.len() ==> map.contains_key(#[trigger] list[i].id) && map[list[i].id] == list[i]
    &&& forall|k: Seq<char>| #[trigger] map.contains_key(k) ==> exists|i: int| 0 <= i < list.len() && list[i].id == k
}

/// `list` holds the edges of `map`, each once, in strictly increasing order of id.
pub open spec fn edges_listed(list: Seq<EdgeView>, map: Map<Seq<char>, EdgeView>) -> bool {
    &&& forall|i: int, j: int| 0 <= i < j < list.len() ==> lex_lt(#[trigger] list[i].id, #[trigger] list[j].id)
    &&& forall|i: int| 0 <= i < list.len() ==> map.contains_key(#[trigger] list[i].id) && map[list[i].id] == list[i]
    &&& forall|k: Seq<char>| #[trigger] map.contains_key(k) ==> exists|i: int| 0 <= i < list.len() && list[i].id == k
}

/// A node map has one listing: the nodes sorted by id.
pub proof fn lemma_nodes_listed_unique(a: Seq<NodeView>, b: Seq<NodeView>, map: Map<Seq<char>, NodeView>)
    requires
        nodes_listed(a, map),
        nodes_listed(b, map),
    ensures
        a == b,
{
    let ia = a.map_values(|n: NodeView| n.id);
    let ib = b.map_values(|n: NodeView| n.id);
    assert forall|k: Seq<char>| #[trigger] map.dom().contains(k) implies exists|q: int| 0 <= q < ia.len() && ia[q] == k by {
        let q = choose|q: int| 0 <= q < a.len() && a[q].id == k;
        assert(ia[q] == k);
    }
    assert forall|k: Seq<char>| #[trigger] map.dom().contains(k) implies exists|q: int| 0 <= q < ib.len() && ib[q] == k by {
        let q = choose|q: int| 0 <= q < b.len() && b[q].id == k;
        assert(ib[q] == k);
    }
    assert forall|p: int, q: int| 0 <= p < q < ia.len() implies lex_lt(#[trigger] ia[p], #[trigger] ia[q]) by {
        assert(ia[p] == a[p].id && ia[q] == a[q].id);
    }
    assert forall|p: int, q: int| 0 <= p < q < ib.len() implies lex_lt(#[trigger] ib[p], #[trigger] ib[q]) by {
        assert(ib[p] == b[p].id && ib[q] == b[q].id);
    }
    assert forall|q: int| 0 <= q < ia.len() implies map.dom().contains(#[trigger] ia[q]) by {
        assert(ia[q] == a[q].id);
    }
    assert forall|q: int| 0 <= q < ib.len() implies map.dom().contains(#[trigger] ib[q]) by {
        assert(ib[q] == b[q].id);
    }
    lemma_ids_listed_unique(ia, ib, map.dom());
    assert forall|q: int| 0 <= q < a.len() implies a[q] == b[q] by {
        assert(ia[q] == a[q].id && ib[q] == b[q].id);
    }
    assert(a =~= b);
}

/// An edge map has one listing: the edges sorted by id.
pub proof fn lemma_edges_listed_unique(a: Seq<EdgeView>, b: Seq<EdgeView>, map: Map<Seq<char>, EdgeView>)
    requires
        edges_listed(a, map),
        edges_listed(b, map),
    ensures
        a == b,
{
    let ia = a.map_values(|n: EdgeView| n.id);
    let ib = b.map_values(|n: EdgeView| n.id);
    assert forall|k: Seq<char>| #[trigger] map.dom().contains(k) implies exists|q: int| 0 <= q < ia.len() && ia[q] == k by {
        let q = choose|q: int| 0 <= q < a.len() && a[q].id == k;
        assert(ia[q] == k);
    }
    assert forall|k: Seq<char>| #[trigger] map.dom().contains(k) implies exists|q: int| 0 <= q < ib.len() && ib[q] == k by {
        let q = choose|q: int| 0 <= q < b.len() && b[q].id == k;
        assert(ib[q] == k);
    }
    assert forall|p: int, q: int| 0 <= p < q < ia.len() implies lex_lt(#[trigger] ia[p], #[trigger] ia[q]) by {
        assert(ia[p] == a[p].id && ia[q] == a[q].id);
    }
    assert forall|p: int, q: int| 0 <= p < q < ib.len() implies lex_lt(#[trigger] ib[p], #[trigger] ib[q]) by {
        assert(ib[p] == b[p].id && ib[q] == b[q].id);
    }
    assert forall|q: int| 0 <= q < ia.len() implies map.dom().contains(#[trigger] ia[q]) by {
        assert(ia[q] == a[q].id);
    }
    assert forall|q: int| 0 <= q < ib.len() implies map.dom().contains(#[trigger] ib[q]) by {
        assert(ib[q] == b[q].id);
    }
    lemma_ids_listed_unique(ia, ib, map.dom());
    assert forall|q: int| 0 <= q < a.len() implies a[q] == b[q] by {
        assert(ia[q] == a[q].id && ib[q] == b[q].id);
    }
    assert(a =~= b);
}

/// The in-memory graph. Nodes and edges are kept in increasing order of their ids.
#[derive(Debug)]
pub struct InMemoryGraphStore {
    nodes: Vec<GraphNode>,
    edges: Vec<GraphEdge>,
    next_node_seq: u64,
    next_edge_seq: u64,
}

impl InMemoryGraphStore {
    #[verifier::type_invariant]
    spec fn wf(&self) -> bool {
        sorted_keys(self.nodes@) && sorted_keys(self.edges@)
    }

    /// The nodes in increasing order of id.
    pub closed spec fn node_list(&self) -> Seq<NodeView> {
        nodes_view(self.nodes@)
    }

    /// The edges in increasing order of id.
    pub closed spec fn edge_list(&self) -> Seq<EdgeView> {
        edges_view(self.edges@)
    }

    /// The nodes by id.
    pub closed spec fn nodes(&self) -> Map<Seq<char>, NodeView> {
        keyed_map(self.nodes@).map_values(|n: GraphNode| n@)
    }

    /// The edges by id.
    pub closed spec fn edges(&self) -> Map<Seq<char>, EdgeView> {
        keyed_map(self.edges@).map_values(|e: GraphEdge| e@)
    }

    /// How many nodes have been created.
    pub closed spec fn node_seq(&self) -> nat {
        self.next_node_seq as nat
    }

    /// How many edges have been created.
    pub closed spec fn edge_seq(&self) -> nat {
        self.next_edge_seq as nat
    }

    /// The node list holds the nodes of the node map, each once, sorted by id, and the edge
    /// list likewise the edges of the edge map. Every store keeps it.
    pub open spec fn lists_agree(&self) -> bool {
        nodes_listed(self.node_list(), self.nodes()) && edges_listed(self.edge_list(), self.edges())
    }

    proof fn lemma_wf_lists(s: InMemoryGraphStore)
        requires
            s.wf(),
        ensures
            s.lists_agree(),
    {
        assert forall|i: int, j: int| 0 <= i < j < s.node_list().len()
            implies lex_lt(#[trigger] s.node_list()[i].id, #[trigger] s.node_list()[j].id) by {
            assert(lex_lt(s.nodes@[i].key(), s.nodes@[j].key()));
        }
        assert forall|i: int| 0 <= i < s.node_list().len() implies
            s.nodes().contains_key(#[trigger] s.node_list()[i].id)
            && s.nodes()[s.node_list()[i].id] == s.node_list()[i] by {
            lemma_keyed_map_at(s.nodes@, i);
        }
        assert forall|k: Seq<char>| #[trigger] s.nodes().contains_key(k) implies
            exists|i: int| 0 <= i < s.node_list().len() && s.node_list()[i].id == k by {
            lemma_keyed_map_key(s.nodes@, k);
            let i = choose|i: int| 0 <= i < s.nodes@.len() && s.nodes@[i].key() == k;
            assert(s.node_list()[i].id == k);
        }
        assert forall|i: int, j: int| 0 <= i < j < s.edge_list().len()
            implies lex_lt(#[trigger] s.edge_list()[i].id, #[trigger] s.edge_list()[j].id) by {
            assert(lex_lt(s.edges@[i].key(), s.edges@[j].key()));
        }
        assert forall|i: int| 0 <= i < s.edge_list().len() implies
            s.edges().contains_key(#[trigger] s.edge_list()[i].id)
            && s.edges()[s.edge_list()[i].id] == s.edge_list()[i] by {
            lemma_keyed_map_at(s.edges@, i);
        }
        assert forall|k: Seq<char>| #[trigger] s.edges().contains_key(k) implies
            exists|i: int| 0 <= i < s.edge_list().len() && s.edge_list()[i].id == k by {
            lemma_keyed_map_key(s.edges@, k);
            let i = choose|i: int| 0 <= i < s.edges@.len() && s.edges@[i].key() == k;
            assert(s.edge_list()[i].id == k);
        }
    }

    /// Every node id is `n<j>` and every edge id `e<j>` for some `j` up to the matching
    /// counter, as in a store built by this library's writes from an empty one.
    pub open spec fn ids_follow_counters(&self) -> bool {
        &&& forall|k: Seq<char>| #[trigger] self.nodes().contains_key(k) ==>
            exists|j: nat| 1 <= j <= self.node_seq() && k == node_id_for(j)
        &&& forall|k: Seq<char>| #[trigger] self.edges().contains_key(k) ==>
            exists|j: nat| 1 <= j <= self.edge_seq() && k == edge_id_for(j)
    }

    /// Two stores with the same nodes and edges list them alike: the lists are the maps'
    /// items sorted by id.
    pub proof fn lemma_lists_determined(a: InMemoryGraphStore, b: InMemoryGraphStore)
        requires
            a.lists_agree(),
            b.lists_agree(),
            a.nodes() == b.nodes(),
            a.edges() == b.edges(),
        ensures
            a.node_list() == b.node_list(),
            a.edge_list() == b.edge_list(),
    {
        lemma_nodes_listed_unique(a.node_list(), b.node_list(), a.nodes());
        lemma_edges_listed_unique(a.edge_list(), b.edge_list(), a.edges());
    }

    /// An empty graph.
    pub fn new() -> (res: Self)
        ensures
            res.node_list().len() == 0,
            res.edge_list().len() == 0,
            res.nodes() == Map::<Seq<char>, NodeView>::empty(),
            res.edges() == Map::<Seq<char>, EdgeView>::empty(),
            res.node_seq() == 0,
            res.edge_seq() == 0,
            res.lists_agree(),
            res.ids_follow_counters(),
    {
        let res = InMemoryGraphStore { nodes: Vec::new(), edges: Vec::new(), next_node_seq: 0, next_edge_seq: 0 };
        assert(res.nodes() =~= Map::<Seq<char>, NodeView>::empty());
        assert(res.edges() =~= Map::<Seq<char>, EdgeView>::empty());
        res
    }

    /// The node list is sorted by id and agrees with the node map.
    pub fn node_list_agrees(&self)
        ensures
            forall|i: int, j: int| 0 <= i < j < self.node_list().len()
                ==> lex_lt(#[trigger] self.node_list()[i].id, #[trigger] self.node_list()[j].id),
            forall|i: int| 0 <= i < self.node_list().len() ==>
                self.nodes().contains_key(#[trigger] self.node_list()[i].id)
                && self.nodes()[self.node_list()[i].id] == self.node_list()[i],
            forall|k: Seq<char>| #[trigger] self.nodes().contains_key(k) ==>
                exists|i: int| 0 <= i < self.node_list().len() && self.node_list()[i].id == k,
    {
        proof {
            use_type_invariant(self);
            assert forall|i: int, j: int| 0 <= i < j < self.node_list().len()
                implies lex_lt(#[trigger] self.node_list()[i].id, #[trigger] self.node_list()[j].id) by {
                assert(lex_lt(self.nodes@[i].key(), self.nodes@[j].key()));
            }
            assert forall|i: int| 0 <= i < self.node_list().len() implies
                self.nodes().contains_key(#[trigger] self.node_list()[i].id)
                && self.nodes()[self.node_list()[i].id] == self.node_list()[i] by {
                lemma_keyed_map_at(self.nodes@, i);
            }
            assert forall|k: Seq<char>| #[trigger] self.nodes().contains_key(k) implies
                exists|i: int| 0 <= i < self.node_list().len() && self.node_list()[i].id == k by {
                lemma_keyed_map_key(self.nodes@, k);
                let i = choose|i: int| 0 <= i < self.nodes@.len() && self.nodes@[i].key() == k;
                assert(self.node_list()[i].id == k);
            }
        }
    }

    /// The edge list is sorted by id and agrees with the edge map.
    pub fn edge_list_agrees(&self)
        ensures
            forall|i: int, j: int| 0 <= i < j < self.edge_list().len()
                ==> lex_lt(#[trigger] self.edge_list()[i].id, #[trigger] self.edge_list()[j].id),
            forall|i: int| 0 <= i < self.edge_list().len() ==>
                self.edges().contains_key(#[trigger] self.edge_list()[i].id)
                && self.edges()[self.edge_list()[i].id] == self.edge_list()[i],
            forall|k: Seq<char>| #[trigger] self.edges().contains_key(k) ==>
                exists|i: int| 0 <= i < self.edge_list().len() && self.edge_list()[i].id == k,
    {
        proof {
            use_type_invariant(self);
            assert forall|i: int, j: int| 0 <= i < j < self.edge_list().len()
                implies lex_lt(#[trigger] self.edge_list()[i].id, #[trigger] self.edge_list()[j].id) by {
                assert(lex_lt(self.edges@[i].key(), self.edges@[j].key()));
            }
            assert forall|i: int| 0 <= i < self.edge_list().len() implies
                self.edges().contains_key(#[trigger] self.edge_list()[i].id)
                && self.edges()[self.edge_list()[i].id] == self.edge_list()[i] by {
                lemma_keyed_map_at(self.edges@, i);
            }
            assert forall|k: Seq<char>| #[trigger] self.edges().contains_key(k) implies
                exists|i: int| 0 <= i < self.edge_list().len() && self.edge_list()[i].id == k by {
                lemma_keyed_map_key(self.edges@, k);
                let i = choose|i: int| 0 <= i < self.edges@.len() && self.edges@[i].key() == k;
                assert(self.edge_list()[i].id == k);
            }
        }
    }

    /// Creates a node with the next node id (`n1`, `n2`, ...).
    pub fn create_node(&mut self, labels: Vec<String>, properties: Properties) -> (res: GraphNode)
        requires
            old(self).node_seq() < u64::MAX,
        ensures
            res@ == (NodeView {
                id: node_id_for(old(self).node_seq() + 1),
                labels: strings_view(labels@),
                properties: props_view(properties),
            }),
            final(self).nodes() == old(self).nodes().insert(res@.id, res@),
            final(self).edges() == old(self).edges(),
            final(self).edge_list() == old(self).edge_list(),
            final(self).node_seq() == old(self).node_seq() + 1,
            final(self).edge_seq() == old(self).edge_seq(),
            final(self).lists_agree(),
            old(self).ids_follow_counters() ==> final(self).ids_follow_counters()
                && !old(self).nodes().contains_key(res@.id),
    {
        proof { use_type_invariant(&*self); Self::lemma_wf_lists(*self); }
        self.next_node_seq = self.next_node_seq + 1;
        let mut idc: Vec<char> = Vec::new();
        idc.push('n');
        let digits = decimal_chars(self.next_node_seq);
        let mut i: usize = 0;
        while i < digits.len()
            invariant
                i <= digits@.len(),
                idc@ == seq!['n'] + digits@.subrange(0, i as int),
            decreases digits@.len() - i,
        {
            idc.push(digits[i]);
            i += 1;
            assert(idc@ =~= seq!['n'] + digits@.subrange(0, i as int));
        }
        assert(digits@.subrange(0, digits@.len() as int) =~= digits@);
        let id = string_from_chars(idc.as_slice());
        let node = GraphNode { id, labels, properties };
        let copy = node.clone();
        let mut nodes: Vec<GraphNode> = Vec::new();
        std::mem::swap(&mut nodes, &mut self.nodes);
        let ghost old_nodes = nodes@;
        let ghost g = node;
        put(&mut nodes, node);
        proof { lemma_node_map_insert(old_nodes, nodes@, g, copy); }
        self.nodes = nodes;
        proof {
            use_type_invariant(&*self);
            Self::lemma_wf_lists(*self);
            if old(self).ids_follow_counters() {
                lemma_next_id_fresh(old(self).nodes(), old(self).node_seq(), 'n');
                assert forall|k: Seq<char>| #[trigger] self.nodes().contains_key(k) implies
                    exists|j: nat| 1 <= j <= self.node_seq() && k == node_id_for(j) by {
                    if k == copy@.id {
                        assert(k == node_id_for(self.node_seq()));
                    } else {
                        assert(old(self).nodes().contains_key(k));
                    }
                }
            }
        }
        copy
    }

    /// The node with the given id, if any.
    pub fn get_node(&self, node_id: &str) -> (res: Option<&GraphNode>)
        ensures
            match res {
                Some(n) => self.nodes().contains_key(node_id@) && n@ == self.nodes()[node_id@],
                None => !self.nodes().contains_key(node_id@),
            },
    {
        proof { use_type_invariant(self); }
        let key = owned(node_id);
        let (found, pos) = locate(&self.nodes, &key);
        if found {
            proof { lemma_keyed_map_at(self.nodes@, pos as int); }
            Some(&self.nodes[pos])
        } else {
            None
        }
    }

    /// Whether a node with the given id exists.
    pub fn has_node(&self, node_id: &str) -> (res: bool)
        ensures
            res == self.nodes().contains_key(node_id@),
    {
        self.get_node(node_id).is_some()
    }

    /// Replaces the labels and properties of an existing node.
    pub fn update_node(&mut self, node_id: &str, labels: Vec<String>, properties: Properties) -> (res: Option<GraphNode>)
        ensures
            old(self).nodes().contains_key(node_id@) ==> (res matches Some(n) && n@ == (NodeView {
                id: node_id@,
                labels: strings_view(labels@),
                properties: props_view(properties),
            }) && final(self).nodes() == old(self).nodes().insert(node_id@, n@)),
            !old(self).nodes().contains_key(node_id@) ==> res is None && final(self).nodes() == old(self).nodes(),
            final(self).edges() == old(self).edges(),
            final(self).edge_list() == old(self).edge_list(),
            final(self).node_seq() == old(self).node_seq(),
            final(self).edge_seq() == old(self).edge_seq(),
            final(self).lists_agree(),
    {
        proof { use_type_invariant(&*self); Self::lemma_wf_lists(*self); }
        let key = owned(node_id);
        let (found, _pos) = locate(&self.nodes, &key);
        if !found {
            return None;
        }
        let node = GraphNode { id: key, labels, properties };
        let copy = node.clone();
        let mut nodes: Vec<GraphNode> = Vec::new();
        std::mem::swap(&mut nodes, &mut self.nodes);
        let ghost old_nodes = nodes@;
        let ghost g = node;
        put(&mut nodes, node);
        proof { lemma_node_map_insert(old_nodes, nodes@, g, copy); }
        self.nodes = nodes;
        proof { use_type_invariant(&*self); Self::lemma_wf_lists(*self); }
        Some(copy)
    }

    /// Sets one property of an existing node; returns whether the node exists.
    pub fn set_node_property(&mut self, node_id: &str, key: String, value: Value) -> (res: bool)
        ensures
            res == old(self).nodes().contains_key(node_id@),
            res ==> final(self).nodes() == old(self).nodes().insert(node_id@, NodeView {
                properties: old(self).nodes()[node_id@].properties.insert(key@, value@),
                ..old(self).nodes()[node_id@]
            }),
            !res ==> final(self).nodes() == old(self).nodes(),
            final(self).edges() == old(self).edges(),
            final(self).edge_list() == old(self).edge_list(),
            final(self).node_seq() == old(self).node_seq(),
            final(self).edge_seq() == old(self).edge_seq(),
            final(self).lists_agree(),
    {
        proof { use_type_invariant(&*self); Self::lemma_wf_lists(*self); }
        let id = owned(node_id);
        let (found, pos) = locate(&self.nodes, &id);
        if !found {
            return false;
        }
        proof { lemma_keyed_map_at(self.nodes@, pos as int); }
        let mut node = self.nodes[pos].clone();
        let ghost before = node@;
        let ghost kv = key@;
        let ghost vv = value@;
        node.properties.insert(key, value);
        assert(props_view(node.properties) =~= before.properties.insert(kv, vv));
        let copy = node.clone();
        let mut nodes: Vec<GraphNode> = Vec::new();
        std::mem::swap(&mut nodes, &mut self.nodes);
        let ghost old_nodes = nodes@;
        let ghost g = node;
        put(&mut nodes, node);
        proof { lemma_node_map_insert(old_nodes, nodes@, g, copy); }
        self.nodes = nodes;
        proof { use_type_invariant(&*self); Self::lemma_wf_lists(*self); }
        true
    }

    /// Removes one property of an existing node; returns whether the node exists.
    pub fn remove_node_property(&mut self, node_id: &str, key: &str) -> (res: bool)
        ensures
            res == old(self).nodes().contains_key(node_id@),
            res ==> final(self).nodes() == old(self).nodes().insert(node_id@, NodeView {
                properties: old(self).nodes()[node_id@].properties.remove(key@),
                ..old(self).nodes()[node_id@]
            }),
            !res ==> final(self).nodes() == old(self).nodes(),
            final(self).edges() == old(self).edges(),
            final(self).edge_list() == old(self).edge_list(),
            final(self).node_seq() == old(self).node_seq(),
            final(self).edge_seq() == old(self).edge_seq(),
            final(self).lists_agree(),
    {
        proof { use_type_invariant(&*self); Self::lemma_wf_lists(*self); }
        let id = owned(node_id);
        let (found, pos) = locate(&self.nodes, &id);
        if !found {
            return false;
        }
        proof { lemma_keyed_map_at(self.nodes@, pos as int); }
        let mut node = self.nodes[pos].clone();
        let ghost before = node@;
        node.properties.remove(key);
        assert(props_view(node.properties) =~= before.properties.remove(key@));
        let copy = node.clone();
        let mut nodes: Vec<GraphNode> = Vec::new();
        std::mem::swap(&mut nodes, &mut self.nodes);
        let ghost old_nodes = nodes@;
        let ghost g = node;
        put(&mut nodes, node);
        proof { lemma_node_map_insert(old_nodes, nodes@, g, copy); }
        self.nodes = nodes;
        proof { use_type_invariant(&*self); Self::lemma_wf_lists(*self); }
        true
    }

    /// Deletes a node (its edges stay); returns whether it existed.
    pub fn delete_node(&mut self, node_id: &str) -> (res: bool)
        ensures
            res == old(self).nodes().contains_key(node_id@),
            final(self).nodes() == old(self).nodes().remove(node_id@),
            final(self).edges() == old(self).edges(),
            final(self).edge_list() == old(self).edge_list(),
            final(self).node_seq() == old(self).node_seq(),
            final(self).edge_seq() == old(self).edge_seq(),
            final(self).lists_agree(),
    {
        proof { use_type_invariant(&*self); Self::lemma_wf_lists(*self); }
        let id = owned(node_id);
        let (found, pos) = locate(&self.nodes, &id);
        if !found {
            assert(self.nodes().remove(node_id@) =~= self.nodes());
            return false;
        }
        let mut nodes: Vec<GraphNode> = Vec::new();
        std::mem::swap(&mut nodes, &mut self.nodes);
        let ghost old_nodes = nodes@;
        let _removed = take_at(&mut nodes, pos);
        assert(keyed_map(nodes@).map_values(|n: GraphNode| n@) =~=
            keyed_map(old_nodes).map_values(|n: GraphNode| n@).remove(node_id@));
        self.nodes = nodes;
        proof { use_type_invariant(&*self); Self::lemma_wf_lists(*self); }
        true
    }

    /// Creates an edge with the next edge id (`e1`, `e2`, ...) when both end nodes exist.
    pub fn create_edge(&mut self, from: &str, to: &str, edge_type: String, properties: Properties) -> (res: Option<GraphEdge>)
        requires
            old(self).edge_seq() < u64::MAX,
        ensures
            (old(self).nodes().contains_key(from@) && old(self).nodes().contains_key(to@)) ==>
                (res matches Some(e) && e@ == (EdgeView {
                    id: edge_id_for(old(self).edge_seq() + 1),
                    from: from@,
                    to: to@,
                    edge_type: edge_type@,
                    properties: props_view(properties),
                }) && final(self).edges() == old(self).edges().insert(e@.id, e@)
                && final(self).edge_seq() == old(self).edge_seq() + 1),
            !(old(self).nodes().contains_key(from@) && old(self).nodes().contains_key(to@)) ==>
                res is None && final(self).edges() == old(self).edges()
                && final(self).edge_list() == old(self).edge_list()
                && final(self).edge_seq() == old(self).edge_seq(),
            final(self).nodes() == old(self).nodes(),
            final(self).node_list() == old(self).node_list(),
            final(self).node_seq() == old(self).node_seq(),
            final(self).lists_agree(),
            old(self).ids_follow_counters() ==> final(self).ids_follow_counters()
                && (res matches Some(e) ==> !old(self).edges().contains_key(e@.id)),
    {
        proof { use_type_invariant(&*self); Self::lemma_wf_lists(*self); }
        if !self.has_node(from) || !self.has_node(to) {
            return None;
        }
        self.next_edge_seq = self.next_edge_seq + 1;
        let mut idc: Vec<char> = Vec::new();
        idc.push('e');
        let digits = decimal_chars(self.next_edge_seq);
        let mut i: usize = 0;
        while i < digits.len()
            invariant
                i <= digits@.len(),
                idc@ == seq!['e'] + digits@.subrange(0, i as int),
            decreases digits@.len() - i,
        {
            idc.push(digits[i]);
            i += 1;
            assert(idc@ =~= seq!['e'] + digits@.subrange(0, i as int));
        }
        assert(digits@.subrange(0, digits@.len() as int) =~= digits@);
        let id = string_from_chars(idc.as_slice());
        let edge = GraphEdge { id, from: owned(from), to: owned(to), edge_type, properties };
        let copy = edge.clone();
        let mut edges: Vec<GraphEdge> = Vec::new();
        std::mem::swap(&mut edges, &mut self.edges);
        let ghost old_edges = edges@;
        let ghost g = edge;
        put(&mut edges, edge);
        proof { lemma_edge_map_insert(old_edges, edges@, g, copy); }
        self.edges = edges;
        proof {
            use_type_invariant(&*self);
            Self::lemma_wf_lists(*self);
            if old(self).ids_follow_counters() {
                lemma_next_id_fresh(old(self).edges(), old(self).edge_seq(), 'e');
                assert forall|k: Seq<char>| #[trigger] self.edges().contains_key(k) implies
                    exists|j: nat| 1 <= j <= self.edge_seq() && k == edge_id_for(j) by {
                    if k == copy@.id {
                        assert(k == edge_id_for(self.edge_seq()));
                    } else {
                        assert(old(self).edges().contains_key(k));
                    }
                }
            }
        }
        Some(copy)
    }

    /// The edge with the given id, if any.
    pub fn get_edge(&self, edge_id: &str) -> (res: Option<&GraphEdge>)
        ensures
            match res {
                Some(e) => self.edges().contains_key(edge_id@) && e@ == self.edges()[edge_id@],
                None => !self.edges().contains_key(edge_id@),
            },
    {
        proof { use_type_invariant(self); }
        let key = owned(edge_id);
        let (found, pos) = locate(&self.edges, &key);
        if found {
            proof { lemma_keyed_map_at(self.edges@, pos as int); }
            Some(&self.edges[pos])
        } else {
            None
        }
    }

    /// Replaces the type and properties of an existing edge.
    pub fn update_edge(&mut self, edge_id: &str, edge_type: String, properties: Properties) -> (res: Option<GraphEdge>)
        ensures
            old(self).edges().contains_key(edge_id@) ==> (res matches Some(e) && e@ == (EdgeView {
                edge_type: edge_type@,
                properties: props_view(properties),
                ..old(self).edges()[edge_id@]
            }) && final(self).edges() == old(self).edges().insert(edge_id@, e@)),
            !old(self).edges().contains_key(edge_id@) ==> res is None && final(self).edges() == old(self).edges(),
            final(self).nodes() == old(self).nodes(),
            final(self).node_list() == old(self).node_list(),
            final(self).node_seq() == old(self).node_seq(),
            final(self).edge_seq() == old(self).edge_seq(),
            final(self).lists_agree(),
    {
        proof { use_type_invariant(&*self); Self::lemma_wf_lists(*self); }
        let key = owned(edge_id);
        let (found, pos) = locate(&self.edges, &key);
        if !found {
            return None;
        }
        proof { lemma_keyed_map_at(self.edges@, pos as int); }
        let edge = GraphEdge {
            id: key,
            from: self.edges[pos].from.clone(),
            to: self.edges[pos].to.clone(),
            edge_type,
            properties,
        };
        let copy = edge.clone();
        let mut edges: Vec<GraphEdge> = Vec::new();
        std::mem::swap(&mut edges, &mut self.edges);
        let ghost old_edges = edges@;
        let ghost g = edge;
        put(&mut edges, edge);
        proof { lemma_edge_map_insert(old_edges, edges@, g, copy); }
        self.edges = edges;
        proof { use_type_invariant(&*self); Self::lemma_wf_lists(*self); }
        Some(copy)
    }

    /// Deletes an edge; returns whether it existed.
    pub fn delete_edge(&mut self, edge_id: &str) -> (res: bool)
        ensures
            res == old(self).edges().contains_key(edge_id@),
            final(self).edges() == old(self).edges().remove(edge_id@),
            final(self).nodes() == old(self).nodes(),
            final(self).node_list() == old(self).node_list(),
            final(self).node_seq() == old(self).node_seq(),
            final(self).edge_seq() == old(self).edge_seq(),
            final(self).lists_agree(),
    {
        proof { use_type_invariant(&*self); Self::lemma_wf_lists(*self); }
        let id = owned(edge_id);
        let (found, pos) = locate(&self.edges, &id);
        if !found {
            assert(self.edges().remove(edge_id@) =~= self.edges());
            return false;
        }
        let mut edges: Vec<GraphEdge> = Vec::new();
        std::mem::swap(&mut edges, &mut self.edges);
        let ghost old_edges = edges@;
        let _removed = take_at(&mut edges, pos);
        assert(keyed_map(edges@).map_values(|e: GraphEdge| e@) =~=
            keyed_map(old_edges).map_values(|e: GraphEdge| e@).remove(edge_id@));
        self.edges = edges;
        proof { use_type_invariant(&*self); Self::lemma_wf_lists(*self); }
        true
    }

    /// All nodes, in increasing order of id.
    pub fn list_nodes(&self) -> (res: Vec<GraphNode>)
        ensures
            nodes_view(res@) == self.node_list(),
    {
        let mut out: Vec<GraphNode> = Vec::new();
        let mut i: usize = 0;
        while i < self.nodes.len()
            invariant
                i <= self.nodes@.len(),
                out@.len() == i,
                forall|j: int| 0 <= j < i ==> (#[trigger] out@[j])@ == self.nodes@[j]@,
            decreases self.nodes@.len() - i,
        {
            out.push(self.nodes[i].clone());
            i += 1;
        }
        assert(nodes_view(out@) =~= self.node_list());
        out
    }

    /// All edges, in increasing order of id.
    pub fn list_edges(&self) -> (res: Vec<GraphEdge>)
        ensures
            edges_view(res@) == self.edge_list(),
    {
        let mut out: Vec<GraphEdge> = Vec::new();
        let mut i: usize = 0;
        while i < self.edges.len()
            invariant
                i <= self.edges@.len(),
                out@.len() == i,
                forall|j: int| 0 <= j < i ==> (#[trigger] out@[j])@ == self.edges@[j]@,
            decreases self.edges@.len() - i,
        {
            out.push(self.edges[i].clone());
            i += 1;
        }
        assert(edges_view(out@) =~= self.edge_list());
        out
    }

    /// The number of nodes.
    pub fn node_count(&self) -> (res: usize)
        ensures
            res == self.node_list().len(),
    {
        self.nodes.len()
    }

    /// The number of edges.
    pub fn edge_count(&self) -> (res: usize)
        ensures
            res == self.edge_list().len(),
    {
        self.edges.len()
    }

    /// The creation counters of nodes and edges.
    pub fn sequences(&self) -> (res: (u64, u64))
        ensures
            res.0 == self.node_seq(),
            res.1 == self.edge_seq(),
    {
        (self.next_node_seq, self.next_edge_seq)
    }

    /// A store rebuilt from persisted parts: nodes and edges are stored by id, a later item
    /// replacing an earlier one with the same id, and the creation counters are as given.
    pub fn from_parts(nodes: Vec<GraphNode>, edges: Vec<GraphEdge>, next_node_seq: u64, next_edge_seq: u64) -> (res: Self)
        ensures
            res.nodes() == nodes_by_id(nodes@),
            res.edges() == edges_by_id(edges@),
            res.node_seq() == next_node_seq,
            res.edge_seq() == next_edge_seq,
            res.lists_agree(),
    {
        let mut nv: Vec<GraphNode> = Vec::new();
        let mut rest = nodes;
        let ghost all = nodes@;
        let ghost mut done: int = 0;
        assert(keyed_map(nv@).map_values(|n: GraphNode| n@) =~= nodes_by_id(all.take(0)));
        while rest.len() > 0
            invariant
                sorted_keys(nv@),
                0 <= done <= all.len(),
                rest@ == all.skip(done),
                keyed_map(nv@).map_values(|n: GraphNode| n@) == nodes_by_id(all.take(done)),
            decreases rest@.len(),
        {
            let ghost r = rest@;
            let x = rest.remove(0);
            assert(x == all[done]);
            let ghost before = nv@;
            put(&mut nv, x);
            proof {
                assert(all.take(done + 1).drop_last() =~= all.take(done));
                assert(all.take(done + 1).last() == x);
                assert(keyed_map(nv@).map_values(|n: GraphNode| n@)
                    =~= keyed_map(before).map_values(|n: GraphNode| n@).insert(x.id@, x@));
                done = done + 1;
            }
            assert(rest@ =~= all.skip(done));
        }
        assert(all.take(all.len() as int) =~= all);
        let mut ev: Vec<GraphEdge> = Vec::new();
        let mut rest_e = edges;
        let ghost all_e = edges@;
        let ghost mut done_e: int = 0;
        assert(keyed_map(ev@).map_values(|e: GraphEdge| e@) =~= edges_by_id(all_e.take(0)));
        while rest_e.len() > 0
            invariant
                sorted_keys(ev@),
                0 <= done_e <= all_e.len(),
                rest_e@ == all_e.skip(done_e),
                keyed_map(ev@).map_values(|e: GraphEdge| e@) == edges_by_id(all_e.take(done_e)),
            decreases rest_e@.len(),
        {
            let x = rest_e.remove(0);
            assert(x == all_e[done_e]);
            let ghost before = ev@;
            put(&mut ev, x);
            proof {
                assert(all_e.take(done_e + 1).drop_last() =~= all_e.take(done_e));
                assert(all_e.take(done_e + 1).last() == x);
                assert(keyed_map(ev@).map_values(|e: GraphEdge| e@)
                    =~= keyed_map(before).map_values(|e: GraphEdge| e@).insert(x.id@, x@));
                done_e = done_e + 1;
            }
            assert(rest_e@ =~= all_e.skip(done_e));
        }
        assert(all_e.take(all_e.len() as int) =~= all_e);
        let res = InMemoryGraphStore { nodes: nv, edges: ev, next_node_seq, next_edge_seq };
        proof { use_type_invariant(&res); Self::lemma_wf_lists(res); }
        res
    }

    /// A copy of the whole store.
    pub fn snapshot(&self) -> (res: Self)
        ensures
            res.node_list() == self.node_list(),
            res.edge_list() == self.edge_list(),
            res.nodes() == self.nodes(),
            res.edges() == self.edges(),
            res.node_seq() == self.node_seq(),
            res.edge_seq() == self.edge_seq(),
            res.lists_agree(),
    {
        proof { use_type_invariant(self); }
        let nodes = self.list_nodes();
        let edges = self.list_edges();
        proof {
            assert(nodes_view(nodes@).len() == nodes@.len());
            assert(nodes_view(self.nodes@).len() == self.nodes@.len());
            assert(edges_view(edges@).len() == edges@.len());
            assert(edges_view(self.edges@).len() == self.edges@.len());
            assert forall|a: int, b: int| 0 <= a < b < nodes@.len()
                implies lex_lt(#[trigger] nodes@[a].key(), #[trigger] nodes@[b].key()) by {
                assert(nodes_view(nodes@)[a] == nodes@[a]@);
                assert(nodes_view(nodes@)[b] == nodes@[b]@);
                assert(nodes_view(self.nodes@)[a] == self.nodes@[a]@);
                assert(nodes_view(self.nodes@)[b] == self.nodes@[b]@);
                assert(lex_lt(self.nodes@[a].key(), self.nodes@[b].key()));
            }
            assert forall|a: int, b: int| 0 <= a < b < edges@.len()
                implies lex_lt(#[trigger] edges@[a].key(), #[trigger] edges@[b].key()) by {
                assert(edges_view(edges@)[a] == edges@[a]@);
                assert(edges_view(edges@)[b] == edges@[b]@);
                assert(edges_view(self.edges@)[a] == self.edges@[a]@);
                assert(edges_view(self.edges@)[b] == self.edges@[b]@);
                assert(lex_lt(self.edges@[a].key(), self.edges@[b].key()));
            }
            lemma_same_nodes(self.nodes@, nodes@);
            lemma_same_edges(self.edges@, edges@);
        }
        let res = InMemoryGraphStore { nodes, edges, next_node_seq: self.next_node_seq, next_edge_seq: self.next_edge_seq };
        proof { use_type_invariant(&res); Self::lemma_wf_lists(res); }
        res
    }

    /// The first node, in increasing order of id, that has the label (when one is given)
    /// and every given property value.
    pub fn find_node_by_label_and_props(&self, label: Option<&str>, props: &Properties) -> (res: Option<GraphNode>)
        ensures
            match res {
                Some(n) => exists|i: int| 0 <= i < self.node_list().len()
                    && self.node_list()[i] == n@
                    && node_matches(n@, opt_str_view(label), props_view(*props))
                    && forall|j: int| 0 <= j < i ==> !node_matches(#[trigger] self.node_list()[j], opt_str_view(label), props_view(*props)),
                None => forall|i: int| 0 <= i < self.node_list().len()
                    ==> !node_matches(#[trigger] self.node_list()[i], opt_str_view(label), props_view(*props)),
            },
    {
        let ghost lv = opt_str_view(label);
        let ghost pv = props_view(*props);
        let mut i: usize = 0;
        while i < self.nodes.len()
            invariant
                i <= self.nodes@.len(),
                lv == opt_str_view(label),
                pv == props_view(*props),
                forall|j: int| 0 <= j < i ==> !node_matches(#[trigger] self.node_list()[j], lv, pv),
            decreases self.nodes@.len() - i,
        {
            let node = &self.nodes[i];
            assert(self.node_list()[i as int] == node@);
            let label_ok = match label {
                Some(l) => labels_contain(&node.labels, l),
                None => true,
            };
            if label_ok && props_match(&node.properties, props) {
                return Some(node.clone());
            }
            i += 1;
        }
        None
    }

    /// The ids of the edges that start or end at the given node, in increasing order of id.
    pub fn edges_touching_node(&self, node_id: &str) -> (res: Vec<String>)
        ensures
            strings_view(res@) == touching_ids(self.edge_list(), node_id@),
            forall|k: Seq<char>| #[trigger] strings_view(res@).contains(k) <==>
                (self.edges().contains_key(k) && edge_touches(self.edges()[k], node_id@)),
    {
        self.edge_list_agrees();
        let ghost el = self.edge_list();
        let mut out: Vec<String> = Vec::new();
        let mut i: usize = 0;
        while i < self.edges.len()
            invariant
                el == self.edge_list(),
                el.len() == self.edges@.len(),
                i <= el.len(),
                strings_view(out@) == touching_ids(el.take(i as int), node_id@),
                forall|k: Seq<char>| #[trigger] strings_view(out@).contains(k) <==>
                    exists|m: int| 0 <= m < i && el[m].id == k && edge_touches(el[m], node_id@),
            decreases el.len() - i,
        {
            let e = &self.edges[i];
            assert(el[i as int] == e@);
            assert(el.take(i as int + 1).drop_last() =~= el.take(i as int));
            let ghost before = strings_view(out@);
            if str_eq(e.from.as_str(), node_id) || str_eq(e.to.as_str(), node_id) {
                out.push(e.id.clone());
                assert(strings_view(out@) =~= before.push(e@.id));
                assert forall|k: Seq<char>| #[trigger] strings_view(out@).contains(k) <==>
                    exists|m: int| 0 <= m < i + 1 && el[m].id == k && edge_touches(el[m], node_id@) by {
                    if strings_view(out@).contains(k) {
                        let p = choose|p: int| 0 <= p < strings_view(out@).len() && strings_view(out@)[p] == k;
                        if p < before.len() {
                            assert(before.contains(k));
                        }
                    }
                    if exists|m: int| 0 <= m < i + 1 && el[m].id == k && edge_touches(el[m], node_id@) {
                        let m = choose|m: int| 0 <= m < i + 1 && el[m].id == k && edge_touches(el[m], node_id@);
                        if m < i {
                            assert(before.contains(k));
                            let p = choose|p: int| 0 <= p < before.len() && before[p] == k;
                            assert(strings_view(out@)[p] == k);
                        } else {
                            assert(strings_view(out@)[before.len() as int] == k);
                        }
                    }
                }
            } else {
                assert forall|k: Seq<char>| #[trigger] strings_view(out@).contains(k) <==>
                    exists|m: int| 0 <= m < i + 1 && el[m].id == k && edge_touches(el[m], node_id@) by {
                    if exists|m: int| 0 <= m < i + 1 && el[m].id == k && edge_touches(el[m], node_id@) {
                        let m = choose|m: int| 0 <= m < i + 1 && el[m].id == k && edge_touches(el[m], node_id@);
                        assert(m < i);
                    }
                }
            }
            i += 1;
        }
        assert(el.take(el.len() as int) =~= el);
        assert forall|k: Seq<char>| #[trigger] strings_view(out@).contains(k) <==>
            (self.edges().contains_key(k) && edge_touches(self.edges()[k], node_id@)) by {
            if self.edges().contains_key(k) {
                let m = choose|m: int| 0 <= m < el.len() && el[m].id == k;
                assert(self.edges()[el[m].id] == el[m]);
            }
            if exists|m: int| 0 <= m < el.len() && el[m].id == k && edge_touches(el[m], node_id@) {
                let m = choose|m: int| 0 <= m < el.len() && el[m].id == k && edge_touches(el[m], node_id@);
                assert(self.edges().contains_key(el[m].id));
            }
        }
        out
    }

    /// Deletes a node together with every edge that starts or ends at it; returns whether the node existed.
    pub fn delete_node_detach(&mut self, node_id: &str) -> (res: bool)
        ensures
            res == old(self).nodes().contains_key(node_id@),
            final(self).nodes() == old(self).nodes().remove(node_id@),
            final(self).edges() == edges_not_touching(old(self).edges(), node_id@),
            final(self).node_seq() == old(self).node_seq(),
            final(self).edge_seq() == old(self).edge_seq(),
            final(self).lists_agree(),
    {
        let touching = self.edges_touching_node(node_id);
        let ghost tv = strings_view(touching@);
        let ghost old_edges = self.edges();
        let ghost old_nodes = self.nodes();
        let mut i: usize = 0;
        while i < touching.len()
            invariant
                i <= touching@.len(),
                tv == strings_view(touching@),
                forall|k: Seq<char>| #[trigger] tv.contains(k) <==>
                    (old_edges.contains_key(k) && edge_touches(old_edges[k], node_id@)),
                forall|k: Seq<char>| #[trigger] self.edges().contains_key(k) <==>
                    (old_edges.contains_key(k) && !tv.take(i as int).contains(k)),
                forall|k: Seq<char>| #[trigger] self.edges().contains_key(k) ==> self.edges()[k] == old_edges[k],
                self.nodes() == old_nodes,
                self.node_seq() == old(self).node_seq(),
                self.edge_seq() == old(self).edge_seq(),
            decreases touching@.len() - i,
        {
            let ghost before = self.edges();
            self.delete_edge(touching[i].as_str());
            assert(tv.take(i as int + 1) =~= tv.take(i as int).push(tv[i as int]));
            proof {
                assert forall|k: Seq<char>| tv.take(i as int + 1).contains(k) <==> (tv.take(i as int).contains(k) || k == tv[i as int]) by {
                    lemma_push_contains(tv.take(i as int), tv[i as int], k);
                }
            }
            i += 1;
        }
        assert(tv.take(tv.len() as int) =~= tv);
        assert(self.edges() =~= edges_not_touching(old_edges, node_id@));
        self.delete_node(node_id)
    }

    /// Renames the label `from` to `to` on every node; returns how many nodes carried it.
    pub fn rename_label(&mut self, from: &str, to: &str) -> (res: usize)
        ensures
            final(self).nodes() == old(self).nodes().map_values(|n: NodeView| renamed_node(n, from@, to@)),
            final(self).node_list() == old(self).node_list().map_values(|n: NodeView| renamed_node(n, from@, to@)),
            res == label_count(old(self).node_list(), from@),
            final(self).edges() == old(self).edges(),
            final(self).edge_list() == old(self).edge_list(),
            final(self).node_seq() == old(self).node_seq(),
            final(self).edge_seq() == old(self).edge_seq(),
            final(self).lists_agree(),
    {
        proof { use_type_invariant(&*self); Self::lemma_wf_lists(*self); }
        let ghost old_nodes = self.nodes@;
        let mut renamed: Vec<GraphNode> = Vec::new();
        let mut count: usize = 0;
        let mut i: usize = 0;
        while i < self.nodes.len()
            invariant
                old_nodes == self.nodes@,
                i <= old_nodes.len(),
                renamed@.len() == i,
                forall|j: int| 0 <= j < i ==> (#[trigger] renamed@[j])@ == renamed_node(old_nodes[j]@, from@, to@),
                count == label_count(nodes_view(old_nodes).take(i as int), from@),
                count <= i,
            decreases old_nodes.len() - i,
        {
            let node = &self.nodes[i];
            let (labels, changed) = rename_in_labels(&node.labels, from, to);
            renamed.push(GraphNode { id: node.id.clone(), labels, properties: clone_properties(&node.properties) });
            assert(nodes_view(old_nodes).take(i as int + 1).drop_last() =~= nodes_view(old_nodes).take(i as int));
            if changed {
                count = count + 1;
            }
            i += 1;
        }
        assert(nodes_view(old_nodes).take(old_nodes.len() as int) =~= nodes_view(old_nodes));
        proof {
            assert forall|a: int, b: int| 0 <= a < b < renamed@.len()
                implies lex_lt(#[trigger] renamed@[a].key(), #[trigger] renamed@[b].key()) by {
                assert(lex_lt(old_nodes[a].key(), old_nodes[b].key()));
            }
            lemma_renamed_map(old_nodes, renamed@, from@, to@);
        }
        self.nodes = renamed;
        proof { use_type_invariant(&*self); Self::lemma_wf_lists(*self); }
        assert(self.node_list() =~= nodes_view(old_nodes).map_values(|n: NodeView| renamed_node(n, from@, to@)));
        count
    }
}


/// Equal node lists, position by position, give equal node maps.
proof fn lemma_same_nodes(old_s: Seq<GraphNode>, s: Seq<GraphNode>)
    requires
        sorted_keys(old_s),
        sorted_keys(s),
        s.len() == old_s.len(),
        nodes_view(s) == nodes_view(old_s),
    ensures
        keyed_map(s).map_values(|n: GraphNode| n@) == keyed_map(old_s).map_values(|n: GraphNode| n@),
{
    let lhs = keyed_map(s).map_values(|n: GraphNode| n@);
    let rhs = keyed_map(old_s).map_values(|n: GraphNode| n@);
    assert forall|j: int| 0 <= j < s.len() implies (#[trigger] s[j])@ == old_s[j]@ by {
        assert(nodes_view(s)[j] == s[j]@);
        assert(nodes_view(old_s)[j] == old_s[j]@);
        assert(nodes_view(s)[j] == nodes_view(old_s)[j]);
    }
    assert forall|k: Seq<char>| lhs.contains_key(k) <==> rhs.contains_key(k) by {
        if lhs.contains_key(k) {
            lemma_keyed_map_key(s, k);
            let i = choose|i: int| 0 <= i < s.len() && s[i].key() == k;
            assert(old_s[i].key() == old_s[i]@.id);
            lemma_keyed_map_at(old_s, i);
        }
        if rhs.contains_key(k) {
            lemma_keyed_map_key(old_s, k);
            let i = choose|i: int| 0 <= i < old_s.len() && old_s[i].key() == k;
            assert(s[i].key() == s[i]@.id);
            lemma_keyed_map_at(s, i);
        }
    }
    assert forall|k: Seq<char>| lhs.contains_key(k) implies lhs[k] == rhs[k] by {
        lemma_keyed_map_key(s, k);
        let i = choose|i: int| 0 <= i < s.len() && s[i].key() == k;
        assert(old_s[i].key() == old_s[i]@.id);
        lemma_keyed_map_at(s, i);
        lemma_keyed_map_at(old_s, i);
    }
    assert(lhs =~= rhs);
}

/// Equal edge lists, position by position, give equal edge maps.
proof fn lemma_same_edges(old_s: Seq<GraphEdge>, s: Seq<GraphEdge>)
    requires
        sorted_keys(old_s),
        sorted_keys(s),
        s.len() == old_s.len(),
        edges_view(s) == edges_view(old_s),
    ensures
        keyed_map(s).map_values(|e: GraphEdge| e@) == keyed_map(old_s).map_values(|e: GraphEdge| e@),
{
    let lhs = keyed_map(s).map_values(|e: GraphEdge| e@);
    let rhs = keyed_map(old_s).map_values(|e: GraphEdge| e@);
    assert forall|j: int| 0 <= j < s.len() implies (#[trigger] s[j])@ == old_s[j]@ by {
        assert(edges_view(s)[j] == s[j]@);
        assert(edges_view(old_s)[j] == old_s[j]@);
        assert(edges_view(s)[j] == edges_view(old_s)[j]);
    }
    assert forall|k: Seq<char>| lhs.contains_key(k) <==> rhs.contains_key(k) by {
        if lhs.contains_key(k) {
            lemma_keyed_map_key(s, k);
            let i = choose|i: int| 0 <= i < s.len() && s[i].key() == k;
            assert(old_s[i].key() == old_s[i]@.id);
            lemma_keyed_map_at(old_s, i);
        }
        if rhs.contains_key(k) {
            lemma_keyed_map_key(old_s, k);
            let i = choose|i: int| 0 <= i < old_s.len() && old_s[i].key() == k;
            assert(s[i].key() == s[i]@.id);
            lemma_keyed_map_at(s, i);
        }
    }
    assert forall|k: Seq<char>| lhs.contains_key(k) implies lhs[k] == rhs[k] by {
        lemma_keyed_map_key(s, k);
        let i = choose|i: int| 0 <= i < s.len() && s[i].key() == k;
        assert(old_s[i].key() == old_s[i]@.id);
        lemma_keyed_map_at(s, i);
        lemma_keyed_map_at(old_s, i);
    }
    assert(lhs =~= rhs);
}

/// Viewing the map of nodes after storing a node is viewing the old map with that node stored.
proof fn lemma_node_map_insert(old_s: Seq<GraphNode>, s: Seq<GraphNode>, y: GraphNode, x: GraphNode)
    requires
        keyed_map(s) == keyed_map(old_s).insert(y.key(), y),
        y@ == x@,
    ensures
        keyed_map(s).map_values(|n: GraphNode| n@) == keyed_map(old_s).map_values(|n: GraphNode| n@).insert(x@.id, x@),
{
    assert(keyed_map(s).map_values(|n: GraphNode| n@) =~= keyed_map(old_s).map_values(|n: GraphNode| n@).insert(x@.id, x@));
}

/// Viewing the map of edges after storing an edge is viewing the old map with that edge stored.
proof fn lemma_edge_map_insert(old_s: Seq<GraphEdge>, s: Seq<GraphEdge>, y: GraphEdge, x: GraphEdge)
    requires
        keyed_map(s) == keyed_map(old_s).insert(y.key(), y),
        y@ == x@,
    ensures
        keyed_map(s).map_values(|e: GraphEdge| e@) == keyed_map(old_s).map_values(|e: GraphEdge| e@).insert(x@.id, x@),
{
    assert(keyed_map(s).map_values(|e: GraphEdge| e@) =~= keyed_map(old_s).map_values(|e: GraphEdge| e@).insert(x@.id, x@));
}

} // verus!
