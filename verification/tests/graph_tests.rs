use aira_graphdb::graph::{InMemoryGraphStore, Properties, Value};

fn props(key: &str, value: Value) -> Properties {
    let mut p = Properties::new();
    p.insert(key.to_string(), value);
    p
}

#[test]
fn node_crud_works() {
    let mut store = InMemoryGraphStore::new();
    let created = store.create_node(
        vec!["Paper".to_string()],
        props("title", Value::String("MemGraphRAG".to_string())),
    );
    assert_eq!(store.node_count(), 1);

    let fetched = store.get_node(&created.id).expect("node must exist");
    assert_eq!(fetched.labels, vec!["Paper".to_string()]);

    let updated = store
        .update_node(
            &created.id,
            vec!["Paper".to_string(), "Benchmark".to_string()],
            props("year", Value::Int64(2026)),
        )
        .expect("node update must succeed");
    assert_eq!(updated.labels.len(), 2);

    assert!(store.delete_node(&created.id));
    assert_eq!(store.node_count(), 0);
}

#[test]
fn edge_crud_works() {
    let mut store = InMemoryGraphStore::new();
    let n1 = store.create_node(
        vec!["Author".to_string()],
        props("name", Value::String("A".into())),
    );
    let n2 = store.create_node(
        vec!["Paper".to_string()],
        props("title", Value::String("B".into())),
    );

    let created = store
        .create_edge(&n1.id, &n2.id, "WROTE".to_string(), Properties::new())
        .expect("edge creation must succeed");
    assert_eq!(store.edge_count(), 1);

    let fetched = store.get_edge(&created.id).expect("edge must exist");
    assert_eq!(fetched.edge_type, "WROTE");

    let updated = store
        .update_edge(
            &created.id,
            "CONTRIBUTED_TO".to_string(),
            props("weight", Value::Float64(0.8f64.to_bits())),
        )
        .expect("edge update must succeed");
    assert_eq!(updated.edge_type, "CONTRIBUTED_TO");

    assert!(store.delete_edge(&created.id));
    assert_eq!(store.edge_count(), 0);
}

#[test]
fn edge_creation_requires_existing_nodes() {
    let mut store = InMemoryGraphStore::new();
    let result = store.create_edge("n1", "n2", "REL".to_string(), Properties::new());
    assert!(result.is_none());
}

#[test]
fn detach_delete_removes_connected_edges() {
    let mut store = InMemoryGraphStore::new();
    let n1 = store.create_node(vec!["Node".to_string()], Properties::new());
    let n2 = store.create_node(vec!["Node".to_string()], Properties::new());
    let edge = store
        .create_edge(&n1.id, &n2.id, "LINK".to_string(), Properties::new())
        .expect("edge create");
    assert!(store.get_edge(&edge.id).is_some());

    assert!(store.delete_node_detach(&n1.id));
    assert!(store.get_edge(&edge.id).is_none());
}

#[test]
fn finds_node_by_label_and_props() {
    let mut store = InMemoryGraphStore::new();
    let mut props1 = Properties::new();
    props1.insert("name".to_string(), Value::String("alice".to_string()));
    store.create_node(vec!["Author".to_string()], props1);

    let mut find = Properties::new();
    find.insert("name".to_string(), Value::String("alice".to_string()));
    let hit = store.find_node_by_label_and_props(Some("Author"), &find);
    assert!(hit.is_some());
}

#[test]
fn node_ids_count_up_from_one() {
    let mut store = InMemoryGraphStore::new();
    let a = store.create_node(vec![], Properties::new());
    let b = store.create_node(vec![], Properties::new());
    assert_eq!(a.id, "n1");
    assert_eq!(b.id, "n2");
    let e = store.create_edge("n1", "n2", "R".to_string(), Properties::new()).expect("edge");
    assert_eq!(e.id, "e1");
    assert_eq!(e.from, "n1");
    assert_eq!(e.to, "n2");
}

#[test]
fn get_after_create_returns_what_was_written() {
    let mut store = InMemoryGraphStore::new();
    let created = store.create_node(vec!["Paper".to_string()], props("title", Value::String("T".to_string())));
    let fetched = store.get_node(&created.id).expect("present");
    assert_eq!(fetched.labels, vec!["Paper".to_string()]);
    assert_eq!(fetched.properties.get("title"), Some(&Value::String("T".to_string())));
    assert!(store.get_node("n99").is_none());
    assert!(!store.has_node("n99"));
    assert!(store.has_node("n1"));
}

#[test]
fn delete_of_missing_items_reports_false() {
    let mut store = InMemoryGraphStore::new();
    assert!(!store.delete_node("n1"));
    assert!(!store.delete_edge("e1"));
    assert!(!store.delete_node_detach("n1"));
    assert!(store.update_node("n1", vec![], Properties::new()).is_none());
    assert!(store.update_edge("e1", "R".to_string(), Properties::new()).is_none());
}

#[test]
fn edges_touching_node_lists_both_directions() {
    let mut store = InMemoryGraphStore::new();
    store.create_node(vec![], Properties::new());
    store.create_node(vec![], Properties::new());
    store.create_node(vec![], Properties::new());
    store.create_edge("n1", "n2", "R".to_string(), Properties::new()).expect("e1");
    store.create_edge("n3", "n1", "R".to_string(), Properties::new()).expect("e2");
    store.create_edge("n2", "n3", "R".to_string(), Properties::new()).expect("e3");
    let touching = store.edges_touching_node("n1");
    assert_eq!(touching, vec!["e1".to_string(), "e2".to_string()]);
    assert!(store.delete_node_detach("n1"));
    assert_eq!(store.edge_count(), 1);
    assert_eq!(store.node_count(), 2);
}

#[test]
fn set_and_remove_node_property() {
    let mut store = InMemoryGraphStore::new();
    store.create_node(vec![], Properties::new());
    assert!(store.set_node_property("n1", "k".to_string(), Value::Bool(true)));
    assert_eq!(store.get_node("n1").expect("n1").properties.get("k"), Some(&Value::Bool(true)));
    assert!(store.remove_node_property("n1", "k"));
    assert!(store.get_node("n1").expect("n1").properties.get("k").is_none());
    assert!(!store.set_node_property("n2", "k".to_string(), Value::Bool(true)));
}

#[test]
fn rename_label_counts_renamed_nodes() {
    let mut store = InMemoryGraphStore::new();
    store.create_node(vec!["Paper".to_string()], Properties::new());
    store.create_node(vec!["Author".to_string()], Properties::new());
    store.create_node(vec!["Paper".to_string(), "X".to_string()], Properties::new());
    assert_eq!(store.rename_label("Paper", "Doc"), 2);
    assert_eq!(store.get_node("n3").expect("n3").labels, vec!["Doc".to_string(), "X".to_string()]);
}

#[test]
fn find_returns_none_without_match() {
    let mut store = InMemoryGraphStore::new();
    store.create_node(vec!["Author".to_string()], props("name", Value::String("bob".to_string())));
    let want = props("name", Value::String("alice".to_string()));
    assert!(store.find_node_by_label_and_props(Some("Author"), &want).is_none());
    let any = Properties::new();
    assert!(store.find_node_by_label_and_props(Some("Paper"), &any).is_none());
    assert_eq!(store.find_node_by_label_and_props(None, &any).expect("first").id, "n1");
}
