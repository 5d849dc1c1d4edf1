//! Unit tests of the two stores and their invariants.

use genius_reads::concept_store::ConceptStore;
use genius_reads::session_store::SessionStore;
use genius_reads::types::{RelationKind, Role};

#[test]
fn create_session_keeps_one_active() {
    let mut store = SessionStore::new();
    let a = store.create_session("first".to_string(), 1);
    assert!(store.get_session(a).unwrap().active);

    let b = store.create_session("second".to_string(), 2);
    assert!(!store.get_session(a).unwrap().active);
    assert!(store.get_session(b).unwrap().active);
    assert_eq!(store.active_session().unwrap().id, b);
    assert_eq!(store.inactive_session_ids(), vec![a]);

    store.set_active_session(a);
    assert!(store.get_session(a).unwrap().active);
    assert!(!store.get_session(b).unwrap().active);
}

#[test]
fn end_session_stamps_completion() {
    let mut store = SessionStore::new();
    let a = store.create_session("ending".to_string(), 5);
    assert!(store.end_session(a, 9));
    let s = store.get_session(a).unwrap();
    assert!(!s.active);
    assert_eq!(s.completed_at, Some(9));
    assert!(store.active_session().is_none());
    // Ending an unknown session changes nothing and says so.
    assert!(!store.end_session(42, 10));
}

#[test]
fn transcript_grows_in_order_and_clears() {
    let mut store = SessionStore::new();
    let a = store.create_session("chat".to_string(), 0);
    assert!(store.add_message(a, Role::User, "hello".to_string(), 1));
    assert!(store.add_message(a, Role::Assistant, "hi".to_string(), 2));
    assert!(store.add_excerpt(a, "A Book".to_string(), 7, "a passage".to_string(), 3));
    assert!(!store.add_message(99, Role::User, "lost".to_string(), 4));

    let snap = store.get_for_analysis(a).unwrap();
    assert_eq!(snap.title, "chat");
    assert_eq!(snap.messages.len(), 2);
    assert_eq!(snap.messages[0].content, "hello");
    assert_eq!(snap.messages[0].role, Role::User);
    assert_eq!(snap.messages[0].role.label(), "user");
    assert_eq!(snap.messages[1].role.label(), "assistant");
    assert_eq!(snap.messages[1].content, "hi");
    assert_eq!(snap.excerpts[0].document_title, "A Book");
    assert_eq!(snap.excerpts[0].page_number, 7);
    assert!(store.get_for_analysis(99).is_none());

    assert!(store.clear_session(a, 5));
    let s = store.get_session(a).unwrap();
    assert_eq!(s.messages.len(), 0);
    assert_eq!(s.excerpts.len(), 0);
}

#[test]
fn delete_session_removes_it() {
    let mut store = SessionStore::new();
    let a = store.create_session("gone".to_string(), 0);
    let b = store.create_session("kept".to_string(), 1);
    assert!(store.delete_session(a));
    assert!(store.get_session(a).is_none());
    assert!(store.get_session(b).is_some());
    assert!(!store.delete_session(a));
}

#[test]
fn update_title_renames() {
    let mut store = SessionStore::new();
    let a = store.create_session("old name".to_string(), 0);
    assert!(store.update_title(a, "new name".to_string(), 1));
    assert_eq!(store.get_session(a).unwrap().title, "new name");
}

#[test]
fn find_by_name_is_case_insensitive_exact() {
    let mut store = ConceptStore::new();
    let id = store.insert(
        "Neural Network".to_string(),
        "layers of units".to_string(),
        vec!["ml".to_string()],
        None,
        500_000,
        0,
    );
    assert_eq!(store.find_by_name("neural network"), Some(id));
    assert_eq!(store.find_by_name("NEURAL NETWORK"), Some(id));
    // Exact match only: a prefix or superstring is no duplicate.
    assert_eq!(store.find_by_name("Neural"), None);
    assert_eq!(store.find_by_name("Neural Networks"), None);
}

#[test]
fn link_upsert_keeps_one_row_per_pair() {
    let mut store = ConceptStore::new();
    let id = store.insert("Topic".to_string(), "d".to_string(), vec![], None, 100_000, 0);
    store.link_to_session(id, 7, 300_000, 1);
    store.link_to_session(id, 7, 900_000, 2);
    store.link_to_session(id, 8, 250_000, 3);
    assert_eq!(store.links.len(), 2);
    assert_eq!(store.get_link(id, 7), Some(900_000));
    assert_eq!(store.get_link(id, 8), Some(250_000));
    assert_eq!(store.get_link(id, 9), None);
}

#[test]
fn relationship_upsert_is_idempotent_per_direction() {
    let mut store = ConceptStore::new();
    let a = store.insert("A".to_string(), "a".to_string(), vec![], None, 0, 0);
    let b = store.insert("B".to_string(), "b".to_string(), vec![], None, 0, 0);
    store.upsert_relationship(a, b, RelationKind::Related, 640_000, 1);
    store.upsert_relationship(b, a, RelationKind::Related, 640_000, 1);
    // A repeat pair is a no-op, not a duplicate row and not an update.
    store.upsert_relationship(a, b, RelationKind::Related, 111_111, 2);
    assert_eq!(store.relationships.len(), 2);
    let e = store.get_relationship(a, b).unwrap();
    assert_eq!(e.similarity_score, 640_000);
    assert_eq!(e.relationship_type.label(), "related");
    assert!(store.get_relationship(a, a).is_none());
}

#[test]
fn reinforce_counts_occurrences() {
    let mut store = ConceptStore::new();
    let id = store.insert("Seen".to_string(), "d".to_string(), vec![], None, 0, 0);
    assert_eq!(store.get_concept(id).unwrap().source_chat_count, 1);
    store.reinforce(id, 5);
    store.reinforce(id, 6);
    let c = store.get_concept(id).unwrap();
    assert_eq!(c.source_chat_count, 3);
    assert_eq!(c.updated_at, 6);
    assert_eq!(c.created_at, 0);
}

#[test]
fn store_assigns_sequential_identities() {
    let mut store = ConceptStore::new();
    let a = store.insert("One".to_string(), "d".to_string(), vec![], None, 0, 0);
    let b = store.insert("Two".to_string(), "d".to_string(), vec![], None, 0, 0);
    assert_ne!(a, b);
    assert_eq!(store.get_concept(a).unwrap().name, "One");
    assert_eq!(store.get_concept(b).unwrap().name, "Two");
    assert!(store.get_concept(999).is_none());
}
