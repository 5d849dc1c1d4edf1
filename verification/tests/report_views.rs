//! The composed read views over both stores.

use genius_reads::concept_store::ConceptStore;
use genius_reads::reports::{concept_overview, concept_session_relationship};
use genius_reads::session_store::SessionStore;
use genius_reads::types::{RelationKind, Role};

#[test]
fn concept_overview_collects_links_and_edges() {
    let mut store = ConceptStore::new();
    let a = store.insert(
        "Alpha".to_string(),
        "the first".to_string(),
        vec!["tag1".to_string(), "tag2".to_string()],
        None,
        700_000,
        10,
    );
    let b = store.insert("Beta".to_string(), "the second".to_string(), vec![], None, 0, 11);
    store.link_to_session(a, 5, 400_000, 12);
    store.link_to_session(a, 6, 900_000, 13);
    store.upsert_relationship(a, b, RelationKind::Related, 650_000, 14);

    let o = concept_overview(&store, a).expect("exists");
    assert_eq!(o.name, "Alpha");
    assert_eq!(o.description, "the first");
    assert_eq!(o.tags, vec!["tag1".to_string(), "tag2".to_string()]);
    assert_eq!(o.confidence_score, 700_000);
    assert_eq!(o.source_chat_count, 1);
    assert_eq!(o.source_sessions.len(), 2);
    assert_eq!(o.source_sessions[0].id, 6);
    assert_eq!(o.source_sessions[0].score, 900_000);
    assert_eq!(o.source_sessions[1].id, 5);
    assert_eq!(o.related.len(), 1);
    assert_eq!(o.related[0].id, b);
    assert_eq!(o.related[0].score, 650_000);

    assert!(concept_overview(&store, 77).is_none());
}

#[test]
fn concept_session_view_joins_link_concept_and_transcript() {
    let mut concepts = ConceptStore::new();
    let mut sessions = SessionStore::new();
    let s = sessions.create_session("a chat".to_string(), 0);
    sessions.add_message(s, Role::User, "hello".to_string(), 1);
    let c = concepts.insert("Topic".to_string(), "what it is".to_string(), vec![], None, 0, 2);
    concepts.link_to_session(c, s, 800_000, 3);

    let v = concept_session_relationship(&concepts, &sessions, c, s).expect("linked");
    assert_eq!(v.concept_name, "Topic");
    assert_eq!(v.concept_description, "what it is");
    assert_eq!(v.session_title, "a chat");
    assert_eq!(v.relevance_score, 800_000);
    assert_eq!(v.messages.len(), 1);
    assert_eq!(v.messages[0].content, "hello");
    assert!(v.excerpts.is_empty());

    // No link, no view; a vanished session, no view either.
    assert!(concept_session_relationship(&concepts, &sessions, c, 999).is_none());
    let other = concepts.insert("Other".to_string(), "d".to_string(), vec![], None, 0, 4);
    assert!(concept_session_relationship(&concepts, &sessions, other, s).is_none());
}
