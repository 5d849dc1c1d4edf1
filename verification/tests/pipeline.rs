//! End-to-end runs of the analysis pipeline over in-memory stores.

use genius_reads::concept_store::ConceptStore;
use genius_reads::orchestrator::{finish_analysis, start_analysis};
use genius_reads::session_store::SessionStore;
use genius_reads::types::{
    AnalysisError, AnalysisStatus, Candidate, CandidateInput, Role, ServiceReply, SCORE_SCALE,
};

fn candidate(
    name: &str,
    description: &str,
    confidence: u32,
    related: Vec<&str>,
    embedding: Option<Vec<i64>>,
    sims: Vec<Option<u32>>,
) -> CandidateInput {
    CandidateInput {
        candidate: Candidate {
            name: name.to_string(),
            description: description.to_string(),
            tags: Vec::new(),
            confidence_score: confidence,
            related_concepts: related.into_iter().map(|s| s.to_string()).collect(),
        },
        embedding,
        related_similarities: sims,
    }
}

#[test]
fn backpropagation_scenario() {
    let mut sessions = SessionStore::new();
    let mut concepts = ConceptStore::new();

    let s = sessions.create_session("Backprop chat".to_string(), 1_000);
    assert!(sessions.add_message(s, Role::User, "What is backpropagation?".to_string(), 1_001));
    assert!(sessions.add_message(
        s,
        Role::Assistant,
        "It's a gradient computation method...".to_string(),
        1_002,
    ));
    assert!(sessions.add_excerpt(
        s,
        "Deep Learning".to_string(),
        42,
        "the backward pass".to_string(),
        1_003,
    ));

    // "Gradient Descent" already exists, with an embedding.
    let gd = concepts.insert(
        "Gradient Descent".to_string(),
        "iterative optimization".to_string(),
        Vec::new(),
        Some(vec![3, 1, 4]),
        800_000,
        900,
    );

    let key = Some("test-credential".to_string());
    let snap = start_analysis(&mut sessions, s, &key, 1_010).expect("analysis starts");
    assert_eq!(snap.messages.len(), 2);
    assert_eq!(snap.excerpts.len(), 1);
    assert_eq!(
        sessions.get_session(s).unwrap().analysis_status,
        AnalysisStatus::Processing
    );

    let reply = ServiceReply::Success {
        candidates: vec![candidate(
            "Backpropagation",
            "computes gradients layer by layer",
            900_000,
            vec!["Gradient Descent"],
            Some(vec![2, 7, 1]),
            vec![Some(820_000)],
        )],
    };
    let outcome = finish_analysis(&mut sessions, &mut concepts, s, reply, 1_020);

    assert!(outcome.success);
    assert_eq!(outcome.new_concepts_created, 1);
    assert_eq!(outcome.concepts_linked, 1);
    assert!(outcome.error_message.is_none());

    let session = sessions.get_session(s).unwrap();
    assert_eq!(session.analysis_status, AnalysisStatus::Complete);
    assert_eq!(session.analysis_status.label(), "complete");
    assert!(!session.active);
    assert_eq!(session.completed_at, Some(1_020));

    let bp = concepts.find_by_name("backpropagation").expect("created");
    let fwd = concepts.get_relationship(bp, gd).expect("forward edge");
    let back = concepts.get_relationship(gd, bp).expect("backward edge");
    assert!(fwd.similarity_score <= SCORE_SCALE);
    assert!(back.similarity_score <= SCORE_SCALE);
    assert_eq!(fwd.similarity_score, 820_000);
    assert_eq!(back.similarity_score, 820_000);

    // The new concept is linked to the session with its confidence as
    // relevance.
    assert_eq!(concepts.get_link(bp, s), Some(900_000));
}

#[test]
fn extraction_failure_propagates_verbatim() {
    let mut sessions = SessionStore::new();
    let mut concepts = ConceptStore::new();
    let s = sessions.create_session("doomed".to_string(), 10);
    let key = Some("test-credential".to_string());
    start_analysis(&mut sessions, s, &key, 11).expect("starts");

    let outcome = finish_analysis(
        &mut sessions,
        &mut concepts,
        s,
        ServiceReply::Failure { message: "rate limited".to_string() },
        12,
    );
    assert!(!outcome.success);
    assert_eq!(outcome.error_message.as_deref(), Some("rate limited"));
    assert_eq!(outcome.new_concepts_created, 0);
    assert_eq!(outcome.concepts_linked, 0);
    assert_eq!(
        sessions.get_session(s).unwrap().analysis_status,
        AnalysisStatus::Failed
    );
    assert_eq!(sessions.get_session(s).unwrap().analysis_status.label(), "failed");
    assert_eq!(concepts.concepts.len(), 0);
}

#[test]
fn rerun_resets_status_and_creates_no_duplicate_row() {
    let mut sessions = SessionStore::new();
    let mut concepts = ConceptStore::new();
    let s = sessions.create_session("rerun".to_string(), 0);
    let key = Some("test-credential".to_string());

    let make_reply = || ServiceReply::Success {
        candidates: vec![candidate(
            "Entropy",
            "a measure of disorder",
            700_000,
            vec![],
            None,
            vec![],
        )],
    };

    start_analysis(&mut sessions, s, &key, 1).expect("starts");
    let first = finish_analysis(&mut sessions, &mut concepts, s, make_reply(), 2);
    assert!(first.success);
    assert_eq!(first.new_concepts_created, 1);
    assert_eq!(
        sessions.get_session(s).unwrap().analysis_status,
        AnalysisStatus::Complete
    );

    // Re-running an already complete session moves it back through
    // `Processing` to a terminal state.
    start_analysis(&mut sessions, s, &key, 3).expect("re-starts");
    assert_eq!(
        sessions.get_session(s).unwrap().analysis_status,
        AnalysisStatus::Processing
    );
    let second = finish_analysis(&mut sessions, &mut concepts, s, make_reply(), 4);
    assert!(second.success);
    assert_eq!(second.new_concepts_created, 0);
    assert_eq!(second.concepts_linked, 1);
    assert_eq!(
        sessions.get_session(s).unwrap().analysis_status,
        AnalysisStatus::Complete
    );

    // Exactly one row, reinforced once per occurrence.
    assert_eq!(concepts.concepts.len(), 1);
    let id = concepts.find_by_name("ENTROPY").unwrap();
    assert_eq!(concepts.get_concept(id).unwrap().source_chat_count, 2);
    // And still exactly one link for the (concept, session) pair.
    assert_eq!(concepts.links.len(), 1);
}

#[test]
fn empty_session_still_runs_to_terminal_state() {
    let mut sessions = SessionStore::new();
    let mut concepts = ConceptStore::new();
    let key = Some("test-credential".to_string());

    let a = sessions.create_session("empty a".to_string(), 0);
    let snap = start_analysis(&mut sessions, a, &key, 1).expect("extraction is still invoked");
    assert!(snap.messages.is_empty() && snap.excerpts.is_empty());
    let done = finish_analysis(
        &mut sessions,
        &mut concepts,
        a,
        ServiceReply::Success { candidates: vec![] },
        2,
    );
    assert!(done.success);
    assert_eq!(done.new_concepts_created, 0);
    assert_eq!(
        sessions.get_session(a).unwrap().analysis_status,
        AnalysisStatus::Complete
    );

    let b = sessions.create_session("empty b".to_string(), 3);
    start_analysis(&mut sessions, b, &key, 4).expect("starts");
    finish_analysis(
        &mut sessions,
        &mut concepts,
        b,
        ServiceReply::Failure { message: "unreachable".to_string() },
        5,
    );
    let status = sessions.get_session(b).unwrap().analysis_status;
    assert_ne!(status, AnalysisStatus::Processing);
    assert_eq!(status, AnalysisStatus::Failed);
}

#[test]
fn same_name_candidates_in_one_batch_share_one_row() {
    let mut sessions = SessionStore::new();
    let mut concepts = ConceptStore::new();
    let s = sessions.create_session("dup batch".to_string(), 0);
    let key = Some("test-credential".to_string());
    start_analysis(&mut sessions, s, &key, 1).expect("starts");

    let reply = ServiceReply::Success {
        candidates: vec![
            candidate("Machine Learning", "first take", 600_000, vec![], None, vec![]),
            candidate("machine learning", "second take", 650_000, vec![], None, vec![]),
        ],
    };
    let outcome = finish_analysis(&mut sessions, &mut concepts, s, reply, 2);
    assert!(outcome.success);
    assert_eq!(outcome.new_concepts_created, 1);
    assert_eq!(outcome.concepts_linked, 1);

    assert_eq!(concepts.concepts.len(), 1);
    let id = concepts.find_by_name("Machine learning").unwrap();
    assert_eq!(concepts.get_concept(id).unwrap().source_chat_count, 2);
    // The link was refreshed with the second occurrence's confidence.
    assert_eq!(concepts.get_link(id, s), Some(650_000));
}

#[test]
fn related_edges_are_bidirectional_and_idempotent() {
    let mut sessions = SessionStore::new();
    let mut concepts = ConceptStore::new();
    let s = sessions.create_session("edges".to_string(), 0);
    let key = Some("test-credential".to_string());

    let gd = concepts.insert(
        "Gradient Descent".to_string(),
        "optimizer".to_string(),
        Vec::new(),
        None,
        500_000,
        0,
    );

    let make_reply = || ServiceReply::Success {
        candidates: vec![candidate(
            "Backpropagation",
            "gradients",
            900_000,
            vec!["Gradient Descent", "No Such Concept"],
            None,
            vec![Some(990_000), None],
        )],
    };

    start_analysis(&mut sessions, s, &key, 1).expect("starts");
    let outcome = finish_analysis(&mut sessions, &mut concepts, s, make_reply(), 2);
    assert!(outcome.success);
    // Only the reference that resolves is counted; the unknown name is
    // dropped without creating a placeholder.
    assert_eq!(outcome.concepts_linked, 1);
    assert_eq!(concepts.concepts.len(), 2);

    let bp = concepts.find_by_name("Backpropagation").unwrap();
    assert!(concepts.get_relationship(bp, gd).is_some());
    assert!(concepts.get_relationship(gd, bp).is_some());
    assert_eq!(concepts.relationships.len(), 2);
    // The target had no embedding, so the edge takes the default score.
    assert_eq!(concepts.get_relationship(bp, gd).unwrap().similarity_score, 500_000);

    // A second run with the same candidate upserts the same edges: no
    // duplicates appear.
    start_analysis(&mut sessions, s, &key, 3).expect("re-starts");
    let again = finish_analysis(&mut sessions, &mut concepts, s, make_reply(), 4);
    assert!(again.success);
    assert_eq!(concepts.relationships.len(), 2);
    assert_eq!(concepts.concepts.len(), 2);
}

#[test]
fn start_analysis_fails_fast_without_mutation() {
    let mut sessions = SessionStore::new();
    let s = sessions.create_session("untouched".to_string(), 0);

    // Missing credential: distinct error, no status change.
    let r = start_analysis(&mut sessions, s, &None, 1);
    assert_eq!(r.err(), Some(AnalysisError::MissingCredential));
    assert_eq!(
        sessions.get_session(s).unwrap().analysis_status,
        AnalysisStatus::NotAnalyzed
    );
    assert_eq!(sessions.get_session(s).unwrap().analysis_status.label(), "none");

    // Unknown session: distinct error.
    let key = Some("test-credential".to_string());
    let r = start_analysis(&mut sessions, 999, &key, 2);
    assert_eq!(r.err(), Some(AnalysisError::SessionNotFound));

    assert_eq!(
        AnalysisError::MissingCredential.message(),
        "extraction service credential not configured"
    );
    assert_eq!(AnalysisError::SessionNotFound.message(), "chat session not found");
}
