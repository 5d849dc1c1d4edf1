//! Concept extraction and knowledge-linking pipeline.
//!
//! A reading application lets a user highlight passages and converse about
//! them; when a conversation ends, this library distills it into reusable,
//! deduplicated, cross-linked concept records.  The library holds the logic
//! that is worth proving: the session state machine (`none -> processing ->
//! complete | failed`), the matcher that decides whether an extracted
//! candidate merges into an existing concept or creates a new one, and the
//! store invariants (unique concept/session links, idempotent relationship
//! edges, at most one active session).
//!
//! The extraction and embedding services are external processes; the host
//! binary invokes them and hands their replies to the orchestrator as plain
//! values, so every decision taken on those replies is verified here.

pub mod concept_store;
pub mod laws;
pub mod matcher;
pub mod orchestrator;
pub mod pdf;
pub mod ranking;
pub mod reports;
pub mod session_store;
pub mod text;
pub mod types;
