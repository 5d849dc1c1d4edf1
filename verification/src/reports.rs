//! Composed read views over the stores: the concept page (the concept
//! with its contributing sessions and its related concepts) and the
//! navigation view of one (concept, session) pair.  These are the
//! durable shapes other subsystems read; each field is pinned to the
//! stores' tables.

use vstd::prelude::*;

use crate::concept_store::{concept_rows, link_index, related_rows, ConceptStore};
use crate::ranking::{sorted_desc, ScoredId};
use crate::session_store::{session_index, SessionStore};
use crate::types::{ChatMessage, HighlightedExcerpt};

verus! {

/// One concept with everything linked to it, ranked for display.
pub struct ConceptOverview {
    pub concept_id: u64,
    pub name: String,
    pub description: String,
    pub tags: Vec<String>,
    pub confidence_score: u32,
    pub source_chat_count: u64,
    pub created_at: u64,
    pub updated_at: u64,
    /// The sessions that produced or reinforced the concept, by
    /// descending relevance.
    pub source_sessions: Vec<ScoredId>,
    /// The concepts related to it, by descending similarity.
    pub related: Vec<ScoredId>,
}

/// Everything a reader needs to jump from a concept to the conversation
/// it came from.
pub struct ConceptSessionView {
    pub concept_id: u64,
    pub session_id: u64,
    pub concept_name: String,
    pub concept_description: String,
    pub session_title: String,
    /// The relevance the link carries.
    pub relevance_score: u32,
    pub messages: Vec<ChatMessage>,
    pub excerpts: Vec<HighlightedExcerpt>,
}

/// The concept page: the record of the given id together with its
/// ranked session links and relationship edges.
pub fn concept_overview(store: &ConceptStore, concept_id: u64) -> (r: Option<ConceptOverview>)
    requires
        store.wf(),
    ensures
        match r {
            Some(o) => {
                &&& concept_id < store.concepts@.len()
                &&& ({
                    let c = store.concepts@[concept_id as int];
                    &&& o.concept_id == concept_id
                    &&& o.name == c.name
                    &&& o.description == c.description
                    &&& o.tags@ == c.tags@
                    &&& o.confidence_score == c.confidence_score
                    &&& o.source_chat_count == c.source_chat_count
                    &&& o.created_at == c.created_at
                    &&& o.updated_at == c.updated_at
                })
                &&& sorted_desc(o.source_sessions@)
                &&& o.source_sessions@.to_multiset() == concept_rows(
                    store.links@,
                    concept_id,
                ).to_multiset()
                &&& sorted_desc(o.related@)
                &&& o.related@.to_multiset() == related_rows(
                    store.relationships@,
                    concept_id,
                ).to_multiset()
            },
            None => concept_id >= store.concepts@.len(),
        },
{
    let source_sessions = store.sessions_for_concept(concept_id);
    let related = store.related_concepts(concept_id);
    match store.get_concept(concept_id) {
        Some(c) => Some(
            ConceptOverview {
                concept_id,
                name: c.name.clone(),
                description: c.description.clone(),
                tags: clone_strings(&c.tags),
                confidence_score: c.confidence_score,
                source_chat_count: c.source_chat_count,
                created_at: c.created_at,
                updated_at: c.updated_at,
                source_sessions,
                related,
            },
        ),
        None => None,
    }
}

/// The navigation view of one (concept, session) pair: its link's
/// relevance, both records' display fields, and the session's full
/// transcript.  It exists exactly when the pair is linked and the
/// session still exists.
pub fn concept_session_relationship(
    concepts: &ConceptStore,
    sessions: &SessionStore,
    concept_id: u64,
    session_id: u64,
) -> (r: Option<ConceptSessionView>)
    requires
        concepts.wf(),
    ensures
        match r {
            Some(v) => {
                &&& link_index(concepts.links@, concept_id, session_id) matches Some(k)
                    && v.relevance_score == concepts.links@[k].relevance_score
                &&& concept_id < concepts.concepts@.len()
                &&& v.concept_id == concept_id
                &&& v.session_id == session_id
                &&& v.concept_name == concepts.concepts@[concept_id as int].name
                &&& v.concept_description == concepts.concepts@[concept_id as int].description
                &&& session_index(sessions.sessions@, session_id) matches Some(m) && ({
                    let s = sessions.sessions@[m];
                    &&& v.session_title == s.title
                    &&& v.messages@ == s.messages@
                    &&& v.excerpts@ == s.excerpts@
                })
            },
            None => link_index(concepts.links@, concept_id, session_id) is None || session_index(
                sessions.sessions@,
                session_id,
            ) is None || concept_id >= concepts.concepts@.len(),
        },
{
    let relevance = match concepts.get_link(concept_id, session_id) {
        Some(rel) => rel,
        None => {
            return None;
        },
    };
    let snap = match sessions.get_for_analysis(session_id) {
        Some(snap) => snap,
        None => {
            return None;
        },
    };
    match concepts.get_concept(concept_id) {
        Some(c) => Some(
            ConceptSessionView {
                concept_id,
                session_id,
                concept_name: c.name.clone(),
                concept_description: c.description.clone(),
                session_title: snap.title,
                relevance_score: relevance,
                messages: snap.messages,
                excerpts: snap.excerpts,
            },
        ),
        None => None,
    }
}

/// A field-for-field copy of a tag list.
fn clone_strings(v: &Vec<String>) -> (r: Vec<String>)
    ensures
        r@ == v@,
{
    let n = v.len();
    let mut out: Vec<String> = Vec::new();
    let mut i: usize = 0;
    while i < n
        invariant
            i <= n,
            n == v@.len(),
            out@ == v@.take(i as int),
        decreases n - i,
    {
        out.push(v[i].clone());
        proof {
            assert(v@.take(i as int + 1) =~= v@.take(i as int).push(v@[i as int]));
        }
        i += 1;
    }
    proof {
        assert(v@.take(n as int) =~= v@);
    }
    out
}

} // verus!
