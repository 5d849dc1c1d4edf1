//! The matcher: given a candidate from the extraction service and the
//! existing concept population, decide whether the candidate merges into
//! an existing concept or creates a new one, attach the concept to the
//! session, and create the relationship edges the candidate names.
//!
//! An exact case-insensitive name match is the only hard duplicate
//! signal and takes precedence over embedding similarity: such a
//! candidate reinforces the existing concept instead of creating a row.
//! Related-concept names that do not resolve are dropped; resolved ones
//! get a bidirectional `related` edge whose score is the similarity the
//! embedding service reported, or `0.5` when either embedding (or the
//! similarity itself) is unavailable.

use vstd::prelude::*;

use crate::concept_store::{
    bump_count, first_named, lemma_first_where, named_pred, reinforced, upsert_link_seq,
    upsert_rel_seq, ConceptStore, StoreView,
};
use crate::types::{Candidate, CandidateInput, Concept, RelationKind, HALF_SCORE};

verus! {

/// The id the candidate ends up under: the first concept of the same
/// name, or the id the store will assign to the new row.
pub open spec fn step_cid(concepts: Seq<Concept>, name: Seq<char>) -> u64 {
    match first_named(concepts, name) {
        Some(j) => concepts[j].id,
        None => concepts.len() as u64,
    }
}

/// The concept row a novel candidate creates.
pub open spec fn new_concept_of(id: u64, ci: CandidateInput, now: u64) -> Concept {
    Concept {
        id,
        name: ci.candidate.name,
        description: ci.candidate.description,
        tags: ci.candidate.tags,
        embedding: ci.embedding,
        confidence_score: ci.candidate.confidence_score,
        source_chat_count: 1,
        created_at: now,
        updated_at: now,
    }
}

/// The concept table after one candidate: a name match reinforces the
/// matching row, anything else appends a new row.
pub open spec fn concepts_after(concepts: Seq<Concept>, ci: CandidateInput, now: u64) -> Seq<
    Concept,
> {
    match first_named(concepts, ci.candidate.name@) {
        Some(j) => concepts.update(j, reinforced(concepts[j], now)),
        None => concepts.push(new_concept_of(concepts.len() as u64, ci, now)),
    }
}

/// The score stored on a relationship edge: the similarity the embedding
/// service supplied, or `0.5` when either concept has no embedding or no
/// similarity was supplied.
pub open spec fn edge_score(
    concepts: Seq<Concept>,
    cid: u64,
    tid: u64,
    supplied: Option<u32>,
) -> u32 {
    match supplied {
        Some(v) => if concepts[cid as int].embedding is Some && concepts[tid
            as int].embedding is Some {
            v
        } else {
            HALF_SCORE
        },
        None => HALF_SCORE,
    }
}

/// One related-concept reference: if the name resolves, a bidirectional
/// edge between the candidate's concept and the named one is upserted;
/// otherwise the reference is dropped.
pub open spec fn apply_related(
    store: StoreView,
    cid: u64,
    name: Seq<char>,
    supplied: Option<u32>,
    now: u64,
) -> StoreView {
    match first_named(store.concepts, name) {
        Some(t) => {
            let tid = store.concepts[t].id;
            let sc = edge_score(store.concepts, cid, tid, supplied);
            StoreView {
                rels: upsert_rel_seq(
                    upsert_rel_seq(store.rels, cid, tid, RelationKind::Related, sc, now),
                    tid,
                    cid,
                    RelationKind::Related,
                    sc,
                    now,
                ),
                ..store
            }
        },
        None => store,
    }
}

/// The store after the candidate's first `i` related-concept references.
pub open spec fn apply_related_prefix(
    base: StoreView,
    cid: u64,
    names: Seq<String>,
    sims: Seq<Option<u32>>,
    i: int,
    now: u64,
) -> StoreView
    decreases i,
{
    if i <= 0 {
        base
    } else {
        apply_related(
            apply_related_prefix(base, cid, names, sims, i - 1, now),
            cid,
            names[i - 1]@,
            sims[i - 1],
            now,
        )
    }
}

/// How many of the candidate's first `i` related-concept references
/// resolve to an existing concept.
pub open spec fn count_resolved(concepts: Seq<Concept>, names: Seq<String>, i: int) -> nat
    decreases i,
{
    if i <= 0 {
        0
    } else {
        count_resolved(concepts, names, i - 1) + (if first_named(
            concepts,
            names[i - 1]@,
        ) is Some {
            1nat
        } else {
            0nat
        })
    }
}

/// The whole store after one candidate: the concept row, the session
/// link, then the relationship edges.
pub open spec fn match_step(
    store: StoreView,
    session_id: u64,
    ci: CandidateInput,
    now: u64,
) -> StoreView {
    let cid = step_cid(store.concepts, ci.candidate.name@);
    let base = StoreView {
        concepts: concepts_after(store.concepts, ci, now),
        links: upsert_link_seq(
            store.links,
            cid,
            session_id,
            ci.candidate.confidence_score,
            now,
        ),
        rels: store.rels,
    };
    apply_related_prefix(
        base,
        cid,
        ci.candidate.related_concepts@,
        ci.related_similarities@,
        ci.candidate.related_concepts@.len() as int,
        now,
    )
}

/// What the matcher decided for one candidate.
#[derive(Clone, Copy, Debug)]
pub struct MatchDecision {
    /// The concept the candidate ended up under.
    pub concept_id: u64,
    /// Whether it merged into an existing concept (as opposed to
    /// creating a new row).
    pub merged: bool,
    /// How many of its related-concept references resolved and got
    /// edges.
    pub related_linked: usize,
}

/// Run one candidate against the store.
pub fn match_candidate(store: &mut ConceptStore, session_id: u64, input: CandidateInput, now: u64)
    -> (d: MatchDecision)
    requires
        old(store).wf(),
        input.wf(),
    ensures
        final(store).wf(),
        final(store)@ == match_step(old(store)@, session_id, input, now),
        d.merged == (first_named(old(store).concepts@, input.candidate.name@) is Some),
        d.concept_id == step_cid(old(store).concepts@, input.candidate.name@),
        d.related_linked == count_resolved(
            concepts_after(old(store).concepts@, input, now),
            input.candidate.related_concepts@,
            input.candidate.related_concepts@.len() as int,
        ),
{
    let found = store.find_by_name(input.candidate.name.as_str());
    let CandidateInput { candidate, embedding, related_similarities } = input;
    let Candidate { name, description, tags, confidence_score, related_concepts } = candidate;
    let merged: bool;
    let cid: u64;
    match found {
        Some(existing) => {
            proof {
                lemma_first_where(store.concepts@, named_pred(input.candidate.name@), 0);
            }
            store.reinforce(existing, now);
            merged = true;
            cid = existing;
        },
        None => {
            cid = store.insert(name, description, tags, embedding, confidence_score, now);
            merged = false;
        },
    }
    proof {
        assert(store.concepts@ == concepts_after(old(store).concepts@, input, now));
        assert(cid == step_cid(old(store).concepts@, input.candidate.name@));
        assert(cid < store.concepts@.len());
    }
    store.link_to_session(cid, session_id, confidence_score, now);
    let ghost base = StoreView {
        concepts: store.concepts@,
        links: store.links@,
        rels: store.relationships@,
    };
    let ghost names = input.candidate.related_concepts@;
    let ghost sims = input.related_similarities@;
    let rn = related_concepts.len();
    let mut linked: usize = 0;
    let mut i: usize = 0;
    while i < rn
        invariant
            i <= rn,
            rn == names.len(),
            related_concepts@ == names,
            related_similarities@ == sims,
            sims.len() == names.len(),
            forall|t: int|
                0 <= t < sims.len() ==> (#[trigger] sims[t] matches Some(v)
                    ==> crate::types::valid_score(v)),
            store.wf(),
            cid < base.concepts.len(),
            store@ == apply_related_prefix(base, cid, names, sims, i as int, now),
            store.concepts@ == base.concepts,
            store.links@ == base.links,
            linked == count_resolved(base.concepts, names, i as int),
            linked <= i,
        decreases rn - i,
    {
        let target = store.find_by_name(related_concepts[i].as_str());
        match target {
            Some(tid) => {
                proof {
                    lemma_first_where(store.concepts@, named_pred(names[i as int]@), 0);
                }
                let cand_c = store.get_concept(cid);
                let has_cand_emb = match cand_c {
                    Some(c) => c.embedding.is_some(),
                    None => false,
                };
                let tgt_c = store.get_concept(tid);
                let has_tgt_emb = match tgt_c {
                    Some(c) => c.embedding.is_some(),
                    None => false,
                };
                let supplied = related_similarities[i];
                let sc: u32 = match supplied {
                    Some(v) => if has_cand_emb && has_tgt_emb {
                        v
                    } else {
                        HALF_SCORE
                    },
                    None => HALF_SCORE,
                };
                store.upsert_relationship(cid, tid, RelationKind::Related, sc, now);
                store.upsert_relationship(tid, cid, RelationKind::Related, sc, now);
                linked = linked + 1;
            },
            None => {},
        }
        proof {
            assert(store@ =~= apply_related_prefix(base, cid, names, sims, i as int + 1, now));
        }
        i += 1;
    }
    proof {
        assert(store@ =~= match_step(old(store)@, session_id, input, now));
    }
    MatchDecision { concept_id: cid, merged, related_linked: linked }
}

} // verus!
