//! The pipeline's cross-cutting guarantees, stated and proved over the
//! same models the store, matcher and orchestrator contracts use.

use vstd::prelude::*;

use crate::concept_store::{
    first_named, lemma_first_where, lemma_first_where_is, lemma_first_where_pointwise, named_pred,
    rel_index, rel_pred, reinforced, upsert_link_seq, upsert_rel_seq, StoreView,
};
use crate::matcher::{
    apply_related, apply_related_prefix, concepts_after, match_step, new_concept_of, step_cid,
};
use crate::orchestrator::{batch_prefix, completed_session};
use crate::session_store::with_status;
use crate::text::name_eq;
use crate::types::{
    AnalysisStatus, CandidateInput, Concept, ConceptRelationship, RelationKind, ServiceReply,
    Session,
};

verus! {

/// An edge of the given direction exists in the table.
pub open spec fn edge_present(rels: Seq<ConceptRelationship>, source_id: u64, target_id: u64) -> bool {
    rel_index(rels, source_id, target_id) is Some
}

/// The relationship phase touches only the edge table.
proof fn lemma_prefix_fields(
    base: StoreView,
    cid: u64,
    names: Seq<String>,
    sims: Seq<Option<u32>>,
    i: int,
    now: u64,
)
    ensures
        apply_related_prefix(base, cid, names, sims, i, now).concepts == base.concepts,
        apply_related_prefix(base, cid, names, sims, i, now).links == base.links,
    decreases i,
{
    if i > 0 {
        lemma_prefix_fields(base, cid, names, sims, i - 1, now);
    }
}

/// What one candidate does to the concept and link tables.
pub proof fn lemma_match_step_fields(
    store: StoreView,
    session_id: u64,
    ci: CandidateInput,
    now: u64,
)
    ensures
        match_step(store, session_id, ci, now).concepts == concepts_after(store.concepts, ci, now),
        match_step(store, session_id, ci, now).links == upsert_link_seq(
            store.links,
            step_cid(store.concepts, ci.candidate.name@),
            session_id,
            ci.candidate.confidence_score,
            now,
        ),
{
    let base = StoreView {
        concepts: concepts_after(store.concepts, ci, now),
        links: upsert_link_seq(
            store.links,
            step_cid(store.concepts, ci.candidate.name@),
            session_id,
            ci.candidate.confidence_score,
            now,
        ),
        rels: store.rels,
    };
    lemma_prefix_fields(
        base,
        step_cid(store.concepts, ci.candidate.name@),
        ci.candidate.related_concepts@,
        ci.related_similarities@,
        ci.candidate.related_concepts@.len() as int,
        now,
    );
}

/// An upsert never removes an edge.
proof fn lemma_upsert_rel_keeps(
    rels: Seq<ConceptRelationship>,
    a: u64,
    b: u64,
    s: u64,
    t: u64,
    sc: u32,
    now: u64,
)
    requires
        edge_present(rels, a, b),
    ensures
        edge_present(upsert_rel_seq(rels, s, t, RelationKind::Related, sc, now), a, b),
{
    match rel_index(rels, s, t) {
        Some(_) => {},
        None => {
            lemma_first_where(rels, rel_pred(a, b), 0);
            match rel_index(rels, a, b) {
                Some(k) => {
                    let rels2 = upsert_rel_seq(rels, s, t, RelationKind::Related, sc, now);
                    lemma_first_where_is(rels2, rel_pred(a, b), 0, k);
                },
                None => {},
            }
        },
    }
}

/// After an upsert the edge is there.
proof fn lemma_upsert_rel_present(rels: Seq<ConceptRelationship>, a: u64, b: u64, sc: u32, now: u64)
    ensures
        edge_present(upsert_rel_seq(rels, a, b, RelationKind::Related, sc, now), a, b),
{
    match rel_index(rels, a, b) {
        Some(_) => {},
        None => {
            lemma_first_where(rels, rel_pred(a, b), 0);
            let rels2 = upsert_rel_seq(rels, a, b, RelationKind::Related, sc, now);
            assert(rel_pred(a, b)(rels2[rels.len() as int]));
            lemma_first_where_is(rels2, rel_pred(a, b), 0, rels.len() as int);
        },
    }
}

/// After the relationship phase, every reference that resolves has left
/// both of its edges.
proof fn lemma_run_edges_present(
    base: StoreView,
    cid: u64,
    names: Seq<String>,
    sims: Seq<Option<u32>>,
    i: int,
    now: u64,
)
    ensures
        forall|r: int|
            0 <= r < i && r < names.len() ==> match first_named(base.concepts, (#[trigger] names[r])@) {
                Some(t) => edge_present(
                    apply_related_prefix(base, cid, names, sims, i, now).rels,
                    cid,
                    base.concepts[t].id,
                ) && edge_present(
                    apply_related_prefix(base, cid, names, sims, i, now).rels,
                    base.concepts[t].id,
                    cid,
                ),
                None => true,
            },
    decreases i,
{
    if i > 0 {
        lemma_run_edges_present(base, cid, names, sims, i - 1, now);
        lemma_prefix_fields(base, cid, names, sims, i - 1, now);
        let prev = apply_related_prefix(base, cid, names, sims, i - 1, now);
        let cur = apply_related_prefix(base, cid, names, sims, i, now);
        assert(cur == apply_related(prev, cid, names[i - 1]@, sims[i - 1], now));
        assert forall|r: int|
            0 <= r < i && r < names.len() implies match first_named(base.concepts, (#[trigger] names[r])@) {
            Some(t) => edge_present(cur.rels, cid, base.concepts[t].id) && edge_present(
                cur.rels,
                base.concepts[t].id,
                cid,
            ),
            None => true,
        } by {
            match first_named(base.concepts, names[r]@) {
                Some(t) => {
                    let tid = base.concepts[t].id;
                    match first_named(prev.concepts, names[i - 1]@) {
                        Some(t2) => {
                            let tid2 = prev.concepts[t2].id;
                            let sc = crate::matcher::edge_score(
                                prev.concepts,
                                cid,
                                tid2,
                                sims[i - 1],
                            );
                            let mid = upsert_rel_seq(
                                prev.rels,
                                cid,
                                tid2,
                                RelationKind::Related,
                                sc,
                                now,
                            );
                            if r < i - 1 {
                                lemma_upsert_rel_keeps(prev.rels, cid, tid, cid, tid2, sc, now);
                                lemma_upsert_rel_keeps(prev.rels, tid, cid, cid, tid2, sc, now);
                                lemma_upsert_rel_keeps(mid, cid, tid, tid2, cid, sc, now);
                                lemma_upsert_rel_keeps(mid, tid, cid, tid2, cid, sc, now);
                            } else {
                                assert(t2 == t && tid2 == tid);
                                lemma_upsert_rel_present(prev.rels, cid, tid, sc, now);
                                lemma_upsert_rel_keeps(mid, cid, tid, tid, cid, sc, now);
                                lemma_upsert_rel_present(mid, tid, cid, sc, now);
                            }
                        },
                        None => {
                            assert(r < i - 1);
                        },
                    }
                },
                None => {},
            }
        }
    }
}

/// Resolution by name is unchanged by the concept phase of a candidate:
/// a name that resolved before the candidate still resolves to the same
/// row after it.
proof fn lemma_resolution_after_phase1(
    concepts: Seq<Concept>,
    ci: CandidateInput,
    now: u64,
    n: Seq<char>,
    t: int,
)
    requires
        first_named(concepts, n) == Some(t),
    ensures
        first_named(concepts_after(concepts, ci, now), n) == Some(t),
        concepts_after(concepts, ci, now)[t].id == concepts[t].id,
{
    lemma_first_where(concepts, named_pred(n), 0);
    match first_named(concepts, ci.candidate.name@) {
        Some(j) => {
            lemma_first_where(concepts, named_pred(ci.candidate.name@), 0);
            let c2 = concepts.update(j, reinforced(concepts[j], now));
            assert forall|u: int|
                0 <= u < concepts.len() implies (named_pred(n)(concepts[u]) <==> named_pred(n)(
                #[trigger] c2[u],
            )) by {
                if u == j {
                    assert(c2[u].name == concepts[u].name);
                }
            }
            lemma_first_where_pointwise(concepts, c2, named_pred(n));
        },
        None => {
            let c2 = concepts.push(
                new_concept_of(concepts.len() as u64, ci, now),
            );
            lemma_first_where_is(c2, named_pred(n), 0, t);
        },
    }
}

/// A candidate whose related-concept reference names an existing concept
/// leaves a relationship edge in both directions after one run.
///
/// `finish_analysis` applies `match_step` to every candidate of the
/// batch in order, so this holds of each candidate against the store
/// state it ran on.
pub proof fn lemma_related_edges_bidirectional(
    store: StoreView,
    session_id: u64,
    ci: CandidateInput,
    r: int,
    t: int,
    now: u64,
)
    requires
        0 <= r < ci.candidate.related_concepts@.len(),
        first_named(store.concepts, ci.candidate.related_concepts@[r]@) == Some(t),
    ensures
        ({
            let after = match_step(store, session_id, ci, now);
            let cid = step_cid(store.concepts, ci.candidate.name@);
            let tid = concepts_after(store.concepts, ci, now)[t].id;
            edge_present(after.rels, cid, tid) && edge_present(after.rels, tid, cid)
        }),
{
    let cid = step_cid(store.concepts, ci.candidate.name@);
    let names = ci.candidate.related_concepts@;
    let sims = ci.related_similarities@;
    let concepts1 = concepts_after(store.concepts, ci, now);
    lemma_resolution_after_phase1(store.concepts, ci, now, names[r]@, t);
    let base = StoreView {
        concepts: concepts1,
        links: upsert_link_seq(
            store.links,
            cid,
            session_id,
            ci.candidate.confidence_score,
            now,
        ),
        rels: store.rels,
    };
    assert(match_step(store, session_id, ci, now) == apply_related_prefix(
        base,
        cid,
        names,
        sims,
        names.len() as int,
        now,
    ));
    lemma_run_edges_present(base, cid, names, sims, names.len() as int, now);
}

/// The edge table is unchanged by applying a candidate whose resolved
/// references are all already edged with it.
proof fn lemma_rerun_prefix_keeps(
    base: StoreView,
    cid: u64,
    names: Seq<String>,
    sims: Seq<Option<u32>>,
    i: int,
    now: u64,
)
    requires
        i <= names.len(),
        forall|r: int|
            0 <= r < names.len() ==> match first_named(base.concepts, (#[trigger] names[r])@) {
                Some(t) => edge_present(base.rels, cid, base.concepts[t].id) && edge_present(
                    base.rels,
                    base.concepts[t].id,
                    cid,
                ),
                None => true,
            },
    ensures
        apply_related_prefix(base, cid, names, sims, i, now).rels == base.rels,
    decreases i,
{
    if i > 0 {
        lemma_rerun_prefix_keeps(base, cid, names, sims, i - 1, now);
        lemma_prefix_fields(base, cid, names, sims, i - 1, now);
        let prev = apply_related_prefix(base, cid, names, sims, i - 1, now);
        assert(apply_related_prefix(base, cid, names, sims, i, now) == apply_related(
            prev,
            cid,
            names[i - 1]@,
            sims[i - 1],
            now,
        ));
        match first_named(base.concepts, names[i - 1]@) {
            Some(t) => {
                let tid = base.concepts[t].id;
                assert(edge_present(base.rels, cid, tid) && edge_present(base.rels, tid, cid));
                assert(upsert_rel_seq(
                    prev.rels,
                    cid,
                    tid,
                    RelationKind::Related,
                    crate::matcher::edge_score(prev.concepts, cid, tid, sims[i - 1]),
                    now,
                ) == prev.rels);
            },
            None => {},
        }
    }
}

/// Re-running the matcher with the same candidate creates no concept row
/// and no edge: the second run merges into the row the first run settled
/// on, and every relationship upsert is a no-op.
pub proof fn lemma_rematch_is_idempotent(
    store: StoreView,
    session_id: u64,
    ci: CandidateInput,
    now1: u64,
    now2: u64,
)
    ensures
        ({
            let after1 = match_step(store, session_id, ci, now1);
            let after2 = match_step(after1, session_id, ci, now2);
            &&& after2.rels == after1.rels
            &&& after2.concepts.len() == after1.concepts.len()
        }),
{
    let name = ci.candidate.name@;
    let names = ci.candidate.related_concepts@;
    let sims = ci.related_similarities@;
    let after1 = match_step(store, session_id, ci, now1);
    let cid1 = step_cid(store.concepts, name);
    let concepts1 = concepts_after(store.concepts, ci, now1);
    lemma_match_step_fields(store, session_id, ci, now1);
    assert(after1.concepts == concepts1);

    // The first run leaves a row whose name matches the candidate's, so
    // the second run resolves the candidate to a row and merges.
    let j2: int;
    match first_named(store.concepts, name) {
        Some(j) => {
            lemma_first_where(store.concepts, named_pred(name), 0);
            lemma_first_where_pointwise(store.concepts, concepts1, named_pred(name));
            j2 = j;
        },
        None => {
            lemma_first_where(store.concepts, named_pred(name), 0);
            assert(named_pred(name)(concepts1[store.concepts.len() as int]));
            lemma_first_where_is(concepts1, named_pred(name), 0, store.concepts.len() as int);
            j2 = store.concepts.len() as int;
        },
    }
    assert(first_named(concepts1, name) == Some(j2));
    assert(concepts1[j2].id == cid1);

    let concepts2 = concepts_after(concepts1, ci, now2);
    assert(concepts2 == concepts1.update(j2, reinforced(concepts1[j2], now2)));
    assert(concepts2.len() == concepts1.len());
    let cid2 = step_cid(concepts1, name);
    assert(cid2 == cid1);

    // Run 1 left both edges of every reference that resolves.
    let base1 = StoreView {
        concepts: concepts1,
        links: upsert_link_seq(store.links, cid1, session_id, ci.candidate.confidence_score, now1),
        rels: store.rels,
    };
    assert(after1 == apply_related_prefix(base1, cid1, names, sims, names.len() as int, now1));
    lemma_run_edges_present(base1, cid1, names, sims, names.len() as int, now1);

    // Run 2's relationship phase starts from a base whose resolved
    // references are all edged already, so it changes nothing.
    let after2 = match_step(after1, session_id, ci, now2);
    let base2 = StoreView {
        concepts: concepts2,
        links: upsert_link_seq(after1.links, cid2, session_id, ci.candidate.confidence_score, now2),
        rels: after1.rels,
    };
    assert(after2 == apply_related_prefix(base2, cid2, names, sims, names.len() as int, now2));
    assert forall|r: int|
        0 <= r < names.len() implies match first_named(base2.concepts, (#[trigger] names[r])@) {
        Some(t) => edge_present(base2.rels, cid2, base2.concepts[t].id) && edge_present(
            base2.rels,
            base2.concepts[t].id,
            cid2,
        ),
        None => true,
    } by {
        assert forall|u: int|
            0 <= u < concepts1.len() implies (named_pred(names[r]@)(concepts1[u]) <==> named_pred(
            names[r]@,
        )(#[trigger] concepts2[u])) by {
            if u == j2 {
                assert(concepts2[u].name == concepts1[u].name);
            }
        }
        lemma_first_where_pointwise(concepts1, concepts2, named_pred(names[r]@));
        match first_named(concepts1, names[r]@) {
            Some(t) => {
                lemma_first_where(concepts1, named_pred(names[r]@), 0);
                assert(concepts2[t].id == concepts1[t].id);
            },
            None => {},
        }
    }
    lemma_rerun_prefix_keeps(base2, cid2, names, sims, names.len() as int, now2);
    lemma_match_step_fields(after1, session_id, ci, now2);
}

/// A run on a session with no messages and no highlighted excerpts is
/// still started and still ends in a terminal state.
///
/// `start_analysis` puts no condition on the transcript: per its
/// contract it produces the snapshot for the extraction service and
/// moves the status to `Processing` for any existing session, the empty
/// one included.  Whatever the service then replies,
/// `finish_analysis`'s contract pins the session's final status to
/// `Complete` on a success reply and `Failed` on a failure reply —
/// never `Processing`.
pub proof fn lemma_empty_session_run_is_terminal(
    s: Session,
    reply: ServiceReply,
    now_start: u64,
    now_finish: u64,
)
    requires
        s.messages@.len() == 0,
        s.excerpts@.len() == 0,
    ensures
        with_status(s, AnalysisStatus::Processing, now_start).analysis_status
            == AnalysisStatus::Processing,
        ({
            let started = with_status(s, AnalysisStatus::Processing, now_start);
            let after = match reply {
                ServiceReply::Failure { .. } => with_status(
                    started,
                    AnalysisStatus::Failed,
                    now_finish,
                ),
                ServiceReply::Success { .. } => completed_session(started, now_finish),
            };
            &&& after.analysis_status != AnalysisStatus::Processing
            &&& (after.analysis_status == AnalysisStatus::Complete || after.analysis_status
                == AnalysisStatus::Failed)
        }),
{
}

/// Two candidates of the same name (up to case) in one batch leave
/// exactly one concept row of that name, reinforced once per occurrence:
/// where no such row existed, the row the first candidate creates counts
/// two contributing occurrences after the second merges into it, and no
/// other row of that name exists.
pub proof fn lemma_same_name_batch_single_row(
    store: StoreView,
    session_id: u64,
    c1: CandidateInput,
    c2: CandidateInput,
    now: u64,
)
    requires
        name_eq(c1.candidate.name@, c2.candidate.name@),
        first_named(store.concepts, c1.candidate.name@) is None,
    ensures
        ({
            let after = batch_prefix(store, session_id, seq![c1, c2], 2, now);
            let j = store.concepts.len() as int;
            &&& after.concepts.len() == j + 1
            &&& name_eq(after.concepts[j].name@, c1.candidate.name@)
            &&& after.concepts[j].source_chat_count == 2
            &&& forall|u: int|
                0 <= u < after.concepts.len() && u != j ==> !name_eq(
                    (#[trigger] after.concepts[u]).name@,
                    c1.candidate.name@,
                )
        }),
{
    let cands = seq![c1, c2];
    let n1 = c1.candidate.name@;
    let n2 = c2.candidate.name@;
    let len0 = store.concepts.len() as int;
    assert(cands[0] == c1 && cands[1] == c2);
    assert(batch_prefix(store, session_id, cands, 0, now) == store);
    let s1 = match_step(store, session_id, c1, now);
    assert(batch_prefix(store, session_id, cands, 1, now) == s1);
    lemma_match_step_fields(store, session_id, c1, now);
    let row = new_concept_of(len0 as u64, c1, now);
    assert(s1.concepts == store.concepts.push(row));

    lemma_first_where(store.concepts, named_pred(n1), 0);
    assert(named_pred(n2)(row));
    assert forall|u: int| 0 <= u < len0 implies !named_pred(n2)(#[trigger] s1.concepts[u]) by {
        assert(!named_pred(n1)(store.concepts[u]));
    }
    lemma_first_where_is(s1.concepts, named_pred(n2), 0, len0);

    let s2 = match_step(s1, session_id, c2, now);
    assert(batch_prefix(store, session_id, cands, 2, now) == s2);
    lemma_match_step_fields(s1, session_id, c2, now);
    assert(s2.concepts == s1.concepts.update(len0, reinforced(row, now)));
    assert(s2.concepts[len0].source_chat_count == 2);
    assert forall|u: int|
        0 <= u < s2.concepts.len() && u != len0 implies !name_eq(
        (#[trigger] s2.concepts[u]).name@,
        n1,
    ) by {
        assert(s2.concepts[u] == store.concepts[u]);
        assert(!named_pred(n1)(store.concepts[u]));
    }
}

} // verus!
