//! The analysis orchestrator: the state machine that drives a session
//! through `none -> processing -> complete | failed`.
//!
//! One analysis run is split at its only suspension point, the external
//! extraction call.  [`start_analysis`] checks the credential and the
//! session, moves the status to `Processing` before anything else, and
//! hands back the read-only transcript snapshot for the extraction
//! service.  The host binary invokes the service (and the embedding
//! service for each candidate) and passes the assembled reply to
//! [`finish_analysis`], which runs the matcher over every candidate and
//! always leaves the session in a terminal state: `Complete` (and
//! inactive, with its completion time stamped) on success, `Failed` with
//! the service's message passed through verbatim otherwise.
//!
//! The stores here are in-memory tables whose writes are total, so a
//! mid-batch persistence failure cannot arise in the verified pipeline
//! itself; a host that mirrors these writes into a fallible datastore
//! owns that failure path and reports it as a failed run.

use vstd::prelude::*;

use crate::concept_store::{first_named, lemma_first_where_is, ConceptStore, StoreView};
use crate::matcher::{concepts_after, count_resolved, match_candidate, match_step};
use crate::session_store::{session_index, session_pred, with_status, SessionStore};
use crate::types::{
    AnalysisError, AnalysisOutcome, AnalysisStatus, CandidateInput, ServiceReply, Session,
    TranscriptSnapshot,
};

verus! {

/// The store after the first `i` candidates of a batch.
pub open spec fn batch_prefix(
    store: StoreView,
    session_id: u64,
    cands: Seq<CandidateInput>,
    i: int,
    now: u64,
) -> StoreView
    decreases i,
{
    if i <= 0 {
        store
    } else {
        match_step(batch_prefix(store, session_id, cands, i - 1, now), session_id, cands[i - 1], now)
    }
}

/// How many of the first `i` candidates create a new concept.
pub open spec fn batch_created(
    store: StoreView,
    session_id: u64,
    cands: Seq<CandidateInput>,
    i: int,
    now: u64,
) -> nat
    decreases i,
{
    if i <= 0 {
        0
    } else {
        batch_created(store, session_id, cands, i - 1, now) + (if first_named(
            batch_prefix(store, session_id, cands, i - 1, now).concepts,
            cands[i - 1].candidate.name@,
        ) is None {
            1nat
        } else {
            0nat
        })
    }
}

/// How many concepts one candidate links rather than creates: one for a
/// merge into an existing concept, plus one per related-concept
/// reference that resolves.
pub open spec fn step_linked(store: StoreView, ci: CandidateInput, now: u64) -> nat {
    (if first_named(store.concepts, ci.candidate.name@) is Some {
        1nat
    } else {
        0nat
    }) + count_resolved(
        concepts_after(store.concepts, ci, now),
        ci.candidate.related_concepts@,
        ci.candidate.related_concepts@.len() as int,
    )
}

/// The linked count over the first `i` candidates of a batch.
pub open spec fn batch_linked(
    store: StoreView,
    session_id: u64,
    cands: Seq<CandidateInput>,
    i: int,
    now: u64,
) -> nat
    decreases i,
{
    if i <= 0 {
        0
    } else {
        batch_linked(store, session_id, cands, i - 1, now) + step_linked(
            batch_prefix(store, session_id, cands, i - 1, now),
            cands[i - 1],
            now,
        )
    }
}

/// A quantity cut to what a `usize` can report.
pub open spec fn clamp_usize(n: int) -> int {
    if n <= usize::MAX as int {
        n
    } else {
        usize::MAX as int
    }
}

/// A session after a successful run: `Complete`, inactive, with its
/// completion time stamped.
pub open spec fn completed_session(s: Session, now: u64) -> Session {
    Session {
        analysis_status: AnalysisStatus::Complete,
        active: false,
        completed_at: Some(now),
        updated_at: now,
        ..s
    }
}

/// Saturating addition of two counters.
fn sat_add(a: usize, b: usize) -> (r: usize)
    ensures
        r as int == clamp_usize(a as int + b as int),
{
    if a > usize::MAX - b {
        usize::MAX
    } else {
        a + b
    }
}

/// Start one analysis run.
///
/// A missing extraction-service credential and an unknown session id
/// each fail fast with their distinct error, before any status
/// mutation.  Otherwise the session's status moves to `Processing` —
/// durably, before the extraction service is ever invoked — and the
/// caller receives the read-only transcript snapshot to send to the
/// service.  Re-starting an already `Complete` or `Failed` session
/// resets its status to `Processing` the same way.
pub fn start_analysis(
    sessions: &mut SessionStore,
    session_id: u64,
    credential: &Option<String>,
    now: u64,
) -> (r: Result<TranscriptSnapshot, AnalysisError>)
    requires
        old(sessions).wf(),
    ensures
        final(sessions).wf(),
        final(sessions).next_id == old(sessions).next_id,
        credential is None ==> (r matches Err(e) && e == AnalysisError::MissingCredential
            && *final(sessions) == *old(sessions)),
        credential is Some && session_index(old(sessions).sessions@, session_id) is None ==> (
        r matches Err(e) && e == AnalysisError::SessionNotFound && *final(sessions) == *old(
            sessions,
        )),
        credential is Some ==> (session_index(old(sessions).sessions@, session_id) matches Some(k)
            ==> ({
            let s = old(sessions).sessions@[k];
            &&& r matches Ok(snap) && snap.session_id == session_id && snap.title == s.title
                && snap.messages@ == s.messages@ && snap.excerpts@ == s.excerpts@
            &&& final(sessions).sessions@ == old(sessions).sessions@.update(
                k,
                with_status(s, AnalysisStatus::Processing, now),
            )
        })),
{
    if credential.is_none() {
        return Err(AnalysisError::MissingCredential);
    }
    match sessions.get_for_analysis(session_id) {
        None => Err(AnalysisError::SessionNotFound),
        Some(snap) => {
            sessions.set_analysis_status(session_id, AnalysisStatus::Processing, now);
            Ok(snap)
        },
    }
}

/// Finish one analysis run with the extraction service's reply.
///
/// A failure reply moves the session to `Failed`, writes nothing to the
/// concept store, and passes the service's message through verbatim; no
/// automatic retry happens here.  A success reply runs the matcher over
/// every candidate in order — zero candidates included — then moves the
/// session to `Complete`, deactivates it and stamps its completion
/// time.  Either way the session ends in a terminal state, never in
/// `Processing`.
pub fn finish_analysis(
    sessions: &mut SessionStore,
    concepts: &mut ConceptStore,
    session_id: u64,
    reply: ServiceReply,
    now: u64,
) -> (outcome: AnalysisOutcome)
    requires
        old(sessions).wf(),
        old(concepts).wf(),
        reply matches ServiceReply::Success { candidates } ==> forall|i: int|
            0 <= i < candidates@.len() ==> (#[trigger] candidates@[i]).wf(),
    ensures
        final(sessions).wf(),
        final(concepts).wf(),
        final(sessions).next_id == old(sessions).next_id,
        match reply {
            ServiceReply::Failure { message } => {
                &&& !outcome.success
                &&& outcome.new_concepts_created == 0
                &&& outcome.concepts_linked == 0
                &&& outcome.error_message == Some(message)
                &&& final(concepts)@ == old(concepts)@
                &&& match session_index(old(sessions).sessions@, session_id) {
                    Some(k) => final(sessions).sessions@ == old(sessions).sessions@.update(
                        k,
                        with_status(
                            old(sessions).sessions@[k],
                            AnalysisStatus::Failed,
                            now,
                        ),
                    ),
                    None => *final(sessions) == *old(sessions),
                }
            },
            ServiceReply::Success { candidates } => {
                &&& outcome.success
                &&& outcome.error_message is None
                &&& final(concepts)@ == batch_prefix(
                    old(concepts)@,
                    session_id,
                    candidates@,
                    candidates@.len() as int,
                    now,
                )
                &&& outcome.new_concepts_created == batch_created(
                    old(concepts)@,
                    session_id,
                    candidates@,
                    candidates@.len() as int,
                    now,
                )
                &&& outcome.concepts_linked as int == clamp_usize(
                    batch_linked(
                        old(concepts)@,
                        session_id,
                        candidates@,
                        candidates@.len() as int,
                        now,
                    ) as int,
                )
                &&& match session_index(old(sessions).sessions@, session_id) {
                    Some(k) => final(sessions).sessions@ == old(sessions).sessions@.update(
                        k,
                        completed_session(old(sessions).sessions@[k], now),
                    ),
                    None => *final(sessions) == *old(sessions),
                }
            },
        },
{
    match reply {
        ServiceReply::Failure { message } => {
            sessions.set_analysis_status(session_id, AnalysisStatus::Failed, now);
            AnalysisOutcome {
                success: false,
                new_concepts_created: 0,
                concepts_linked: 0,
                error_message: Some(message),
            }
        },
        ServiceReply::Success { mut candidates } => {
            let ghost cands0 = candidates@;
            let n = candidates.len();
            let mut created: usize = 0;
            let mut linked: usize = 0;
            let mut i: usize = 0;
            while i < n
                invariant
                    i <= n,
                    n == cands0.len(),
                    candidates@ == cands0.subrange(i as int, n as int),
                    forall|t: int| 0 <= t < n ==> (#[trigger] cands0[t]).wf(),
                    concepts.wf(),
                    concepts@ == batch_prefix(old(concepts)@, session_id, cands0, i as int, now),
                    created == batch_created(old(concepts)@, session_id, cands0, i as int, now),
                    created <= i,
                    linked as int == clamp_usize(
                        batch_linked(old(concepts)@, session_id, cands0, i as int, now) as int,
                    ),
                decreases n - i,
            {
                proof {
                    assert(candidates@[0] == cands0[i as int]);
                }
                let ci = candidates.remove(0);
                proof {
                    assert(candidates@ =~= cands0.subrange(i as int + 1, n as int));
                }
                let d = match_candidate(concepts, session_id, ci, now);
                if !d.merged {
                    created = created + 1;
                }
                linked = sat_add(linked, if d.merged { 1 } else { 0 });
                linked = sat_add(linked, d.related_linked);
                proof {
                    assert(batch_prefix(old(concepts)@, session_id, cands0, i as int + 1, now)
                        == match_step(
                        batch_prefix(old(concepts)@, session_id, cands0, i as int, now),
                        session_id,
                        cands0[i as int],
                        now,
                    ));
                    assert(batch_created(old(concepts)@, session_id, cands0, i as int + 1, now)
                        == batch_created(old(concepts)@, session_id, cands0, i as int, now) + (
                    if first_named(
                        batch_prefix(old(concepts)@, session_id, cands0, i as int, now).concepts,
                        cands0[i as int].candidate.name@,
                    ) is None {
                        1nat
                    } else {
                        0nat
                    }));
                    assert(batch_linked(old(concepts)@, session_id, cands0, i as int + 1, now)
                        == batch_linked(old(concepts)@, session_id, cands0, i as int, now)
                        + step_linked(
                        batch_prefix(old(concepts)@, session_id, cands0, i as int, now),
                        cands0[i as int],
                        now,
                    ));
                }
                i += 1;
            }
            let ghost mid = *sessions;
            sessions.set_analysis_status(session_id, AnalysisStatus::Complete, now);
            proof {
                match session_index(old(sessions).sessions@, session_id) {
                    Some(k) => {
                        crate::concept_store::lemma_first_where(
                            old(sessions).sessions@,
                            session_pred(session_id),
                            0,
                        );
                        assert(session_pred(session_id)(sessions.sessions@[k]));
                        lemma_first_where_is(
                            sessions.sessions@,
                            session_pred(session_id),
                            0,
                            k,
                        );
                    },
                    None => {},
                }
            }
            let ghost mid2 = *sessions;
            sessions.end_session(session_id, now);
            proof {
                match session_index(old(sessions).sessions@, session_id) {
                    Some(k) => {
                        assert(session_index(mid2.sessions@, session_id) == Some(k));
                        assert(sessions.sessions@ =~= old(sessions).sessions@.update(
                            k,
                            completed_session(old(sessions).sessions@[k], now),
                        ));
                    },
                    None => {
                        assert(session_index(mid2.sessions@, session_id) is None);
                    },
                }
            }
            AnalysisOutcome {
                success: true,
                new_concepts_created: created,
                concepts_linked: linked,
                error_message: None,
            }
        },
    }
}

} // verus!
