//! The session store: conversation sessions, their messages and
//! highlighted excerpts, and the analysis-status field the pipeline
//! drives.
//!
//! The store enforces that session ids are unique and that at most one
//! session is active at a time; activation and creation deactivate every
//! other session in one step.

use vstd::prelude::*;

use crate::concept_store::first_where;
use crate::ranking::seq_filter;
use crate::types::{
    AnalysisStatus, ChatMessage, HighlightedExcerpt, Role, Session, TranscriptSnapshot,
};

verus! {

/// The predicate of a session lookup by id.
pub open spec fn session_pred(session_id: u64) -> spec_fn(Session) -> bool {
    |s: Session| s.id == session_id
}

/// Index of the session with the given id, if it exists.
pub open spec fn session_index(sessions: Seq<Session>, session_id: u64) -> Option<int> {
    first_where(sessions, session_pred(session_id), 0)
}

/// The predicate of the inactive sessions (the conversation history).
pub open spec fn inactive_pred() -> spec_fn(Session) -> bool {
    |s: Session| !s.active
}

/// A session's id.
pub open spec fn session_id_of() -> spec_fn(Session) -> u64 {
    |s: Session| s.id
}

/// A session after its analysis status moved.
pub open spec fn with_status(s: Session, status: AnalysisStatus, now: u64) -> Session {
    Session { analysis_status: status, updated_at: now, ..s }
}

/// A session after it ended: inactive, with its completion time stamped.
pub open spec fn ended(s: Session, now: u64) -> Session {
    Session { active: false, completed_at: Some(now), updated_at: now, ..s }
}

/// Persistence of sessions and their transcripts.
pub struct SessionStore {
    pub sessions: Vec<Session>,
    pub next_id: u64,
}

impl SessionStore {
    /// The store's invariant: ids are unique and below the id counter,
    /// and at most one session is active.
    pub open spec fn wf(&self) -> bool {
        &&& forall|i: int|
            0 <= i < self.sessions@.len() ==> (#[trigger] self.sessions@[i]).id < self.next_id
        &&& forall|i: int, j: int|
            0 <= i < j < self.sessions@.len() ==> (#[trigger] self.sessions@[i]).id != (
            #[trigger] self.sessions@[j]).id
        &&& forall|i: int, j: int|
            0 <= i < j < self.sessions@.len() ==> !((#[trigger] self.sessions@[i]).active && (
            #[trigger] self.sessions@[j]).active)
    }

    /// An empty store.
    pub fn new() -> (r: SessionStore)
        ensures
            r.wf(),
            r.sessions@.len() == 0,
            r.next_id == 0,
    {
        SessionStore { sessions: Vec::new(), next_id: 0 }
    }

    /// Index of the session with the given id, if it exists.
    fn find_session_index(&self, session_id: u64) -> (r: Option<usize>)
        ensures
            match r {
                Some(k) => k < self.sessions@.len() && session_index(self.sessions@, session_id)
                    == Some(k as int),
                None => session_index(self.sessions@, session_id) is None,
            },
    {
        let n = self.sessions.len();
        let mut i: usize = 0;
        while i < n
            invariant
                i <= n,
                n == self.sessions@.len(),
                session_index(self.sessions@, session_id) == first_where(
                    self.sessions@,
                    session_pred(session_id),
                    i as int,
                ),
            decreases n - i,
        {
            if self.sessions[i].id == session_id {
                assert(first_where(self.sessions@, session_pred(session_id), i as int) == Some(
                    i as int,
                ));
                return Some(i);
            }
            assert(first_where(self.sessions@, session_pred(session_id), i as int) == first_where(
                self.sessions@,
                session_pred(session_id),
                i as int + 1,
            ));
            i += 1;
        }
        assert(first_where(self.sessions@, session_pred(session_id), n as int) is None);
        None
    }

    /// Create a session: it takes the next id, becomes the one active
    /// session (every other session is deactivated), and starts with an
    /// empty transcript and no analysis.
    pub fn create_session(&mut self, title: String, now: u64) -> (id: u64)
        requires
            old(self).wf(),
            old(self).next_id < u64::MAX,
        ensures
            final(self).wf(),
            id == old(self).next_id,
            final(self).next_id == old(self).next_id + 1,
            final(self).sessions@.len() == old(self).sessions@.len() + 1,
            forall|j: int|
                0 <= j < old(self).sessions@.len() ==> final(self).sessions@[j] == (Session {
                    active: false,
                    ..old(self).sessions@[j]
                }),
            ({
                let s = final(self).sessions@.last();
                &&& s.id == id
                &&& s.title == title
                &&& s.messages@.len() == 0
                &&& s.excerpts@.len() == 0
                &&& s.analysis_status == AnalysisStatus::NotAnalyzed
                &&& s.active
                &&& s.created_at == now
                &&& s.updated_at == now
                &&& s.completed_at is None
            }),
    {
        let n = self.sessions.len();
        let mut i: usize = 0;
        while i < n
            invariant
                i <= n,
                n == self.sessions@.len(),
                forall|j: int|
                    0 <= j < i ==> self.sessions@[j] == (Session {
                        active: false,
                        ..old(self).sessions@[j]
                    }),
                forall|j: int|
                    i <= j < n ==> self.sessions@[j] == old(self).sessions@[j],
                self.next_id == old(self).next_id,
            decreases n - i,
        {
            self.sessions[i].active = false;
            i += 1;
        }
        let id = self.next_id;
        self.next_id = id + 1;
        self.sessions.push(
            Session {
                id,
                title,
                messages: Vec::new(),
                excerpts: Vec::new(),
                analysis_status: AnalysisStatus::NotAnalyzed,
                active: true,
                created_at: now,
                updated_at: now,
                completed_at: None,
            },
        );
        id
    }

    /// Make the session of the given id the one active session; every
    /// other session is deactivated whether or not the id exists.
    pub fn set_active_session(&mut self, session_id: u64)
        requires
            old(self).wf(),
        ensures
            final(self).wf(),
            final(self).next_id == old(self).next_id,
            final(self).sessions@.len() == old(self).sessions@.len(),
            forall|j: int|
                0 <= j < old(self).sessions@.len() ==> final(self).sessions@[j] == (Session {
                    active: old(self).sessions@[j].id == session_id,
                    ..old(self).sessions@[j]
                }),
    {
        let n = self.sessions.len();
        let mut i: usize = 0;
        while i < n
            invariant
                i <= n,
                n == self.sessions@.len(),
                forall|j: int|
                    0 <= j < i ==> self.sessions@[j] == (Session {
                        active: old(self).sessions@[j].id == session_id,
                        ..old(self).sessions@[j]
                    }),
                forall|j: int|
                    i <= j < n ==> self.sessions@[j] == old(self).sessions@[j],
                self.next_id == old(self).next_id,
            decreases n - i,
        {
            let make_active = self.sessions[i].id == session_id;
            self.sessions[i].active = make_active;
            i += 1;
        }
    }

    /// Append a message to a session's transcript.  Returns whether the
    /// session exists; an unknown id changes nothing.
    pub fn add_message(&mut self, session_id: u64, role: Role, content: String, now: u64) -> (r:
        bool)
        requires
            old(self).wf(),
        ensures
            final(self).wf(),
            final(self).next_id == old(self).next_id,
            match session_index(old(self).sessions@, session_id) {
                Some(k) => {
                    &&& r
                    &&& final(self).sessions@.len() == old(self).sessions@.len()
                    &&& forall|j: int|
                        0 <= j < old(self).sessions@.len() && j != k ==> final(self).sessions@[j]
                            == old(self).sessions@[j]
                    &&& ({
                        let s0 = old(self).sessions@[k];
                        let s1 = final(self).sessions@[k];
                        &&& s1.messages@ == s0.messages@.push(
                            ChatMessage { role, content, created_at: now },
                        )
                        &&& s1.updated_at == now
                        &&& s1.id == s0.id
                        &&& s1.title == s0.title
                        &&& s1.excerpts == s0.excerpts
                        &&& s1.analysis_status == s0.analysis_status
                        &&& s1.active == s0.active
                        &&& s1.created_at == s0.created_at
                        &&& s1.completed_at == s0.completed_at
                    })
                },
                None => !r && *final(self) == *old(self),
            },
    {
        match self.find_session_index(session_id) {
            Some(k) => {
                self.sessions[k].messages.push(
                    ChatMessage { role, content, created_at: now },
                );
                self.sessions[k].updated_at = now;
                true
            },
            None => false,
        }
    }

    /// Append a highlighted excerpt to a session.  Returns whether the
    /// session exists; an unknown id changes nothing.
    pub fn add_excerpt(
        &mut self,
        session_id: u64,
        document_title: String,
        page_number: u32,
        selected_text: String,
        now: u64,
    ) -> (r: bool)
        requires
            old(self).wf(),
        ensures
            final(self).wf(),
            final(self).next_id == old(self).next_id,
            match session_index(old(self).sessions@, session_id) {
                Some(k) => {
                    &&& r
                    &&& final(self).sessions@.len() == old(self).sessions@.len()
                    &&& forall|j: int|
                        0 <= j < old(self).sessions@.len() && j != k ==> final(self).sessions@[j]
                            == old(self).sessions@[j]
                    &&& ({
                        let s0 = old(self).sessions@[k];
                        let s1 = final(self).sessions@[k];
                        &&& s1.excerpts@ == s0.excerpts@.push(
                            HighlightedExcerpt {
                                document_title,
                                page_number,
                                selected_text,
                                created_at: now,
                            },
                        )
                        &&& s1.updated_at == now
                        &&& s1.id == s0.id
                        &&& s1.title == s0.title
                        &&& s1.messages == s0.messages
                        &&& s1.analysis_status == s0.analysis_status
                        &&& s1.active == s0.active
                        &&& s1.created_at == s0.created_at
                        &&& s1.completed_at == s0.completed_at
                    })
                },
                None => !r && *final(self) == *old(self),
            },
    {
        match self.find_session_index(session_id) {
            Some(k) => {
                self.sessions[k].excerpts.push(
                    HighlightedExcerpt {
                        document_title,
                        page_number,
                        selected_text,
                        created_at: now,
                    },
                );
                self.sessions[k].updated_at = now;
                true
            },
            None => false,
        }
    }

    /// Move a session's analysis status.  Returns whether the session
    /// exists; an unknown id changes nothing.
    pub fn set_analysis_status(&mut self, session_id: u64, status: AnalysisStatus, now: u64) -> (r:
        bool)
        requires
            old(self).wf(),
        ensures
            final(self).wf(),
            final(self).next_id == old(self).next_id,
            match session_index(old(self).sessions@, session_id) {
                Some(k) => r && final(self).sessions@ == old(self).sessions@.update(
                    k,
                    with_status(old(self).sessions@[k], status, now),
                ),
                None => !r && *final(self) == *old(self),
            },
    {
        match self.find_session_index(session_id) {
            Some(k) => {
                self.sessions[k].analysis_status = status;
                self.sessions[k].updated_at = now;
                proof {
                    assert(self.sessions@ =~= old(self).sessions@.update(
                        k as int,
                        with_status(old(self).sessions@[k as int], status, now),
                    ));
                }
                true
            },
            None => false,
        }
    }

    /// End a session: it becomes inactive and its completion time is
    /// stamped.  Returns whether the session exists; an unknown id
    /// changes nothing.
    pub fn end_session(&mut self, session_id: u64, now: u64) -> (r: bool)
        requires
            old(self).wf(),
        ensures
            final(self).wf(),
            final(self).next_id == old(self).next_id,
            match session_index(old(self).sessions@, session_id) {
                Some(k) => r && final(self).sessions@ == old(self).sessions@.update(
                    k,
                    ended(old(self).sessions@[k], now),
                ),
                None => !r && *final(self) == *old(self),
            },
    {
        match self.find_session_index(session_id) {
            Some(k) => {
                self.sessions[k].active = false;
                self.sessions[k].completed_at = Some(now);
                self.sessions[k].updated_at = now;
                proof {
                    assert(self.sessions@ =~= old(self).sessions@.update(
                        k as int,
                        ended(old(self).sessions@[k as int], now),
                    ));
                }
                true
            },
            None => false,
        }
    }

    /// Rename a session.  Returns whether the session exists; an unknown
    /// id changes nothing.
    pub fn update_title(&mut self, session_id: u64, title: String, now: u64) -> (r: bool)
        requires
            old(self).wf(),
        ensures
            final(self).wf(),
            final(self).next_id == old(self).next_id,
            match session_index(old(self).sessions@, session_id) {
                Some(k) => r && final(self).sessions@ == old(self).sessions@.update(
                    k,
                    (Session { title, updated_at: now, ..old(self).sessions@[k] }),
                ),
                None => !r && *final(self) == *old(self),
            },
    {
        match self.find_session_index(session_id) {
            Some(k) => {
                let ghost title0 = title;
                self.sessions[k].title = title;
                self.sessions[k].updated_at = now;
                proof {
                    assert(self.sessions@ =~= old(self).sessions@.update(
                        k as int,
                        (Session { title: title0, updated_at: now, ..old(self).sessions@[k as int] }),
                    ));
                }
                true
            },
            None => false,
        }
    }

    /// Empty a session's transcript, keeping the session itself.
    /// Returns whether the session exists; an unknown id changes nothing.
    pub fn clear_session(&mut self, session_id: u64, now: u64) -> (r: bool)
        requires
            old(self).wf(),
        ensures
            final(self).wf(),
            final(self).next_id == old(self).next_id,
            match session_index(old(self).sessions@, session_id) {
                Some(k) => {
                    &&& r
                    &&& final(self).sessions@.len() == old(self).sessions@.len()
                    &&& forall|j: int|
                        0 <= j < old(self).sessions@.len() && j != k ==> final(self).sessions@[j]
                            == old(self).sessions@[j]
                    &&& ({
                        let s0 = old(self).sessions@[k];
                        let s1 = final(self).sessions@[k];
                        &&& s1.messages@.len() == 0
                        &&& s1.excerpts@.len() == 0
                        &&& s1.updated_at == now
                        &&& s1.id == s0.id
                        &&& s1.title == s0.title
                        &&& s1.analysis_status == s0.analysis_status
                        &&& s1.active == s0.active
                        &&& s1.created_at == s0.created_at
                        &&& s1.completed_at == s0.completed_at
                    })
                },
                None => !r && *final(self) == *old(self),
            },
    {
        match self.find_session_index(session_id) {
            Some(k) => {
                self.sessions[k].messages = Vec::new();
                self.sessions[k].excerpts = Vec::new();
                self.sessions[k].updated_at = now;
                true
            },
            None => false,
        }
    }

    /// Delete a session outright.  Returns whether the session existed.
    pub fn delete_session(&mut self, session_id: u64) -> (r: bool)
        requires
            old(self).wf(),
        ensures
            final(self).wf(),
            final(self).next_id == old(self).next_id,
            match session_index(old(self).sessions@, session_id) {
                Some(k) => r && final(self).sessions@ == old(self).sessions@.remove(k),
                None => !r && *final(self) == *old(self),
            },
    {
        match self.find_session_index(session_id) {
            Some(k) => {
                self.sessions.remove(k);
                proof {
                    old(self).sessions@.remove_ensures(k as int);
                }
                true
            },
            None => false,
        }
    }

    /// The session of the given id, if it exists.
    pub fn get_session(&self, session_id: u64) -> (r: Option<&Session>)
        ensures
            match session_index(self.sessions@, session_id) {
                Some(k) => r == Some(&self.sessions@[k]),
                None => r is None,
            },
    {
        match self.find_session_index(session_id) {
            Some(k) => Some(&self.sessions[k]),
            None => None,
        }
    }

    /// The active session, if any.  By the store's invariant there is at
    /// most one.
    pub fn active_session(&self) -> (r: Option<&Session>)
        requires
            self.wf(),
        ensures
            match r {
                Some(s) => s.active && self.sessions@.contains(*s),
                None => forall|i: int|
                    0 <= i < self.sessions@.len() ==> !(#[trigger] self.sessions@[i]).active,
            },
    {
        let n = self.sessions.len();
        let mut i: usize = 0;
        while i < n
            invariant
                i <= n,
                n == self.sessions@.len(),
                forall|j: int| 0 <= j < i ==> !(#[trigger] self.sessions@[j]).active,
            decreases n - i,
        {
            if self.sessions[i].active {
                return Some(&self.sessions[i]);
            }
            i += 1;
        }
        None
    }

    /// The ids of the inactive sessions (the conversation history), in
    /// store order.
    pub fn inactive_session_ids(&self) -> (r: Vec<u64>)
        ensures
            r@ == seq_filter(self.sessions@, inactive_pred()).map_values(session_id_of()),
    {
        let n = self.sessions.len();
        let mut out: Vec<u64> = Vec::new();
        let mut i: usize = 0;
        while i < n
            invariant
                i <= n,
                n == self.sessions@.len(),
                out@ == seq_filter(self.sessions@.take(i as int), inactive_pred()).map_values(
                    session_id_of(),
                ),
            decreases n - i,
        {
            proof {
                crate::ranking::lemma_seq_filter_push(
                    self.sessions@.take(i as int),
                    inactive_pred(),
                    self.sessions@[i as int],
                );
                assert(self.sessions@.take(i as int + 1) =~= self.sessions@.take(i as int).push(
                    self.sessions@[i as int],
                ));
                if inactive_pred()(self.sessions@[i as int]) {
                    assert(seq_filter(self.sessions@.take(i as int + 1), inactive_pred())
                        .map_values(session_id_of()) =~= seq_filter(
                        self.sessions@.take(i as int),
                        inactive_pred(),
                    ).map_values(session_id_of()).push(
                        session_id_of()(self.sessions@[i as int]),
                    ));
                }
            }
            if !self.sessions[i].active {
                let id = self.sessions[i].id;
                out.push(id);
            }
            i += 1;
        }
        proof {
            assert(self.sessions@.take(n as int) =~= self.sessions@);
        }
        out
    }

    /// The read-only snapshot handed to the extraction service: the
    /// session's transcript and excerpts at the moment analysis starts.
    pub fn get_for_analysis(&self, session_id: u64) -> (r: Option<TranscriptSnapshot>)
        ensures
            match session_index(self.sessions@, session_id) {
                Some(k) => {
                    let s = self.sessions@[k];
                    r matches Some(snap) && snap.session_id == session_id && snap.title == s.title
                        && snap.messages@ == s.messages@ && snap.excerpts@ == s.excerpts@
                },
                None => r is None,
            },
    {
        match self.find_session_index(session_id) {
            Some(k) => {
                let s = &self.sessions[k];
                Some(
                    TranscriptSnapshot {
                        session_id,
                        title: s.title.clone(),
                        messages: clone_messages(&s.messages),
                        excerpts: clone_excerpts(&s.excerpts),
                    },
                )
            },
            None => None,
        }
    }
}

/// A field-for-field copy of a transcript's messages.
fn clone_messages(v: &Vec<ChatMessage>) -> (r: Vec<ChatMessage>)
    ensures
        r@ == v@,
{
    let n = v.len();
    let mut out: Vec<ChatMessage> = Vec::new();
    let mut i: usize = 0;
    while i < n
        invariant
            i <= n,
            n == v@.len(),
            out@ == v@.take(i as int),
        decreases n - i,
    {
        let m = &v[i];
        out.push(ChatMessage { role: m.role, content: m.content.clone(), created_at: m.created_at });
        proof {
            assert(v@.take(i as int + 1) =~= v@.take(i as int).push(v@[i as int]));
        }
        i += 1;
    }
    proof {
        assert(v@.take(n as int) =~= v@);
    }
    out
}

/// A field-for-field copy of a session's excerpts.
fn clone_excerpts(v: &Vec<HighlightedExcerpt>) -> (r: Vec<HighlightedExcerpt>)
    ensures
        r@ == v@,
{
    let n = v.len();
    let mut out: Vec<HighlightedExcerpt> = Vec::new();
    let mut i: usize = 0;
    while i < n
        invariant
            i <= n,
            n == v@.len(),
            out@ == v@.take(i as int),
        decreases n - i,
    {
        let e = &v[i];
        out.push(
            HighlightedExcerpt {
                document_title: e.document_title.clone(),
                page_number: e.page_number,
                selected_text: e.selected_text.clone(),
                created_at: e.created_at,
            },
        );
        proof {
            assert(v@.take(i as int + 1) =~= v@.take(i as int).push(v@[i as int]));
        }
        i += 1;
    }
    proof {
        assert(v@.take(n as int) =~= v@);
    }
    out
}

} // verus!
