//! The concept store: concepts, their session links, and their pairwise
//! relationship edges.
//!
//! The store owns identity assignment (a concept's id is its insertion
//! rank; concepts are never deleted) and uniqueness enforcement: at most
//! one link per (concept, session) pair and at most one edge per
//! (source, target) pair — an upsert of an existing edge is a no-op, not a
//! duplicate row.

use vstd::prelude::*;

use crate::ranking::{
    is_top_of, lemma_seq_filter_elems, lemma_seq_filter_push, min_int, rank_by_stamp, rank_top,
    seq_filter, sorted_desc, stamps_desc, ScoredId, StampedId,
};
use crate::text::{name_eq, text_contains};
use crate::types::{
    Concept, ConceptRelationship, ConceptSessionLink, RelationKind, valid_score,
};

verus! {

/// First index at or after `i` whose element satisfies `pred`.
pub open spec fn first_where<T>(s: Seq<T>, pred: spec_fn(T) -> bool, i: int) -> Option<int>
    decreases s.len() - i,
{
    if i < 0 || i >= s.len() {
        None
    } else if pred(s[i]) {
        Some(i)
    } else {
        first_where(s, pred, i + 1)
    }
}

/// What `first_where` returns: the first matching index, if any.
pub proof fn lemma_first_where<T>(s: Seq<T>, pred: spec_fn(T) -> bool, i: int)
    requires
        0 <= i <= s.len(),
    ensures
        match first_where(s, pred, i) {
            Some(j) => i <= j < s.len() && pred(s[j]) && forall|k: int| i <= k < j ==> !pred(s[k]),
            None => forall|k: int| i <= k < s.len() ==> !pred(s[k]),
        },
    decreases s.len() - i,
{
    if i < s.len() && !pred(s[i]) {
        lemma_first_where(s, pred, i + 1);
    }
}

/// A matching index with nothing matching before it is what `first_where`
/// returns.
pub proof fn lemma_first_where_is<T>(s: Seq<T>, pred: spec_fn(T) -> bool, i: int, k: int)
    requires
        0 <= i <= k < s.len(),
        pred(s[k]),
        forall|j: int| i <= j < k ==> !pred(s[j]),
    ensures
        first_where(s, pred, i) == Some(k),
    decreases k - i,
{
    if i < k {
        lemma_first_where_is(s, pred, i + 1, k);
    }
}

/// When nothing matches, `first_where` finds nothing.
pub proof fn lemma_first_where_none<T>(s: Seq<T>, pred: spec_fn(T) -> bool)
    requires
        forall|j: int| 0 <= j < s.len() ==> !pred(s[j]),
    ensures
        first_where(s, pred, 0) is None,
{
    lemma_first_where(s, pred, 0);
    match first_where(s, pred, 0) {
        Some(k) => {
            assert(pred(s[k]));
        },
        None => {},
    }
}

/// Two rows of matching predicate values are searched the same way.
pub proof fn lemma_first_where_pointwise<T>(s1: Seq<T>, s2: Seq<T>, pred: spec_fn(T) -> bool)
    requires
        s1.len() == s2.len(),
        forall|i: int| 0 <= i < s1.len() ==> (pred(s1[i]) <==> pred(#[trigger] s2[i])),
    ensures
        first_where(s1, pred, 0) == first_where(s2, pred, 0),
{
    lemma_first_where(s1, pred, 0);
    match first_where(s1, pred, 0) {
        Some(k) => {
            lemma_first_where_is(s2, pred, 0, k);
        },
        None => {
            lemma_first_where_none(s2, pred);
        },
    }
}

/// The predicate of the duplicate test: the concept's name matches `name`
/// case-insensitively.
pub open spec fn named_pred(name: Seq<char>) -> spec_fn(Concept) -> bool {
    |c: Concept| name_eq(c.name@, name)
}

/// The predicate of a link lookup by its (concept, session) key.
pub open spec fn link_pred(concept_id: u64, session_id: u64) -> spec_fn(ConceptSessionLink) -> bool {
    |l: ConceptSessionLink| l.concept_id == concept_id && l.session_id == session_id
}

/// The predicate of an edge lookup by its (source, target) key.
pub open spec fn rel_pred(source_id: u64, target_id: u64) -> spec_fn(ConceptRelationship) -> bool {
    |r: ConceptRelationship| r.source_concept_id == source_id && r.target_concept_id == target_id
}

/// The duplicate test of the matcher: index of the first concept whose
/// name matches `name` case-insensitively.
pub open spec fn first_named(s: Seq<Concept>, name: Seq<char>) -> Option<int> {
    first_where(s, named_pred(name), 0)
}

/// Index of the link of a (concept, session) pair, if one exists.
pub open spec fn link_index(links: Seq<ConceptSessionLink>, concept_id: u64, session_id: u64) -> Option<int> {
    first_where(links, link_pred(concept_id, session_id), 0)
}

/// Index of the edge of a (source, target) pair, if one exists.
pub open spec fn rel_index(rels: Seq<ConceptRelationship>, source_id: u64, target_id: u64) -> Option<int> {
    first_where(rels, rel_pred(source_id, target_id), 0)
}

/// A session-count increment that stops at the type's ceiling instead of
/// wrapping.
pub open spec fn bump_count(n: u64) -> u64 {
    if n < u64::MAX {
        (n + 1) as u64
    } else {
        n
    }
}

/// The merged form of a concept after one more session occurrence.
pub open spec fn reinforced(c: Concept, now: u64) -> Concept {
    Concept { source_chat_count: bump_count(c.source_chat_count), updated_at: now, ..c }
}

/// The link rows after an upsert: an existing pair keeps its row and takes
/// the new relevance; a new pair is appended.
pub open spec fn upsert_link_seq(
    links: Seq<ConceptSessionLink>,
    concept_id: u64,
    session_id: u64,
    relevance_score: u32,
    now: u64,
) -> Seq<ConceptSessionLink> {
    match link_index(links, concept_id, session_id) {
        Some(k) => links.update(k, ConceptSessionLink { relevance_score, ..links[k] }),
        None => links.push(
            ConceptSessionLink { concept_id, session_id, relevance_score, created_at: now },
        ),
    }
}

/// The edge rows after an upsert: a repeat (source, target) pair is a
/// no-op; a new pair is appended.
pub open spec fn upsert_rel_seq(
    rels: Seq<ConceptRelationship>,
    source_id: u64,
    target_id: u64,
    kind: RelationKind,
    similarity_score: u32,
    now: u64,
) -> Seq<ConceptRelationship> {
    match rel_index(rels, source_id, target_id) {
        Some(_) => rels,
        None => rels.push(
            ConceptRelationship {
                source_concept_id: source_id,
                target_concept_id: target_id,
                relationship_type: kind,
                similarity_score,
                created_at: now,
            },
        ),
    }
}

/// One row of the similarity-search pool qualifies when it names an
/// existing concept other than the query concept, that concept has an
/// embedding, and its score reaches the threshold.
pub open spec fn sim_qualifies(
    concepts: Seq<Concept>,
    threshold: u32,
    exclude_id: u64,
    p: ScoredId,
) -> bool {
    &&& p.id < concepts.len()
    &&& p.id != exclude_id
    &&& concepts[p.id as int].embedding is Some
    &&& p.score >= threshold
}

/// `sim_qualifies` as a row predicate.
pub open spec fn sim_pred(concepts: Seq<Concept>, threshold: u32, exclude_id: u64) -> spec_fn(
    ScoredId,
) -> bool {
    |p: ScoredId| sim_qualifies(concepts, threshold, exclude_id, p)
}

/// A concept matches a text query when its name or its description
/// contains the query up to case.
pub open spec fn text_matches(c: Concept, query: Seq<char>) -> bool {
    text_contains(c.name@, query) || text_contains(c.description@, query)
}

/// `text_matches` as a row predicate.
pub open spec fn text_pred(query: Seq<char>) -> spec_fn(Concept) -> bool {
    |c: Concept| text_matches(c, query)
}

/// A concept as a text-search result row, ranked by its confidence.
pub open spec fn concept_scored() -> spec_fn(Concept) -> ScoredId {
    |c: Concept| ScoredId { id: c.id, score: c.confidence_score }
}

/// The predicate of a session's links.
pub open spec fn session_link_pred(session_id: u64) -> spec_fn(ConceptSessionLink) -> bool {
    |l: ConceptSessionLink| l.session_id == session_id
}

/// The predicate of a concept's links.
pub open spec fn concept_link_pred(concept_id: u64) -> spec_fn(ConceptSessionLink) -> bool {
    |l: ConceptSessionLink| l.concept_id == concept_id
}

/// A link as a concept row, ranked by its relevance.
pub open spec fn link_concept_row() -> spec_fn(ConceptSessionLink) -> ScoredId {
    |l: ConceptSessionLink| ScoredId { id: l.concept_id, score: l.relevance_score }
}

/// A link as a session row, ranked by its relevance.
pub open spec fn link_session_row() -> spec_fn(ConceptSessionLink) -> ScoredId {
    |l: ConceptSessionLink| ScoredId { id: l.session_id, score: l.relevance_score }
}

/// The predicate of the edges going out of a concept.
pub open spec fn source_pred(concept_id: u64) -> spec_fn(ConceptRelationship) -> bool {
    |r: ConceptRelationship| r.source_concept_id == concept_id
}

/// An edge as a related-concept row, ranked by its similarity.
pub open spec fn rel_target_row() -> spec_fn(ConceptRelationship) -> ScoredId {
    |r: ConceptRelationship| ScoredId { id: r.target_concept_id, score: r.similarity_score }
}

/// A concept as a listing row, ordered by its update stamp.
pub open spec fn recency_row() -> spec_fn(Concept) -> StampedId {
    |c: Concept| StampedId { id: c.id, stamp: c.updated_at }
}

/// The concept rows of one session's links.
pub open spec fn session_rows(links: Seq<ConceptSessionLink>, session_id: u64) -> Seq<ScoredId> {
    seq_filter(links, session_link_pred(session_id)).map_values(link_concept_row())
}

/// The session rows of one concept's links.
pub open spec fn concept_rows(links: Seq<ConceptSessionLink>, concept_id: u64) -> Seq<ScoredId> {
    seq_filter(links, concept_link_pred(concept_id)).map_values(link_session_row())
}

/// The related-concept rows of the edges going out of one concept.
pub open spec fn related_rows(rels: Seq<ConceptRelationship>, concept_id: u64) -> Seq<ScoredId> {
    seq_filter(rels, source_pred(concept_id)).map_values(rel_target_row())
}

/// Persistence of concepts, their embeddings, session links and pairwise
/// relationships.
pub struct ConceptStore {
    pub concepts: Vec<Concept>,
    pub links: Vec<ConceptSessionLink>,
    pub relationships: Vec<ConceptRelationship>,
}

/// The store's three tables as one mathematical value; the matcher's and
/// the orchestrator's models are functions over it.
#[verifier::ext_equal]
pub struct StoreView {
    pub concepts: Seq<Concept>,
    pub links: Seq<ConceptSessionLink>,
    pub rels: Seq<ConceptRelationship>,
}

impl View for ConceptStore {
    type V = StoreView;

    open spec fn view(&self) -> StoreView {
        StoreView { concepts: self.concepts@, links: self.links@, rels: self.relationships@ }
    }
}

impl ConceptStore {
    /// The store's invariant: ids are insertion ranks, links and edges
    /// refer to existing concepts, keys are unique, scores are in range.
    pub open spec fn wf(&self) -> bool {
        &&& forall|i: int|
            0 <= i < self.concepts@.len() ==> (#[trigger] self.concepts@[i]).id == i
        &&& forall|i: int|
            0 <= i < self.concepts@.len() ==> valid_score(
                (#[trigger] self.concepts@[i]).confidence_score,
            )
        &&& forall|i: int|
            0 <= i < self.links@.len() ==> (#[trigger] self.links@[i]).concept_id
                < self.concepts@.len() && valid_score(self.links@[i].relevance_score)
        &&& forall|i: int, j: int|
            0 <= i < j < self.links@.len() ==> !((#[trigger] self.links@[i]).concept_id == (
            #[trigger] self.links@[j]).concept_id && self.links@[i].session_id
                == self.links@[j].session_id)
        &&& forall|i: int|
            0 <= i < self.relationships@.len() ==> (#[trigger] self.relationships@[i]).source_concept_id
                < self.concepts@.len() && self.relationships@[i].target_concept_id
                < self.concepts@.len() && valid_score(self.relationships@[i].similarity_score)
        &&& forall|i: int, j: int|
            0 <= i < j < self.relationships@.len() ==> !((
            #[trigger] self.relationships@[i]).source_concept_id == (
            #[trigger] self.relationships@[j]).source_concept_id
                && self.relationships@[i].target_concept_id
                == self.relationships@[j].target_concept_id)
    }

    /// An empty store.
    pub fn new() -> (r: ConceptStore)
        ensures
            r.wf(),
            r.concepts@.len() == 0,
            r.links@.len() == 0,
            r.relationships@.len() == 0,
    {
        ConceptStore { concepts: Vec::new(), links: Vec::new(), relationships: Vec::new() }
    }

    /// Case-insensitive exact-name lookup: the id of the first concept
    /// whose name matches, if any.
    pub fn find_by_name(&self, name: &str) -> (r: Option<u64>)
        requires
            self.wf(),
        ensures
            match r {
                Some(id) => first_named(self.concepts@, name@) == Some(id as int),
                None => first_named(self.concepts@, name@) is None,
            },
    {
        let n = self.concepts.len();
        let mut i: usize = 0;
        while i < n
            invariant
                i <= n,
                n == self.concepts@.len(),
                first_named(self.concepts@, name@) == first_where(
                    self.concepts@,
                    named_pred(name@),
                    i as int,
                ),
            decreases n - i,
        {
            if crate::text::eq_ignore_case(self.concepts[i].name.as_str(), name) {
                assert(first_where(self.concepts@, named_pred(name@), i as int) == Some(i as int));
                return Some(i as u64);
            }
            assert(first_where(self.concepts@, named_pred(name@), i as int) == first_where(
                self.concepts@,
                named_pred(name@),
                i as int + 1,
            ));
            i += 1;
        }
        assert(first_where(self.concepts@, named_pred(name@), n as int) is None);
        None
    }

    /// Insert a new concept; the store assigns the identity.  The new
    /// record starts with one contributing session.
    pub fn insert(
        &mut self,
        name: String,
        description: String,
        tags: Vec<String>,
        embedding: Option<Vec<i64>>,
        confidence_score: u32,
        now: u64,
    ) -> (id: u64)
        requires
            old(self).wf(),
            valid_score(confidence_score),
        ensures
            final(self).wf(),
            id == old(self).concepts@.len(),
            final(self).concepts@ == old(self).concepts@.push(
                Concept {
                    id,
                    name,
                    description,
                    tags,
                    embedding,
                    confidence_score,
                    source_chat_count: 1,
                    created_at: now,
                    updated_at: now,
                },
            ),
            final(self).links@ == old(self).links@,
            final(self).relationships@ == old(self).relationships@,
    {
        let id = self.concepts.len() as u64;
        self.concepts.push(
            Concept {
                id,
                name,
                description,
                tags,
                embedding,
                confidence_score,
                source_chat_count: 1,
                created_at: now,
                updated_at: now,
            },
        );
        id
    }

    /// One more session occurrence reinforces an existing concept: its
    /// source-chat count rises by one (stopping at the ceiling of the
    /// counter type) and its update stamp moves.
    pub fn reinforce(&mut self, concept_id: u64, now: u64)
        requires
            old(self).wf(),
            concept_id < old(self).concepts@.len(),
        ensures
            final(self).wf(),
            final(self).concepts@ == old(self).concepts@.update(
                concept_id as int,
                reinforced(old(self).concepts@[concept_id as int], now),
            ),
            final(self).links@ == old(self).links@,
            final(self).relationships@ == old(self).relationships@,
    {
        let n = self.concepts.len();
        assert(concept_id < n as u64);
        let i = concept_id as usize;
        let count = self.concepts[i].source_chat_count;
        if count < u64::MAX {
            self.concepts[i].source_chat_count = count + 1;
        }
        self.concepts[i].updated_at = now;
        proof {
            assert(self.concepts@ =~= old(self).concepts@.update(
                concept_id as int,
                reinforced(old(self).concepts@[concept_id as int], now),
            ));
        }
    }

    /// Index of the link row of a (concept, session) pair, if one exists.
    fn find_link_index(&self, concept_id: u64, session_id: u64) -> (r: Option<usize>)
        ensures
            match r {
                Some(k) => k < self.links@.len() && link_index(self.links@, concept_id, session_id)
                    == Some(k as int),
                None => link_index(self.links@, concept_id, session_id) is None,
            },
    {
        let n = self.links.len();
        let mut i: usize = 0;
        while i < n
            invariant
                i <= n,
                n == self.links@.len(),
                link_index(self.links@, concept_id, session_id) == first_where(
                    self.links@,
                    link_pred(concept_id, session_id),
                    i as int,
                ),
            decreases n - i,
        {
            if self.links[i].concept_id == concept_id && self.links[i].session_id == session_id {
                assert(first_where(self.links@, link_pred(concept_id, session_id), i as int)
                    == Some(i as int));
                return Some(i);
            }
            assert(first_where(self.links@, link_pred(concept_id, session_id), i as int)
                == first_where(self.links@, link_pred(concept_id, session_id), i as int + 1));
            i += 1;
        }
        assert(first_where(self.links@, link_pred(concept_id, session_id), n as int) is None);
        None
    }

    /// Index of the edge row of a (source, target) pair, if one exists.
    fn find_rel_index(&self, source_id: u64, target_id: u64) -> (r: Option<usize>)
        ensures
            match r {
                Some(k) => k < self.relationships@.len() && rel_index(
                    self.relationships@,
                    source_id,
                    target_id,
                ) == Some(k as int),
                None => rel_index(self.relationships@, source_id, target_id) is None,
            },
    {
        let n = self.relationships.len();
        let mut i: usize = 0;
        while i < n
            invariant
                i <= n,
                n == self.relationships@.len(),
                rel_index(self.relationships@, source_id, target_id) == first_where(
                    self.relationships@,
                    rel_pred(source_id, target_id),
                    i as int,
                ),
            decreases n - i,
        {
            if self.relationships[i].source_concept_id == source_id
                && self.relationships[i].target_concept_id == target_id {
                assert(first_where(self.relationships@, rel_pred(source_id, target_id), i as int)
                    == Some(i as int));
                return Some(i);
            }
            assert(first_where(self.relationships@, rel_pred(source_id, target_id), i as int)
                == first_where(
                    self.relationships@,
                    rel_pred(source_id, target_id),
                    i as int + 1,
                ));
            i += 1;
        }
        assert(first_where(self.relationships@, rel_pred(source_id, target_id), n as int) is None);
        None
    }

    /// Upsert of the (concept, session) link: a new pair gets a row, an
    /// existing pair only takes the new relevance.  Uniqueness of the pair
    /// is preserved either way.
    pub fn link_to_session(
        &mut self,
        concept_id: u64,
        session_id: u64,
        relevance_score: u32,
        now: u64,
    )
        requires
            old(self).wf(),
            concept_id < old(self).concepts@.len(),
            valid_score(relevance_score),
        ensures
            final(self).wf(),
            final(self).links@ == upsert_link_seq(
                old(self).links@,
                concept_id,
                session_id,
                relevance_score,
                now,
            ),
            final(self).concepts@ == old(self).concepts@,
            final(self).relationships@ == old(self).relationships@,
    {
        match self.find_link_index(concept_id, session_id) {
            Some(k) => {
                self.links[k].relevance_score = relevance_score;
                proof {
                    assert(self.links@ =~= upsert_link_seq(
                        old(self).links@,
                        concept_id,
                        session_id,
                        relevance_score,
                        now,
                    ));
                }
            },
            None => {
                proof {
                    lemma_first_where(self.links@, link_pred(concept_id, session_id), 0);
                }
                self.links.push(
                    ConceptSessionLink {
                        concept_id,
                        session_id,
                        relevance_score,
                        created_at: now,
                    },
                );
            },
        }
    }

    /// Idempotent upsert of a directed relationship edge: a repeat
    /// (source, target) pair is a no-op, not a duplicate row.  The matcher
    /// calls it twice, once per direction.
    pub fn upsert_relationship(
        &mut self,
        source_id: u64,
        target_id: u64,
        kind: RelationKind,
        similarity_score: u32,
        now: u64,
    )
        requires
            old(self).wf(),
            source_id < old(self).concepts@.len(),
            target_id < old(self).concepts@.len(),
            valid_score(similarity_score),
        ensures
            final(self).wf(),
            final(self).relationships@ == upsert_rel_seq(
                old(self).relationships@,
                source_id,
                target_id,
                kind,
                similarity_score,
                now,
            ),
            final(self).concepts@ == old(self).concepts@,
            final(self).links@ == old(self).links@,
    {
        match self.find_rel_index(source_id, target_id) {
            Some(_) => {},
            None => {
                proof {
                    lemma_first_where(self.relationships@, rel_pred(source_id, target_id), 0);
                }
                self.relationships.push(
                    ConceptRelationship {
                        source_concept_id: source_id,
                        target_concept_id: target_id,
                        relationship_type: kind,
                        similarity_score,
                        created_at: now,
                    },
                );
            },
        }
    }

    /// The concept of the given id, if it exists.
    pub fn get_concept(&self, concept_id: u64) -> (r: Option<&Concept>)
        requires
            self.wf(),
        ensures
            match r {
                Some(c) => concept_id < self.concepts@.len() && *c == self.concepts@[concept_id as int],
                None => concept_id >= self.concepts@.len(),
            },
    {
        if concept_id < self.concepts.len() as u64 {
            Some(&self.concepts[concept_id as usize])
        } else {
            None
        }
    }

    /// The relevance of the link of a (concept, session) pair, if the
    /// pair is linked.
    pub fn get_link(&self, concept_id: u64, session_id: u64) -> (r: Option<u32>)
        ensures
            match link_index(self.links@, concept_id, session_id) {
                Some(k) => r == Some(self.links@[k].relevance_score),
                None => r is None,
            },
    {
        match self.find_link_index(concept_id, session_id) {
            Some(k) => Some(self.links[k].relevance_score),
            None => None,
        }
    }

    /// Similarity search over the concept population.
    ///
    /// `scores` pairs concept ids with their similarity to the query
    /// embedding, as the vector backend reports them; the store shapes
    /// that pool into the query result: rows of unknown or excluded
    /// concepts, rows of concepts without an embedding and rows under the
    /// threshold are dropped, the rest is ordered by descending score and
    /// cut to `limit` rows.
    pub fn similarity_search(
        &self,
        scores: &Vec<ScoredId>,
        threshold: u32,
        limit: usize,
        exclude_id: u64,
    ) -> (r: Vec<ScoredId>)
        requires
            self.wf(),
        ensures
            sorted_desc(r@),
            forall|i: int|
                0 <= i < r@.len() ==> sim_qualifies(
                    self.concepts@,
                    threshold,
                    exclude_id,
                    #[trigger] r@[i],
                ),
            forall|i: int| 0 <= i < r@.len() ==> scores@.contains(#[trigger] r@[i]),
            r@.len() == min_int(
                limit as int,
                seq_filter(scores@, sim_pred(self.concepts@, threshold, exclude_id)).len() as int,
            ),
            is_top_of(r@, seq_filter(scores@, sim_pred(self.concepts@, threshold, exclude_id))),
    {
        let ghost pred = sim_pred(self.concepts@, threshold, exclude_id);
        let n = scores.len();
        let mut pool: Vec<ScoredId> = Vec::new();
        let mut i: usize = 0;
        while i < n
            invariant
                i <= n,
                n == scores@.len(),
                self.wf(),
                pool@ == seq_filter(scores@.take(i as int), sim_pred(self.concepts@, threshold, exclude_id)),
            decreases n - i,
        {
            let p = scores[i];
            let mut keep = false;
            if p.id < self.concepts.len() as u64 && p.id != exclude_id && p.score >= threshold {
                if self.concepts[p.id as usize].embedding.is_some() {
                    keep = true;
                }
            }
            proof {
                lemma_seq_filter_push(
                    scores@.take(i as int),
                    sim_pred(self.concepts@, threshold, exclude_id),
                    scores@[i as int],
                );
                assert(scores@.take(i as int + 1) =~= scores@.take(i as int).push(
                    scores@[i as int],
                ));
            }
            if keep {
                pool.push(p);
            }
            i += 1;
        }
        proof {
            assert(scores@.take(n as int) =~= scores@);
        }
        let ghost pool_view = pool@;
        let r = rank_top(pool, limit);
        proof {
            lemma_seq_filter_elems(scores@, sim_pred(self.concepts@, threshold, exclude_id));
            assert forall|k: int|
                0 <= k < r@.len() implies sim_qualifies(
                self.concepts@,
                threshold,
                exclude_id,
                #[trigger] r@[k],
            ) && scores@.contains(r@[k]) by {
                assert(pool_view.contains(r@[k]));
                let w = choose|w: int| 0 <= w < pool_view.len() && pool_view[w] == r@[k];
                assert(sim_pred(self.concepts@, threshold, exclude_id)(pool_view[w]));
            }
        }
        r
    }

    /// Fallback text search, used when no query embedding is available: a
    /// concept qualifies when its name or its description contains the
    /// query up to case; rows come back ordered by descending extraction
    /// confidence, cut to `limit`.
    pub fn text_search(&self, query: &str, limit: usize) -> (r: Vec<ScoredId>)
        requires
            self.wf(),
        ensures
            sorted_desc(r@),
            forall|i: int|
                0 <= i < r@.len() ==> {
                    let p = #[trigger] r@[i];
                    &&& p.id < self.concepts@.len()
                    &&& text_matches(self.concepts@[p.id as int], query@)
                    &&& p.score == self.concepts@[p.id as int].confidence_score
                },
            r@.len() == min_int(
                limit as int,
                seq_filter(self.concepts@, text_pred(query@)).len() as int,
            ),
            is_top_of(
                r@,
                seq_filter(self.concepts@, text_pred(query@)).map_values(concept_scored()),
            ),
    {
        let n = self.concepts.len();
        let mut pool: Vec<ScoredId> = Vec::new();
        let mut i: usize = 0;
        while i < n
            invariant
                i <= n,
                n == self.concepts@.len(),
                self.wf(),
                pool@ == seq_filter(self.concepts@.take(i as int), text_pred(query@)).map_values(
                    concept_scored(),
                ),
            decreases n - i,
        {
            let c = &self.concepts[i];
            let keep = crate::text::contains_ignore_case(c.name.as_str(), query)
                || crate::text::contains_ignore_case(c.description.as_str(), query);
            proof {
                lemma_seq_filter_push(
                    self.concepts@.take(i as int),
                    text_pred(query@),
                    self.concepts@[i as int],
                );
                assert(self.concepts@.take(i as int + 1) =~= self.concepts@.take(i as int).push(
                    self.concepts@[i as int],
                ));
                if text_pred(query@)(self.concepts@[i as int]) {
                    assert(seq_filter(self.concepts@.take(i as int + 1), text_pred(query@))
                        .map_values(concept_scored()) =~= seq_filter(
                        self.concepts@.take(i as int),
                        text_pred(query@),
                    ).map_values(concept_scored()).push(
                        concept_scored()(self.concepts@[i as int]),
                    ));
                }
            }
            if keep {
                pool.push(ScoredId { id: c.id, score: c.confidence_score });
            }
            i += 1;
        }
        proof {
            assert(self.concepts@.take(n as int) =~= self.concepts@);
        }
        let ghost pool_view = pool@;
        let r = rank_top(pool, limit);
        proof {
            lemma_seq_filter_elems(self.concepts@, text_pred(query@));
            assert forall|k: int|
                0 <= k < r@.len() implies {
                let p = #[trigger] r@[k];
                &&& p.id < self.concepts@.len()
                &&& text_matches(self.concepts@[p.id as int], query@)
                &&& p.score == self.concepts@[p.id as int].confidence_score
            } by {
                assert(pool_view.contains(r@[k]));
                let w = choose|w: int| 0 <= w < pool_view.len() && pool_view[w] == r@[k];
                let f = seq_filter(self.concepts@, text_pred(query@));
                assert(pool_view[w] == concept_scored()(f[w]));
                assert(text_pred(query@)(f[w]) && self.concepts@.contains(f[w]));
                let c = choose|c: int| 0 <= c < self.concepts@.len() && self.concepts@[c] == f[w];
                assert(self.concepts@[c].id == c);
            }
        }
        r
    }

    /// All concepts linked to a session, ordered by descending relevance.
    pub fn concepts_for_session(&self, session_id: u64) -> (r: Vec<ScoredId>)
        requires
            self.wf(),
        ensures
            sorted_desc(r@),
            r@.to_multiset() == session_rows(self.links@, session_id).to_multiset(),
            r@.len() == session_rows(self.links@, session_id).len(),
    {
        let n = self.links.len();
        let mut pool: Vec<ScoredId> = Vec::new();
        let mut i: usize = 0;
        while i < n
            invariant
                i <= n,
                n == self.links@.len(),
                pool@ == session_rows(self.links@.take(i as int), session_id),
            decreases n - i,
        {
            let l = &self.links[i];
            proof {
                lemma_seq_filter_push(
                    self.links@.take(i as int),
                    session_link_pred(session_id),
                    self.links@[i as int],
                );
                assert(self.links@.take(i as int + 1) =~= self.links@.take(i as int).push(
                    self.links@[i as int],
                ));
                if session_link_pred(session_id)(self.links@[i as int]) {
                    assert(session_rows(self.links@.take(i as int + 1), session_id)
                        =~= session_rows(self.links@.take(i as int), session_id).push(
                        link_concept_row()(self.links@[i as int]),
                    ));
                } else {
                    assert(session_rows(self.links@.take(i as int + 1), session_id)
                        =~= session_rows(self.links@.take(i as int), session_id));
                }
            }
            if l.session_id == session_id {
                pool.push(ScoredId { id: l.concept_id, score: l.relevance_score });
            }
            i += 1;
        }
        proof {
            assert(self.links@.take(n as int) =~= self.links@);
        }
        let limit = pool.len();
        rank_top(pool, limit)
    }

    /// All sessions a concept is linked to, ordered by descending
    /// relevance.
    pub fn sessions_for_concept(&self, concept_id: u64) -> (r: Vec<ScoredId>)
        requires
            self.wf(),
        ensures
            sorted_desc(r@),
            r@.to_multiset() == concept_rows(self.links@, concept_id).to_multiset(),
            r@.len() == concept_rows(self.links@, concept_id).len(),
    {
        let n = self.links.len();
        let mut pool: Vec<ScoredId> = Vec::new();
        let mut i: usize = 0;
        while i < n
            invariant
                i <= n,
                n == self.links@.len(),
                pool@ == concept_rows(self.links@.take(i as int), concept_id),
            decreases n - i,
        {
            let l = &self.links[i];
            proof {
                lemma_seq_filter_push(
                    self.links@.take(i as int),
                    concept_link_pred(concept_id),
                    self.links@[i as int],
                );
                assert(self.links@.take(i as int + 1) =~= self.links@.take(i as int).push(
                    self.links@[i as int],
                ));
                if concept_link_pred(concept_id)(self.links@[i as int]) {
                    assert(concept_rows(self.links@.take(i as int + 1), concept_id)
                        =~= concept_rows(self.links@.take(i as int), concept_id).push(
                        link_session_row()(self.links@[i as int]),
                    ));
                } else {
                    assert(concept_rows(self.links@.take(i as int + 1), concept_id)
                        =~= concept_rows(self.links@.take(i as int), concept_id));
                }
            }
            if l.concept_id == concept_id {
                pool.push(ScoredId { id: l.session_id, score: l.relevance_score });
            }
            i += 1;
        }
        proof {
            assert(self.links@.take(n as int) =~= self.links@);
        }
        let limit = pool.len();
        rank_top(pool, limit)
    }

    /// All concepts related to the given one (edges it is the source of),
    /// ordered by descending similarity.
    pub fn related_concepts(&self, concept_id: u64) -> (r: Vec<ScoredId>)
        requires
            self.wf(),
        ensures
            sorted_desc(r@),
            r@.to_multiset() == related_rows(self.relationships@, concept_id).to_multiset(),
            r@.len() == related_rows(self.relationships@, concept_id).len(),
    {
        let n = self.relationships.len();
        let mut pool: Vec<ScoredId> = Vec::new();
        let mut i: usize = 0;
        while i < n
            invariant
                i <= n,
                n == self.relationships@.len(),
                pool@ == related_rows(self.relationships@.take(i as int), concept_id),
            decreases n - i,
        {
            let e = &self.relationships[i];
            proof {
                lemma_seq_filter_push(
                    self.relationships@.take(i as int),
                    source_pred(concept_id),
                    self.relationships@[i as int],
                );
                assert(self.relationships@.take(i as int + 1) =~= self.relationships@.take(
                    i as int,
                ).push(self.relationships@[i as int]));
                if source_pred(concept_id)(self.relationships@[i as int]) {
                    assert(related_rows(self.relationships@.take(i as int + 1), concept_id)
                        =~= related_rows(self.relationships@.take(i as int), concept_id).push(
                        rel_target_row()(self.relationships@[i as int]),
                    ));
                } else {
                    assert(related_rows(self.relationships@.take(i as int + 1), concept_id)
                        =~= related_rows(self.relationships@.take(i as int), concept_id));
                }
            }
            if e.source_concept_id == concept_id {
                pool.push(ScoredId { id: e.target_concept_id, score: e.similarity_score });
            }
            i += 1;
        }
        proof {
            assert(self.relationships@.take(n as int) =~= self.relationships@);
        }
        let limit = pool.len();
        rank_top(pool, limit)
    }

    /// All concepts, most recently updated first (the browsing order of
    /// the knowledge view).
    pub fn concepts_by_recency(&self) -> (r: Vec<StampedId>)
        requires
            self.wf(),
        ensures
            stamps_desc(r@),
            r@.to_multiset() == self.concepts@.map_values(recency_row()).to_multiset(),
            r@.len() == self.concepts@.len(),
    {
        let n = self.concepts.len();
        let mut pool: Vec<StampedId> = Vec::new();
        let mut i: usize = 0;
        while i < n
            invariant
                i <= n,
                n == self.concepts@.len(),
                pool@ == self.concepts@.take(i as int).map_values(recency_row()),
            decreases n - i,
        {
            let c = &self.concepts[i];
            proof {
                assert(self.concepts@.take(i as int + 1) =~= self.concepts@.take(i as int).push(
                    self.concepts@[i as int],
                ));
                assert(self.concepts@.take(i as int + 1).map_values(recency_row())
                    =~= self.concepts@.take(i as int).map_values(recency_row()).push(
                    recency_row()(self.concepts@[i as int]),
                ));
            }
            pool.push(StampedId { id: c.id, stamp: c.updated_at });
            i += 1;
        }
        proof {
            assert(self.concepts@.take(n as int) =~= self.concepts@);
        }
        rank_by_stamp(pool)
    }

    /// The stored edge of a (source, target) pair, if one exists.
    pub fn get_relationship(&self, source_id: u64, target_id: u64) -> (r: Option<&ConceptRelationship>)
        ensures
            match rel_index(self.relationships@, source_id, target_id) {
                Some(k) => r == Some(&self.relationships@[k]),
                None => r is None,
            },
    {
        match self.find_rel_index(source_id, target_id) {
            Some(k) => Some(&self.relationships[k]),
            None => None,
        }
    }
}

} // verus!
