//! Query shaping: similarity search, text search and the shared ranking.

use genius_reads::concept_store::ConceptStore;
use genius_reads::ranking::{rank_top, ScoredId};

fn scored(id: u64, score: u32) -> ScoredId {
    ScoredId { id, score }
}

fn population() -> (ConceptStore, u64, u64, u64, u64) {
    let mut store = ConceptStore::new();
    let q = store.insert("Query".to_string(), "q".to_string(), vec![], Some(vec![1]), 0, 0);
    let a = store.insert("Alpha".to_string(), "about vectors".to_string(), vec![], Some(vec![2]), 900_000, 0);
    let b = store.insert("Beta".to_string(), "about spaces".to_string(), vec![], Some(vec![3]), 200_000, 0);
    let c = store.insert("Gamma".to_string(), "no embedding yet".to_string(), vec![], None, 950_000, 0);
    (store, q, a, b, c)
}

#[test]
fn similarity_search_orders_and_filters() {
    let (store, q, a, b, c) = population();
    let pool = vec![
        scored(q, 1_000_000), // the query concept itself: excluded
        scored(a, 700_000),
        scored(b, 910_000),
        scored(c, 990_000),  // no embedding: excluded until backfilled
        scored(b, 120_000),  // below the threshold
        scored(77, 800_000), // unknown id
    ];
    let r = store.similarity_search(&pool, 500_000, 10, q);
    assert_eq!(r, vec![scored(b, 910_000), scored(a, 700_000)]);

    // The threshold is inclusive: a row scoring exactly the threshold
    // stays in.
    let boundary = store.similarity_search(&vec![scored(a, 500_000)], 500_000, 10, q);
    assert_eq!(boundary, vec![scored(a, 500_000)]);

    // Scores are monotonically non-increasing and all at or above the
    // requested threshold.
    for w in r.windows(2) {
        assert!(w[0].score >= w[1].score);
    }
    for p in &r {
        assert!(p.score >= 500_000);
        assert_ne!(p.id, q);
    }
}

#[test]
fn similarity_search_honors_the_limit() {
    let (store, q, a, b, _) = population();
    let pool = vec![scored(a, 700_000), scored(b, 910_000)];
    let r = store.similarity_search(&pool, 0, 1, q);
    assert_eq!(r, vec![scored(b, 910_000)]);
    let r = store.similarity_search(&pool, 0, 0, q);
    assert!(r.is_empty());
}

#[test]
fn text_search_matches_name_or_description_up_to_case() {
    let (store, q, a, b, c) = population();
    // "ABOUT" occurs in the descriptions of Alpha and Beta; ranked by
    // confidence, descending.
    let r = store.text_search("ABOUT", 10);
    assert_eq!(r, vec![scored(a, 900_000), scored(b, 200_000)]);

    // A name match works the same way.
    let r = store.text_search("gamma", 10);
    assert_eq!(r, vec![scored(c, 950_000)]);

    // The empty query matches everything; the limit cuts the tail.
    let r = store.text_search("", 2);
    assert_eq!(r.len(), 2);
    assert_eq!(r[0], scored(c, 950_000));
    assert_eq!(r[1], scored(a, 900_000));

    assert!(store.text_search("no such text", 10).is_empty());
    let _ = q;
}

#[test]
fn listings_are_ranked_by_score() {
    let mut store = ConceptStore::new();
    let a = store.insert("A".to_string(), "d".to_string(), vec![], None, 0, 0);
    let b = store.insert("B".to_string(), "d".to_string(), vec![], None, 0, 0);
    store.link_to_session(a, 1, 300_000, 0);
    store.link_to_session(b, 1, 800_000, 0);
    store.link_to_session(a, 2, 500_000, 0);

    assert_eq!(
        store.concepts_for_session(1),
        vec![scored(b, 800_000), scored(a, 300_000)]
    );
    assert_eq!(
        store.sessions_for_concept(a),
        vec![scored(2, 500_000), scored(1, 300_000)]
    );

    store.upsert_relationship(a, b, genius_reads::types::RelationKind::Related, 600_000, 0);
    assert_eq!(store.related_concepts(a), vec![scored(b, 600_000)]);
    assert!(store.related_concepts(b).is_empty());
}

#[test]
fn recency_listing_orders_by_update_stamp() {
    let mut store = ConceptStore::new();
    let a = store.insert("Old".to_string(), "d".to_string(), vec![], None, 0, 10);
    let b = store.insert("New".to_string(), "d".to_string(), vec![], None, 0, 30);
    let c = store.insert("Mid".to_string(), "d".to_string(), vec![], None, 0, 20);
    // Reinforcing bumps a concept back to the top of the listing.
    store.reinforce(a, 40);

    let listing = store.concepts_by_recency();
    let ids: Vec<u64> = listing.iter().map(|row| row.id).collect();
    assert_eq!(ids, vec![a, b, c]);
    assert_eq!(listing[0].stamp, 40);
}

#[test]
fn rank_top_sorts_descending_and_cuts() {
    let pool = vec![scored(1, 5), scored(2, 9), scored(3, 7), scored(4, 9)];
    let all = rank_top(pool.clone(), 10);
    assert_eq!(all.len(), 4);
    for w in all.windows(2) {
        assert!(w[0].score >= w[1].score);
    }
    assert_eq!(all[0].score, 9);
    assert_eq!(all[1].score, 9);
    assert_eq!(all[2], scored(3, 7));
    assert_eq!(all[3], scored(1, 5));

    let top = rank_top(pool, 2);
    assert_eq!(top.len(), 2);
    assert_eq!(top[0].score, 9);
    assert_eq!(top[1].score, 9);

    assert!(rank_top(Vec::new(), 3).is_empty());
}
