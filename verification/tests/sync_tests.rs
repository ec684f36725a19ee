use game_chronicle::records::{Cover, Game, Platform, PopularityPrimitive, Website};
use game_chronicle::store::{Store, Table};
use game_chronicle::sync::{
    insert_covers, insert_games, insert_platforms, insert_popularity_primitives, insert_websites,
    import_snapshot, Snapshot, WriteOp,
};

fn game(id: i32, name: &str) -> Game {
    Game {
        id,
        name: name.to_string(),
        cover_id: None,
        website_ids: None,
        similar_games: None,
        category: 0,
        version_parent: None,
        total_rating: None,
        platform_ids: None,
    }
}

fn edge_list(t: &Table<Vec<i32>>, id: i32) -> Vec<i32> {
    for (k, v) in &t.rows {
        if *k == id {
            return v.clone();
        }
    }
    Vec::new()
}

fn row_count(s: &Store) -> usize {
    s.covers.rows.len() + s.websites.rows.len() + s.platforms.rows.len() + s.games.rows.len()
        + s.popularity.rows.len()
}

#[test]
fn scenario_game_with_website_edge() {
    // One game naming one website, processed in entity order: the edge
    // from the game to the website exists afterwards.
    let mut store = Store::new();
    let websites = vec![Website { id: 10, url: "http://x".to_string() }];
    insert_websites(&mut store, &websites);
    let mut g = game(1, "A");
    g.website_ids = Some(vec![10]);
    insert_games(&mut store, &vec![g]);
    assert_eq!(edge_list(&store.game_websites, 1), vec![10]);
    assert_eq!(store.games.rows.len(), 1);
    assert_eq!(store.games.rows[0].0, 1);
    assert_eq!(store.games.rows[0].1.name, "A");
}

#[test]
fn snapshot_idempotent_zero_writes() {
    let mut store = Store::new();
    let mut g = game(1, "A");
    g.cover_id = Some(5);
    g.website_ids = Some(vec![10]);
    g.similar_games = Some(vec![2]);
    let snapshot = Snapshot {
        covers: vec![Cover { id: 5, image_id: "img5".to_string() }],
        websites: vec![Website { id: 10, url: "http://x".to_string() }],
        platforms: vec![Platform { id: 3, name: "PC".to_string(), category: Some(1) }],
        games: vec![g, game(2, "B")],
        popularity_primitives: vec![PopularityPrimitive {
            id: 7,
            game_id: 1,
            popularity_type: 2,
            value: 1065353216,
        }],
    };
    let first = import_snapshot(&mut store, &snapshot);
    assert!(!first.is_empty());
    let count_after_first = row_count(&store);
    let second = import_snapshot(&mut store, &snapshot);
    assert_eq!(second.len(), 0);
    assert_eq!(row_count(&store), count_after_first);
}

#[test]
fn update_only_changed_fields() {
    let mut store = Store::new();
    let covers = vec![Cover { id: 1, image_id: "a".to_string() }];
    let ops = insert_covers(&mut store, &covers);
    assert_eq!(ops.len(), 1);
    assert!(matches!(&ops[0], WriteOp::InsertCover { id: 1, .. }));
    // same record again: no write
    let ops = insert_covers(&mut store, &covers);
    assert_eq!(ops.len(), 0);
    // changed image: exactly one update
    let changed = vec![Cover { id: 1, image_id: "b".to_string() }];
    let ops = insert_covers(&mut store, &changed);
    assert_eq!(ops.len(), 1);
    match &ops[0] {
        WriteOp::UpdateCover { id, image_id } => {
            assert_eq!(*id, 1);
            assert_eq!(image_id, "b");
        }
        other => panic!("unexpected op {:?}", other),
    }
}

#[test]
fn order_independence_within_entity_type() {
    let batch1 = vec![
        Platform { id: 1, name: "PC".to_string(), category: Some(6) },
        Platform { id: 2, name: "Mac".to_string(), category: None },
        Platform { id: 3, name: "Linux".to_string(), category: Some(4) },
    ];
    let batch2 = vec![batch1[2].clone(), batch1[0].clone(), batch1[1].clone()];
    let mut s1 = Store::new();
    insert_platforms(&mut s1, &batch1);
    let mut s2 = Store::new();
    insert_platforms(&mut s2, &batch2);
    let mut rows1: Vec<(i32, String, Option<i32>)> =
        s1.platforms.rows.iter().map(|(k, r)| (*k, r.name.clone(), r.category)).collect();
    let mut rows2: Vec<(i32, String, Option<i32>)> =
        s2.platforms.rows.iter().map(|(k, r)| (*k, r.name.clone(), r.category)).collect();
    rows1.sort();
    rows2.sort();
    assert_eq!(rows1, rows2);
}

#[test]
fn forward_reference_resolved_in_second_pass() {
    // Game A names game B among its similar games; B appears after A in
    // the same batch. The edge (A, B) exists after the pass.
    let mut store = Store::new();
    let mut a = game(1, "A");
    a.similar_games = Some(vec![2]);
    let b = game(2, "B");
    insert_games(&mut store, &vec![a, b]);
    assert_eq!(edge_list(&store.similar_games, 1), vec![2]);
}

#[test]
fn dangling_similar_reference_skipped() {
    let mut store = Store::new();
    let mut a = game(1, "A");
    a.similar_games = Some(vec![2, 99]);
    let b = game(2, "B");
    insert_games(&mut store, &vec![a, b]);
    assert_eq!(edge_list(&store.similar_games, 1), vec![2]);
}

#[test]
fn dangling_popularity_reference_dropped() {
    let mut store = Store::new();
    insert_games(&mut store, &vec![game(1, "A")]);
    let batch = vec![
        PopularityPrimitive { id: 1, game_id: 99, popularity_type: 1, value: 0 },
        PopularityPrimitive { id: 2, game_id: 1, popularity_type: 1, value: 17 },
    ];
    let ops = insert_popularity_primitives(&mut store, &batch);
    // the dangling record is skipped, the batch continues
    assert_eq!(ops.len(), 1);
    assert_eq!(store.popularity.rows.len(), 1);
    assert_eq!(store.popularity.rows[0].0, 2);
    assert_eq!(store.popularity.rows[0].1.game_id, 1);
}

#[test]
fn dangling_cover_stored_as_null() {
    let mut store = Store::new();
    let mut g = game(1, "A");
    g.cover_id = Some(42);
    insert_games(&mut store, &vec![g]);
    assert_eq!(store.games.rows.len(), 1);
    assert_eq!(store.games.rows[0].1.cover_id, None);
}

#[test]
fn known_cover_reference_kept() {
    let mut store = Store::new();
    insert_covers(&mut store, &vec![Cover { id: 42, image_id: "i".to_string() }]);
    let mut g = game(1, "A");
    g.cover_id = Some(42);
    insert_games(&mut store, &vec![g]);
    assert_eq!(store.games.rows[0].1.cover_id, Some(42));
}

#[test]
fn absent_website_list_keeps_edges() {
    let mut store = Store::new();
    insert_websites(&mut store, &vec![Website { id: 10, url: "u".to_string() }]);
    let mut g = game(1, "A");
    g.website_ids = Some(vec![10]);
    insert_games(&mut store, &vec![g]);
    assert_eq!(edge_list(&store.game_websites, 1), vec![10]);
    // a later record without the list leaves the edges alone
    insert_games(&mut store, &vec![game(1, "A")]);
    assert_eq!(edge_list(&store.game_websites, 1), vec![10]);
}

#[test]
fn empty_website_list_clears_edges() {
    let mut store = Store::new();
    insert_websites(&mut store, &vec![Website { id: 10, url: "u".to_string() }]);
    let mut g = game(1, "A");
    g.website_ids = Some(vec![10]);
    insert_games(&mut store, &vec![g]);
    assert_eq!(edge_list(&store.game_websites, 1), vec![10]);
    let mut g2 = game(1, "A");
    g2.website_ids = Some(vec![]);
    insert_games(&mut store, &vec![g2]);
    assert_eq!(edge_list(&store.game_websites, 1), Vec::<i32>::new());
}

#[test]
fn unknown_website_reference_omitted_from_edges() {
    let mut store = Store::new();
    insert_websites(&mut store, &vec![Website { id: 10, url: "u".to_string() }]);
    let mut g = game(1, "A");
    g.website_ids = Some(vec![10, 99]);
    insert_games(&mut store, &vec![g]);
    assert_eq!(edge_list(&store.game_websites, 1), vec![10]);
}

#[test]
fn popularity_update_in_place() {
    let mut store = Store::new();
    insert_games(&mut store, &vec![game(1, "A")]);
    let batch = vec![PopularityPrimitive { id: 1, game_id: 1, popularity_type: 1, value: 5 }];
    insert_popularity_primitives(&mut store, &batch);
    let changed = vec![PopularityPrimitive { id: 1, game_id: 1, popularity_type: 1, value: 9 }];
    let ops = insert_popularity_primitives(&mut store, &changed);
    assert_eq!(ops.len(), 1);
    assert!(matches!(&ops[0], WriteOp::UpdatePopularity { id: 1, .. }));
    assert_eq!(store.popularity.rows.len(), 1);
    assert_eq!(store.popularity.rows[0].1.value, 9);
}

#[test]
fn websites_upsert_inserts_and_updates() {
    let mut store = Store::new();
    let ops = insert_websites(
        &mut store,
        &vec![
            Website { id: 1, url: "a".to_string() },
            Website { id: 2, url: "b".to_string() },
        ],
    );
    assert_eq!(ops.len(), 2);
    let ops = insert_websites(&mut store, &vec![Website { id: 2, url: "c".to_string() }]);
    assert_eq!(ops.len(), 1);
    assert!(matches!(&ops[0], WriteOp::UpdateWebsite { id: 2, .. }));
    assert_eq!(store.websites.rows.len(), 2);
}
