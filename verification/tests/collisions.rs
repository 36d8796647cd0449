use godot_bevy::collisions::{normalize_pair, CollisionEvent, CollisionMessage, CollisionState};

#[test]
fn test_collision_state_add_remove() {
    let mut state = CollisionState::new();
    let e1 = 1u64;
    let e2 = 2u64;
    let e3 = 3u64;

    state.add_collision(e1, e2);
    assert!(state.contains(e1, e2));
    assert!(state.contains(e2, e1)); // Symmetric
    assert!(!state.contains(e1, e3));

    assert_eq!(state.colliding_with(e1), &[e2]);
    assert_eq!(state.colliding_with(e2), &[e1]);
    assert!(state.colliding_with(e3).is_empty());

    assert_eq!(state.started().len(), 1);

    state.remove_collision(e1, e2);
    assert!(!state.contains(e1, e2));
    assert!(state.colliding_with(e1).is_empty());

    assert_eq!(state.ended().len(), 1);
}

#[test]
fn test_collision_state_begin_frame() {
    let mut state = CollisionState::new();
    let e1 = 1u64;
    let e2 = 2u64;

    state.add_collision(e1, e2);
    assert_eq!(state.started().len(), 1);

    state.begin_frame();
    assert!(state.started().is_empty());
    assert!(state.ended().is_empty());

    // But collision should still be active
    assert!(state.contains(e1, e2));
}

#[test]
fn test_normalize_pair() {
    let e1 = 1u64;
    let e2 = 2u64;

    assert_eq!(normalize_pair(e1, e2), normalize_pair(e2, e1));
}

#[test]
fn test_collision_state_multiple_collisions() {
    let mut state = CollisionState::new();
    let e1 = 1u64;
    let e2 = 2u64;
    let e3 = 3u64;

    state.add_collision(e1, e2);
    state.add_collision(e1, e3);

    // e1 collides with both
    let colliding = state.colliding_with(e1);
    assert_eq!(colliding.len(), 2);
    assert!(colliding.contains(&e2));
    assert!(colliding.contains(&e3));

    // e2 only collides with e1
    assert_eq!(state.colliding_with(e2), &[e1]);

    // e3 only collides with e1
    assert_eq!(state.colliding_with(e3), &[e1]);
}

#[test]
fn test_purge_entity_removes_all_pairs() {
    let mut state = CollisionState::new();
    let e1 = 1u64;
    let e2 = 2u64;
    let e3 = 3u64;

    state.add_collision(e1, e2);
    state.add_collision(e1, e3);
    state.add_collision(e2, e3);

    let mut purged = state.purge_entity(e1);
    purged.sort();
    assert_eq!(purged, vec![e2, e3]);

    // e1's pairs are gone; the e2-e3 pair survives.
    assert!(!state.contains(e1, e2));
    assert!(!state.contains(e1, e3));
    assert!(state.contains(e2, e3));

    // e1 is dropped from every neighbor's adjacency list.
    assert_eq!(state.colliding_with(e2), &[e3]);
    assert_eq!(state.colliding_with(e3), &[e2]);
    assert!(state.colliding_with(e1).is_empty());
}

#[test]
fn test_purge_entity_with_no_pairs() {
    let mut state = CollisionState::new();
    let e1 = 1u64;
    assert!(state.purge_entity(e1).is_empty());
}

#[test]
fn test_duplicate_collision_ignored() {
    let mut state = CollisionState::new();
    let e1 = 1u64;
    let e2 = 2u64;

    state.add_collision(e1, e2);
    state.add_collision(e1, e2); // Duplicate
    state.add_collision(e2, e1); // Same pair, different order

    assert_eq!(state.len(), 1);
    assert_eq!(state.started().len(), 1);
}

#[test]
fn normalized_pairs_put_the_smaller_id_first() {
    assert_eq!(normalize_pair(9, 4), (4, 9));
    assert_eq!(normalize_pair(4, 9), (4, 9));
    assert_eq!(normalize_pair(5, 5), (5, 5));
}

#[test]
fn add_and_remove_report_whether_the_pair_changed() {
    let mut state = CollisionState::new();
    assert!(state.add_collision(7, 3));
    assert!(!state.add_collision(3, 7));
    assert_eq!(state.started(), &[(3, 7)]);
    assert!(state.remove_collision(3, 7));
    assert!(!state.remove_collision(7, 3));
    assert_eq!(state.ended(), &[(3, 7)]);
    assert!(state.is_empty());
    assert_eq!(state.len(), 0);
}

#[test]
fn batch_mode_leaves_adjacency_until_rebuilt() {
    let mut state = CollisionState::new();
    assert!(state.add_collision_without_neighbors(1, 2));
    assert!(state.add_collision_without_neighbors(2, 3));
    assert!(state.colliding_with(2).is_empty());
    state.rebuild_entity_collisions();
    let mut around_two = state.colliding_with(2).to_vec();
    around_two.sort();
    assert_eq!(around_two, vec![1, 3]);
    assert_eq!(state.colliding_with(1), &[2]);
    assert!(state.remove_collision_without_neighbors(1, 2));
    assert!(!state.contains(1, 2));
    assert_eq!(state.colliding_with(1), &[2]);
    state.rebuild_entity_collisions();
    assert!(state.colliding_with(1).is_empty());
    assert_eq!(state.colliding_with(2), &[3]);
}

#[test]
fn iter_lists_each_active_pair_once() {
    let mut state = CollisionState::new();
    state.add_collision(4, 1);
    state.add_collision(2, 3);
    state.add_collision(1, 4);
    let mut pairs = state.iter();
    pairs.sort();
    assert_eq!(pairs, vec![(1, 4), (2, 3)]);
}

#[test]
fn self_collision_is_listed_and_purged() {
    let mut state = CollisionState::new();
    assert!(state.add_collision(5, 5));
    assert_eq!(state.colliding_with(5), &[5, 5]);
    assert_eq!(state.purge_entity(5), vec![5, 5]);
    assert!(state.is_empty());
    assert!(state.colliding_with(5).is_empty());
}

#[test]
fn frames_apply_signals_in_order() {
    let mut state = CollisionState::new();
    let start = |a: u64, b: u64| CollisionEvent { started: true, origin: Some(a), target: Some(b) };
    let end = |a: u64, b: u64| CollisionEvent { started: false, origin: Some(a), target: Some(b) };
    let messages = state.process_events(&vec![
        start(1, 2),
        start(2, 1),
        CollisionEvent { started: true, origin: None, target: Some(3) },
        start(4, 5),
        end(5, 4),
    ]);
    assert_eq!(
        messages,
        vec![
            CollisionMessage { started: true, entity1: 1, entity2: 2 },
            CollisionMessage { started: true, entity1: 4, entity2: 5 },
            CollisionMessage { started: false, entity1: 5, entity2: 4 },
        ]
    );
    assert!(state.contains(2, 1));
    assert!(!state.contains(4, 5));
    assert_eq!(state.started(), &[(1, 2), (4, 5)]);
    assert_eq!(state.ended(), &[(4, 5)]);
    assert_eq!(state.colliding_with(1), &[2]);

    let messages = state.process_events(&vec![end(2, 1)]);
    assert_eq!(messages, vec![CollisionMessage { started: false, entity1: 2, entity2: 1 }]);
    assert!(state.started().is_empty());
    assert!(state.is_empty());
}

#[test]
fn large_frames_rebuild_neighbors() {
    let mut state = CollisionState::new();
    let events: Vec<CollisionEvent> = (0..600u64)
        .map(|i| CollisionEvent { started: true, origin: Some(1000), target: Some(i) })
        .collect();
    let messages = state.process_events(&events);
    assert_eq!(messages.len(), 600);
    assert_eq!(state.len(), 600);
    assert_eq!(state.colliding_with(1000).len(), 600);
    assert_eq!(state.colliding_with(7), &[1000]);
}
