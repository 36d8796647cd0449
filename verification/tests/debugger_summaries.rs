use godot_bevy::debugger::service::PageRequest;
use godot_bevy::debugger::service::Interval;
use godot_bevy::debugger::summary::{
    ended_notification, notification, query_reply, refresh_list, Subscription, Summary, SummaryMap,
};
use godot_bevy::debugger::wire::{entity, Wire};

fn text(s: &str) -> Wire {
    Wire::String(s.to_owned())
}

fn summary(bits: u64, name: &str, parent: Option<(u64, u32)>, components: &[&str]) -> Summary {
    Summary::of(
        (bits, 0),
        name.to_owned(),
        parent,
        false,
        components.iter().map(|c| (c.to_string(), true)).collect(),
        "godot_bevy::interop::GodotNodeHandle",
    )
}

#[test]
fn summaries_sort_components_and_list_unregistered_ones() {
    let s = Summary::of(
        (4, 1),
        "Player".to_owned(),
        Some((2, 0)),
        true,
        vec![
            ("z::Velocity".to_owned(), true),
            ("a::Secret".to_owned(), false),
            ("godot_bevy::interop::GodotNodeHandle".to_owned(), false),
            ("a::Secret".to_owned(), false),
            ("m::Name".to_owned(), true),
        ],
        "godot_bevy::interop::GodotNodeHandle",
    );
    assert_eq!(
        s.components,
        vec![
            "a::Secret".to_owned(),
            "a::Secret".to_owned(),
            "godot_bevy::interop::GodotNodeHandle".to_owned(),
            "m::Name".to_owned(),
            "z::Velocity".to_owned(),
        ]
    );
    assert_eq!(s.unsupported, vec!["a::Secret".to_owned()]);

    let w = s.to_wire();
    assert_eq!(w.get("entity"), Some(&entity(4, 1)));
    assert_eq!(w.get("name"), Some(&text("Player")));
    assert_eq!(w.get("parent"), Some(&entity(2, 0)));
    assert_eq!(w.get("has_node"), Some(&Wire::Bool(true)));
    assert_eq!(w.get("components").unwrap().as_array().unwrap().len(), 5);
    assert_eq!(
        w.get("unsupported_components"),
        Some(&Wire::Object(vec![("a::Secret".to_owned(), text("component not registered"))]))
    );
    let orphan = summary(1, "", None, &[]);
    assert_eq!(orphan.to_wire().get("parent"), Some(&Wire::Null));
}

#[test]
fn the_known_map_is_ordered_by_entity() {
    let mut m = SummaryMap::new();
    assert!(!m.insert(summary(9, "b", None, &[])));
    assert!(!m.insert(summary(3, "a", None, &[])));
    assert!(m.insert(summary(9, "c", None, &[])));
    let keys: Vec<(u64, u32)> = m.entries.iter().map(|s| s.entity).collect();
    assert_eq!(keys, vec![(3, 0), (9, 0)]);
    assert_eq!(m.get((9, 0)).unwrap().name, "c");
    assert!(m.remove((3, 0)));
    assert!(!m.remove((3, 0)));
    assert!(m.get((3, 0)).is_none());
    assert_eq!(m.entities(), vec![(9, 0)]);
}

#[test]
fn deltas_report_additions_updates_and_removals() {
    let mut m = SummaryMap::new();
    m.insert(summary(1, "kept", None, &[]));
    m.insert(summary(2, "renamed", None, &[]));
    m.insert(summary(3, "gone", None, &[]));
    let delta = m.apply(vec![
        ((1, 0), Some(summary(1, "kept", None, &["x::New"]))),
        ((2, 0), Some(summary(2, "new name", None, &[]))),
        ((3, 0), None),
        ((4, 0), Some(summary(4, "fresh", Some((1, 0)), &[]))),
        ((5, 0), None),
    ]);
    assert_eq!(delta.added.len(), 1);
    assert_eq!(delta.added[0].get("name"), Some(&text("fresh")));
    assert_eq!(delta.updated.len(), 1);
    assert_eq!(delta.updated[0].get("name"), Some(&text("new name")));
    assert_eq!(delta.removed, vec![entity(3, 0)]);
    let keys: Vec<(u64, u32)> = m.entries.iter().map(|s| s.entity).collect();
    assert_eq!(keys, vec![(1, 0), (2, 0), (4, 0)]);
    assert_eq!(m.get((1, 0)).unwrap().components, vec!["x::New".to_owned()]);

    let n = delta.into_notification().unwrap();
    assert_eq!(n.get("jsonrpc"), Some(&text("2.0")));
    assert_eq!(n.get("method"), Some(&text("godot.summary")));
    let params = n.get("params").unwrap();
    assert_eq!(params.get("snapshot"), Some(&Wire::Bool(false)));
    assert_eq!(params.get("removed"), Some(&Wire::Array(vec![entity(3, 0)])));

    let quiet = m.apply(vec![((1, 0), Some(summary(1, "kept", None, &["x::Other"])))]);
    assert!(quiet.into_notification().is_none());
}

#[test]
fn refresh_covers_dirty_appeared_and_disappeared_entities() {
    let mut known = SummaryMap::new();
    known.insert(summary(1, "a", None, &[]));
    known.insert(summary(2, "b", None, &[]));
    let list = refresh_list(&vec![(2, 0), (7, 0)], &vec![(2, 0), (3, 0), (1, 0)], &known);
    assert_eq!(list, vec![(2, 0), (3, 0), (7, 0)]);
    let list = refresh_list(&vec![], &vec![(2, 0)], &known);
    assert_eq!(list, vec![(1, 0)]);
}

#[test]
fn subscriptions_open_with_one_snapshot() {
    let mut known = SummaryMap::new();
    known.insert(summary(5, "e", None, &[]));
    let mut sub = Subscription::new(Interval::WholeSeconds(1), known);
    let first = sub.opening().unwrap();
    let params = first.get("params").unwrap();
    assert_eq!(params.get("snapshot"), Some(&Wire::Bool(true)));
    assert_eq!(params.get("added").unwrap().as_array().unwrap().len(), 1);
    assert_eq!(params.get("removed"), Some(&Wire::Array(vec![])));
    assert!(!sub.initial);
    assert!(sub.opening().is_none());
    let direct = notification(true, vec![], vec![], vec![]);
    assert_eq!(direct.get("params").unwrap().get("added"), Some(&Wire::Array(vec![])));
}

fn page(page: usize, page_size: usize, name: Option<&str>, component: Option<&str>) -> PageRequest {
    PageRequest {
        page,
        page_size,
        offset: page * page_size,
        name_contains: name.map(|s| s.to_owned()),
        component: component.map(|s| s.to_owned()),
        node_path: None,
    }
}

#[test]
fn queries_filter_then_page() {
    let mut m = SummaryMap::new();
    m.insert(summary(1, "Player", None, &["game::Health"]));
    m.insert(summary(2, "Enemy", None, &["game::Health"]));
    m.insert(summary(3, "PlayerCamera", None, &[]));
    let at = vec![false, false, false];

    let reply = query_reply(&m, &at, &page(0, 10, Some("Player"), None));
    assert_eq!(reply.get("total"), Some(&Wire::Integer(2)));
    assert_eq!(reply.get("page"), Some(&Wire::Integer(0)));
    assert_eq!(reply.get("page_size"), Some(&Wire::Integer(10)));
    let names: Vec<&str> = reply
        .get("entities")
        .unwrap()
        .as_array()
        .unwrap()
        .iter()
        .map(|e| e.get("name").unwrap().as_str().unwrap())
        .collect();
    assert_eq!(names, vec!["Player", "PlayerCamera"]);

    let reply = query_reply(&m, &at, &page(1, 1, None, Some("game::Health")));
    assert_eq!(reply.get("total"), Some(&Wire::Integer(2)));
    let entities = reply.get("entities").unwrap().as_array().unwrap();
    assert_eq!(entities.len(), 1);
    assert_eq!(entities[0].get("name"), Some(&text("Enemy")));

    let beyond = query_reply(&m, &at, &page(5, 2, None, None));
    assert_eq!(beyond.get("total"), Some(&Wire::Integer(3)));
    assert_eq!(beyond.get("entities"), Some(&Wire::Array(vec![])));

    let mut by_path = page(0, 10, None, None);
    by_path.node_path = Some("/root/Main".to_owned());
    let reply = query_reply(&m, &vec![false, true, false], &by_path);
    assert_eq!(reply.get("total"), Some(&Wire::Integer(1)));
}

#[test]
fn renames_inside_an_interval_coalesce_into_one_update() {
    let mut known = SummaryMap::new();
    known.insert(summary(6, "original", None, &[]));
    let mut sub = Subscription::new(Interval::WholeSeconds(60), known);
    assert!(sub.opening().is_some());
    let live = vec![(6, 0)];
    // Two renames mark the entity twice; inside the interval nothing is due.
    let mut marks = vec![(6, 0), (6, 0)];
    assert!(sub.due(&mut marks, false, &live).is_none());
    assert_eq!(marks, vec![(6, 0), (6, 0)]);
    // Once the interval has elapsed the entity is looked at once, with its latest summary.
    let list = sub.due(&mut marks, true, &live).unwrap();
    assert_eq!(list, vec![(6, 0)]);
    assert!(marks.is_empty());
    let changes = list.into_iter().map(|e| (e, Some(summary(e.0, "last rename", None, &[])))).collect();
    let delta = sub.summaries.apply(changes);
    let frame = delta.into_notification().unwrap();
    let updated = frame.get("params").unwrap().get("updated").unwrap().as_array().unwrap();
    assert_eq!(updated.len(), 1);
    assert_eq!(updated[0].get("name"), Some(&text("last rename")));
    assert_eq!(frame.get("params").unwrap().get("added"), Some(&Wire::Array(vec![])));
    // With no new marks the next publication has nothing to look at.
    assert_eq!(sub.due(&mut marks, true, &live), Some(vec![]));
    assert!(sub.summaries.apply(vec![]).into_notification().is_none());
}

#[test]
fn disabling_ends_the_subscription_with_a_notification() {
    let n = ended_notification();
    assert_eq!(n.get("jsonrpc"), Some(&text("2.0")));
    assert_eq!(n.get("method"), Some(&text("godot.summary")));
    assert!(n.get("id").is_none());
    assert_eq!(
        n.get("params"),
        Some(&Wire::Object(vec![
            ("reason".to_owned(), text("debugger disabled")),
            ("subscription_ended".to_owned(), Wire::Bool(true)),
        ]))
    );
}
