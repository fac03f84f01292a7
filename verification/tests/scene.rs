use bevy_editor::scene::{SceneEntry, SceneGraph};

fn named(name: &str) -> Option<String> {
    Some(name.to_string())
}

fn chain(n: u64) -> SceneGraph {
    let mut graph = SceneGraph::new();
    for entity in 1..=n {
        let children = if entity < n { vec![entity + 1] } else { vec![] };
        graph.insert(entity, None, children);
    }
    graph
}

#[test]
fn a_new_snapshot_is_empty() {
    let graph = SceneGraph::new();
    assert_eq!(graph.len(), 0);
    assert_eq!(graph.get(1), None);
}

#[test]
fn insert_then_get() {
    let mut graph = SceneGraph::new();
    graph.insert(1, named("Root"), vec![2, 3]);
    graph.insert(2, None, vec![]);
    assert_eq!(graph.len(), 2);
    assert_eq!(graph.get(1), Some(&SceneEntry { name: named("Root"), children: vec![2, 3] }));
    assert_eq!(graph.get(2), Some(&SceneEntry { name: None, children: vec![] }));
    assert_eq!(graph.get(3), None);
}

#[test]
fn a_second_insert_replaces_the_first() {
    let mut graph = SceneGraph::new();
    graph.insert(1, named("Old"), vec![2]);
    graph.insert(1, named("New"), vec![]);
    assert_eq!(graph.len(), 1);
    assert_eq!(graph.get(1), Some(&SceneEntry { name: named("New"), children: vec![] }));
}

#[test]
fn a_single_entity_is_a_hierarchy() {
    let graph = chain(1);
    assert!(graph.is_hierarchy(1));
}

#[test]
fn a_chain_is_a_hierarchy_from_every_link() {
    let graph = chain(3);
    assert!(graph.is_hierarchy(1));
    assert!(graph.is_hierarchy(2));
    assert!(graph.is_hierarchy(3));
}

#[test]
fn a_chain_through_every_entity_is_a_hierarchy() {
    let graph = chain(500);
    assert_eq!(graph.len(), 500);
    assert!(graph.is_hierarchy(1));
}

#[test]
fn an_unknown_entity_is_no_hierarchy() {
    let graph = chain(2);
    assert!(!graph.is_hierarchy(9));
    assert!(!SceneGraph::new().is_hierarchy(0));
}

#[test]
fn an_unknown_child_breaks_the_hierarchy() {
    let mut graph = SceneGraph::new();
    graph.insert(1, None, vec![2, 3]);
    graph.insert(2, None, vec![]);
    assert!(!graph.is_hierarchy(1));
    assert!(graph.is_hierarchy(2));
}

#[test]
fn a_cycle_is_no_hierarchy() {
    let mut graph = SceneGraph::new();
    graph.insert(1, None, vec![2]);
    graph.insert(2, None, vec![1]);
    graph.insert(3, None, vec![3]);
    graph.insert(4, None, vec![]);
    graph.insert(5, None, vec![4, 1]);
    assert!(!graph.is_hierarchy(1));
    assert!(!graph.is_hierarchy(2));
    assert!(!graph.is_hierarchy(3));
    assert!(graph.is_hierarchy(4));
    assert!(!graph.is_hierarchy(5));
}

#[test]
fn a_shared_child_is_still_a_hierarchy() {
    let mut graph = SceneGraph::new();
    graph.insert(1, None, vec![2, 3]);
    graph.insert(2, None, vec![4]);
    graph.insert(3, None, vec![4]);
    graph.insert(4, None, vec![]);
    assert!(graph.is_hierarchy(1));
}

#[test]
fn entities_listed_twice_are_walked_once() {
    let mut graph = SceneGraph::new();
    let layers: u64 = 80;
    for entity in 1..layers {
        graph.insert(entity, None, vec![entity + 1, entity + 1]);
    }
    graph.insert(layers, None, vec![]);
    assert!(graph.is_hierarchy(1));
    graph.insert(layers, None, vec![1]);
    assert!(!graph.is_hierarchy(1));
}

#[test]
fn a_wide_scene_is_a_hierarchy() {
    let mut graph = SceneGraph::new();
    let children: Vec<u64> = (2..=200).collect();
    graph.insert(1, None, children);
    for entity in 2..=200 {
        graph.insert(entity, None, vec![]);
    }
    assert_eq!(graph.len(), 200);
    assert!(graph.is_hierarchy(1));
}
