//! What the pane does in one frame, decided from what the engine reports:
//! whether a pane is open, which keys went down, and the scene as it stands.

use crate::scene::{is_hierarchy, SceneGraph, SceneView};
use crate::selection::SelectedEntity;
use crate::tree::{depicts, scene_tree_nodes, TreeItem};
use vstd::prelude::*;

verus! {

/// The scene is a hierarchy below each of its roots.
pub open spec fn roots_are_hierarchies(scene: SceneView, scene_roots: Seq<u64>) -> bool {
    forall|i: int| 0 <= i < scene_roots.len() ==> is_hierarchy(scene, #[trigger] scene_roots[i])
}

/// `template` holds the pictures of the roots, one each and in their order.
pub open spec fn depicts_roots(
    scene: SceneView,
    scene_roots: Seq<u64>,
    selected: Option<u64>,
    template: Seq<TreeItem>,
) -> bool {
    &&& template.len() == scene_roots.len()
    &&& forall|i: int|
        0 <= i < template.len() ==> depicts(
            scene,
            scene_roots[i],
            selected,
            #[trigger] template[i]@,
        )
}

/// One frame of the pane: while a pane is open the whole tree is built anew,
/// the pictures of the scene's roots in their order, to be built under every
/// open pane. Without a pane there is nothing to build.
///
/// The scene must be a hierarchy below its roots.
pub fn build_scene_tree(
    pane_open: bool,
    scene_roots: &Vec<u64>,
    graph: &SceneGraph,
    selected_entity: &SelectedEntity,
) -> (rebuilt: Option<Vec<TreeItem>>)
    requires
        pane_open ==> roots_are_hierarchies(graph@, scene_roots@),
    ensures
        match rebuilt {
            Some(template) => {
                &&& pane_open
                &&& depicts_roots(graph@, scene_roots@, selected_entity.0, template@)
            },
            None => !pane_open,
        },
{
    if !pane_open {
        return None;
    }
    let mut template: Vec<TreeItem> = Vec::new();
    let mut i: usize = 0;
    while i < scene_roots.len()
        invariant
            i <= scene_roots.len(),
            roots_are_hierarchies(graph@, scene_roots@),
            template.len() == i,
            forall|j: int|
                0 <= j < i ==> depicts(
                    graph@,
                    scene_roots[j],
                    selected_entity.0,
                    #[trigger] template[j]@,
                ),
        decreases scene_roots.len() - i,
    {
        let mut picture = scene_tree_nodes(scene_roots[i], graph, selected_entity);
        template.append(&mut picture);
        i += 1;
    }
    Some(template)
}

/// The frame adds a dummy: the dummy key went down and the tree key did not.
pub open spec fn spawns_dummy(tree_key: bool, dummy_key: bool) -> bool {
    dummy_key && !tree_key
}

/// Whether the frame adds a dummy.
pub fn wants_dummy(tree_key: bool, dummy_key: bool) -> (wanted: bool)
    ensures
        wanted == spawns_dummy(tree_key, dummy_key),
{
    dummy_key && !tree_key
}

/// The scene has exactly one root, and that root has a child.
pub open spec fn has_first_child(scene: SceneView, scene_roots: Seq<u64>) -> bool {
    &&& scene_roots.len() == 1
    &&& scene.contains_key(scene_roots[0])
    &&& scene[scene_roots[0]].children.len() > 0
}

/// The entity that gets a dummy child in this frame, if any: when the dummy
/// key went down, and the tree key did not go down with it, the first child
/// of the scene's only root. This decides nothing about the tree, which is
/// rebuilt whatever the keys.
///
/// A dummy needs a scene with exactly one root that has a child.
pub fn dummy_parent(
    tree_key: bool,
    dummy_key: bool,
    scene_roots: &Vec<u64>,
    graph: &SceneGraph,
) -> (parent: Option<u64>)
    requires
        spawns_dummy(tree_key, dummy_key) ==> has_first_child(graph@, scene_roots@),
    ensures
        match parent {
            Some(parent) => {
                &&& spawns_dummy(tree_key, dummy_key)
                &&& parent == graph@[scene_roots[0]].children[0]
            },
            None => !spawns_dummy(tree_key, dummy_key),
        },
{
    if !wants_dummy(tree_key, dummy_key) {
        return None;
    }
    let entry = graph.get(scene_roots[0]).unwrap();
    Some(entry.children[0])
}

} // verus!
