//! The tree that the pane shows: one row for an entity without children, one
//! collapsible tile for an entity with children, the children's items inside.
//! Every item remembers the entity it stands for.

use crate::scene::{hierarchy_within, is_hierarchy, lemma_common_depth, SceneGraph, SceneView};
use crate::selection::SelectedEntity;
use vstd::prelude::*;

verus! {

/// One item of the tree.
#[derive(Debug, PartialEq, Eq)]
pub enum TreeItem {
    /// A row that shows the name of `entity`.
    Leaf { label: String, entity: u64 },
    /// A tile for `entity`: a title row, and below it the items of the
    /// children. It is drawn highlighted when its entity is the selected one.
    Tile { label: String, entity: u64, highlighted: bool, children: Vec<TreeItem> },
}

/// A `TreeItem` as a mathematical value.
pub enum TreeItemView {
    Leaf { label: Seq<char>, entity: u64 },
    Tile { label: Seq<char>, entity: u64, highlighted: bool, children: Seq<TreeItemView> },
}

/// The mathematical value of an item: the same shape, with texts and lists
/// taken by their values.
pub open spec fn item_view(item: TreeItem) -> TreeItemView
    decreases item,
{
    match item {
        TreeItem::Leaf { label, entity } => TreeItemView::Leaf { label: label@, entity },
        TreeItem::Tile { label, entity, highlighted, children } => TreeItemView::Tile {
            label: label@,
            entity,
            highlighted,
            children: Seq::new(
                children@.len(),
                |i: int|
                    if 0 <= i < children@.len() {
                        item_view(children@[i])
                    } else {
                        TreeItemView::Leaf { label: Seq::empty(), entity: 0 }
                    },
            ),
        },
    }
}

impl View for TreeItem {
    type V = TreeItemView;

    open spec fn view(&self) -> TreeItemView {
        item_view(*self)
    }
}

/// A list of items as a list of mathematical values.
pub open spec fn items_view(items: Seq<TreeItem>) -> Seq<TreeItemView> {
    Seq::new(items.len(), |i: int| items[i]@)
}

/// The text shown for an entity: its name, or a stand-in where it has none.
pub open spec fn label_of(name: Option<Seq<char>>) -> Seq<char> {
    match name {
        Some(name) => name,
        None => "<No Name>"@,
    }
}

/// `item` is the picture of `entity` in `scene` while `selected` is selected:
/// it carries the entity's label and remembers the entity; it is a row exactly
/// when the entity has no children; as a tile it is highlighted exactly when
/// the entity is the selected one, and holds the pictures of the children, one
/// each and in their order.
pub open spec fn depicts(
    scene: SceneView,
    entity: u64,
    selected: Option<u64>,
    item: TreeItemView,
) -> bool
    decreases item,
{
    &&& scene.contains_key(entity)
    &&& match item {
        TreeItemView::Leaf { label, entity: shown } => {
            &&& label == label_of(scene[entity].name)
            &&& shown == entity
            &&& scene[entity].children.len() == 0
        },
        TreeItemView::Tile { label, entity: shown, highlighted, children } => {
            &&& label == label_of(scene[entity].name)
            &&& shown == entity
            &&& highlighted == (selected == Some(entity))
            &&& children.len() == scene[entity].children.len()
            &&& children.len() > 0
            &&& forall|i: int|
                0 <= i < children.len() ==> depicts(
                    scene,
                    scene[entity].children[i],
                    selected,
                    #[trigger] children[i],
                )
        },
    }
}

/// A tile titled `title` for `entity`, around the items of its children.
pub fn expansion_tile(
    title: String,
    children: Vec<TreeItem>,
    entity: u64,
    selected_entity: Option<u64>,
) -> (template: Vec<TreeItem>)
    ensures
        template.len() == 1,
        template[0]@ == (TreeItemView::Tile {
            label: title@,
            entity,
            highlighted: selected_entity == Some(entity),
            children: items_view(children@),
        }),
{
    let highlighted = match selected_entity {
        Some(selected) => selected == entity,
        None => false,
    };
    let ghost shown = items_view(children@);
    let tile = TreeItem::Tile { label: title, entity, highlighted, children };
    proof {
        assert(tile@->Tile_children =~= shown);
    }
    let mut template: Vec<TreeItem> = Vec::new();
    template.push(tile);
    template
}

/// The walk below `entity`, for a hierarchy whose chains end within `depth`
/// steps.
fn nodes_within(
    entity: u64,
    graph: &SceneGraph,
    selected: Option<u64>,
    Ghost(depth): Ghost<nat>,
) -> (template: Vec<TreeItem>)
    requires
        hierarchy_within(graph@, entity, depth),
    ensures
        template.len() == 1,
        depicts(graph@, entity, selected, template[0]@),
    decreases depth,
{
    let entry = graph.get(entity).unwrap();
    let mut below: Vec<TreeItem> = Vec::new();
    let mut i: usize = 0;
    while i < entry.children.len()
        invariant
            i <= entry.children.len(),
            hierarchy_within(graph@, entity, depth),
            entry.children@ == graph@[entity].children,
            below.len() == i,
            forall|j: int|
                0 <= j < i ==> depicts(
                    graph@,
                    graph@[entity].children[j],
                    selected,
                    #[trigger] below[j]@,
                ),
        decreases entry.children.len() - i,
    {
        let mut picture = nodes_within(
            entry.children[i],
            graph,
            selected,
            Ghost((depth - 1) as nat),
        );
        below.append(&mut picture);
        i += 1;
    }
    let label = match &entry.name {
        Some(name) => name.clone(),
        None => "<No Name>".to_owned(),
    };
    if below.len() > 0 {
        let ghost shown = items_view(below@);
        let template = expansion_tile(label, below, entity, selected);
        proof {
            assert forall|j: int| 0 <= j < shown.len() implies depicts(
                graph@,
                graph@[entity].children[j],
                selected,
                #[trigger] shown[j],
            ) by {}
        }
        template
    } else {
        let mut template: Vec<TreeItem> = Vec::new();
        template.push(TreeItem::Leaf { label, entity });
        template
    }
}

/// The items for `entity`: always exactly one, the picture of the entity with
/// everything below it. The scene must be a hierarchy below `entity`.
pub fn scene_tree_nodes(
    entity: u64,
    graph: &SceneGraph,
    selected_entity: &SelectedEntity,
) -> (template: Vec<TreeItem>)
    requires
        is_hierarchy(graph@, entity),
    ensures
        template.len() == 1,
        depicts(graph@, entity, selected_entity.0, template[0]@),
{
    let ghost depth = choose|depth: nat| hierarchy_within(graph@, entity, depth);
    nodes_within(entity, graph, selected_entity.0, Ghost(depth))
}

/// An entity has one picture: two items that depict the same entity of the
/// same scene under the same selection are equal.
pub proof fn lemma_depiction_unique(
    scene: SceneView,
    entity: u64,
    selected: Option<u64>,
    a: TreeItemView,
    b: TreeItemView,
)
    requires
        depicts(scene, entity, selected, a),
        depicts(scene, entity, selected, b),
    ensures
        a == b,
    decreases a,
{
    match (a, b) {
        (
            TreeItemView::Tile { children: below_a, .. },
            TreeItemView::Tile { children: below_b, .. },
        ) => {
            assert forall|i: int| 0 <= i < below_a.len() implies below_a[i] == below_b[i] by {
                lemma_depiction_unique(
                    scene,
                    scene[entity].children[i],
                    selected,
                    below_a[i],
                    below_b[i],
                );
            }
            assert(below_a =~= below_b);
        },
        _ => {},
    }
}

/// The picture of `entity`, drawn down to `depth` steps below it.
pub open spec fn picture(
    scene: SceneView,
    entity: u64,
    selected: Option<u64>,
    depth: nat,
) -> TreeItemView
    decreases depth,
{
    if depth == 0 || scene[entity].children.len() == 0 {
        TreeItemView::Leaf { label: label_of(scene[entity].name), entity }
    } else {
        TreeItemView::Tile {
            label: label_of(scene[entity].name),
            entity,
            highlighted: selected == Some(entity),
            children: Seq::new(
                scene[entity].children.len(),
                |i: int| picture(scene, scene[entity].children[i], selected, (depth - 1) as nat),
            ),
        }
    }
}

/// Every hierarchy has a picture: drawn as deep as the hierarchy goes, the
/// picture depicts its entity.
pub proof fn lemma_hierarchy_has_picture(
    scene: SceneView,
    entity: u64,
    selected: Option<u64>,
    depth: nat,
)
    requires
        hierarchy_within(scene, entity, depth),
    ensures
        depicts(scene, entity, selected, picture(scene, entity, selected, depth)),
    decreases depth,
{
    let drawn = picture(scene, entity, selected, depth);
    if scene[entity].children.len() > 0 {
        let below = drawn->Tile_children;
        assert forall|i: int| 0 <= i < below.len() implies depicts(
            scene,
            scene[entity].children[i],
            selected,
            #[trigger] below[i],
        ) by {
            lemma_hierarchy_has_picture(
                scene,
                scene[entity].children[i],
                selected,
                (depth - 1) as nat,
            );
        }
    }
}

/// Only a hierarchy has a picture: where some item depicts `entity`, the
/// scene is a hierarchy below it.
pub proof fn lemma_picture_needs_hierarchy(
    scene: SceneView,
    entity: u64,
    selected: Option<u64>,
    item: TreeItemView,
)
    requires
        depicts(scene, entity, selected, item),
    ensures
        is_hierarchy(scene, entity),
    decreases item,
{
    match item {
        TreeItemView::Leaf { .. } => {
            assert(hierarchy_within(scene, entity, 1));
        },
        TreeItemView::Tile { children, .. } => {
            let below = scene[entity].children;
            assert forall|i: int| 0 <= i < below.len() implies is_hierarchy(
                scene,
                #[trigger] below[i],
            ) by {
                lemma_picture_needs_hierarchy(scene, below[i], selected, children[i]);
            }
            let depth = lemma_common_depth(scene, below, below.len());
            assert(hierarchy_within(scene, entity, depth + 1));
        },
    }
}

} // verus!
