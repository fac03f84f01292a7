//! Collapsible tiles: one fold flag per tile, and what it means for the part
//! of the tile that holds the children.

use vstd::prelude::*;

verus! {

/// Whether a tile is folded. A new tile is unfolded.
#[derive(Clone, Copy, Debug, PartialEq, Eq)]
pub struct ExpansionTileFolded(pub bool);

impl Default for ExpansionTileFolded {
    fn default() -> (folded: Self)
        ensures
            !folded.0,
    {
        ExpansionTileFolded(false)
    }
}

/// How the node that holds a tile's children is laid out.
#[derive(Clone, Copy, Debug, PartialEq, Eq, Structural)]
pub enum TileDisplay {
    /// The children are laid out below the title.
    Flex,
    /// The children take no room and are not drawn.
    Hidden,
}

/// One child of a tile: its entity, and whether it is the node that holds the
/// tile's children (as opposed to the title row).
#[derive(Clone, Copy, Debug, PartialEq, Eq)]
pub struct TileChild {
    pub entity: u64,
    pub holds_children: bool,
}

/// What a change of a tile's fold flag asks of the engine: give `target` the
/// layout `display`.
#[derive(Clone, Copy, Debug, PartialEq, Eq)]
pub struct DisplayUpdate {
    pub target: u64,
    pub display: TileDisplay,
}

/// The layout that goes with a fold flag.
pub open spec fn display_of(folded: bool) -> TileDisplay {
    if folded {
        TileDisplay::Hidden
    } else {
        TileDisplay::Flex
    }
}

/// `i` is the position of the first child that holds the tile's children.
pub open spec fn is_first_holder(children: Seq<TileChild>, i: int) -> bool {
    &&& 0 <= i < children.len()
    &&& children[i].holds_children
    &&& forall|j: int| 0 <= j < i ==> !(#[trigger] children[j]).holds_children
}

/// Some child holds the tile's children.
pub open spec fn has_holder(children: Seq<TileChild>) -> bool {
    exists|i: int| 0 <= i < children.len() && (#[trigger] children[i]).holds_children
}

/// A click on a tile's title flips its fold flag.
pub fn toggle_expansion_tile(folded: &mut ExpansionTileFolded)
    ensures
        final(folded).0 == !old(folded).0,
{
    folded.0 = !folded.0;
}

/// The first child that holds the tile's children, if there is one.
pub fn children_root(children: &Vec<TileChild>) -> (root: Option<u64>)
    ensures
        match root {
            Some(entity) => exists|i: int|
                is_first_holder(children@, i) && entity == children[i].entity,
            None => !has_holder(children@),
        },
{
    let mut i: usize = 0;
    while i < children.len()
        invariant
            i <= children.len(),
            forall|j: int| 0 <= j < i ==> !(#[trigger] children[j]).holds_children,
        decreases children.len() - i,
    {
        if children[i].holds_children {
            assert(is_first_holder(children@, i as int));
            return Some(children[i].entity);
        }
        i += 1;
    }
    None
}

/// After a tile's fold flag changed: the first child that holds the tile's
/// children is hidden when the tile is folded and laid out when it is not.
/// A tile is built with such a child; one without is not a tile.
pub fn update_expansion_tile(
    folded: &ExpansionTileFolded,
    children: &Vec<TileChild>,
) -> (update: DisplayUpdate)
    requires
        has_holder(children@),
    ensures
        update.display == display_of(folded.0),
        exists|i: int| is_first_holder(children@, i) && update.target == children[i].entity,
{
    let display = if folded.0 {
        TileDisplay::Hidden
    } else {
        TileDisplay::Flex
    };
    let root = children_root(children);
    DisplayUpdate { target: root.unwrap(), display }
}

/// The first holder is one position: two answers to "which child is the first
/// holder" agree.
pub proof fn lemma_first_holder_unique(children: Seq<TileChild>, i: int, j: int)
    requires
        is_first_holder(children, i),
        is_first_holder(children, j),
    ensures
        i == j,
{
    if i < j {
        assert(!children[i].holds_children);
    } else if j < i {
        assert(!children[j].holds_children);
    }
}

} // verus!
