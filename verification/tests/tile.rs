use bevy_editor::tile::{
    children_root, toggle_expansion_tile, update_expansion_tile, DisplayUpdate,
    ExpansionTileFolded, TileChild, TileDisplay,
};

fn title(entity: u64) -> TileChild {
    TileChild { entity, holds_children: false }
}

fn holder(entity: u64) -> TileChild {
    TileChild { entity, holds_children: true }
}

#[test]
fn a_new_tile_is_unfolded() {
    assert_eq!(ExpansionTileFolded::default(), ExpansionTileFolded(false));
}

#[test]
fn toggle_folds_and_unfolds() {
    let mut folded = ExpansionTileFolded::default();
    toggle_expansion_tile(&mut folded);
    assert!(folded.0);
    toggle_expansion_tile(&mut folded);
    assert!(!folded.0);
}

#[test]
fn children_root_is_the_first_holder() {
    assert_eq!(children_root(&vec![title(1), holder(2)]), Some(2));
    assert_eq!(children_root(&vec![holder(5), title(6)]), Some(5));
    assert_eq!(children_root(&vec![title(1), holder(2), holder(3)]), Some(2));
}

#[test]
fn children_root_of_a_tile_without_holder_is_none() {
    assert_eq!(children_root(&vec![]), None);
    assert_eq!(children_root(&vec![title(1), title(2)]), None);
}

#[test]
fn folded_tile_hides_its_children() {
    let update = update_expansion_tile(&ExpansionTileFolded(true), &vec![title(10), holder(11)]);
    assert_eq!(update, DisplayUpdate { target: 11, display: TileDisplay::Hidden });
}

#[test]
fn unfolded_tile_lays_its_children_out() {
    let update = update_expansion_tile(&ExpansionTileFolded(false), &vec![title(10), holder(11)]);
    assert_eq!(update, DisplayUpdate { target: 11, display: TileDisplay::Flex });
}

#[test]
fn update_goes_to_the_first_of_two_holders() {
    let children = vec![holder(21), title(20), holder(22)];
    let update = update_expansion_tile(&ExpansionTileFolded(true), &children);
    assert_eq!(update.target, 21);
}

#[test]
fn toggle_then_update_follows_the_flag() {
    let children = vec![title(1), holder(2)];
    let mut folded = ExpansionTileFolded::default();
    assert_eq!(update_expansion_tile(&folded, &children).display, TileDisplay::Flex);
    toggle_expansion_tile(&mut folded);
    assert_eq!(update_expansion_tile(&folded, &children).display, TileDisplay::Hidden);
    toggle_expansion_tile(&mut folded);
    assert_eq!(update_expansion_tile(&folded, &children).display, TileDisplay::Flex);
}
