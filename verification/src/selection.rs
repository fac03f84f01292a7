//! Which entity of the scene is selected.

use vstd::prelude::*;

verus! {

/// The entity that the editor's panes currently agree is selected, if any.
#[derive(Clone, Copy, Debug, PartialEq, Eq)]
pub struct SelectedEntity(pub Option<u64>);

/// The selection after a click on the row of `entity`: a click on the selected
/// entity clears the selection, a click on any other entity selects it.
pub open spec fn toggled(selected: Option<u64>, entity: u64) -> Option<u64> {
    if selected == Some(entity) {
        None
    } else {
        Some(entity)
    }
}

/// A click on the pane's background: nothing is selected afterwards.
pub fn deselect_entity(selected_entity: &mut SelectedEntity)
    ensures
        final(selected_entity).0 == None::<u64>,
{
    selected_entity.0 = None;
}

/// A click on a row. `node` is the entity that the clicked row stands for, or
/// `None` where the row carries no entity; such a click changes nothing and is
/// left for other handlers. Otherwise the selection is toggled and the click
/// is consumed, which the result reports.
pub fn select_entity(node: Option<u64>, selected_entity: &mut SelectedEntity) -> (consumed: bool)
    ensures
        consumed == node.is_some(),
        final(selected_entity).0 == match node {
            Some(entity) => toggled(old(selected_entity).0, entity),
            None => old(selected_entity).0,
        },
{
    let entity = match node {
        Some(entity) => entity,
        None => {
            return false;
        },
    };
    let same = match selected_entity.0 {
        Some(current) => current == entity,
        None => false,
    };
    if same {
        selected_entity.0 = None;
    } else {
        selected_entity.0 = Some(entity);
    }
    true
}

} // verus!
