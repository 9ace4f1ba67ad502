//! Placing new objects: the placement mode's state, entered with an asset
//! picked for placement and left with Escape. The asset types are the
//! caller's (`P` for a primitive's definition, `A` for any placeable asset);
//! entities are identified by their ids.

use vstd::prelude::*;

verus! {

/// What a frame of placement input asks the caller to do.
pub enum PlacementAction {
    /// Nothing this frame.
    Nothing,
    /// Placement was cancelled: despawn the preview entity, if there is one.
    Cancel { despawn: Option<u64> },
    /// Spawn the selected asset where the preview stands; placement goes on.
    Place,
}

/// Whether placement mode is on, its preview entity, and the asset being
/// placed (with its primitive definition when it is a primitive).
pub struct PlacementState<P, A> {
    pub active: bool,
    pub preview_entity: Option<u64>,
    pub selected_primitive: Option<P>,
    pub selected_asset: Option<A>,
}

impl<P, A> Default for PlacementState<P, A> {
    fn default() -> (s: Self)
        ensures
            !s.active,
            s.preview_entity is None,
            s.selected_primitive is None,
            s.selected_asset is None,
    {
        PlacementState { active: false, preview_entity: None, selected_primitive: None, selected_asset: None }
    }
}

impl<P, A> PlacementState<P, A> {
    /// Enters placement of `asset` with the new preview entity `preview`;
    /// returns the previous preview entity, which the caller despawns.
    pub fn start(&mut self, preview: u64, primitive: Option<P>, asset: A) -> (despawn: Option<u64>)
        ensures
            despawn == old(self).preview_entity,
            final(self).active,
            final(self).preview_entity == Some(preview),
            final(self).selected_primitive == primitive,
            final(self).selected_asset == Some(asset),
    {
        let despawn = self.preview_entity;
        self.preview_entity = Some(preview);
        self.selected_primitive = primitive;
        self.selected_asset = Some(asset);
        self.active = true;
        despawn
    }

    /// Leaves placement mode: nothing is selected for placement and there is
    /// no preview any more. Returns the preview entity to despawn.
    pub fn cancel(&mut self) -> (despawn: Option<u64>)
        ensures
            despawn == old(self).preview_entity,
            !final(self).active,
            final(self).preview_entity is None,
            final(self).selected_primitive is None,
            final(self).selected_asset is None,
    {
        let despawn = self.preview_entity;
        self.active = false;
        self.preview_entity = None;
        self.selected_primitive = None;
        self.selected_asset = None;
        despawn
    }

    /// One frame of placement input. Outside placement mode, or while the
    /// camera holds the mouse, nothing happens. Escape cancels placement (see
    /// [`PlacementState::cancel`]). Otherwise a left click with an asset
    /// selected and a preview on the map places the asset, and placement mode
    /// stays on for the next one.
    pub fn handle_input(
        &mut self,
        mouse_locked: bool,
        escape_pressed: bool,
        left_clicked: bool,
        preview_found: bool,
    ) -> (r: PlacementAction)
        ensures
            !old(self).active || mouse_locked ==> r == PlacementAction::Nothing && *final(self) == *old(self),
            old(self).active && !mouse_locked && escape_pressed ==> {
                &&& r == (PlacementAction::Cancel { despawn: old(self).preview_entity })
                &&& !final(self).active
                &&& final(self).preview_entity is None
                &&& final(self).selected_primitive is None
                &&& final(self).selected_asset is None
            },
            old(self).active && !mouse_locked && !escape_pressed ==> {
                &&& *final(self) == *old(self)
                &&& r == (if left_clicked && old(self).selected_asset is Some && preview_found {
                    PlacementAction::Place
                } else {
                    PlacementAction::Nothing
                })
            },
    {
        if !self.active || mouse_locked {
            return PlacementAction::Nothing;
        }
        if escape_pressed {
            let despawn = self.cancel();
            return PlacementAction::Cancel { despawn };
        }
        if left_clicked && self.selected_asset.is_some() && preview_found {
            PlacementAction::Place
        } else {
            PlacementAction::Nothing
        }
    }
}

} // verus!
