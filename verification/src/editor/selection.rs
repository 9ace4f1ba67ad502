//! The set of selected entities.

use vstd::prelude::*;
use std::collections::HashSet;
use vstd::std_specs::iter::IteratorSpec;

verus! {

broadcast use vstd::std_specs::hash::group_hash_axioms;

/// `s` with the membership of `e` flipped.
pub open spec fn toggled(s: Set<u64>, e: u64) -> Set<u64> {
    if s.contains(e) {
        s.remove(e)
    } else {
        s.insert(e)
    }
}

/// The selection after a click on `e`: with Ctrl held the click flips `e`,
/// without it `e` becomes the only selected entity.
pub open spec fn clicked(s: Set<u64>, e: u64, ctrl_held: bool) -> Set<u64> {
    if ctrl_held {
        toggled(s, e)
    } else {
        Set::empty().insert(e)
    }
}

/// Whether a click on an entity may change the selection: not while an object
/// is being placed, not on a gizmo handle, only on scene entities that are
/// not locked.
pub open spec fn click_allowed(
    placement_active: bool,
    is_gizmo_handle: bool,
    is_editor_entity: bool,
    is_locked: bool,
) -> bool {
    !placement_active && !is_gizmo_handle && is_editor_entity && !is_locked
}

/// Flipping the same entity twice gives the selection back.
pub proof fn lemma_toggle_twice(s: Set<u64>, e: u64)
    ensures
        toggled(toggled(s, e), e) == s,
{
    assert(toggled(toggled(s, e), e) =~= s);
}

/// A Ctrl-click changes the membership of the clicked entity and of no other.
pub proof fn lemma_ctrl_click_flips_one(s: Set<u64>, e: u64, x: u64)
    ensures
        clicked(s, e, true).contains(x) == (if x == e { !s.contains(x) } else { s.contains(x) }),
{
}

/// A plain click leaves exactly the clicked entity selected.
pub proof fn lemma_plain_click_selects_only(s: Set<u64>, e: u64, x: u64)
    ensures
        clicked(s, e, false).contains(x) == (x == e),
        clicked(s, e, false).len() == 1,
{
    assert(clicked(s, e, false) =~= set![e]);
}

/// The single selected entity of the older, one-object selection model.
pub struct SelectedEntity {
    pub entity: Option<u64>,
}

impl Default for SelectedEntity {
    fn default() -> (s: SelectedEntity)
        ensures
            s.entity is None,
    {
        SelectedEntity { entity: None }
    }
}

/// The entities currently selected, by id.
pub struct SelectionSet {
    pub entities: HashSet<u64>,
}

impl Default for SelectionSet {
    fn default() -> (s: SelectionSet)
        ensures
            s.entities@ == Set::<u64>::empty(),
    {
        SelectionSet { entities: HashSet::new() }
    }
}

impl SelectionSet {
    /// Whether `entity` is selected.
    pub fn contains(&self, entity: u64) -> (r: bool)
        ensures
            r == self.entities@.contains(entity),
    {
        self.entities.contains(&entity)
    }

    /// Adds `entity` to the selection.
    pub fn add(&mut self, entity: u64)
        ensures
            final(self).entities@ == old(self).entities@.insert(entity),
    {
        self.entities.insert(entity);
    }

    /// Removes `entity` from the selection.
    pub fn remove(&mut self, entity: u64)
        ensures
            final(self).entities@ == old(self).entities@.remove(entity),
    {
        self.entities.remove(&entity);
    }

    /// Selects `entity` if it was not selected, and deselects it if it was.
    pub fn toggle(&mut self, entity: u64)
        ensures
            final(self).entities@ == toggled(old(self).entities@, entity),
    {
        if self.entities.contains(&entity) {
            self.entities.remove(&entity);
        } else {
            self.entities.insert(entity);
        }
    }

    /// Deselects everything.
    pub fn clear(&mut self)
        ensures
            final(self).entities@ == Set::<u64>::empty(),
    {
        self.entities.clear();
    }

    /// Some selected entity (which one is up to the set's order), or `None`
    /// when nothing is selected.
    pub fn first(&self) -> (r: Option<u64>)
        ensures
            r is None <==> self.entities@.is_empty(),
            r matches Some(e) ==> self.entities@.contains(e),
    {
        for e in it: self.entities.iter()
            invariant
                it.index() == 0,
        {
            assert(self.entities@.contains(*e));
            return Some(*e);
        }
        None
    }

    /// Whether nothing is selected.
    pub fn is_empty(&self) -> (r: bool)
        ensures
            r == self.entities@.is_empty(),
    {
        self.entities.is_empty()
    }

    /// The number of selected entities.
    pub fn len(&self) -> (r: usize)
        ensures
            r == self.entities@.len(),
    {
        self.entities.len()
    }

    /// The entity the inspector shows: the selected entity when exactly one
    /// is selected; `None` for no selection or several.
    pub fn single(&self) -> (r: Option<u64>)
        ensures
            r is Some <==> self.entities@.len() == 1,
            r matches Some(e) ==> self.entities@ == Set::<u64>::empty().insert(e),
    {
        if self.entities.len() == 1 {
            let v = self.to_vec();
            let e = v[0];
            proof {
                assert(v@ =~= seq![e]);
                assert(v@.to_set() =~= Set::<u64>::empty().insert(e));
            }
            Some(e)
        } else {
            None
        }
    }

    /// The selected entities, each once, in the set's order.
    pub fn to_vec(&self) -> (r: Vec<u64>)
        ensures
            r@.to_set() == self.entities@,
            r@.no_duplicates(),
            r.len() == self.entities@.len(),
    {
        let mut r: Vec<u64> = Vec::new();
        let ghost keys: Seq<u64> = self.entities.iter().remaining().unref();
        for e in it: self.entities.iter()
            invariant
                r.len() == it.index(),
                it.seq().unref() == keys,
                it.seq().unref().to_set() == self.entities@,
                it.seq().unref().no_duplicates(),
                it.seq().len() == self.entities@.len(),
                forall|i: int| 0 <= i < r.len() ==> r@[i] == *it.seq()[i],
        {
            r.push(*e);
        }
        assert(r@ =~= keys);
        r
    }

    /// Makes `entities` the whole selection (as after duplicating, when the
    /// copies become selected).
    pub fn select_only(&mut self, entities: &Vec<u64>)
        ensures
            final(self).entities@ == entities@.to_set(),
    {
        self.clear();
        let mut i: usize = 0;
        while i < entities.len()
            invariant
                i <= entities.len(),
                self.entities@ == entities@.take(i as int).to_set(),
            decreases entities.len() - i,
        {
            proof {
                assert(entities@.take(i + 1).to_set() =~= entities@.take(i as int).to_set().insert(entities@[i as int])) by {
                    assert(entities@.take(i + 1) =~= entities@.take(i as int).push(entities@[i as int]));
                    assert forall|x: u64| entities@.take(i + 1).to_set().contains(x) implies
                        entities@.take(i as int).to_set().insert(entities@[i as int]).contains(x) by {
                        let j = entities@.take(i + 1).index_of(x);
                        if j < i {
                            assert(entities@.take(i as int)[j] == x);
                        }
                    }
                    assert forall|x: u64| entities@.take(i as int).to_set().insert(entities@[i as int]).contains(x)
                        implies entities@.take(i + 1).to_set().contains(x) by {
                        if x == entities@[i as int] {
                            assert(entities@.take(i + 1)[i as int] == x);
                        } else {
                            let j = entities@.take(i as int).index_of(x);
                            assert(entities@.take(i + 1)[j] == x);
                        }
                    }
                }
            }
            self.add(entities[i]);
            i = i + 1;
        }
        proof {
            assert(entities@.take(entities.len() as int) =~= entities@);
        }
    }

    /// A click on `entity`: when the click is allowed (see [`click_allowed`]),
    /// Ctrl flips the entity's membership and a plain click selects it alone.
    /// Returns whether the click was taken.
    pub fn handle_selection(
        &mut self,
        entity: u64,
        placement_active: bool,
        is_gizmo_handle: bool,
        is_editor_entity: bool,
        is_locked: bool,
        ctrl_held: bool,
    ) -> (taken: bool)
        ensures
            taken == click_allowed(placement_active, is_gizmo_handle, is_editor_entity, is_locked),
            final(self).entities@ == if taken {
                clicked(old(self).entities@, entity, ctrl_held)
            } else {
                old(self).entities@
            },
    {
        if placement_active || is_gizmo_handle || !is_editor_entity || is_locked {
            return false;
        }
        if ctrl_held {
            self.toggle(entity);
        } else {
            self.clear();
            self.add(entity);
        }
        true
    }

    /// Escape clears a non-empty selection, except while an object is being
    /// placed (there Escape cancels the placement). Returns whether it cleared.
    pub fn handle_deselection(&mut self, placement_active: bool, escape_pressed: bool) -> (cleared: bool)
        ensures
            cleared == (!placement_active && escape_pressed && !old(self).entities@.is_empty()),
            final(self).entities@ == if cleared {
                Set::<u64>::empty()
            } else {
                old(self).entities@
            },
    {
        if placement_active || !escape_pressed || self.is_empty() {
            return false;
        }
        self.clear();
        true
    }

    /// Delete removes every selected entity from the scene, except while an
    /// object is being placed. Returns the entities to remove (each once);
    /// the selection is then empty.
    pub fn delete_selected(&mut self, placement_active: bool, delete_pressed: bool) -> (deleted: Vec<u64>)
        ensures
            (!placement_active && delete_pressed) ==> {
                &&& deleted@.to_set() == old(self).entities@
                &&& deleted@.no_duplicates()
                &&& final(self).entities@ == Set::<u64>::empty()
            },
            !(!placement_active && delete_pressed) ==> {
                &&& deleted@ == Seq::<u64>::empty()
                &&& final(self).entities@ == old(self).entities@
            },
    {
        if placement_active || !delete_pressed {
            return Vec::new();
        }
        let deleted = self.to_vec();
        self.clear();
        deleted
    }
}

} // verus!
