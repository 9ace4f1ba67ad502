//! The scene hierarchy panel: which entries are expanded, and renaming an
//! entity in place.

use vstd::prelude::*;
use vstd::string::StringExecFns;
use std::collections::HashSet;
use crate::editor::selection::toggled;

verus! {

broadcast use vstd::std_specs::hash::group_hash_axioms;

/// The hierarchy panel's state.
pub struct HierarchyState {
    /// Entities whose children are shown.
    pub expanded: HashSet<u64>,
    /// The entity whose name is being edited, if any.
    pub renaming: Option<u64>,
    /// The name as edited so far.
    pub name_buffer: String,
}

impl Default for HierarchyState {
    fn default() -> (h: HierarchyState)
        ensures
            h.expanded@ == Set::<u64>::empty(),
            h.renaming is None,
            h.name_buffer@ == Seq::<char>::empty(),
    {
        HierarchyState { expanded: HashSet::new(), renaming: None, name_buffer: String::new() }
    }
}

impl HierarchyState {
    /// Whether `entity`'s children are shown.
    pub fn is_expanded(&self, entity: u64) -> (r: bool)
        ensures
            r == self.expanded@.contains(entity),
    {
        self.expanded.contains(&entity)
    }

    /// Shows `entity`'s children if hidden, hides them if shown.
    pub fn toggle_expanded(&mut self, entity: u64)
        ensures
            final(self).expanded@ == toggled(old(self).expanded@, entity),
            final(self).renaming == old(self).renaming,
            final(self).name_buffer@ == old(self).name_buffer@,
    {
        if self.expanded.contains(&entity) {
            self.expanded.remove(&entity);
        } else {
            self.expanded.insert(entity);
        }
    }

    /// Starts editing `entity`'s name, from `current_name`.
    pub fn start_rename(&mut self, entity: u64, current_name: &str)
        ensures
            final(self).renaming == Some(entity),
            final(self).name_buffer@ == current_name@,
            final(self).expanded@ == old(self).expanded@,
    {
        self.renaming = Some(entity);
        self.name_buffer = String::from_str(current_name);
    }

    /// Ends the edit: returns the entity and its new name, if an edit was
    /// going on, and clears the edit.
    pub fn finish_rename(&mut self) -> (r: Option<(u64, String)>)
        ensures
            match old(self).renaming {
                Some(e) => r matches Some(p) && p.0 == e && p.1@ == old(self).name_buffer@,
                None => r is None,
            },
            old(self).renaming is Some ==> final(self).renaming is None
                && final(self).name_buffer@ == Seq::<char>::empty(),
            old(self).renaming is None ==> final(self).renaming is None
                && final(self).name_buffer@ == old(self).name_buffer@,
            final(self).expanded@ == old(self).expanded@,
    {
        if let Some(entity) = self.renaming {
            let name = self.name_buffer.clone();
            self.renaming = None;
            self.name_buffer = String::new();
            Some((entity, name))
        } else {
            None
        }
    }

    /// Drops the edit without renaming.
    pub fn cancel_rename(&mut self)
        ensures
            final(self).renaming is None,
            final(self).name_buffer@ == Seq::<char>::empty(),
            final(self).expanded@ == old(self).expanded@,
    {
        self.renaming = None;
        self.name_buffer = String::new();
    }
}

} // verus!
