//! Grouping selected objects under a new parent, and the names of the groups.

use vstd::prelude::*;
use vstd::string::StringExecFns;
use crate::editor::text::{decimal, decimal_string, lemma_decimal_injective, lemma_decimal_len};

verus! {

/// The name of the group made when `count` groups were made before it:
/// "Group" for the first, then "Group 1", "Group 2", and so on.
pub open spec fn group_name(count: nat) -> Seq<char> {
    if count == 0 {
        "Group"@
    } else {
        "Group "@ + decimal(count)
    }
}

/// No two groups get the same name.
pub proof fn lemma_group_names_distinct(a: nat, b: nat)
    requires
        a != b,
    ensures
        group_name(a) != group_name(b),
{
    reveal_strlit("Group");
    reveal_strlit("Group ");
    if a > 0 && b > 0 {
        if group_name(a) == group_name(b) {
            assert(decimal(a) == group_name(a).skip(6));
            assert(decimal(b) == group_name(b).skip(6));
            lemma_decimal_injective(a, b);
        }
    } else if a > 0 {
        lemma_decimal_len(a);
        assert(group_name(a).len() > group_name(b).len());
    } else if b > 0 {
        lemma_decimal_len(b);
        assert(group_name(b).len() > group_name(a).len());
    }
}

/// The number of groups made so far.
pub struct GroupCounter {
    pub count: usize,
}

impl Default for GroupCounter {
    fn default() -> (c: GroupCounter)
        ensures
            c.count == 0,
    {
        GroupCounter { count: 0 }
    }
}

impl GroupCounter {
    /// The name for a new group; counts it.
    pub fn next_name(&mut self) -> (r: String)
        requires
            old(self).count < usize::MAX,
        ensures
            r@ == group_name(old(self).count as nat),
            final(self).count == old(self).count + 1,
    {
        if self.count == 0 {
            self.count = self.count + 1;
            String::from_str("Group")
        } else {
            let name = String::from_str("Group ").concat(decimal_string(self.count as u64).as_str());
            self.count = self.count + 1;
            name
        }
    }
}

/// Whether Ctrl+G groups the selection now: not while an object is being
/// placed, Shift not held, and at least two objects selected.
pub fn group_requested(
    placement_active: bool,
    ctrl_held: bool,
    shift_held: bool,
    g_pressed: bool,
    selection_len: usize,
) -> (r: bool)
    ensures
        r == (!placement_active && ctrl_held && g_pressed && !shift_held && selection_len >= 2),
{
    !placement_active && ctrl_held && g_pressed && !shift_held && selection_len >= 2
}

/// Whether Ctrl+Shift+G ungroups the selection now: not while an object is
/// being placed, and only with something selected.
pub fn ungroup_requested(
    placement_active: bool,
    ctrl_held: bool,
    shift_held: bool,
    g_pressed: bool,
    selection_len: usize,
) -> (r: bool)
    ensures
        r == (!placement_active && ctrl_held && shift_held && g_pressed && selection_len >= 1),
{
    !placement_active && ctrl_held && shift_held && g_pressed && selection_len >= 1
}

} // verus!
