//! Duplicating the selected objects (Ctrl+D): which objects are copied, the
//! copies' names, which copy becomes the parent of which, and the selection
//! afterwards.

use vstd::prelude::*;
use vstd::string::StringExecFns;
use std::collections::HashMap;
use crate::editor::selection::SelectionSet;

verus! {

broadcast use vstd::std_specs::hash::group_hash_axioms;

/// Whether Ctrl+D duplicates the selection now: not while an object is being
/// placed, and only with something selected.
pub fn duplicate_requested(
    placement_active: bool,
    ctrl_held: bool,
    d_pressed: bool,
    selection_len: usize,
) -> (r: bool)
    ensures
        r == (!placement_active && ctrl_held && d_pressed && selection_len >= 1),
{
    !placement_active && ctrl_held && d_pressed && selection_len >= 1
}

/// The name of a copy: the copied object's name and " Copy", or "Copy" for an
/// object without a name.
pub open spec fn copy_name_of(name: Option<Seq<char>>) -> Seq<char> {
    match name {
        Some(n) => n + " Copy"@,
        None => "Copy"@,
    }
}

/// The name for the copy of an object named `name`.
pub fn copy_name(name: Option<&str>) -> (r: String)
    ensures
        r@ == copy_name_of(
            match name {
                Some(n) => Some(n@),
                None => None,
            },
        ),
{
    match name {
        Some(n) => String::from_str(n).concat(" Copy"),
        None => String::from_str("Copy"),
    }
}

/// The parent of each copy, for objects `sources` copied as `clones`: where
/// the parent `parents[i]` of `sources[i]` was copied too (as `clones[j]` of
/// `sources[j]`), the parent of `clones[i]` is that copy; otherwise
/// `clones[i]` has no parent.
pub fn cloned_parents(
    sources: &Vec<u64>,
    clones: &Vec<u64>,
    parents: &Vec<Option<u64>>,
) -> (r: Vec<Option<u64>>)
    requires
        sources@.no_duplicates(),
        clones.len() == sources.len(),
        parents.len() == sources.len(),
    ensures
        r.len() == parents.len(),
        forall|i: int, j: int|
            0 <= i < r.len() && 0 <= j < sources.len() && parents@[i] == Some(sources@[j])
                ==> #[trigger] r@[i] == Some(#[trigger] clones@[j]),
        forall|i: int|
            0 <= i < r.len() ==> (#[trigger] r@[i] is None <==> (match parents@[i] {
                Some(p) => !sources@.contains(p),
                None => true,
            })),
{
    let mut copy_of: HashMap<u64, u64> = HashMap::new();
    let mut k: usize = 0;
    while k < sources.len()
        invariant
            k <= sources.len(),
            clones.len() == sources.len(),
            sources@.no_duplicates(),
            copy_of@.dom() == sources@.take(k as int).to_set(),
            forall|j: int| 0 <= j < k ==> copy_of@[#[trigger] sources@[j]] == clones@[j],
        decreases sources.len() - k,
    {
        let ghost before = copy_of@;
        copy_of.insert(sources[k], clones[k]);
        proof {
            let t = sources@.take(k as int + 1);
            assert(t =~= sources@.take(k as int).push(sources@[k as int]));
            assert(copy_of@.dom() =~= t.to_set()) by {
                assert forall|x: u64| t.to_set().contains(x) implies copy_of@.dom().contains(x) by {
                    let j = t.index_of(x);
                    if j < k {
                        assert(sources@.take(k as int)[j] == x);
                    }
                }
                assert forall|x: u64| copy_of@.dom().contains(x) implies t.to_set().contains(x) by {
                    if x != sources@[k as int] {
                        assert(before.dom().contains(x));
                        let j = sources@.take(k as int).index_of(x);
                        assert(t[j] == x);
                    } else {
                        assert(t[k as int] == x);
                    }
                }
            }
            assert forall|j: int| 0 <= j < k + 1 implies copy_of@[#[trigger] sources@[j]] == clones@[j] by {
                if j < k {
                    assert(sources@[j] != sources@[k as int]);
                }
            }
        }
        k = k + 1;
    }
    proof {
        assert(sources@.take(sources.len() as int) =~= sources@);
    }
    let mut r: Vec<Option<u64>> = Vec::new();
    let mut i: usize = 0;
    while i < parents.len()
        invariant
            i <= parents.len(),
            r.len() == i,
            clones.len() == sources.len(),
            sources@.no_duplicates(),
            copy_of@.dom() == sources@.to_set(),
            forall|j: int| 0 <= j < sources.len() ==> copy_of@[#[trigger] sources@[j]] == clones@[j],
            forall|a: int, j: int|
                0 <= a < i && 0 <= j < sources.len() && parents@[a] == Some(sources@[j])
                    ==> #[trigger] r@[a] == Some(#[trigger] clones@[j]),
            forall|a: int|
                0 <= a < i ==> (#[trigger] r@[a] is None <==> (match parents@[a] {
                    Some(p) => !sources@.contains(p),
                    None => true,
                })),
        decreases parents.len() - i,
    {
        let next = match parents[i] {
            Some(p) => match copy_of.get(&p) {
                Some(c) => Some(*c),
                None => None,
            },
            None => None,
        };
        proof {
            match parents@[i as int] {
                Some(p) => {
                    if sources@.contains(p) {
                        let j = sources@.index_of(p);
                        assert(sources@.to_set().contains(p));
                        assert(next == Some(clones@[j]));
                    } else {
                        assert(!sources@.to_set().contains(p));
                    }
                },
                None => {},
            }
        }
        r.push(next);
        i = i + 1;
    }
    r
}

/// The objects that are copied, in the order of `selected`: those whose
/// entry in `has_transform` is set (an object without a transform is
/// skipped).
pub open spec fn copied_objects(selected: Seq<u64>, has_transform: Seq<bool>) -> Seq<u64>
    decreases selected.len(),
{
    if selected.len() == 0 {
        Seq::empty()
    } else {
        let n = selected.len() - 1;
        let rest = copied_objects(selected.take(n), has_transform.take(n));
        if has_transform[n] {
            rest.push(selected[n])
        } else {
            rest
        }
    }
}

/// The selected objects that get copied: those with a transform
/// (`has_transform[i]` for `selected[i]`), in order.
pub fn objects_to_copy(selected: &Vec<u64>, has_transform: &Vec<bool>) -> (r: Vec<u64>)
    requires
        has_transform.len() == selected.len(),
    ensures
        r@ == copied_objects(selected@, has_transform@),
{
    let mut r: Vec<u64> = Vec::new();
    let mut i: usize = 0;
    assert(selected@.take(0) =~= Seq::<u64>::empty());
    while i < selected.len()
        invariant
            i <= selected.len(),
            has_transform.len() == selected.len(),
            r@ == copied_objects(selected@.take(i as int), has_transform@.take(i as int)),
        decreases selected.len() - i,
    {
        proof {
            let s1 = selected@.take(i + 1);
            let t1 = has_transform@.take(i + 1);
            assert(s1.take(i as int) =~= selected@.take(i as int));
            assert(t1.take(i as int) =~= has_transform@.take(i as int));
            assert(s1[i as int] == selected@[i as int]);
            assert(t1[i as int] == has_transform@[i as int]);
        }
        if has_transform[i] {
            r.push(selected[i]);
        }
        i = i + 1;
    }
    proof {
        assert(selected@.take(selected.len() as int) =~= selected@);
        assert(has_transform@.take(selected.len() as int) =~= has_transform@);
    }
    r
}

/// After duplicating, the copies `clones` are selected and nothing else.
pub fn select_copies(selection: &mut SelectionSet, clones: &Vec<u64>)
    ensures
        final(selection).entities@ == clones@.to_set(),
{
    selection.select_only(clones);
}

} // verus!
