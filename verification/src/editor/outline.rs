//! The rows of the hierarchy panel: the scene's root entities in order, each
//! followed by the rows of its children when it is expanded.

use vstd::prelude::*;
use std::collections::{HashMap, HashSet};

verus! {

broadcast use vstd::std_specs::hash::group_hash_axioms;

/// The index of an entity within its generation: the low half of its id, by
/// which the panel orders the root entities.
pub open spec fn entity_index(id: u64) -> u64 {
    id % 0x1_0000_0000
}

/// The ids of the entities without a parent, in the given order.
pub open spec fn roots_of(entities: Seq<(u64, Option<u64>)>) -> Seq<u64>
    decreases entities.len(),
{
    if entities.len() == 0 {
        Seq::empty()
    } else {
        let rest = roots_of(entities.drop_last());
        if entities.last().1 is None {
            rest.push(entities.last().0)
        } else {
            rest
        }
    }
}

/// `s` with `x` inserted after every element whose index is not greater
/// than `x`'s.
pub open spec fn insert_by_index(s: Seq<u64>, x: u64) -> Seq<u64>
    decreases s.len(),
{
    if s.len() == 0 {
        seq![x]
    } else if entity_index(s.last()) > entity_index(x) {
        insert_by_index(s.drop_last(), x).push(s.last())
    } else {
        s.push(x)
    }
}

/// `s` ordered by entity index; entities with equal indices keep their
/// order (a stable sort).
pub open spec fn sort_by_index(s: Seq<u64>) -> Seq<u64>
    decreases s.len(),
{
    if s.len() == 0 {
        Seq::empty()
    } else {
        insert_by_index(sort_by_index(s.drop_last()), s.last())
    }
}

/// Whether `s` is ordered by entity index.
pub open spec fn ordered_by_index(s: Seq<u64>) -> bool {
    forall|i: int, j: int| 0 <= i < j < s.len() ==> entity_index(s[i]) <= entity_index(s[j])
}

proof fn lemma_insert_by_index(s: Seq<u64>, x: u64)
    requires
        ordered_by_index(s),
    ensures
        ordered_by_index(insert_by_index(s, x)),
        insert_by_index(s, x).to_multiset() == s.to_multiset().insert(x),
        insert_by_index(s, x).len() == s.len() + 1,
    decreases s.len(),
{
    broadcast use vstd::seq_lib::group_to_multiset_ensures;

    if s.len() > 0 {
        if entity_index(s.last()) > entity_index(x) {
            let t = s.drop_last();
            assert(ordered_by_index(t));
            lemma_insert_by_index(t, x);
            let u = insert_by_index(t, x);
            assert forall|k: int| 0 <= k < u.len() implies entity_index(u[k]) <= entity_index(s.last()) by {
                assert(u.to_multiset().count(u[k]) > 0);
                if u[k] != x {
                    assert(t.to_multiset().count(u[k]) > 0);
                    assert(t.contains(u[k]));
                    let m = t.index_of(u[k]);
                    assert(s[m] == u[k]);
                }
            }
            assert(s =~= t.push(s.last()));
        } else {
            assert forall|k: int| 0 <= k < s.len() implies entity_index(s[k]) <= entity_index(x) by {
                assert(entity_index(s[k]) <= entity_index(s[s.len() - 1]));
            }
        }
    }
}

/// The panel's root order is ordered by entity index, and holds exactly the
/// entities it was given.
pub proof fn lemma_sort_by_index(s: Seq<u64>)
    ensures
        ordered_by_index(sort_by_index(s)),
        sort_by_index(s).to_multiset() == s.to_multiset(),
    decreases s.len(),
{
    broadcast use vstd::seq_lib::group_to_multiset_ensures;

    if s.len() > 0 {
        lemma_sort_by_index(s.drop_last());
        lemma_insert_by_index(sort_by_index(s.drop_last()), s.last());
        assert(s =~= s.drop_last().push(s.last()));
    } else {
        assert(sort_by_index(s).to_multiset() =~= s.to_multiset());
    }
}

/// Inserts `x` into `r` as [`insert_by_index`] does.
fn insert_in_index_order(r: &mut Vec<u64>, x: u64)
    ensures
        final(r)@ == insert_by_index(old(r)@, x),
{
    let mut j: usize = r.len();
    proof {
        assert(r@.take(j as int) =~= r@);
        assert(insert_by_index(r@, x) + r@.skip(j as int) =~= insert_by_index(r@, x));
    }
    while j > 0 && r[j - 1] % 0x1_0000_0000 > x % 0x1_0000_0000
        invariant
            j <= r.len(),
            r@ == old(r)@,
            insert_by_index(r@, x) == insert_by_index(r@.take(j as int), x) + r@.skip(j as int),
        decreases j,
    {
        proof {
            let t = r@.take(j as int);
            assert(t.drop_last() =~= r@.take(j - 1));
            assert(t.last() == r@[j - 1]);
            assert(seq![r@[j - 1]] + r@.skip(j as int) =~= r@.skip(j - 1));
            assert(insert_by_index(t, x) == insert_by_index(r@.take(j - 1), x).push(r@[j - 1]));
            assert(insert_by_index(r@.take(j - 1), x).push(r@[j - 1]) + r@.skip(j as int)
                =~= insert_by_index(r@.take(j - 1), x) + r@.skip(j - 1));
        }
        j = j - 1;
    }
    proof {
        let t = r@.take(j as int);
        if j == 0 {
            assert(t.len() == 0);
        } else {
            assert(t.last() == r@[j - 1]);
        }
        assert(insert_by_index(t, x) == t.push(x));
        assert(t.push(x) + r@.skip(j as int) =~= r@.insert(j as int, x));
    }
    r.insert(j, x);
}

/// The scene's root entities (those without a parent, from `(id, parent)`
/// pairs) ordered by entity index, as the panel lists them.
pub fn root_entities(entities: &Vec<(u64, Option<u64>)>) -> (r: Vec<u64>)
    ensures
        r@ == sort_by_index(roots_of(entities@)),
{
    let mut r: Vec<u64> = Vec::new();
    let mut i: usize = 0;
    while i < entities.len()
        invariant
            i <= entities.len(),
            r@ == sort_by_index(roots_of(entities@.take(i as int))),
        decreases entities.len() - i,
    {
        let (id, parent) = entities[i];
        proof {
            let t = entities@.take(i + 1);
            assert(t.drop_last() =~= entities@.take(i as int));
            assert(t.last() == entities@[i as int]);
        }
        if parent.is_none() {
            proof {
                let s = roots_of(entities@.take(i as int));
                assert(s.push(id).drop_last() =~= s);
            }
            insert_in_index_order(&mut r, id);
        }
        i = i + 1;
    }
    proof {
        assert(entities@.take(entities.len() as int) =~= entities@);
    }
    r
}

/// The rows shown for the entities `ids` at indentation `depth`, in order.
/// `fuel` bounds how deep the panel goes; a hierarchy with fewer levels than
/// `fuel` is shown whole.
pub open spec fn rows_of_list(
    ids: Seq<u64>,
    children: Map<u64, Vec<u64>>,
    expanded: Set<u64>,
    depth: nat,
    fuel: nat,
) -> Seq<(u64, nat)>
    decreases fuel, ids.len(), 1nat,
{
    if ids.len() == 0 {
        Seq::empty()
    } else {
        rows_of_node(ids[0], children, expanded, depth, fuel) + rows_of_list(
            ids.skip(1),
            children,
            expanded,
            depth,
            fuel,
        )
    }
}

/// The rows shown for entity `id` at indentation `depth`: its own row, then,
/// when it is expanded, the rows of its children one level deeper.
pub open spec fn rows_of_node(
    id: u64,
    children: Map<u64, Vec<u64>>,
    expanded: Set<u64>,
    depth: nat,
    fuel: nat,
) -> Seq<(u64, nat)>
    decreases fuel, 0nat, 0nat,
{
    seq![(id, depth)] + if fuel > 0 && expanded.contains(id) && children.contains_key(id) {
        rows_of_list(children[id]@, children, expanded, depth + 1, (fuel - 1) as nat)
    } else {
        Seq::empty()
    }
}

/// The rows of `ids[start..]`.
fn push_rows_of_list(
    ids: &Vec<u64>,
    start: usize,
    children: &HashMap<u64, Vec<u64>>,
    expanded: &HashSet<u64>,
    depth: usize,
    fuel: usize,
    out: &mut Vec<(u64, usize)>,
)
    requires
        start <= ids.len(),
        depth + fuel < usize::MAX,
    ensures
        final(out)@.map_values(|r: (u64, usize)| (r.0, r.1 as nat)) == old(out)@.map_values(
            |r: (u64, usize)| (r.0, r.1 as nat),
        ) + rows_of_list(ids@.skip(start as int), children@, expanded@, depth as nat, fuel as nat),
    decreases fuel, ids.len() - start, 1nat,
{
    if start == ids.len() {
        proof {
            assert(ids@.skip(start as int).len() == 0);
            assert(old(out)@.map_values(|r: (u64, usize)| (r.0, r.1 as nat)) + Seq::empty()
                =~= old(out)@.map_values(|r: (u64, usize)| (r.0, r.1 as nat)));
        }
        return;
    }
    push_rows_of_node(ids[start], children, expanded, depth, fuel, out);
    push_rows_of_list(ids, start + 1, children, expanded, depth, fuel, out);
    proof {
        let s = ids@.skip(start as int);
        assert(s[0] == ids@[start as int]);
        assert(s.skip(1) =~= ids@.skip(start + 1));
    }
}

/// The rows of entity `id`.
fn push_rows_of_node(
    id: u64,
    children: &HashMap<u64, Vec<u64>>,
    expanded: &HashSet<u64>,
    depth: usize,
    fuel: usize,
    out: &mut Vec<(u64, usize)>,
)
    requires
        depth + fuel < usize::MAX,
    ensures
        final(out)@.map_values(|r: (u64, usize)| (r.0, r.1 as nat)) == old(out)@.map_values(
            |r: (u64, usize)| (r.0, r.1 as nat),
        ) + rows_of_node(id, children@, expanded@, depth as nat, fuel as nat),
    decreases fuel, 0nat, 0nat,
{
    let ghost before = out@;
    out.push((id, depth));
    proof {
        assert(out@.map_values(|r: (u64, usize)| (r.0, r.1 as nat)) =~= before.map_values(
            |r: (u64, usize)| (r.0, r.1 as nat),
        ) + seq![(id, depth as nat)]);
    }
    if fuel > 0 && expanded.contains(&id) {
        match children.get(&id) {
            Some(kids) => {
                push_rows_of_list(kids, 0, children, expanded, depth + 1, fuel - 1, out);
                proof {
                    assert(kids@.skip(0) =~= kids@);
                    assert(children@.contains_key(id));
                }
            },
            None => {},
        }
    }
}

/// The hierarchy panel's rows, top to bottom: each entity with its
/// indentation level, starting from `roots` at level 0. `fuel` bounds the
/// depth: pass more than the number of entities to show a hierarchy whole.
pub fn visible_rows(
    roots: &Vec<u64>,
    children: &HashMap<u64, Vec<u64>>,
    expanded: &HashSet<u64>,
    fuel: usize,
) -> (rows: Vec<(u64, usize)>)
    requires
        fuel < usize::MAX,
    ensures
        rows@.map_values(|r: (u64, usize)| (r.0, r.1 as nat)) == rows_of_list(
            roots@,
            children@,
            expanded@,
            0,
            fuel as nat,
        ),
{
    let mut rows: Vec<(u64, usize)> = Vec::new();
    push_rows_of_list(roots, 0, children, expanded, 0, fuel, &mut rows);
    proof {
        assert(roots@.skip(0) =~= roots@);
    }
    rows
}

} // verus!
