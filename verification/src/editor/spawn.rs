//! Choosing where the player starts among the spawn points of a scene.

use vstd::prelude::*;
use vstd::string::StringExecFns;

verus! {

/// A spawn point with a name, and a priority for when no name is asked for.
pub struct NamedSpawnPoint {
    pub name: String,
    pub priority: i32,
}

/// Among the marked spawn points, the one to use: the only one, or the first
/// of several; none when there is none.
pub fn spawn_marker_to_use(marker_count: usize) -> (r: Option<usize>)
    ensures
        marker_count == 0 ==> r is None,
        marker_count > 0 ==> r == Some(0usize),
{
    if marker_count == 0 {
        None
    } else {
        Some(0)
    }
}

/// The spawn point to start at: with a name asked for, the first point with
/// that name; otherwise the point of highest priority, the last of them on a
/// tie. `None` (the default position) when there is no such point.
pub fn choose_spawn_point(points: &Vec<NamedSpawnPoint>, desired: Option<&str>) -> (r: Option<usize>)
    ensures
        match desired {
            Some(n) => match r {
                Some(k) => k < points@.len() && points@[k as int].name@ == n@ && forall|j: int|
                    0 <= j < k ==> #[trigger] points@[j].name@ != n@,
                None => forall|j: int| 0 <= j < points@.len() ==> #[trigger] points@[j].name@ != n@,
            },
            None => match r {
                Some(k) => k < points@.len() && (forall|j: int|
                    0 <= j < points@.len() ==> #[trigger] points@[j].priority <= points@[k as int].priority)
                    && forall|j: int| k < j < points@.len() ==> #[trigger] points@[j].priority
                    < points@[k as int].priority,
                None => points@.len() == 0,
            },
        },
{
    match desired {
        Some(name) => {
            let wanted = String::from_str(name);
            let mut k: usize = 0;
            while k < points.len()
                invariant
                    k <= points@.len(),
                    wanted@ == name@,
                    desired == Some(name),
                    forall|j: int| 0 <= j < k ==> #[trigger] points@[j].name@ != name@,
                decreases points@.len() - k,
            {
                let same = points[k].name == wanted;
                if same {
                    assert(points@[k as int].name@ == name@);
                    return Some(k);
                }
                k = k + 1;
            }
            None
        },
        None => {
            if points.len() == 0 {
                return None;
            }
            let mut best: usize = 0;
            let mut k: usize = 1;
            while k < points.len()
                invariant
                    1 <= k <= points@.len(),
                    desired is None,
                    best < k,
                    forall|j: int| 0 <= j < k ==> #[trigger] points@[j].priority <= points@[best as int].priority,
                    forall|j: int| best < j < k ==> #[trigger] points@[j].priority < points@[best as int].priority,
                decreases points@.len() - k,
            {
                if points[k].priority >= points[best].priority {
                    best = k;
                }
                k = k + 1;
            }
            Some(best)
        },
    }
}

} // verus!
