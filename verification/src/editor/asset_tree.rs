//! The folder tree of the asset browser: the model files found under the
//! asset directory, grouped by the folder they sit in. A path is the list of
//! its components (folder and file names).

use vstd::prelude::*;
use vstd::string::StringExecFns;
use crate::editor::assets::{chars_of, lowercase, matches_filter, occurs_in};

verus! {

/// `a` sorts before `b`: character by character, by code point, a proper
/// prefix first (the order of `OsStr` on UTF-8 text).
pub open spec fn name_lt(a: Seq<char>, b: Seq<char>) -> bool
    decreases a.len(),
{
    if a.len() == 0 {
        b.len() > 0
    } else if b.len() == 0 {
        false
    } else if a[0] != b[0] {
        a[0] < b[0]
    } else {
        name_lt(a.skip(1), b.skip(1))
    }
}

/// `a` sorts before `b`: component by component, a proper prefix first (the
/// order of `Path` on paths made of plain names).
pub open spec fn path_lt(a: Seq<Seq<char>>, b: Seq<Seq<char>>) -> bool
    decreases a.len(),
{
    if a.len() == 0 {
        b.len() > 0
    } else if b.len() == 0 {
        false
    } else if a[0] != b[0] {
        name_lt(a[0], b[0])
    } else {
        path_lt(a.skip(1), b.skip(1))
    }
}

proof fn lemma_name_lt_order(a: Seq<char>, b: Seq<char>, c: Seq<char>)
    ensures
        !name_lt(a, a),
        a != b ==> (name_lt(a, b) || name_lt(b, a)),
        name_lt(a, b) ==> !name_lt(b, a),
        name_lt(a, b) && name_lt(b, c) ==> name_lt(a, c),
    decreases a.len(),
{
    if a.len() > 0 && b.len() > 0 && c.len() > 0 {
        lemma_name_lt_order(a.skip(1), b.skip(1), c.skip(1));
    } else if a.len() > 0 && b.len() > 0 {
        lemma_name_lt_order(a.skip(1), b.skip(1), b.skip(1));
    } else if a.len() > 0 {
        lemma_name_lt_order(a.skip(1), a.skip(1), a.skip(1));
    }
    if a.len() == 0 && b.len() == 0 {
        assert(a =~= b);
    }
    if a.len() > 0 && b.len() > 0 && a[0] == b[0] && a != b {
        assert(a.skip(1) != b.skip(1)) by {
            if a.skip(1) == b.skip(1) {
                assert(a =~= seq![a[0]] + a.skip(1));
                assert(b =~= seq![b[0]] + b.skip(1));
            }
        }
    }
}

proof fn lemma_path_lt_order(a: Seq<Seq<char>>, b: Seq<Seq<char>>, c: Seq<Seq<char>>)
    ensures
        !path_lt(a, a),
        a != b ==> (path_lt(a, b) || path_lt(b, a)),
        path_lt(a, b) ==> !path_lt(b, a),
        path_lt(a, b) && path_lt(b, c) ==> path_lt(a, c),
    decreases a.len(),
{
    if a.len() == 0 && b.len() == 0 {
        assert(a =~= b);
    }
    if a.len() > 0 {
        lemma_name_lt_order(a[0], a[0], a[0]);
    }
    if a.len() > 0 && b.len() > 0 {
        lemma_name_lt_order(a[0], b[0], b[0]);
        lemma_name_lt_order(b[0], a[0], a[0]);
        if c.len() > 0 {
            lemma_name_lt_order(a[0], b[0], c[0]);
            lemma_path_lt_order(a.skip(1), b.skip(1), c.skip(1));
        } else {
            lemma_path_lt_order(a.skip(1), b.skip(1), b.skip(1));
        }
        if a[0] == b[0] && a != b {
            assert(a.skip(1) != b.skip(1)) by {
                if a.skip(1) == b.skip(1) {
                    assert(a =~= seq![a[0]] + a.skip(1));
                    assert(b =~= seq![b[0]] + b.skip(1));
                }
            }
        }
    } else if a.len() > 0 {
        lemma_path_lt_order(a.skip(1), a.skip(1), a.skip(1));
    }
}

/// `name_lt` on character vectors, from position `i` on.
fn name_lt_from(a: &Vec<char>, b: &Vec<char>, i: usize) -> (r: bool)
    requires
        i <= a@.len(),
        i <= b@.len(),
    ensures
        r == name_lt(a@.skip(i as int), b@.skip(i as int)),
    decreases a@.len() - i,
{
    let ghost sa = a@.skip(i as int);
    let ghost sb = b@.skip(i as int);
    if i == a.len() {
        return i < b.len();
    }
    if i == b.len() {
        return false;
    }
    assert(sa[0] == a@[i as int] && sb[0] == b@[i as int]);
    if a[i] != b[i] {
        return a[i] < b[i];
    }
    assert(sa.skip(1) =~= a@.skip(i + 1));
    assert(sb.skip(1) =~= b@.skip(i + 1));
    name_lt_from(a, b, i + 1)
}

/// `name_lt` on strings.
fn name_less(a: &String, b: &String) -> (r: bool)
    ensures
        r == name_lt(a@, b@),
{
    let ca = chars_of(a.as_str());
    let cb = chars_of(b.as_str());
    assert(ca@.skip(0) =~= ca@);
    assert(cb@.skip(0) =~= cb@);
    name_lt_from(&ca, &cb, 0)
}

/// The components of a path as character sequences.
pub open spec fn path_view(p: Seq<String>) -> Seq<Seq<char>> {
    p.map_values(|s: String| s@)
}

/// Whether two paths have the same components.
fn same_path(a: &Vec<String>, b: &Vec<String>) -> (r: bool)
    ensures
        r == (path_view(a@) == path_view(b@)),
{
    if a.len() != b.len() {
        proof {
            assert(path_view(a@).len() != path_view(b@).len());
        }
        return false;
    }
    let mut i: usize = 0;
    while i < a.len()
        invariant
            i <= a@.len(),
            a@.len() == b@.len(),
            forall|j: int| 0 <= j < i ==> a@[j]@ == b@[j]@,
        decreases a@.len() - i,
    {
        if a[i] != b[i] {
            proof {
                assert(path_view(a@)[i as int] != path_view(b@)[i as int]);
            }
            return false;
        }
        i = i + 1;
    }
    assert(path_view(a@) =~= path_view(b@));
    true
}

/// `path_lt` on paths, from component `i` on.
fn path_lt_from(a: &Vec<String>, b: &Vec<String>, i: usize) -> (r: bool)
    requires
        i <= a@.len(),
        i <= b@.len(),
    ensures
        r == path_lt(path_view(a@).skip(i as int), path_view(b@).skip(i as int)),
    decreases a@.len() - i,
{
    let ghost sa = path_view(a@).skip(i as int);
    let ghost sb = path_view(b@).skip(i as int);
    if i == a.len() {
        return i < b.len();
    }
    if i == b.len() {
        return false;
    }
    assert(sa[0] == a@[i as int]@ && sb[0] == b@[i as int]@);
    if a[i] != b[i] {
        return name_less(&a[i], &b[i]);
    }
    assert(sa.skip(1) =~= path_view(a@).skip(i + 1));
    assert(sb.skip(1) =~= path_view(b@).skip(i + 1));
    path_lt_from(a, b, i + 1)
}

/// `path_lt` on paths.
fn path_less(a: &Vec<String>, b: &Vec<String>) -> (r: bool)
    ensures
        r == path_lt(path_view(a@), path_view(b@)),
{
    assert(path_view(a@).skip(0) =~= path_view(a@));
    assert(path_view(b@).skip(0) =~= path_view(b@));
    path_lt_from(a, b, 0)
}

/// A model file found under the asset directory.
pub struct GlbAsset {
    /// The file name without its extension.
    pub name: String,
    /// The file's path below the asset directory.
    pub relative_path: Vec<String>,
}

/// A folder of the asset tree.
pub struct AssetFolder {
    pub name: String,
    pub path: Vec<String>,
    /// Indices of the assets directly in this folder.
    pub assets: Vec<usize>,
    pub subfolders: Vec<AssetFolder>,
}

impl AssetFolder {
    /// Whether the folder has an arrow to open it: it has subfolders or more
    /// than one asset.
    pub fn has_children(&self) -> (r: bool)
        ensures
            r == (self.subfolders@.len() > 0 || self.assets@.len() > 1),
    {
        !self.subfolders.is_empty() || self.assets.len() > 1
    }

    /// Whether the folder's assets and subfolders are listed under it: when
    /// it is expanded, or when it has nothing to open.
    pub fn shows_contents(&self, expanded: bool) -> (r: bool)
        ensures
            r == (expanded || !(self.subfolders@.len() > 0 || self.assets@.len() > 1)),
    {
        expanded || !self.has_children()
    }
}

/// The folder a file sits in: its path without the last component.
pub open spec fn parent_of(p: Seq<Seq<char>>) -> Seq<Seq<char>> {
    if p.len() == 0 {
        p
    } else {
        p.drop_last()
    }
}

/// `prefix` is made of the first components of `p`.
pub open spec fn starts_with(p: Seq<Seq<char>>, prefix: Seq<Seq<char>>) -> bool {
    prefix.len() <= p.len() && p.take(prefix.len() as int) == prefix
}

/// The paths of `ds` in order.
pub open spec fn paths_view(ds: Seq<Vec<String>>) -> Seq<Seq<Seq<char>>> {
    ds.map_values(|p: Vec<String>| path_view(p@))
}

/// Each path sorts before every later one.
pub open spec fn strictly_sorted(ds: Seq<Seq<Seq<char>>>) -> bool {
    forall|i: int, j: int| 0 <= i < j < ds.len() ==> path_lt(ds[i], ds[j])
}

/// Two sorted lists of distinct folders with the same folders are the same
/// list: the folder order of the asset tree is determined.
pub proof fn lemma_sorted_paths_unique(a: Seq<Seq<Seq<char>>>, b: Seq<Seq<Seq<char>>>)
    requires
        strictly_sorted(a),
        strictly_sorted(b),
        a.to_set() == b.to_set(),
    ensures
        a == b,
    decreases a.len(),
{
    if a.len() == 0 {
        if b.len() > 0 {
            assert(b.to_set().contains(b[0]));
        }
        assert(a =~= b);
    } else {
        assert(a.to_set().contains(a[0]));
        assert(b.contains(a[0]));
        let j = b.index_of(a[0]);
        assert(a.to_set().contains(b[0]) == b.to_set().contains(b[0]));
        assert(b.to_set().contains(b[0]));
        let i = a.index_of(b[0]);
        if j > 0 {
            assert(path_lt(b[0], b[j]));
            if i > 0 {
                assert(path_lt(a[0], a[i]));
                lemma_path_lt_order(a[0], a[i], a[0]);
            } else {
                lemma_path_lt_order(b[0], b[0], b[0]);
            }
        }
        assert(a[0] == b[0]);
        let a1 = a.skip(1);
        let b1 = b.skip(1);
        assert(strictly_sorted(a1)) by {
            assert forall|x: int, y: int| 0 <= x < y < a1.len() implies path_lt(a1[x], a1[y]) by {
                assert(a1[x] == a[x + 1] && a1[y] == a[y + 1]);
            }
        }
        assert(strictly_sorted(b1)) by {
            assert forall|x: int, y: int| 0 <= x < y < b1.len() implies path_lt(b1[x], b1[y]) by {
                assert(b1[x] == b[x + 1] && b1[y] == b[y + 1]);
            }
        }
        assert(a1.to_set() =~= b1.to_set()) by {
            assert forall|p: Seq<Seq<char>>| a1.to_set().contains(p) implies b1.to_set().contains(p) by {
                let x = a1.index_of(p);
                assert(a[x + 1] == p);
                assert(path_lt(a[0], p));
                lemma_path_lt_order(p, p, p);
                assert(b.to_set().contains(p));
                let y = b.index_of(p);
                assert(y != 0);
                assert(b1[y - 1] == p);
            }
            assert forall|p: Seq<Seq<char>>| b1.to_set().contains(p) implies a1.to_set().contains(p) by {
                let y = b1.index_of(p);
                assert(b[y + 1] == p);
                assert(path_lt(b[0], p));
                lemma_path_lt_order(p, p, p);
                assert(a.to_set().contains(p));
                let x = a.index_of(p);
                assert(x != 0);
                assert(a1[x - 1] == p);
            }
        }
        lemma_sorted_paths_unique(a1, b1);
        assert(a =~= b) by {
            assert forall|x: int| 0 <= x < a.len() implies a[x] == b[x] by {
                if x > 0 {
                    assert(a[x] == a1[x - 1] && b[x] == b1[x - 1]);
                }
            }
        }
    }
}

/// The copy of a path.
fn copy_path(p: &Vec<String>) -> (r: Vec<String>)
    ensures
        path_view(r@) == path_view(p@),
{
    let mut r: Vec<String> = Vec::new();
    let mut i: usize = 0;
    while i < p.len()
        invariant
            i <= p@.len(),
            r@.len() == i,
            forall|j: int| 0 <= j < i ==> r@[j]@ == p@[j]@,
        decreases p@.len() - i,
    {
        r.push(p[i].clone());
        i = i + 1;
    }
    assert(path_view(r@) =~= path_view(p@));
    r
}

/// The folder of a file path (see [`parent_of`]).
fn parent_path(p: &Vec<String>) -> (r: Vec<String>)
    ensures
        path_view(r@) == parent_of(path_view(p@)),
{
    let n = if p.len() == 0 { 0 } else { p.len() - 1 };
    let mut r: Vec<String> = Vec::new();
    let mut i: usize = 0;
    while i < n
        invariant
            i <= n,
            n <= p@.len(),
            n == (if p@.len() == 0 { 0 } else { p@.len() - 1 }),
            r@.len() == i,
            forall|j: int| 0 <= j < i ==> r@[j]@ == p@[j]@,
        decreases n - i,
    {
        r.push(p[i].clone());
        i = i + 1;
    }
    assert(path_view(r@) =~= parent_of(path_view(p@)));
    r
}

/// Whether `p` starts with the components of `prefix`.
fn path_starts_with(p: &Vec<String>, prefix: &Vec<String>) -> (r: bool)
    ensures
        r == starts_with(path_view(p@), path_view(prefix@)),
{
    if prefix.len() > p.len() {
        return false;
    }
    let mut i: usize = 0;
    while i < prefix.len()
        invariant
            i <= prefix@.len() <= p@.len(),
            forall|j: int| 0 <= j < i ==> p@[j]@ == prefix@[j]@,
        decreases prefix@.len() - i,
    {
        if p[i] != prefix[i] {
            proof {
                assert(path_view(p@).take(prefix@.len() as int)[i as int] != path_view(prefix@)[i as int]);
            }
            return false;
        }
        i = i + 1;
    }
    assert(path_view(p@).take(prefix@.len() as int) =~= path_view(prefix@));
    true
}

/// Adds `d` to the sorted list of distinct paths `dirs`, unless it is there.
fn insert_path(dirs: &mut Vec<Vec<String>>, d: Vec<String>)
    requires
        strictly_sorted(paths_view(old(dirs)@)),
    ensures
        strictly_sorted(paths_view(final(dirs)@)),
        paths_view(final(dirs)@).to_set() == paths_view(old(dirs)@).to_set().insert(path_view(d@)),
{
    let ghost pd = path_view(d@);
    let mut j: usize = 0;
    let mut before: bool = dirs.len() > 0 && path_less(&dirs[0], &d);
    proof {
        if dirs@.len() > 0 {
            assert(paths_view(dirs@)[0] == path_view(dirs@[0]@));
        }
    }
    while before
        invariant
            j < dirs.len() || !before,
            pd == path_view(d@),
            j <= dirs@.len(),
            dirs@ == old(dirs)@,
            before ==> path_lt(paths_view(dirs@)[j as int], pd),
            !before ==> (j == dirs@.len() || !path_lt(paths_view(dirs@)[j as int], pd)),
            forall|k: int| 0 <= k < j ==> path_lt(#[trigger] paths_view(dirs@)[k], pd),
        decreases dirs@.len() - j,
    {
        j = j + 1;
        before = j < dirs.len() && path_less(&dirs[j], &d);
        proof {
            if j < dirs@.len() {
                assert(paths_view(dirs@)[j as int] == path_view(dirs@[j as int]@));
            }
        }
    }
    let ghost v = paths_view(dirs@);
    if j < dirs.len() && same_path(&dirs[j], &d) {
        proof {
            assert(v[j as int] == pd);
            assert(v.to_set().insert(pd) =~= v.to_set());
        }
        return;
    }
    proof {
        if j < v.len() {
            lemma_path_lt_order(v[j as int], pd, pd);
            assert(path_lt(pd, v[j as int]));
        }
    }
    dirs.insert(j, d);
    proof {
        let nv = paths_view(dirs@);
        assert(nv =~= v.insert(j as int, pd));
        assert forall|a: int, b: int| 0 <= a < b < nv.len() implies path_lt(nv[a], nv[b]) by {
            if b < j {
            } else if b == j {
            } else if a < j {
                lemma_path_lt_order(nv[a], pd, nv[b]);
                if b - 1 > j {
                    lemma_path_lt_order(pd, v[j as int], v[b - 1]);
                }
            } else if a == j {
                if b - 1 > j {
                    lemma_path_lt_order(pd, v[j as int], v[b - 1]);
                }
            } else {
            }
        }
        assert forall|x: Seq<Seq<char>>| nv.to_set().contains(x) == v.to_set().insert(pd).contains(x) by {
            if nv.contains(x) {
                let k = nv.index_of(x);
                if k < j {
                    assert(v[k] == x);
                } else if k > j {
                    assert(v[k - 1] == x);
                }
            }
            if v.contains(x) {
                let k = v.index_of(x);
                if k < j {
                    assert(nv[k] == x);
                } else {
                    assert(nv[k + 1] == x);
                }
            }
            if x == pd {
                assert(nv[j as int] == x);
            }
        }
        assert(nv.to_set() =~= v.to_set().insert(pd));
    }
}

/// Whether asset `i` is listed under the search text `filter` (see
/// [`crate::editor::assets::matches_filter`]).
pub open spec fn shown(assets: Seq<GlbAsset>, filter: Seq<char>, i: int) -> bool {
    filter.len() == 0 || occurs_in(lowercase(filter), lowercase(assets[i].name@))
}

/// The folder that asset `i` sits in.
pub open spec fn folder_of(assets: Seq<GlbAsset>, i: int) -> Seq<Seq<char>> {
    parent_of(path_view(assets[i].relative_path@))
}

/// The listed assets among the first `n` that sit in folder `d`, in order.
pub open spec fn assets_in(assets: Seq<GlbAsset>, filter: Seq<char>, d: Seq<Seq<char>>, n: int) -> Seq<usize>
    decreases n,
{
    if n <= 0 {
        Seq::empty()
    } else {
        let rest = assets_in(assets, filter, d, n - 1);
        if shown(assets, filter, n - 1) && folder_of(assets, n - 1) == d {
            rest.push((n - 1) as usize)
        } else {
            rest
        }
    }
}

/// The folders that hold a listed asset among the first `n`.
pub open spec fn folders_of(assets: Seq<GlbAsset>, filter: Seq<char>, n: int) -> Set<Seq<Seq<char>>> {
    Set::new(|d: Seq<Seq<char>>| exists|i: int| 0 <= i < n && #[trigger] shown(assets, filter, i) && folder_of(assets, i) == d)
}

/// For each asset, whether it is listed under `filter`.
fn shown_flags(assets: &Vec<GlbAsset>, filter: &str) -> (r: Vec<bool>)
    ensures
        r@.len() == assets@.len(),
        forall|i: int| 0 <= i < assets@.len() ==> r@[i] == shown(assets@, filter@, i),
{
    let mut r: Vec<bool> = Vec::new();
    let mut i: usize = 0;
    while i < assets.len()
        invariant
            i <= assets@.len(),
            r@.len() == i,
            forall|j: int| 0 <= j < i ==> r@[j] == shown(assets@, filter@, j),
        decreases assets@.len() - i,
    {
        r.push(matches_filter(assets[i].name.as_str(), filter));
        i = i + 1;
    }
    r
}

/// The folders holding a listed asset, sorted, each once.
fn collect_folders(assets: &Vec<GlbAsset>, filter: &str, flags: &Vec<bool>) -> (dirs: Vec<Vec<String>>)
    requires
        flags@.len() == assets@.len(),
        forall|i: int| 0 <= i < assets@.len() ==> flags@[i] == shown(assets@, filter@, i),
    ensures
        strictly_sorted(paths_view(dirs@)),
        paths_view(dirs@).to_set() == folders_of(assets@, filter@, assets@.len() as int),
{
    let mut dirs: Vec<Vec<String>> = Vec::new();
    let mut i: usize = 0;
    proof {
        assert(paths_view(dirs@).to_set() =~= folders_of(assets@, filter@, 0));
    }
    while i < assets.len()
        invariant
            i <= assets@.len(),
            flags@.len() == assets@.len(),
            forall|j: int| 0 <= j < assets@.len() ==> flags@[j] == shown(assets@, filter@, j),
            strictly_sorted(paths_view(dirs@)),
            paths_view(dirs@).to_set() == folders_of(assets@, filter@, i as int),
        decreases assets@.len() - i,
    {
        if flags[i] {
            let d = parent_path(&assets[i].relative_path);
            insert_path(&mut dirs, d);
            proof {
                assert(paths_view(dirs@).to_set() =~= folders_of(assets@, filter@, i + 1)) by {
                    assert forall|x: Seq<Seq<char>>| folders_of(assets@, filter@, i + 1).contains(x) implies
                        paths_view(dirs@).to_set().contains(x) by {
                        let k = choose|k: int| 0 <= k < i + 1 && #[trigger] shown(assets@, filter@, k) && folder_of(assets@, k) == x;
                        if k < i {
                            assert(folders_of(assets@, filter@, i as int).contains(x));
                        }
                    }
                    assert forall|x: Seq<Seq<char>>| paths_view(dirs@).to_set().contains(x) implies
                        folders_of(assets@, filter@, i + 1).contains(x) by {
                        if x != folder_of(assets@, i as int) {
                            assert(folders_of(assets@, filter@, i as int).contains(x));
                            let k = choose|k: int| 0 <= k < i && #[trigger] shown(assets@, filter@, k) && folder_of(assets@, k) == x;
                            assert(shown(assets@, filter@, k));
                        } else {
                            assert(shown(assets@, filter@, i as int));
                        }
                    }
                }
            }
        } else {
            proof {
                assert(paths_view(dirs@).to_set() =~= folders_of(assets@, filter@, i + 1)) by {
                    assert forall|x: Seq<Seq<char>>| folders_of(assets@, filter@, i + 1).contains(x) implies
                        folders_of(assets@, filter@, i as int).contains(x) by {
                        let k = choose|k: int| 0 <= k < i + 1 && #[trigger] shown(assets@, filter@, k) && folder_of(assets@, k) == x;
                        assert(k != i);
                        assert(shown(assets@, filter@, k));
                    }
                    assert forall|x: Seq<Seq<char>>| folders_of(assets@, filter@, i as int).contains(x) implies
                        folders_of(assets@, filter@, i + 1).contains(x) by {
                        let k = choose|k: int| 0 <= k < i && #[trigger] shown(assets@, filter@, k) && folder_of(assets@, k) == x;
                        assert(shown(assets@, filter@, k));
                    }
                }
            }
        }
        i = i + 1;
    }
    dirs
}

/// The listed assets that sit in folder `d`, in order.
fn assets_in_folder(assets: &Vec<GlbAsset>, filter: &str, flags: &Vec<bool>, d: &Vec<String>) -> (r: Vec<usize>)
    requires
        flags@.len() == assets@.len(),
        forall|i: int| 0 <= i < assets@.len() ==> flags@[i] == shown(assets@, filter@, i),
    ensures
        r@ == assets_in(assets@, filter@, path_view(d@), assets@.len() as int),
{
    let mut r: Vec<usize> = Vec::new();
    let mut i: usize = 0;
    while i < assets.len()
        invariant
            i <= assets@.len(),
            flags@.len() == assets@.len(),
            forall|j: int| 0 <= j < assets@.len() ==> flags@[j] == shown(assets@, filter@, j),
            r@ == assets_in(assets@, filter@, path_view(d@), i as int),
        decreases assets@.len() - i,
    {
        if flags[i] {
            let p = parent_path(&assets[i].relative_path);
            if same_path(&p, d) {
                r.push(i);
            }
        }
        i = i + 1;
    }
    r
}

/// `c` is a folder directly inside `d`.
pub open spec fn child_of(c: Seq<Seq<char>>, d: Seq<Seq<char>>) -> bool {
    c.len() == d.len() + 1 && c.take(d.len() as int) == d
}

/// The folders of `ds` directly inside `d`, in the order of `ds`.
pub open spec fn children_of(ds: Seq<Seq<Seq<char>>>, d: Seq<Seq<char>>) -> Seq<Seq<Seq<char>>>
    decreases ds.len(),
{
    if ds.len() == 0 {
        Seq::empty()
    } else {
        let rest = children_of(ds.drop_last(), d);
        if child_of(ds.last(), d) {
            rest.push(ds.last())
        } else {
            rest
        }
    }
}

/// The largest number of components among the paths of `ds`.
pub open spec fn longest(ds: Seq<Seq<Seq<char>>>) -> nat
    decreases ds.len(),
{
    if ds.len() == 0 {
        0
    } else {
        vstd::math::max(longest(ds.drop_last()) as int, ds.last().len() as int) as nat
    }
}

/// Folder `f` shows folder `d` of the folder list `ds`: named after its last
/// component, with its path, the listed assets directly in it, and, down to
/// `depth` levels, one subfolder for each folder of `ds` directly inside it,
/// in the order of `ds`.
pub open spec fn folder_shows(
    f: AssetFolder,
    d: Seq<Seq<char>>,
    ds: Seq<Seq<Seq<char>>>,
    assets: Seq<GlbAsset>,
    filter: Seq<char>,
    depth: nat,
) -> bool
    decreases depth,
{
    &&& d.len() > 0
    &&& f.name@ == d.last()
    &&& path_view(f.path@) == d
    &&& f.assets@ == assets_in(assets, filter, d, assets.len() as int)
    &&& f.subfolders@.len() == children_of(ds, d).len()
    &&& depth > 0 ==> forall|k: int| 0 <= k < f.subfolders@.len() ==> folder_shows(
        #[trigger] f.subfolders@[k],
        children_of(ds, d)[k],
        ds,
        assets,
        filter,
        (depth - 1) as nat,
    )
}

proof fn lemma_longest(ds: Seq<Seq<Seq<char>>>, k: int)
    requires
        0 <= k < ds.len(),
    ensures
        ds[k].len() <= longest(ds),
    decreases ds.len(),
{
    if k < ds.len() - 1 {
        lemma_longest(ds.drop_last(), k);
    }
}

proof fn lemma_children_of(ds: Seq<Seq<Seq<char>>>, d: Seq<Seq<char>>, k: int)
    requires
        0 <= k < children_of(ds, d).len(),
    ensures
        ds.contains(children_of(ds, d)[k]),
        child_of(children_of(ds, d)[k], d),
    decreases ds.len(),
{
    let rest = children_of(ds.drop_last(), d);
    if k < rest.len() {
        lemma_children_of(ds.drop_last(), d, k);
        let j = ds.drop_last().index_of(rest[k]);
        assert(ds[j] == rest[k]);
    } else {
        assert(ds[ds.len() - 1] == ds.last());
    }
}

/// The name of the last component of a non-empty path.
fn last_name(p: &Vec<String>) -> (r: String)
    requires
        p@.len() > 0,
    ensures
        r@ == path_view(p@).last(),
{
    p[p.len() - 1].clone()
}

/// The folder `d` of `dirs` with everything below it.
fn build_folder(
    d: &Vec<String>,
    dirs: &Vec<Vec<String>>,
    assets: &Vec<GlbAsset>,
    filter: &str,
    flags: &Vec<bool>,
    bound: usize,
) -> (f: AssetFolder)
    requires
        d@.len() > 0,
        d@.len() <= bound,
        forall|k: int| 0 <= k < dirs@.len() ==> (#[trigger] dirs@[k])@.len() <= bound,
        flags@.len() == assets@.len(),
        forall|i: int| 0 <= i < assets@.len() ==> flags@[i] == shown(assets@, filter@, i),
    ensures
        folder_shows(
            f,
            path_view(d@),
            paths_view(dirs@),
            assets@,
            filter@,
            (bound + 1 - d@.len()) as nat,
        ),
    decreases bound - d@.len(),
{
    let ghost dv = path_view(d@);
    let ghost ds = paths_view(dirs@);
    let name = last_name(d);
    let path = copy_path(d);
    let mine = assets_in_folder(assets, filter, flags, d);
    let mut subfolders: Vec<AssetFolder> = Vec::new();
    let mut k: usize = 0;
    while k < dirs.len()
        invariant
            k <= dirs@.len(),
            d@.len() > 0,
            d@.len() <= bound,
            dv == path_view(d@),
            ds == paths_view(dirs@),
            forall|j: int| 0 <= j < dirs@.len() ==> (#[trigger] dirs@[j])@.len() <= bound,
            flags@.len() == assets@.len(),
            forall|i: int| 0 <= i < assets@.len() ==> flags@[i] == shown(assets@, filter@, i),
            subfolders@.len() == children_of(ds.take(k as int), dv).len(),
            forall|j: int| 0 <= j < subfolders@.len() ==> folder_shows(
                #[trigger] subfolders@[j],
                children_of(ds.take(k as int), dv)[j],
                ds,
                assets@,
                filter@,
                (bound - d@.len()) as nat,
            ),
        decreases dirs@.len() - k,
    {
        let c = &dirs[k];
        let ghost cv = path_view(c@);
        proof {
            assert(ds[k as int] == cv);
            assert(ds.take(k + 1).drop_last() =~= ds.take(k as int));
            assert(ds.take(k + 1).last() == cv);
        }
        if c.len() > d.len() && c.len() - 1 == d.len() && path_starts_with(c, d) {
            proof {
                assert(cv.take(dv.len() as int) == dv);
            }
            let sub = build_folder(c, dirs, assets, filter, flags, bound);
            subfolders.push(sub);
        }
        k = k + 1;
    }
    proof {
        assert(ds.take(dirs@.len() as int) =~= ds);
    }
    AssetFolder { name, path, assets: mine, subfolders }
}

/// Folder `d` is shown at the top of the tree: no other non-empty folder of
/// `ds` contains it.
pub open spec fn top_level(d: Seq<Seq<char>>, ds: Seq<Seq<Seq<char>>>) -> bool {
    !exists|k: int| 0 <= k < ds.len() && ds[k] != d && ds[k].len() > 0 && #[trigger] starts_with(d, ds[k])
}

/// The entries at the top of the tree for the first `n` folders of `ds`: for
/// the empty folder (the asset directory itself) one entry per listed asset
/// in it, `(Some(i), _)`; for every other top-level folder `d`, `(None, d)`.
pub open spec fn root_entries(
    ds: Seq<Seq<Seq<char>>>,
    n: int,
    assets: Seq<GlbAsset>,
    filter: Seq<char>,
) -> Seq<(Option<usize>, Seq<Seq<char>>)>
    decreases n,
{
    if n <= 0 {
        Seq::empty()
    } else {
        let d = ds[n - 1];
        root_entries(ds, n - 1, assets, filter) + if d.len() == 0 {
            assets_in(assets, filter, d, assets.len() as int).map_values(
                |i: usize| (Some(i), Seq::<Seq<char>>::empty()),
            )
        } else if top_level(d, ds) {
            seq![(None::<usize>, d)]
        } else {
            Seq::empty()
        }
    }
}

/// Folder `f` stands for asset `i` alone at the top of the tree: named after
/// it, with its path, holding it and nothing else.
pub open spec fn asset_entry_shows(f: AssetFolder, i: usize, assets: Seq<GlbAsset>) -> bool {
    &&& f.name@ == assets[i as int].name@
    &&& path_view(f.path@) == path_view(assets[i as int].relative_path@)
    &&& f.assets@ == seq![i]
    &&& f.subfolders@.len() == 0
}

/// Whether no other non-empty folder of `dirs` contains `d`.
fn is_top_level(d: &Vec<String>, dirs: &Vec<Vec<String>>) -> (r: bool)
    ensures
        r == top_level(path_view(d@), paths_view(dirs@)),
{
    let ghost ds = paths_view(dirs@);
    let ghost dv = path_view(d@);
    let mut k: usize = 0;
    while k < dirs.len()
        invariant
            k <= dirs@.len(),
            ds == paths_view(dirs@),
            dv == path_view(d@),
            forall|j: int| 0 <= j < k ==> !(ds[j] != dv && ds[j].len() > 0 && #[trigger] starts_with(dv, ds[j])),
        decreases dirs@.len() - k,
    {
        let other = &dirs[k];
        proof {
            assert(ds[k as int] == path_view(other@));
        }
        if other.len() > 0 && !same_path(other, d) && path_starts_with(d, other) {
            return false;
        }
        k = k + 1;
    }
    true
}

/// The asset tree for the search text `filter`: at the top, one entry per
/// listed asset sitting directly in the asset directory, and one folder per
/// folder of listed assets that no other such folder contains; each folder
/// holds its listed assets and its direct subfolders among those folders.
/// Folders come in path order; a folder whose parent holds no listed asset
/// and is not itself such a folder is not shown.
pub fn build_folder_tree(assets: &Vec<GlbAsset>, filter: &str) -> (r: Vec<AssetFolder>)
    ensures
        exists|ds: Seq<Seq<Seq<char>>>|
            {
                &&& strictly_sorted(ds)
                &&& ds.to_set() == folders_of(assets@, filter@, assets@.len() as int)
                &&& r@.len() == root_entries(ds, ds.len() as int, assets@, filter@).len()
                &&& forall|k: int| 0 <= k < r@.len() ==> {
                    let e = #[trigger] root_entries(ds, ds.len() as int, assets@, filter@)[k];
                    match e.0 {
                        Some(i) => asset_entry_shows(r@[k], i, assets@),
                        None => folder_shows(r@[k], e.1, ds, assets@, filter@, (longest(ds) + 1 - e.1.len()) as nat),
                    }
                }
            },
{
    let flags = shown_flags(assets, filter);
    let dirs = collect_folders(assets, filter, &flags);
    let ghost ds = paths_view(dirs@);
    // the deepest folder bounds the recursion
    let mut bound: usize = 0;
    let mut k: usize = 0;
    while k < dirs.len()
        invariant
            k <= dirs@.len(),
            ds == paths_view(dirs@),
            bound == longest(ds.take(k as int)),
            forall|j: int| 0 <= j < k ==> (#[trigger] dirs@[j])@.len() <= bound,
        decreases dirs@.len() - k,
    {
        proof {
            assert(ds.take(k + 1).drop_last() =~= ds.take(k as int));
            assert(ds[k as int] == path_view(dirs@[k as int]@));
        }
        if dirs[k].len() > bound {
            bound = dirs[k].len();
        }
        k = k + 1;
    }
    proof {
        assert(ds.take(dirs@.len() as int) =~= ds);
    }
    let mut roots: Vec<AssetFolder> = Vec::new();
    let mut k: usize = 0;
    while k < dirs.len()
        invariant
            k <= dirs@.len(),
            ds == paths_view(dirs@),
            bound == longest(ds),
            forall|j: int| 0 <= j < dirs@.len() ==> (#[trigger] dirs@[j])@.len() <= bound,
            flags@.len() == assets@.len(),
            forall|i: int| 0 <= i < assets@.len() ==> flags@[i] == shown(assets@, filter@, i),
            roots@.len() == root_entries(ds, k as int, assets@, filter@).len(),
            forall|j: int| 0 <= j < roots@.len() ==> {
                let e = #[trigger] root_entries(ds, k as int, assets@, filter@)[j];
                match e.0 {
                    Some(i) => asset_entry_shows(roots@[j], i, assets@),
                    None => folder_shows(roots@[j], e.1, ds, assets@, filter@, (longest(ds) + 1 - e.1.len()) as nat),
                }
            },
        decreases dirs@.len() - k,
    {
        let d = &dirs[k];
        let ghost dv = path_view(d@);
        let ghost before = root_entries(ds, k as int, assets@, filter@);
        let ghost old_roots = roots@;
        proof {
            assert(ds[k as int] == dv);
        }
        if d.len() == 0 {
            let mine = assets_in_folder(assets, filter, &flags, d);
            let ghost added = mine@.map_values(|i: usize| (Some(i), Seq::<Seq<char>>::empty()));
            proof {
                assert(dv =~= Seq::<Seq<char>>::empty());
                assert(root_entries(ds, k + 1, assets@, filter@) == before + added);
            }
            let mut m: usize = 0;
            while m < mine.len()
                invariant
                    m <= mine@.len(),
                    mine@ == assets_in(assets@, filter@, dv, assets@.len() as int),
                    added == mine@.map_values(|i: usize| (Some(i), Seq::<Seq<char>>::empty())),
                    roots@.len() == before.len() + m,
                    roots@.take(before.len() as int) == old_roots,
                    old_roots.len() == before.len(),
                    forall|j: int| 0 <= j < before.len() ==> {
                        let e = #[trigger] before[j];
                        match e.0 {
                            Some(i) => asset_entry_shows(old_roots[j], i, assets@),
                            None => folder_shows(old_roots[j], e.1, ds, assets@, filter@, (longest(ds) + 1 - e.1.len()) as nat),
                        }
                    },
                    forall|j: int| 0 <= j < m ==> asset_entry_shows(#[trigger] roots@[before.len() + j], mine@[j], assets@),
                decreases mine@.len() - m,
            {
                let i = mine[m];
                proof {
                    lemma_assets_in_bound(assets@, filter@, dv, assets@.len() as int, m as int);
                }
                let entry = AssetFolder {
                    name: assets[i].name.clone(),
                    path: copy_path(&assets[i].relative_path),
                    assets: vec![i],
                    subfolders: Vec::new(),
                };
                proof {
                    assert(entry.assets@ =~= seq![i]);
                }
                roots.push(entry);
                proof {
                    assert(roots@.take(before.len() as int) =~= old_roots);
                }
                m = m + 1;
            }
            proof {
                let nr = root_entries(ds, k + 1, assets@, filter@);
                assert forall|j: int| 0 <= j < roots@.len() implies {
                    let e = #[trigger] nr[j];
                    match e.0 {
                        Some(i) => asset_entry_shows(roots@[j], i, assets@),
                        None => folder_shows(roots@[j], e.1, ds, assets@, filter@, (longest(ds) + 1 - e.1.len()) as nat),
                    }
                } by {
                    if j < before.len() {
                        assert(nr[j] == before[j]);
                        assert(roots@[j] == old_roots[j]) by {
                            assert(roots@.take(before.len() as int)[j] == roots@[j]);
                        }
                    } else {
                        let m2 = j - before.len();
                        assert(nr[j] == added[m2]);
                        assert(roots@[before.len() + m2] == roots@[j]);
                    }
                }
            }
        } else if is_top_level(d, &dirs) {
            let f = build_folder(d, &dirs, assets, filter, &flags, bound);
            proof {
                assert(root_entries(ds, k + 1, assets@, filter@) == before.push((None::<usize>, dv))) by {
                    assert(before + seq![(None::<usize>, dv)] =~= before.push((None::<usize>, dv)));
                }
            }
            roots.push(f);
            proof {
                let nr = root_entries(ds, k + 1, assets@, filter@);
                assert forall|j: int| 0 <= j < roots@.len() implies {
                    let e = #[trigger] nr[j];
                    match e.0 {
                        Some(i) => asset_entry_shows(roots@[j], i, assets@),
                        None => folder_shows(roots@[j], e.1, ds, assets@, filter@, (longest(ds) + 1 - e.1.len()) as nat),
                    }
                } by {
                    if j < before.len() {
                        assert(nr[j] == before[j]);
                        assert(roots@[j] == old_roots[j]);
                    }
                }
            }
        } else {
            proof {
                assert(root_entries(ds, k + 1, assets@, filter@) =~= before);
            }
        }
        k = k + 1;
    }
    roots
}

proof fn lemma_assets_in_bound(assets: Seq<GlbAsset>, filter: Seq<char>, d: Seq<Seq<char>>, n: int, m: int)
    requires
        0 <= m < assets_in(assets, filter, d, n).len(),
    ensures
        assets_in(assets, filter, d, n)[m] < n,
    decreases n,
{
    if n > 0 {
        let rest = assets_in(assets, filter, d, n - 1);
        if m < rest.len() {
            lemma_assets_in_bound(assets, filter, d, n - 1, m);
        }
    }
}

/// An asset as mathematical values: its name and the components of its path.
pub open spec fn asset_view(a: GlbAsset) -> (Seq<char>, Seq<Seq<char>>) {
    (a.name@, path_view(a.relative_path@))
}

/// `s` with `x` inserted after every asset whose path does not sort after
/// `x`'s.
pub open spec fn insert_by_path(
    s: Seq<(Seq<char>, Seq<Seq<char>>)>,
    x: (Seq<char>, Seq<Seq<char>>),
) -> Seq<(Seq<char>, Seq<Seq<char>>)>
    decreases s.len(),
{
    if s.len() == 0 {
        seq![x]
    } else if path_lt(x.1, s.last().1) {
        insert_by_path(s.drop_last(), x).push(s.last())
    } else {
        s.push(x)
    }
}

/// `s` ordered by path; assets with equal paths keep their order (a stable
/// sort).
pub open spec fn sort_by_path(s: Seq<(Seq<char>, Seq<Seq<char>>)>) -> Seq<(Seq<char>, Seq<Seq<char>>)>
    decreases s.len(),
{
    if s.len() == 0 {
        Seq::empty()
    } else {
        insert_by_path(sort_by_path(s.drop_last()), s.last())
    }
}

/// A copy of an asset.
fn copy_asset(a: &GlbAsset) -> (r: GlbAsset)
    ensures
        asset_view(r) == asset_view(*a),
{
    GlbAsset { name: a.name.clone(), relative_path: copy_path(&a.relative_path) }
}

/// Inserts `x` into `r` as [`insert_by_path`] does.
fn insert_in_path_order(r: &mut Vec<GlbAsset>, x: GlbAsset)
    ensures
        final(r)@.map_values(|a: GlbAsset| asset_view(a)) == insert_by_path(
            old(r)@.map_values(|a: GlbAsset| asset_view(a)),
            asset_view(x),
        ),
{
    let ghost v = r@.map_values(|a: GlbAsset| asset_view(a));
    let ghost xv = asset_view(x);
    let mut j: usize = r.len();
    proof {
        assert(v.take(j as int) =~= v);
        assert(insert_by_path(v, xv) + v.skip(j as int) =~= insert_by_path(v, xv));
    }
    let mut after: bool = j > 0 && path_less(&x.relative_path, &r[j - 1].relative_path);
    while after
        invariant
            j <= r@.len(),
            r@ == old(r)@,
            v == r@.map_values(|a: GlbAsset| asset_view(a)),
            xv == asset_view(x),
            after ==> j > 0 && path_lt(xv.1, v[j - 1].1),
            !after ==> (j == 0 || !path_lt(xv.1, v[j - 1].1)),
            insert_by_path(v, xv) == insert_by_path(v.take(j as int), xv) + v.skip(j as int),
        decreases j,
    {
        proof {
            let t = v.take(j as int);
            assert(t.drop_last() =~= v.take(j - 1));
            assert(t.last() == v[j - 1]);
            assert(seq![v[j - 1]] + v.skip(j as int) =~= v.skip(j - 1));
            assert(insert_by_path(t, xv) == insert_by_path(v.take(j - 1), xv).push(v[j - 1]));
            assert(insert_by_path(v.take(j - 1), xv).push(v[j - 1]) + v.skip(j as int)
                =~= insert_by_path(v.take(j - 1), xv) + v.skip(j - 1));
        }
        j = j - 1;
        after = j > 0 && path_less(&x.relative_path, &r[j - 1].relative_path);
        proof {
            if j > 0 {
                assert(v[j - 1] == asset_view(r@[j - 1]));
            }
        }
    }
    proof {
        let t = v.take(j as int);
        if j == 0 {
            assert(t.len() == 0);
        } else {
            assert(t.last() == v[j - 1]);
        }
        assert(insert_by_path(t, xv) == t.push(xv));
        assert(t.push(xv) + v.skip(j as int) =~= v.insert(j as int, xv));
    }
    r.insert(j, x);
    proof {
        assert(r@.map_values(|a: GlbAsset| asset_view(a)) =~= v.insert(j as int, xv));
    }
}

/// The assets ordered by path, equal paths keeping their order, as the
/// asset browser lists them after a scan.
pub fn sort_assets_by_path(assets: &Vec<GlbAsset>) -> (r: Vec<GlbAsset>)
    ensures
        r@.map_values(|a: GlbAsset| asset_view(a)) == sort_by_path(assets@.map_values(|a: GlbAsset| asset_view(a))),
{
    let ghost v = assets@.map_values(|a: GlbAsset| asset_view(a));
    let mut r: Vec<GlbAsset> = Vec::new();
    let mut i: usize = 0;
    proof {
        assert(r@.map_values(|a: GlbAsset| asset_view(a)) =~= sort_by_path(v.take(0)));
    }
    while i < assets.len()
        invariant
            i <= assets@.len(),
            v == assets@.map_values(|a: GlbAsset| asset_view(a)),
            r@.map_values(|a: GlbAsset| asset_view(a)) == sort_by_path(v.take(i as int)),
        decreases assets@.len() - i,
    {
        let a = copy_asset(&assets[i]);
        proof {
            let t = v.take(i + 1);
            assert(t.drop_last() =~= v.take(i as int));
            assert(t.last() == v[i as int]);
        }
        insert_in_path_order(&mut r, a);
        i = i + 1;
    }
    proof {
        assert(v.take(assets@.len() as int) =~= v);
    }
    r
}

/// Whether a file extension marks a model the asset browser lists: "glb"
/// or "gltf", in any case.
pub fn is_model_extension(ext: &str) -> (r: bool)
    ensures
        r == (lowercase(ext@) == "glb"@ || lowercase(ext@) == "gltf"@),
{
    let lower = crate::editor::assets::to_lowercase(ext);
    let glb = String::from_str("glb");
    let gltf = String::from_str("gltf");
    lower == glb || lower == gltf
}

} // verus!
