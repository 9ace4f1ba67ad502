use generation::editor::asset_tree::{
    build_folder_tree, is_model_extension, sort_assets_by_path, AssetFolder, GlbAsset,
};
use generation::editor::assets::matches_filter;

fn asset(name: &str, path: &[&str]) -> GlbAsset {
    GlbAsset { name: name.to_string(), relative_path: path.iter().map(|s| s.to_string()).collect() }
}

fn library() -> Vec<GlbAsset> {
    vec![
        asset("oak", &["trees", "oak.glb"]),
        asset("rock", &["rock.glb"]),
        asset("pine", &["trees", "conifers", "pine.glb"]),
        asset("Barrel", &["props", "barrel.glb"]),
        asset("crate", &["props", "old", "crate.glb"]),
        asset("lamp", &["a", "b", "c", "lamp.gltf"]),
    ]
}

fn names(f: &[AssetFolder]) -> Vec<String> {
    f.iter().map(|x| x.name.clone()).collect()
}

#[test]
fn filter_is_case_insensitive() {
    assert!(matches_filter("Barrel", ""));
    assert!(matches_filter("Barrel", "rel"));
    assert!(matches_filter("Barrel", "BAR"));
    assert!(matches_filter("Barrel", "barrel"));
    assert!(!matches_filter("Barrel", "barrels"));
    assert!(!matches_filter("oak", "x"));
    assert!(matches_filter("Ölfass", "ölf"));
}

#[test]
fn tree_without_filter() {
    let tree = build_folder_tree(&library(), "");
    assert_eq!(names(&tree), vec!["rock", "c", "props", "trees"]);
    assert_eq!(tree[0].assets, vec![1]);
    assert_eq!(tree[0].path, vec!["rock.glb".to_string()]);
    assert!(tree[0].subfolders.is_empty());
    assert_eq!(tree[1].path, vec!["a".to_string(), "b".to_string(), "c".to_string()]);
    assert_eq!(tree[1].assets, vec![5]);
    assert_eq!(tree[2].assets, vec![3]);
    assert_eq!(names(&tree[2].subfolders), vec!["old"]);
    assert_eq!(tree[2].subfolders[0].assets, vec![4]);
    assert_eq!(tree[3].assets, vec![0]);
    assert_eq!(names(&tree[3].subfolders), vec!["conifers"]);
    assert_eq!(tree[3].subfolders[0].assets, vec![2]);
    assert!(tree[3].subfolders[0].subfolders.is_empty());
}

#[test]
fn tree_with_filter() {
    let tree = build_folder_tree(&library(), "R");
    assert_eq!(names(&tree), vec!["rock", "props"]);
    assert_eq!(tree[1].assets, vec![3]);
    assert_eq!(tree[1].subfolders[0].assets, vec![4]);
    assert!(build_folder_tree(&library(), "zzz").is_empty());
    assert!(build_folder_tree(&vec![], "").is_empty());
}

#[test]
fn folder_missing_between_levels_is_not_shown() {
    let assets = vec![asset("x", &["a", "x.glb"]), asset("y", &["a", "b", "c", "y.glb"])];
    let tree = build_folder_tree(&assets, "");
    assert_eq!(names(&tree), vec!["a"]);
    assert_eq!(tree[0].assets, vec![0]);
    assert!(tree[0].subfolders.is_empty());
}

#[test]
fn several_root_assets_keep_their_order() {
    let assets = vec![asset("b", &["b.glb"]), asset("a", &["a.glb"]), asset("z", &["z", "z.glb"])];
    let tree = build_folder_tree(&assets, "");
    assert_eq!(names(&tree), vec!["b", "a", "z"]);
}

#[test]
fn folders_sort_by_components() {
    let assets = vec![
        asset("1", &["b", "1.glb"]),
        asset("2", &["a-b", "2.glb"]),
        asset("3", &["a", "3.glb"]),
        asset("4", &["B", "4.glb"]),
    ];
    let tree = build_folder_tree(&assets, "");
    assert_eq!(names(&tree), vec!["B", "a", "a-b", "b"]);
}

#[test]
fn folder_arrow_and_contents() {
    let tree = build_folder_tree(&library(), "");
    assert!(!tree[0].has_children());
    assert!(tree[0].shows_contents(false));
    assert!(tree[2].has_children());
    assert!(!tree[2].shows_contents(false));
    assert!(tree[2].shows_contents(true));
}

#[test]
fn assets_sort_by_path_stably() {
    let assets = vec![
        asset("t", &["trees", "oak.glb"]),
        asset("r", &["rock.glb"]),
        asset("first", &["props", "a.glb"]),
        asset("second", &["props", "a.glb"]),
        asset("p", &["props"]),
    ];
    let sorted = sort_assets_by_path(&assets);
    let order: Vec<String> = sorted.iter().map(|a| a.name.clone()).collect();
    assert_eq!(order, vec!["p", "first", "second", "r", "t"]);
}

#[test]
fn model_extensions() {
    assert!(is_model_extension("glb"));
    assert!(is_model_extension("GLTF"));
    assert!(is_model_extension("Glb"));
    assert!(!is_model_extension("obj"));
    assert!(!is_model_extension("glbx"));
    assert!(!is_model_extension(""));
}
