use marimow::resolve_cache_path;

fn components(parts: &[&str]) -> Vec<String> {
    parts.iter().map(|p| p.to_string()).collect()
}

#[test]
fn source_under_cache_parent_is_mirrored_below_the_root() {
    let root = components(&["home", "u", ".marimow_cache"]);
    let source = components(&["home", "u", "proj", "f.py"]);
    assert_eq!(
        resolve_cache_path(&root, &source),
        components(&["home", "u", ".marimow_cache", "proj", "f.py"]),
    );
}

#[test]
fn source_elsewhere_is_mirrored_whole() {
    let root = components(&["tmp", "cache"]);
    let source = components(&["home", "u", "f.py"]);
    assert_eq!(
        resolve_cache_path(&root, &source),
        components(&["tmp", "cache", "home", "u", "f.py"]),
    );
}

#[test]
fn same_pair_resolves_the_same_twice() {
    let root = components(&["home", "u", ".marimow_cache"]);
    let source = components(&["home", "u", "a", "b.py"]);
    let first = resolve_cache_path(&root, &source);
    let second = resolve_cache_path(&root, &source);
    assert_eq!(first, second);
}

#[test]
fn distinct_sources_resolve_to_distinct_paths() {
    let root = components(&["home", "u", ".marimow_cache"]);
    let s1 = components(&["home", "u", "a.py"]);
    let s2 = components(&["home", "u", "b.py"]);
    let s3 = components(&["home", "u", "d", "a.py"]);
    let r1 = resolve_cache_path(&root, &s1);
    let r2 = resolve_cache_path(&root, &s2);
    let r3 = resolve_cache_path(&root, &s3);
    assert_ne!(r1, r2);
    assert_ne!(r1, r3);
    assert_ne!(r2, r3);
}

#[test]
fn cache_root_at_filesystem_root_mirrors_everything() {
    let root: Vec<String> = Vec::new();
    let source = components(&["home", "u", "f.py"]);
    assert_eq!(
        resolve_cache_path(&root, &source),
        components(&["home", "u", "f.py"]),
    );
}

#[test]
fn single_component_root_has_empty_parent() {
    // The parent of a one-component cache root is the filesystem root,
    // which prefixes every source: everything is mirrored below the root.
    let root = components(&["cache"]);
    let source = components(&["home", "u", "f.py"]);
    assert_eq!(
        resolve_cache_path(&root, &source),
        components(&["cache", "home", "u", "f.py"]),
    );
}
