use solhunt::solidity::{join, OptimizerSettings, OutputSelection, Remapping, Solidity};

#[test]
fn default_settings() {
    let s = Solidity::default();
    assert!(s.root.is_empty());
    assert!(s.use_cache);
    assert!(!s.auto_detect_remappings && !s.force && !s.ephemeral && !s.silent);
    assert!(s.is_auto_detect());
    assert_eq!(s.optimizer, OptimizerSettings { enabled: Some(false), runs: Some(200) });
    assert!(s.locations.is_none() && s.version.is_none());
}

#[test]
fn the_layout_follows_the_root() {
    let s = Solidity::default().with_path_root("/home/p".to_string());
    assert_eq!(s.root, "/home/p");
    assert_eq!(s.src, "/home/p/src");
    assert_eq!(s.test, "/home/p/test");
    assert_eq!(s.script, "/home/p/script");
    assert_eq!(s.out, "/home/p/out");
    assert_eq!(s.cache, "/home/p/cache/solidity-files-cache.json");
    assert!(s.use_cache);
}

#[test]
fn paths_join_like_path_buffers() {
    for (base, part) in [("/a", "src"), ("/a/", "src"), ("", "src"), ("a/b", "c.json")] {
        let std_join = std::path::Path::new(base).join(part);
        assert_eq!(join(base, part), std_join.to_str().unwrap(), "{base} {part}");
    }
}

#[test]
fn builders_set_one_field() {
    let s = Solidity::default()
        .silent()
        .force()
        .ephemeral(true)
        .auto_remappings(true)
        .use_cache(false)
        .with_cache("/tmp/cache.json".to_string())
        .with_locations(vec!["/p/src/A.sol".to_string()])
        .with_optimizer(OptimizerSettings { enabled: Some(true), runs: Some(10_000) })
        .with_remappings(vec![Remapping { context: None, name: "ds-test/".to_string(), path: "lib/ds-test/src/".to_string() }]);
    assert!(s.silent && s.force && s.ephemeral && s.auto_detect_remappings && !s.use_cache);
    assert_eq!(s.cache, "/tmp/cache.json");
    assert_eq!(s.locations, Some(vec!["/p/src/A.sol".to_string()]));
    assert_eq!(s.optimizer.runs, Some(10_000));
    assert_eq!(s.remappings.len(), 1);
    let mut with_solc = Solidity::default();
    with_solc.solc = Some("/usr/bin/solc".to_string());
    assert!(!with_solc.is_auto_detect());
}

#[test]
fn metadata_is_always_asked_for() {
    let s = Solidity::default();
    assert_eq!(s.output_selection(), vec![OutputSelection::Metadata]);
    let mut t = Solidity::default();
    t.extra_output = vec![OutputSelection::Abi, OutputSelection::Metadata];
    assert_eq!(t.output_selection(), vec![OutputSelection::Abi, OutputSelection::Metadata]);
    t.extra_output = vec![OutputSelection::StorageLayout];
    assert_eq!(t.output_selection(), vec![OutputSelection::StorageLayout, OutputSelection::Metadata]);
}
