use solhunt::detectors::{
    address_zero, calls, centralization, condition, constructor, dirty, encode_packed, erc20,
    function, immutable, maths, misc, overflow, require, state, tree, uint256,
};
use solhunt::ast::PushedFinding;
use solhunt::findings::{FindingKey, Severity};
use solhunt::walker::ModuleState;
use solhunt::names::NameSet;
use std::collections::BTreeMap;

#[test]
fn name_sets_are_sets() {
    let mut s = NameSet::new();
    let a = "a".to_string();
    let b = "b".to_string();
    s.insert(&a);
    s.insert(&b);
    s.insert(&a);
    assert_eq!(s.names, vec!["a".to_string(), "b".to_string()]);
    assert!(s.contains("a") && s.contains("b") && !s.contains("c"));
    s.remove("a");
    assert_eq!(s.names, vec!["b".to_string()]);
    assert!(!s.contains("a"));
    s.remove("missing");
    assert_eq!(s.names, vec!["b".to_string()]);
}

fn severities(keys: &BTreeMap<usize, FindingKey>) -> Vec<(usize, Severity)> {
    keys.iter().map(|(code, key)| (*code, key.severity)).collect()
}

#[test]
fn every_module_keys_its_codes() {
    assert_eq!(severities(&address_zero::finding_keys()), vec![(0, Severity::Gas)]);
    assert_eq!(severities(&calls::finding_keys()), vec![(0, Severity::Informal), (1, Severity::Medium), (2, Severity::High)]);
    assert_eq!(severities(&centralization::finding_keys()), vec![(0, Severity::Medium), (1, Severity::Gas)]);
    assert_eq!(severities(&condition::finding_keys()), vec![(0, Severity::Gas)]);
    assert_eq!(severities(&constructor::finding_keys()), vec![(0, Severity::Gas), (1, Severity::Gas)]);
    assert_eq!(severities(&dirty::finding_keys()), vec![(0, Severity::High)]);
    assert_eq!(severities(&encode_packed::finding_keys()), vec![(0, Severity::Low), (1, Severity::Low), (2, Severity::Low), (3, Severity::Gas)]);
    assert_eq!(severities(&erc20::finding_keys()), vec![(0, Severity::Low), (1, Severity::Low), (2, Severity::Low)]);
    assert_eq!(severities(&function::finding_keys()), vec![(0, Severity::Gas)]);
    assert_eq!(severities(&immutable::finding_keys()), vec![(0, Severity::Gas)]);
    assert_eq!(severities(&maths::finding_keys()), vec![(0, Severity::Gas)]);
    assert_eq!(severities(&misc::finding_keys()), vec![(0, Severity::Low), (1, Severity::Low)]);
    assert_eq!(severities(&overflow::finding_keys()), vec![(0, Severity::Informal), (1, Severity::Medium), (2, Severity::Medium), (3, Severity::Informal)]);
    assert_eq!(severities(&require::finding_keys()), vec![(0, Severity::Gas), (1, Severity::Gas), (2, Severity::Gas)]);
    assert_eq!(severities(&state::finding_keys()), (0..6).map(|c| (c, Severity::Gas)).collect::<Vec<_>>());
    assert_eq!(severities(&tree::finding_keys()), vec![(0, Severity::Gas), (1, Severity::Gas)]);
    assert_eq!(severities(&uint256::finding_keys()), vec![(0, Severity::Informal)]);
    assert_eq!(erc20::finding_keys()[&1].description, "Unsafe ERC20 operation(s), use `safeIncreaseAllowance` instead");
    assert_eq!(misc::finding_keys()[&0].summary, "Unlocked compiler pragma");
}

#[test]
fn pushed_findings_follow_their_keys() {
    let mut state = ModuleState::new("require".to_string());
    let keys = require::finding_keys();
    state.push_findings(&keys, &[PushedFinding { src: None, code: 2 }, PushedFinding { src: None, code: 0 }]);
    assert_eq!(state.findings.len(), 2);
    assert_eq!(state.findings[0].summary, "Use `require` instead of `assert`");
    assert_eq!(state.findings[1].severity, Severity::Gas);
    assert!(state.findings.iter().all(|f| f.name == "require" && f.comment.is_none()));
}
