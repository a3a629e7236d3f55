//! The `condition` gas module: `if/else` where a ternary costs less.
use vstd::prelude::*;
use std::collections::BTreeMap;
use crate::ast::{IfStatement, PushedFinding};
use crate::findings::{FindingKey, Severity, key_is};

verus! {

/// Code of an `if` with an `else`.
pub const IF_ELSE: usize = 0;

/// The keys of the module's findings.
pub fn finding_keys() -> (r: BTreeMap<usize, FindingKey>)
    ensures
        r@.dom() == set![IF_ELSE],
        key_is(
            r@[IF_ELSE],
            "use ternary operators rather than `if/else`"@,
            "`if/else` gas overhead is higher than a ternary operator"@,
            Severity::Gas,
        ),
{
    broadcast use vstd::laws_cmp::group_laws_cmp;

    let mut keys: BTreeMap<usize, FindingKey> = BTreeMap::new();
    keys.insert(
        IF_ELSE,
        FindingKey::new(
            "use ternary operators rather than `if/else`",
            "`if/else` gas overhead is higher than a ternary operator",
            Severity::Gas,
        ),
    );
    proof {
        assert(keys@.dom() =~= set![IF_ELSE]);
    }
    keys
}

/// An `if` statement with an `else` branch, found where it stands.
pub fn check_if_statement(ifs: &IfStatement) -> (r: Option<PushedFinding>)
    ensures
        r == (if ifs.has_false_body {
            Some(PushedFinding { src: Some(ifs.src), code: IF_ELSE })
        } else {
            None
        }),
{
    if ifs.has_false_body {
        Some(PushedFinding { src: Some(ifs.src), code: IF_ELSE })
    } else {
        None
    }
}

} // verus!
