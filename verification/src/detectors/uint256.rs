//! The `uint256` module, an example that reports every `uint256` variable.
use vstd::prelude::*;
use std::collections::BTreeMap;
use crate::ast::{PushedFinding, VariableDeclaration};
use crate::findings::{FindingKey, Severity, key_is};
use crate::text::{opt_is, opt_str_eq};

verus! {

/// Code of a `uint256` variable.
pub const UINT256: usize = 0;

/// The keys of the module's findings.
pub fn finding_keys() -> (r: BTreeMap<usize, FindingKey>)
    ensures
        r@.dom() == set![UINT256],
        key_is(r@[UINT256], "Dumb uint256"@, "We just found a uint256 yay!"@, Severity::Informal),
{
    broadcast use vstd::laws_cmp::group_laws_cmp;

    let mut keys: BTreeMap<usize, FindingKey> = BTreeMap::new();
    keys.insert(
        UINT256,
        FindingKey::new("Dumb uint256", "We just found a uint256 yay!", Severity::Informal),
    );
    proof {
        assert(keys@.dom() =~= set![UINT256]);
    }
    keys
}

/// A variable of type `uint256`, found where it is declared.
pub fn check_variable_declaration(var: &VariableDeclaration) -> (r: Option<PushedFinding>)
    ensures
        r == (if opt_is(var.type_descriptions.type_identifier, "t_uint256"@) {
            Some(PushedFinding { src: Some(var.src), code: UINT256 })
        } else {
            None
        }),
{
    if opt_str_eq(&var.type_descriptions.type_identifier, "t_uint256") {
        Some(PushedFinding { src: Some(var.src), code: UINT256 })
    } else {
        None
    }
}

} // verus!
