//! The `assembly` module: `extcodesize` in inline assembly, an unreliable
//! way to tell accounts from contracts.
use vstd::prelude::*;
use std::collections::BTreeMap;
use crate::ast::{PushedFinding, YulIdentifier};
use crate::findings::{FindingKey, Severity, key_is};
use crate::text::str_eq;

verus! {

/// Code of `extcodesize` in inline assembly.
pub const EXTCODESIZE: usize = 0;

/// The keys of the module's findings.
pub fn finding_keys() -> (r: BTreeMap<usize, FindingKey>)
    ensures
        r@.dom() == set![EXTCODESIZE],
        key_is(
            r@[EXTCODESIZE],
            "extcodesize for EOA test"@,
            "using extcodesize. Can be an issue if determining if EOA."@,
            Severity::Medium,
        ),
{
    broadcast use vstd::laws_cmp::group_laws_cmp;

    let mut keys: BTreeMap<usize, FindingKey> = BTreeMap::new();
    keys.insert(
        EXTCODESIZE,
        FindingKey::new(
            "extcodesize for EOA test",
            "using extcodesize. Can be an issue if determining if EOA.",
            Severity::Medium,
        ),
    );
    proof {
        assert(keys@.dom() =~= set![EXTCODESIZE]);
    }
    keys
}

/// An `extcodesize` name in inline assembly, found where the name stands.
pub fn check_yul_identifier(yul_identifier: &YulIdentifier) -> (r: Option<PushedFinding>)
    ensures
        r == (if yul_identifier.name@ == "extcodesize"@ {
            Some(PushedFinding { src: Some(yul_identifier.src), code: EXTCODESIZE })
        } else {
            None
        }),
{
    if str_eq(yul_identifier.name.as_str(), "extcodesize") {
        Some(PushedFinding { src: Some(yul_identifier.src), code: EXTCODESIZE })
    } else {
        None
    }
}

} // verus!
