//! The first form of the `assembly` module: every block of inline assembly,
//! and calls of `extcodesize` in it.
use vstd::prelude::*;
use std::collections::BTreeMap;
use crate::ast::{PushedFinding, YulIdentifier};
use crate::findings::{FindingKey, Severity, SourceLocation, key_is};
use crate::text::str_eq;

verus! {

/// Code of a block of inline assembly.
pub const INLINE_ASSEMBLY: usize = 0;

/// Code of a call of `extcodesize` in inline assembly.
pub const EXTCODESIZE_CALL: usize = 1;

/// The keys of the module's findings; this module gives its findings no
/// summary.
pub fn finding_keys() -> (r: BTreeMap<usize, FindingKey>)
    ensures
        r@.dom() == set![INLINE_ASSEMBLY, EXTCODESIZE_CALL],
        key_is(
            r@[INLINE_ASSEMBLY],
            ""@,
            "usage of inline assembly, take extra care here"@,
            Severity::Informal,
        ),
        key_is(
            r@[EXTCODESIZE_CALL],
            ""@,
            "using extcodesize. Can be an issue if determining if EOA."@,
            Severity::Medium,
        ),
{
    broadcast use vstd::laws_cmp::group_laws_cmp;

    let mut keys: BTreeMap<usize, FindingKey> = BTreeMap::new();
    keys.insert(
        INLINE_ASSEMBLY,
        FindingKey::new(
            "",
            "usage of inline assembly, take extra care here",
            Severity::Informal,
        ),
    );
    keys.insert(
        EXTCODESIZE_CALL,
        FindingKey::new(
            "",
            "using extcodesize. Can be an issue if determining if EOA.",
            Severity::Medium,
        ),
    );
    proof {
        assert(keys@.dom() =~= set![INLINE_ASSEMBLY, EXTCODESIZE_CALL]);
    }
    keys
}

/// Every block of inline assembly is reported where it stands.
pub fn check_inline_assembly(src: SourceLocation) -> (r: PushedFinding)
    ensures
        r == (PushedFinding { src: Some(src), code: INLINE_ASSEMBLY }),
{
    PushedFinding { src: Some(src), code: INLINE_ASSEMBLY }
}

/// A call of `extcodesize` in inline assembly, found at the called name.
pub fn check_yul_function_call(function_name: &YulIdentifier) -> (r: Option<PushedFinding>)
    ensures
        r == (if function_name.name@ == "extcodesize"@ {
            Some(PushedFinding { src: Some(function_name.src), code: EXTCODESIZE_CALL })
        } else {
            None
        }),
{
    if str_eq(function_name.name.as_str(), "extcodesize") {
        Some(PushedFinding { src: Some(function_name.src), code: EXTCODESIZE_CALL })
    } else {
        None
    }
}

} // verus!
