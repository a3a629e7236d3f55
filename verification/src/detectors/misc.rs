//! The `misc` module: unlocked compiler pragmas and deprecated functions.
use vstd::prelude::*;
use std::collections::BTreeMap;
use crate::ast::{Identifier, PragmaDirective, PushedFinding};
use crate::findings::{FindingKey, Severity, key_is};
use crate::text::{opt_is, opt_str_eq, str_eq};
use crate::version::{admits_later, is_solidity_pragma, is_unspecific_version};

verus! {

/// Code of a pragma that leaves the compiler version open.
pub const UNLOCKED_PRAGMA: usize = 0;

/// Code of a deprecated function.
pub const DEPRECATED_FUNCTION: usize = 1;

/// The keys of the module's findings.
pub fn finding_keys() -> (r: BTreeMap<usize, FindingKey>)
    ensures
        r@.dom() == set![UNLOCKED_PRAGMA, DEPRECATED_FUNCTION],
        key_is(
            r@[UNLOCKED_PRAGMA],
            "Unlocked compiler pragma"@,
            "Unspecific compiler version pragma. Please lock the compiler version to avoid unexpected compilation results"@,
            Severity::Low,
        ),
        key_is(
            r@[DEPRECATED_FUNCTION],
            "Deprecated functions"@,
            "Do not use deprecated functions"@,
            Severity::Low,
        ),
{
    broadcast use vstd::laws_cmp::group_laws_cmp;

    let mut keys: BTreeMap<usize, FindingKey> = BTreeMap::new();
    keys.insert(
        UNLOCKED_PRAGMA,
        FindingKey::new(
            "Unlocked compiler pragma",
            "Unspecific compiler version pragma. Please lock the compiler version to avoid unexpected compilation results",
            Severity::Low,
        ),
    );
    keys.insert(
        DEPRECATED_FUNCTION,
        FindingKey::new("Deprecated functions", "Do not use deprecated functions", Severity::Low),
    );
    proof {
        assert(keys@.dom() =~= set![UNLOCKED_PRAGMA, DEPRECATED_FUNCTION]);
    }
    keys
}

/// A pragma that leaves the compiler version open (`solidity ^...` or
/// `solidity >=...`) is reported where it stands.
pub fn check_pragma_directive(pragma_directive: &PragmaDirective) -> (r: Option<PushedFinding>)
    requires
        pragma_directive.literals@.len() >= 1,
        is_solidity_pragma(pragma_directive.literals@) ==> pragma_directive.literals@.len() >= 2,
    ensures
        r == (if is_solidity_pragma(pragma_directive.literals@) && admits_later(
            pragma_directive.literals@,
        ) {
            Some(PushedFinding { src: Some(pragma_directive.src), code: UNLOCKED_PRAGMA })
        } else {
            None
        }),
{
    let literals = pragma_directive.literals.clone();
    proof {
        assert(literals@ == pragma_directive.literals@);
    }
    if is_unspecific_version(literals) {
        Some(PushedFinding { src: Some(pragma_directive.src), code: UNLOCKED_PRAGMA })
    } else {
        None
    }
}

/// The internal `_setupRole(bytes32,address)`, deprecated by OpenZeppelin.
pub open spec fn is_setup_role(id: Identifier) -> bool {
    id.name@ == "_setupRole"@ && opt_is(
        id.type_descriptions.type_identifier,
        "t_function_internal_nonpayable$_t_bytes32_$_t_address_$returns$__$"@,
    )
}

/// A use of the deprecated `_setupRole`, found where the name stands.
pub fn check_deprecated_identifier(identifier: &Identifier) -> (r: Option<PushedFinding>)
    ensures
        r == (if is_setup_role(*identifier) {
            Some(PushedFinding { src: Some(identifier.src), code: DEPRECATED_FUNCTION })
        } else {
            None
        }),
{
    if str_eq(identifier.name.as_str(), "_setupRole") && opt_str_eq(
        &identifier.type_descriptions.type_identifier,
        "t_function_internal_nonpayable$_t_bytes32_$_t_address_$returns$__$",
    ) {
        Some(PushedFinding { src: Some(identifier.src), code: DEPRECATED_FUNCTION })
    } else {
        None
    }
}

/// A `solidity` pragma whose operator is `^` or `>=` is reported as
/// unlocked, where it stands; any other pragma is not. `_setupRole` of its
/// known type is reported as deprecated; any other name is not.
pub proof fn lemma_misc_rules(literals: Seq<String>, id: Identifier)
    ensures
        literals.len() >= 2 && literals[0]@ == "solidity"@ && (literals[1]@ == "^"@ || literals[1]@ == ">="@)
            ==> is_solidity_pragma(literals) && admits_later(literals),
        literals.len() >= 2 && literals[0]@ == "solidity"@ && literals[1]@ != "^"@ && literals[1]@ != ">="@
            ==> !admits_later(literals),
        literals.len() >= 1 && literals[0]@ != "solidity"@ ==> !is_solidity_pragma(literals),
        id.name@ == "_setupRole"@ && id.type_descriptions.type_identifier is Some
            && id.type_descriptions.type_identifier->0@
            == "t_function_internal_nonpayable$_t_bytes32_$_t_address_$returns$__$"@ ==> is_setup_role(id),
        id.name@ != "_setupRole"@ ==> !is_setup_role(id),
{
}

} // verus!
