//! The `constructor` gas module: constructors that are not payable, and
//! contracts deployed with `new`.
use vstd::prelude::*;
use std::collections::BTreeMap;
use crate::ast::{FunctionDefinition, FunctionKind, PushedFinding, StateMutability};
use crate::findings::{FindingKey, Severity, SourceLocation, key_is};

verus! {

/// Code of a constructor that is not payable.
pub const NOT_PAYABLE_CONSTRUCTOR: usize = 0;

/// Code of a deployment with `new`.
pub const NEW_DEPLOYMENT: usize = 1;

/// The keys of the module's findings.
pub fn finding_keys() -> (r: BTreeMap<usize, FindingKey>)
    ensures
        r@.dom() == set![NOT_PAYABLE_CONSTRUCTOR, NEW_DEPLOYMENT],
        key_is(
            r@[NOT_PAYABLE_CONSTRUCTOR],
            "Setting the constructor to payable"@,
            "Marking the constructor as payable removes any value check from the compiler and saves some gas on deployment."@,
            Severity::Gas,
        ),
        key_is(
            r@[NEW_DEPLOYMENT],
            "Use `Clones` to deploy a contract"@,
            "The usage of the `new` keyword in solidity is for deploying smart contracts. But the constructor part is very expensive and can usually be replaced by a clone. Learn more from a very nice video from OpenZeppelin: https://www.youtube.com/watch?v=3Mw-pMmJ7TA"@,
            Severity::Gas,
        ),
{
    broadcast use vstd::laws_cmp::group_laws_cmp;

    let mut keys: BTreeMap<usize, FindingKey> = BTreeMap::new();
    keys.insert(
        NOT_PAYABLE_CONSTRUCTOR,
        FindingKey::new(
            "Setting the constructor to payable",
            "Marking the constructor as payable removes any value check from the compiler and saves some gas on deployment.",
            Severity::Gas,
        ),
    );
    keys.insert(
        NEW_DEPLOYMENT,
        FindingKey::new(
            "Use `Clones` to deploy a contract",
            "The usage of the `new` keyword in solidity is for deploying smart contracts. But the constructor part is very expensive and can usually be replaced by a clone. Learn more from a very nice video from OpenZeppelin: https://www.youtube.com/watch?v=3Mw-pMmJ7TA",
            Severity::Gas,
        ),
    );
    proof {
        assert(keys@.dom() =~= set![NOT_PAYABLE_CONSTRUCTOR, NEW_DEPLOYMENT]);
    }
    keys
}

/// A nameless constructor that is not payable.
pub open spec fn is_not_payable_constructor(fd: FunctionDefinition) -> bool {
    fd.name@.len() == 0 && fd.kind == Some(FunctionKind::Constructor) && fd.state_mutability != Some(
        StateMutability::Payable,
    )
}

/// A constructor that is not payable, found where it is defined.
pub fn check_function_definition(function_definition: &FunctionDefinition) -> (r: Option<
    PushedFinding,
>)
    ensures
        r == (if is_not_payable_constructor(*function_definition) {
            Some(PushedFinding { src: Some(function_definition.src), code: NOT_PAYABLE_CONSTRUCTOR })
        } else {
            None
        }),
{
    if function_definition.name.as_str().unicode_len() == 0 && function_definition.kind == Some(
        FunctionKind::Constructor,
    ) && function_definition.state_mutability != Some(StateMutability::Payable) {
        Some(PushedFinding { src: Some(function_definition.src), code: NOT_PAYABLE_CONSTRUCTOR })
    } else {
        None
    }
}

/// Every `new` expression is reported where it stands.
pub fn check_new_expression(src: SourceLocation) -> (r: PushedFinding)
    ensures
        r == (PushedFinding { src: Some(src), code: NEW_DEPLOYMENT }),
{
    PushedFinding { src: Some(src), code: NEW_DEPLOYMENT }
}

/// A constructor that is not `payable` is reported where it is defined; a
/// `payable` constructor, and any other function, is not.
pub proof fn lemma_constructor_rules(fd: FunctionDefinition)
    ensures
        fd.kind == Some(FunctionKind::Constructor) && fd.name@.len() == 0 && fd.state_mutability
            != Some(StateMutability::Payable) ==> is_not_payable_constructor(fd),
        fd.state_mutability == Some(StateMutability::Payable) ==> !is_not_payable_constructor(fd),
        fd.kind != Some(FunctionKind::Constructor) ==> !is_not_payable_constructor(fd),
{
}

} // verus!
