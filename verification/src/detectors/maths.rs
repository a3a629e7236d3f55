//! The `maths` gas module: multiplications that a left shift could do.
use vstd::prelude::*;
use std::collections::BTreeMap;
use crate::ast::{BinaryOperation, BinaryOperator, PushedFinding};
use crate::findings::{FindingKey, Severity, key_is};

verus! {

/// Code of a multiplication.
pub const MULTIPLICATION: usize = 0;

/// The keys of the module's findings.
pub fn finding_keys() -> (r: BTreeMap<usize, FindingKey>)
    ensures
        r@.dom() == set![MULTIPLICATION],
        key_is(r@[MULTIPLICATION], "use left shift"@, "use left shift rather than mul"@, Severity::Gas),
{
    broadcast use vstd::laws_cmp::group_laws_cmp;

    let mut keys: BTreeMap<usize, FindingKey> = BTreeMap::new();
    keys.insert(
        MULTIPLICATION,
        FindingKey::new("use left shift", "use left shift rather than mul", Severity::Gas),
    );
    proof {
        assert(keys@.dom() =~= set![MULTIPLICATION]);
    }
    keys
}

/// A multiplication, found where it stands.
pub fn check_binary_operation(bo: &BinaryOperation) -> (r: Option<PushedFinding>)
    ensures
        r == (if bo.operator == BinaryOperator::Mul {
            Some(PushedFinding { src: Some(bo.src), code: MULTIPLICATION })
        } else {
            None
        }),
{
    if bo.operator == BinaryOperator::Mul {
        Some(PushedFinding { src: Some(bo.src), code: MULTIPLICATION })
    } else {
        None
    }
}

} // verus!
