//! The `dirty` module: pushing to a `bytes` array, exposed to the bug that
//! copied dirty bytes arrays to storage.
use vstd::prelude::*;
use std::collections::BTreeMap;
use crate::ast::{Expression, FunctionCall, PushedFinding};
use crate::findings::{FindingKey, Severity, key_is};
use crate::text::{opt_is, opt_str_eq, str_eq};

verus! {

/// Code of a `push` onto a bytes array.
pub const DIRTY_BYTES: usize = 0;

/// The keys of the module's findings.
pub fn finding_keys() -> (r: BTreeMap<usize, FindingKey>)
    ensures
        r@.dom() == set![DIRTY_BYTES],
        key_is(
            r@[DIRTY_BYTES],
            "Bug when copying dirty bytes arrays to storage"@,
            "On July 1, 2021, a bug in the Solidity code generator was found by differential fuzzing. The bug causes the legacy code generation pipeline to generate code that may write dirty values to storage when copying bytes arrays from calldata or memory. Read more at: https://blog.soliditylang.org/2022/06/15/dirty-bytes-array-to-storage-bug/"@,
            Severity::High,
        ),
{
    broadcast use vstd::laws_cmp::group_laws_cmp;

    let mut keys: BTreeMap<usize, FindingKey> = BTreeMap::new();
    keys.insert(
        DIRTY_BYTES,
        FindingKey::new(
            "Bug when copying dirty bytes arrays to storage",
            "On July 1, 2021, a bug in the Solidity code generator was found by differential fuzzing. The bug causes the legacy code generation pipeline to generate code that may write dirty values to storage when copying bytes arrays from calldata or memory. Read more at: https://blog.soliditylang.org/2022/06/15/dirty-bytes-array-to-storage-bug/",
            Severity::High,
        ),
    );
    proof {
        assert(keys@.dom() =~= set![DIRTY_BYTES]);
    }
    keys
}

/// A call of `push` that gives a `bytes1`: a push onto a bytes array.
pub open spec fn is_bytes_push(fc: FunctionCall) -> bool {
    opt_is(fc.type_descriptions.type_string, "bytes1"@) && match *fc.expression {
        Expression::MemberAccess(ma) => ma.member_name@ == "push"@,
        _ => false,
    }
}

/// A push onto a bytes array, found at the call.
pub fn check_function_call(fc: &FunctionCall) -> (r: Option<PushedFinding>)
    ensures
        r == (if is_bytes_push(*fc) {
            Some(PushedFinding { src: Some(fc.src), code: DIRTY_BYTES })
        } else {
            None
        }),
{
    if opt_str_eq(&fc.type_descriptions.type_string, "bytes1") {
        match &*fc.expression {
            Expression::MemberAccess(ma) => {
                if str_eq(ma.member_name.as_str(), "push") {
                    return Some(PushedFinding { src: Some(fc.src), code: DIRTY_BYTES });
                }
            },
            _ => {},
        }
    }
    None
}

/// A `push` onto a `bytes` array (a call of a member `push` whose result
/// is a `bytes1`) is reported; a call whose result is of another type, or
/// that calls no member `push`, is not.
pub proof fn lemma_dirty_rules(fc: FunctionCall)
    ensures
        fc.type_descriptions.type_string is Some && fc.type_descriptions.type_string->0@ == "bytes1"@
            && (*fc.expression matches Expression::MemberAccess(ma) && ma.member_name@ == "push"@)
            ==> is_bytes_push(fc),
        fc.type_descriptions.type_string is None ==> !is_bytes_push(fc),
        fc.type_descriptions.type_string is Some && fc.type_descriptions.type_string->0@ != "bytes1"@
            ==> !is_bytes_push(fc),
        !(*fc.expression is MemberAccess) ==> !is_bytes_push(fc),
{
}

} // verus!
