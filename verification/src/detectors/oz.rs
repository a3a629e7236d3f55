//! The `oz` module: a `transfer` member, which for an ERC20 token should be
//! `safeTransfer`.
use vstd::prelude::*;
use std::collections::BTreeMap;
use crate::ast::{MemberAccess, PushedFinding};
use crate::findings::{FindingKey, Severity, key_is};
use crate::text::str_eq;

verus! {

/// Code of a `transfer` member.
pub const TRANSFER: usize = 0;

/// The keys of the module's findings; this module gives its finding no
/// summary.
pub fn finding_keys() -> (r: BTreeMap<usize, FindingKey>)
    ensures
        r@.dom() == set![TRANSFER],
        key_is(
            r@[TRANSFER],
            ""@,
            "usage of transfer for an ERC20 token, use safeTransfer instead"@,
            Severity::Medium,
        ),
{
    broadcast use vstd::laws_cmp::group_laws_cmp;

    let mut keys: BTreeMap<usize, FindingKey> = BTreeMap::new();
    keys.insert(
        TRANSFER,
        FindingKey::new(
            "",
            "usage of transfer for an ERC20 token, use safeTransfer instead",
            Severity::Medium,
        ),
    );
    proof {
        assert(keys@.dom() =~= set![TRANSFER]);
    }
    keys
}

/// A member named `transfer`, found where it is accessed.
pub fn check_member_access(member_access: &MemberAccess) -> (r: Option<PushedFinding>)
    ensures
        r == (if member_access.member_name@ == "transfer"@ {
            Some(PushedFinding { src: Some(member_access.src), code: TRANSFER })
        } else {
            None
        }),
{
    if str_eq(member_access.member_name.as_str(), "transfer") {
        Some(PushedFinding { src: Some(member_access.src), code: TRANSFER })
    } else {
        None
    }
}

} // verus!
