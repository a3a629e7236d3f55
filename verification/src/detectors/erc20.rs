//! The `erc20` module: unsafe ERC20 operations.
use vstd::prelude::*;
use vstd::utf8::*;
use std::collections::BTreeMap;
use crate::ast::{MemberAccess, PushedFinding};
use crate::findings::{FindingKey, Severity, key_is};
use crate::text::{bytes_contain, str_contains, str_eq};

verus! {

/// Code of a plain `transfer(address,uint256)`.
pub const UNSAFE_TRANSFER: usize = 0;

/// Code of `safeApprove`.
pub const SAFE_APPROVE: usize = 1;

/// Code kept in the key table with no rule that reports it.
pub const UNSAFE_OPERATION: usize = 2;

/// The keys of the module's findings.
pub fn finding_keys() -> (r: BTreeMap<usize, FindingKey>)
    ensures
        r@.dom() == set![UNSAFE_TRANSFER, SAFE_APPROVE, UNSAFE_OPERATION],
        key_is(
            r@[UNSAFE_TRANSFER],
            "Unsafe ERC20 operation"@,
            "Unsafe ERC20 operation(s), use `safeTransfer` instead"@,
            Severity::Low,
        ),
        key_is(
            r@[SAFE_APPROVE],
            "Unsafe ERC20 operation"@,
            "Unsafe ERC20 operation(s), use `safeIncreaseAllowance` instead"@,
            Severity::Low,
        ),
        key_is(
            r@[UNSAFE_OPERATION],
            "Unsafe ERC20 operation"@,
            "Unsafe ERC20 operation(s), use `safeTransfer` instead"@,
            Severity::Low,
        ),
{
    broadcast use vstd::laws_cmp::group_laws_cmp;

    let mut keys: BTreeMap<usize, FindingKey> = BTreeMap::new();
    keys.insert(
        UNSAFE_TRANSFER,
        FindingKey::new(
            "Unsafe ERC20 operation",
            "Unsafe ERC20 operation(s), use `safeTransfer` instead",
            Severity::Low,
        ),
    );
    keys.insert(
        SAFE_APPROVE,
        FindingKey::new(
            "Unsafe ERC20 operation",
            "Unsafe ERC20 operation(s), use `safeIncreaseAllowance` instead",
            Severity::Low,
        ),
    );
    keys.insert(
        UNSAFE_OPERATION,
        FindingKey::new(
            "Unsafe ERC20 operation",
            "Unsafe ERC20 operation(s), use `safeTransfer` instead",
            Severity::Low,
        ),
    );
    proof {
        assert(keys@.dom() =~= set![UNSAFE_TRANSFER, SAFE_APPROVE, UNSAFE_OPERATION]);
    }
    keys
}

/// A `transfer` member whose type takes an address and an amount.
pub open spec fn is_token_transfer(ma: MemberAccess) -> bool {
    ma.member_name@ == "transfer"@ && match ma.type_descriptions.type_string {
        Some(t) => bytes_contain(encode_utf8(t@), encode_utf8("(address,uint256)"@)),
        None => false,
    }
}

/// The findings of a member access: a token `transfer`, or `safeApprove`.
pub open spec fn erc20_findings(ma: MemberAccess) -> Seq<PushedFinding> {
    if is_token_transfer(ma) {
        seq![PushedFinding { src: Some(ma.src), code: UNSAFE_TRANSFER }]
    } else if ma.member_name@ == "safeApprove"@ {
        seq![PushedFinding { src: Some(ma.src), code: SAFE_APPROVE }]
    } else {
        seq![]
    }
}

/// Checks a member access for unsafe ERC20 operations.
pub fn check_erc20_member_access(member_access: &MemberAccess) -> (r: Vec<PushedFinding>)
    ensures
        r@ == erc20_findings(*member_access),
{
    proof {
        reveal_strlit("transfer");
        reveal_strlit("transferFrom");
        reveal_strlit("approve");
        reveal_strlit("safeApprove");
        assert("safeApprove"@.len() == 11);
        assert("transfer"@.len() == 8);
        assert("transferFrom"@.len() == 12);
        assert("approve"@.len() == 7);
    }
    let mut r: Vec<PushedFinding> = Vec::new();
    let mem_name = member_access.member_name.as_str();
    let is_transfer = str_eq(mem_name, "transfer");
    if is_transfer {
        match &member_access.type_descriptions.type_string {
            Some(type_string) => {
                if str_contains(type_string.as_str(), "(address,uint256)") {
                    r.push(PushedFinding { src: Some(member_access.src), code: UNSAFE_TRANSFER });
                }
            },
            None => {},
        }
        proof {
            assert(r@ =~= erc20_findings(*member_access));
        }
    }
    let unsafe_op = is_transfer || str_eq(mem_name, "transferFrom") || str_eq(mem_name, "approve");
    if unsafe_op {
    } else if str_eq(mem_name, "safeApprove") {
        r.push(PushedFinding { src: Some(member_access.src), code: SAFE_APPROVE });
        proof {
            assert(r@ =~= erc20_findings(*member_access));
        }
    } else {
        proof {
            assert(r@ =~= erc20_findings(*member_access));
        }
    }
    proof {
        if !is_transfer && unsafe_op {
            assert(member_access.member_name@ != "safeApprove"@);
            assert(r@ =~= erc20_findings(*member_access));
        }
    }
    r
}

/// A `transfer` member whose type takes `(address,uint256)` is reported as
/// an unsafe token transfer, and a `safeApprove` member as deprecated, at
/// the access; a `transfer` of another type (such as sending ether) and any
/// other member are not reported.
pub proof fn lemma_erc20_rules(ma: MemberAccess)
    ensures
        ma.member_name@ == "transfer"@ && ma.type_descriptions.type_string is Some && bytes_contain(
            encode_utf8(ma.type_descriptions.type_string->0@),
            encode_utf8("(address,uint256)"@),
        ) ==> erc20_findings(ma) == seq![PushedFinding { src: Some(ma.src), code: UNSAFE_TRANSFER }],
        ma.member_name@ == "safeApprove"@ ==> erc20_findings(ma) == seq![
            PushedFinding { src: Some(ma.src), code: SAFE_APPROVE },
        ],
        ma.member_name@ == "transfer"@ && (ma.type_descriptions.type_string is None || !bytes_contain(
            encode_utf8(ma.type_descriptions.type_string->0@),
            encode_utf8("(address,uint256)"@),
        )) ==> erc20_findings(ma).len() == 0,
        ma.member_name@ != "transfer"@ && ma.member_name@ != "safeApprove"@ ==> erc20_findings(ma).len() == 0,
{
    reveal_strlit("transfer");
    reveal_strlit("safeApprove");
    assert("transfer"@ != "safeApprove"@) by {
        assert("transfer"@[0] != "safeApprove"@[0]);
    }
}

} // verus!
