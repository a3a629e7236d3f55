//! The `chainlink` module: the deprecated `latestAnswer` feed function, and
//! `latestRoundData` whose price may be stale.
use vstd::prelude::*;
use vstd::utf8::*;
use std::collections::BTreeMap;
use crate::ast::{MemberAccess, PushedFinding};
use crate::findings::{FindingKey, Severity, key_is};
use crate::text::{bytes_end_with, str_ends_with, str_eq};

verus! {

/// Code of the deprecated `latestAnswer`.
pub const DEPRECATED_FEED: usize = 0;

/// Code of `latestRoundData`.
pub const STALE_PRICE: usize = 1;

/// The keys of the module's findings; this module gives its findings no
/// summary.
pub fn finding_keys() -> (r: BTreeMap<usize, FindingKey>)
    ensures
        r@.dom() == set![DEPRECATED_FEED, STALE_PRICE],
        key_is(
            r@[DEPRECATED_FEED],
            ""@,
            "usage of deprecated chainlink oracle feed function"@,
            Severity::Medium,
        ),
        key_is(r@[STALE_PRICE], ""@, "stale price from chainlink oracle"@, Severity::Medium),
{
    broadcast use vstd::laws_cmp::group_laws_cmp;

    let mut keys: BTreeMap<usize, FindingKey> = BTreeMap::new();
    keys.insert(
        DEPRECATED_FEED,
        FindingKey::new("", "usage of deprecated chainlink oracle feed function", Severity::Medium),
    );
    keys.insert(
        STALE_PRICE,
        FindingKey::new("", "stale price from chainlink oracle", Severity::Medium),
    );
    proof {
        assert(keys@.dom() =~= set![DEPRECATED_FEED, STALE_PRICE]);
    }
    keys
}

/// The finding of a member access, judged by the type it returns: a
/// `latestAnswer` returning an `int256`, or a `latestRoundData` returning
/// the five values of a round.
pub open spec fn chainlink_finding(ma: MemberAccess) -> Option<PushedFinding> {
    match ma.type_descriptions.type_identifier {
        Some(id) => if bytes_end_with(encode_utf8(id@), encode_utf8("returns$_t_int256_$"@))
            && ma.member_name@ == "latestAnswer"@ {
            Some(PushedFinding { src: Some(ma.src), code: DEPRECATED_FEED })
        } else if bytes_end_with(
            encode_utf8(id@),
            encode_utf8("returns$_t_uint80_$_t_int256_$_t_uint256_$_t_uint256_$_t_uint80_$"@),
        ) && ma.member_name@ == "latestRoundData"@ {
            Some(PushedFinding { src: Some(ma.src), code: STALE_PRICE })
        } else {
            None
        },
        None => None,
    }
}

/// Checks a member access for the chainlink feed functions.
pub fn check_member_access(member_access: &MemberAccess) -> (r: Option<PushedFinding>)
    ensures
        r == chainlink_finding(*member_access),
{
    match &member_access.type_descriptions.type_identifier {
        Some(id) => {
            if str_ends_with(id.as_str(), "returns$_t_int256_$") && str_eq(
                member_access.member_name.as_str(),
                "latestAnswer",
            ) {
                Some(PushedFinding { src: Some(member_access.src), code: DEPRECATED_FEED })
            } else if str_ends_with(
                id.as_str(),
                "returns$_t_uint80_$_t_int256_$_t_uint256_$_t_uint256_$_t_uint80_$",
            ) && str_eq(member_access.member_name.as_str(), "latestRoundData") {
                Some(PushedFinding { src: Some(member_access.src), code: STALE_PRICE })
            } else {
                None
            }
        },
        None => None,
    }
}

/// `latestAnswer` returning an `int256` is reported as deprecated, and
/// `latestRoundData` returning a round's five values as a possibly stale
/// price, at the access; no other member is reported.
pub proof fn lemma_chainlink_rules(ma: MemberAccess)
    ensures
        ma.member_name@ == "latestAnswer"@ && ma.type_descriptions.type_identifier is Some && bytes_end_with(
            encode_utf8(ma.type_descriptions.type_identifier->0@),
            encode_utf8("returns$_t_int256_$"@),
        ) ==> chainlink_finding(ma) == Some(PushedFinding { src: Some(ma.src), code: DEPRECATED_FEED }),
        ma.member_name@ == "latestRoundData"@ && ma.type_descriptions.type_identifier is Some
            && bytes_end_with(
            encode_utf8(ma.type_descriptions.type_identifier->0@),
            encode_utf8("returns$_t_uint80_$_t_int256_$_t_uint256_$_t_uint256_$_t_uint80_$"@),
        ) ==> chainlink_finding(ma) == Some(PushedFinding { src: Some(ma.src), code: STALE_PRICE }),
        ma.member_name@ != "latestAnswer"@ && ma.member_name@ != "latestRoundData"@ ==> chainlink_finding(ma) is None,
        ma.type_descriptions.type_identifier is None ==> chainlink_finding(ma) is None,
{
    reveal_strlit("latestAnswer");
    reveal_strlit("latestRoundData");
    assert("latestAnswer"@ != "latestRoundData"@) by {
        assert("latestAnswer"@.len() != "latestRoundData"@.len());
    }
}

} // verus!
