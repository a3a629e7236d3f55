//! The `centralization` module: functions that only the owner may call.
use vstd::prelude::*;
use std::collections::BTreeMap;
use crate::ast::{ModifierInvocation, ModifierName, PushedFinding};
use crate::findings::{FindingKey, Severity, key_is};
use crate::text::str_eq;

verus! {

/// Code of a privileged function.
pub const CENTRALIZATION: usize = 0;

/// Code of an owner-only function that could be payable.
pub const OWNER_ONLY_PAYABLE: usize = 1;

/// The keys of the module's findings.
pub fn finding_keys() -> (r: BTreeMap<usize, FindingKey>)
    ensures
        r@.dom() == set![CENTRALIZATION, OWNER_ONLY_PAYABLE],
        key_is(
            r@[CENTRALIZATION],
            "Centralization of power"@,
            "Contracts have owners with privileged rights to perform admin tasks and need to be trusted to not perform malicious updates or drain funds."@,
            Severity::Medium,
        ),
        key_is(
            r@[OWNER_ONLY_PAYABLE],
            "Functions guaranteed to revert for normal users should be marked as `payable`"@,
            "When a function is restricted to only one account, it's less expensive to mark it as "@,
            Severity::Gas,
        ),
{
    broadcast use vstd::laws_cmp::group_laws_cmp;

    let mut keys: BTreeMap<usize, FindingKey> = BTreeMap::new();
    keys.insert(
        CENTRALIZATION,
        FindingKey::new(
            "Centralization of power",
            "Contracts have owners with privileged rights to perform admin tasks and need to be trusted to not perform malicious updates or drain funds.",
            Severity::Medium,
        ),
    );
    keys.insert(
        OWNER_ONLY_PAYABLE,
        FindingKey::new(
            "Functions guaranteed to revert for normal users should be marked as `payable`",
            "When a function is restricted to only one account, it's less expensive to mark it as ",
            Severity::Gas,
        ),
    );
    proof {
        assert(keys@.dom() =~= set![CENTRALIZATION, OWNER_ONLY_PAYABLE]);
    }
    keys
}

/// The findings of a modifier invocation: both codes where `onlyOwner` is
/// invoked by a path, nothing otherwise.
pub open spec fn modifier_findings(m: ModifierInvocation) -> Seq<PushedFinding> {
    match m.modifier_name {
        ModifierName::IdentifierPath(p) => if p.name@ == "onlyOwner"@ {
            seq![
                PushedFinding { src: Some(m.src), code: CENTRALIZATION },
                PushedFinding { src: Some(m.src), code: OWNER_ONLY_PAYABLE },
            ]
        } else {
            seq![]
        },
        ModifierName::Identifier(_) => seq![],
    }
}

/// Checks a modifier invocation for `onlyOwner`.
pub fn check_modifier_invocation(modifier_invocation: &ModifierInvocation) -> (r: Vec<PushedFinding>)
    ensures
        r@ == modifier_findings(*modifier_invocation),
{
    let mut r: Vec<PushedFinding> = Vec::new();
    match &modifier_invocation.modifier_name {
        ModifierName::IdentifierPath(modifier) => {
            if str_eq(modifier.name.as_str(), "onlyOwner") {
                r.push(PushedFinding { src: Some(modifier_invocation.src), code: CENTRALIZATION });
                r.push(PushedFinding { src: Some(modifier_invocation.src), code: OWNER_ONLY_PAYABLE });
            }
        },
        ModifierName::Identifier(_) => {},
    }
    proof {
        assert(r@ =~= modifier_findings(*modifier_invocation));
    }
    r
}

/// A modifier invoked by the path `onlyOwner` is reported twice where it
/// is invoked, as centralization and as owner-only; any other modifier is
/// not reported.
pub proof fn lemma_only_owner_rules(m: ModifierInvocation)
    ensures
        (m.modifier_name matches ModifierName::IdentifierPath(p) && p.name@ == "onlyOwner"@) ==> modifier_findings(
            m,
        ) == seq![
            PushedFinding { src: Some(m.src), code: CENTRALIZATION },
            PushedFinding { src: Some(m.src), code: OWNER_ONLY_PAYABLE },
        ],
        (m.modifier_name matches ModifierName::IdentifierPath(p) && p.name@ != "onlyOwner"@) ==> modifier_findings(
            m,
        ).len() == 0,
{
}

} // verus!
