//! The `encode_packed` module: `abi.encodePacked` with dynamic types, and
//! `abi.encode`.
use vstd::prelude::*;
use vstd::utf8::*;
use std::collections::BTreeMap;
use crate::ast::{Expression, MemberAccess, PushedFinding, TypeDescriptions};
use crate::findings::{FindingKey, Severity, key_is};
use crate::text::{bytes_start_with, opt_is, opt_str_eq, str_eq, str_starts_with};

verus! {

/// Code of `abi.encodePacked`.
pub const ENCODE_PACKED: usize = 0;

/// Code of `abi.encodePacked` with one string argument.
pub const ONE_STRING_ARGUMENT: usize = 1;

/// Code of `abi.encodePacked` with several string arguments.
pub const STRING_ARGUMENTS: usize = 2;

/// Code of `abi.encode`.
pub const ENCODE: usize = 3;

/// The keys of the module's findings.
pub fn finding_keys() -> (r: BTreeMap<usize, FindingKey>)
    ensures
        r@.dom() == set![ENCODE_PACKED, ONE_STRING_ARGUMENT, STRING_ARGUMENTS, ENCODE],
        key_is(
            r@[ENCODE_PACKED],
            "Usage of abi.encodePacked() with dynamic types"@,
            "`abi.encodePacked()` should not be used with dynamic types when passing the result to a hash function such as `keccak256()`. Use `abi.encode()` instead which will pad items to 32 bytes, which will [prevent hash collisions](https://docs.soliditylang.org/en/v0.8.13/abi-spec.html#non-standard-packed-mode) (e.g. `abi.encodePacked(0x123,0x456)` => `0x123456` => `abi.encodePacked(0x1,0x23456)`, but `abi.encode(0x123,0x456)` => `0x0...1230...456`). \"Unless there is a compelling reason, `abi.encode` should be preferred\". "@,
            Severity::Low,
        ),
        key_is(
            r@[ONE_STRING_ARGUMENT],
            "One argument with abi.encodePacked()"@,
            "As there is only one argument to `abi.encodePacked()` it can often be cast to `bytes()` or `bytes32()` [instead](https://ethereum.stackexchange.com/questions/30912/how-to-compare-strings-in-solidity#answer-82739).\n"@,
            Severity::Low,
        ),
        key_is(
            r@[STRING_ARGUMENTS],
            "Only strings and bytes"@,
            "As all arguments are strings and or bytes, `bytes.concat()` should be used instead"@,
            Severity::Low,
        ),
        key_is(
            r@[ENCODE],
            "`abi.encode()` is less efficient than `abi.encodepacked()`"@,
            "see: https://github.com/ConnorBlockchain/Solidity-Encode-Gas-Comparison"@,
            Severity::Gas,
        ),
{
    broadcast use vstd::laws_cmp::group_laws_cmp;

    let mut keys: BTreeMap<usize, FindingKey> = BTreeMap::new();
    keys.insert(
        ENCODE_PACKED,
        FindingKey::new(
            "Usage of abi.encodePacked() with dynamic types",
            "`abi.encodePacked()` should not be used with dynamic types when passing the result to a hash function such as `keccak256()`. Use `abi.encode()` instead which will pad items to 32 bytes, which will [prevent hash collisions](https://docs.soliditylang.org/en/v0.8.13/abi-spec.html#non-standard-packed-mode) (e.g. `abi.encodePacked(0x123,0x456)` => `0x123456` => `abi.encodePacked(0x1,0x23456)`, but `abi.encode(0x123,0x456)` => `0x0...1230...456`). \"Unless there is a compelling reason, `abi.encode` should be preferred\". ",
            Severity::Low,
        ),
    );
    keys.insert(
        ONE_STRING_ARGUMENT,
        FindingKey::new(
            "One argument with abi.encodePacked()",
            "As there is only one argument to `abi.encodePacked()` it can often be cast to `bytes()` or `bytes32()` [instead](https://ethereum.stackexchange.com/questions/30912/how-to-compare-strings-in-solidity#answer-82739).\n",
            Severity::Low,
        ),
    );
    keys.insert(
        STRING_ARGUMENTS,
        FindingKey::new(
            "Only strings and bytes",
            "As all arguments are strings and or bytes, `bytes.concat()` should be used instead",
            Severity::Low,
        ),
    );
    keys.insert(
        ENCODE,
        FindingKey::new(
            "`abi.encode()` is less efficient than `abi.encodepacked()`",
            "see: https://github.com/ConnorBlockchain/Solidity-Encode-Gas-Comparison",
            Severity::Gas,
        ),
    );
    proof {
        assert(keys@.dom() =~= set![ENCODE_PACKED, ONE_STRING_ARGUMENT, STRING_ARGUMENTS, ENCODE]);
    }
    keys
}

/// A type described as a string type: its type string starts with `string`.
pub open spec fn is_string_type(t: TypeDescriptions) -> bool {
    match t.type_string {
        Some(s) => bytes_start_with(encode_utf8(s@), encode_utf8("string"@)),
        None => false,
    }
}

/// How many of the argument types are string types.
pub open spec fn string_arguments(ts: Seq<TypeDescriptions>) -> nat
    decreases ts.len(),
{
    if ts.len() == 0 {
        0
    } else {
        string_arguments(ts.drop_last()) + if is_string_type(ts.last()) {
            1nat
        } else {
            0nat
        }
    }
}

/// The findings of a member access: for `abi.encodePacked`, the packed
/// encoding and, with one string argument or more, how many; for
/// `abi.encode`, its cost; nothing for any other member.
pub open spec fn encode_findings(ma: MemberAccess) -> Seq<PushedFinding> {
    match *ma.expression {
        Expression::Identifier(id) => if id.name@ == "abi"@ && opt_is(id.type_descriptions.type_string, "abi"@) {
            if ma.member_name@ == "encodePacked"@ {
                let first = seq![PushedFinding { src: Some(ma.src), code: ENCODE_PACKED }];
                let n = string_arguments(ma.argument_types@);
                if n == 0 {
                    first
                } else if n <= 1 {
                    first.push(PushedFinding { src: Some(ma.src), code: ONE_STRING_ARGUMENT })
                } else {
                    first.push(PushedFinding { src: Some(ma.src), code: STRING_ARGUMENTS })
                }
            } else if ma.member_name@ == "encode"@ {
                seq![PushedFinding { src: Some(ma.src), code: ENCODE }]
            } else {
                seq![]
            }
        } else {
            seq![]
        },
        _ => seq![],
    }
}

/// Counts the string types among argument types.
fn count_string_arguments(ts: &Vec<TypeDescriptions>) -> (r: usize)
    ensures
        r == string_arguments(ts@),
{
    let mut n: usize = 0;
    let mut i: usize = 0;
    while i < ts.len()
        invariant
            i <= ts@.len(),
            n == string_arguments(ts@.subrange(0, i as int)),
            n <= i,
        decreases ts@.len() - i,
    {
        proof {
            assert(ts@.subrange(0, i + 1).drop_last() =~= ts@.subrange(0, i as int));
        }
        let is_string = match &ts[i].type_string {
            Some(s) => str_starts_with(s.as_str(), "string"),
            None => false,
        };
        if is_string {
            n = n + 1;
        }
        i = i + 1;
    }
    proof {
        assert(ts@.subrange(0, ts@.len() as int) =~= ts@);
    }
    n
}

/// Checks a member access for `abi.encodePacked` and `abi.encode`.
pub fn check_encode(member_access: &MemberAccess) -> (r: Vec<PushedFinding>)
    ensures
        r@ == encode_findings(*member_access),
{
    let mut r: Vec<PushedFinding> = Vec::new();
    match &*member_access.expression {
        Expression::Identifier(identifier) => {
            if str_eq(identifier.name.as_str(), "abi") && opt_str_eq(
                &identifier.type_descriptions.type_string,
                "abi",
            ) {
                if str_eq(member_access.member_name.as_str(), "encodePacked") {
                    let dynamic = count_string_arguments(&member_access.argument_types);
                    r.push(PushedFinding { src: Some(member_access.src), code: ENCODE_PACKED });
                    if dynamic == 0 {
                    } else if dynamic <= 1 {
                        r.push(PushedFinding { src: Some(member_access.src), code: ONE_STRING_ARGUMENT });
                    } else {
                        r.push(PushedFinding { src: Some(member_access.src), code: STRING_ARGUMENTS });
                    }
                } else if str_eq(member_access.member_name.as_str(), "encode") {
                    r.push(PushedFinding { src: Some(member_access.src), code: ENCODE });
                }
            }
        },
        _ => {},
    }
    proof {
        assert(r@ =~= encode_findings(*member_access));
    }
    r
}

/// A type whose type string starts with `string`.
pub open spec fn named_string(t: TypeDescriptions) -> bool {
    t.type_string is Some && bytes_start_with(encode_utf8(t.type_string->0@), encode_utf8("string"@))
}

/// A member of the name `abi` of the type `abi`.
pub open spec fn abi_member(ma: MemberAccess) -> bool {
    *ma.expression matches Expression::Identifier(id) && id.name@ == "abi"@
        && id.type_descriptions.type_string is Some && id.type_descriptions.type_string->0@ == "abi"@
}

proof fn lemma_no_strings(ts: Seq<TypeDescriptions>)
    requires
        forall|i: int| 0 <= i < ts.len() ==> !named_string(#[trigger] ts[i]),
    ensures
        string_arguments(ts) == 0,
    decreases ts.len(),
{
    if ts.len() > 0 {
        let init = ts.drop_last();
        assert forall|i: int| 0 <= i < init.len() implies !named_string(#[trigger] init[i]) by {
            assert(init[i] == ts[i]);
        }
        lemma_no_strings(init);
        assert(!named_string(ts[ts.len() - 1]));
    }
}

proof fn lemma_one_string(ts: Seq<TypeDescriptions>, i: int)
    requires
        0 <= i < ts.len(),
        named_string(ts[i]),
        forall|j: int| 0 <= j < ts.len() && j != i ==> !named_string(#[trigger] ts[j]),
    ensures
        string_arguments(ts) == 1,
    decreases ts.len(),
{
    let init = ts.drop_last();
    let last = ts.len() - 1;
    if i < last {
        assert(!named_string(ts[last]));
        assert forall|j: int| 0 <= j < init.len() && j != i implies !named_string(#[trigger] init[j]) by {
            assert(init[j] == ts[j]);
        }
        assert(init[i] == ts[i]);
        lemma_one_string(init, i);
    } else {
        assert forall|j: int| 0 <= j < init.len() implies !named_string(#[trigger] init[j]) by {
            assert(init[j] == ts[j]);
        }
        lemma_no_strings(init);
    }
}

proof fn lemma_some_string(ts: Seq<TypeDescriptions>, i: int)
    requires
        0 <= i < ts.len(),
        named_string(ts[i]),
    ensures
        string_arguments(ts) >= 1,
    decreases ts.len(),
{
    let init = ts.drop_last();
    if i < ts.len() - 1 {
        assert(init[i] == ts[i]);
        lemma_some_string(init, i);
    }
}

proof fn lemma_two_strings(ts: Seq<TypeDescriptions>, i: int, j: int)
    requires
        0 <= i < j < ts.len(),
        named_string(ts[i]),
        named_string(ts[j]),
    ensures
        string_arguments(ts) >= 2,
    decreases ts.len(),
{
    let init = ts.drop_last();
    assert(init[i] == ts[i]);
    if j < ts.len() - 1 {
        assert(init[j] == ts[j]);
        lemma_two_strings(init, i, j);
    } else {
        lemma_some_string(init, i);
    }
}

/// `abi.encodePacked` with no string argument is reported once, at the
/// access.
pub proof fn lemma_encode_packed_no_string(ma: MemberAccess)
    requires
        abi_member(ma),
        ma.member_name@ == "encodePacked"@,
        forall|i: int| 0 <= i < ma.argument_types@.len() ==> !named_string(#[trigger] ma.argument_types@[i]),
    ensures
        encode_findings(ma) == seq![PushedFinding { src: Some(ma.src), code: ENCODE_PACKED }],
{
    lemma_no_strings(ma.argument_types@);
}

/// `abi.encodePacked` with exactly one string argument is reported as a
/// packed encoding and as one string argument, at the access.
pub proof fn lemma_encode_packed_one_string(ma: MemberAccess, i: int)
    requires
        abi_member(ma),
        ma.member_name@ == "encodePacked"@,
        0 <= i < ma.argument_types@.len(),
        named_string(ma.argument_types@[i]),
        forall|j: int| 0 <= j < ma.argument_types@.len() && j != i ==> !named_string(#[trigger] ma.argument_types@[j]),
    ensures
        encode_findings(ma) == seq![
            PushedFinding { src: Some(ma.src), code: ENCODE_PACKED },
            PushedFinding { src: Some(ma.src), code: ONE_STRING_ARGUMENT },
        ],
{
    lemma_one_string(ma.argument_types@, i);
}

/// `abi.encodePacked` with two string arguments or more is reported as a
/// packed encoding and as string arguments, at the access.
pub proof fn lemma_encode_packed_strings(ma: MemberAccess, i: int, j: int)
    requires
        abi_member(ma),
        ma.member_name@ == "encodePacked"@,
        0 <= i < j < ma.argument_types@.len(),
        named_string(ma.argument_types@[i]),
        named_string(ma.argument_types@[j]),
    ensures
        encode_findings(ma) == seq![
            PushedFinding { src: Some(ma.src), code: ENCODE_PACKED },
            PushedFinding { src: Some(ma.src), code: STRING_ARGUMENTS },
        ],
{
    lemma_two_strings(ma.argument_types@, i, j);
}

/// `abi.encode` is reported as less efficient, at the access; nothing else
/// than `abi.encode` and `abi.encodePacked` is reported.
pub proof fn lemma_encode_rules(ma: MemberAccess)
    ensures
        abi_member(ma) && ma.member_name@ == "encode"@ ==> encode_findings(ma) == seq![
            PushedFinding { src: Some(ma.src), code: ENCODE },
        ],
        !abi_member(ma) ==> encode_findings(ma).len() == 0,
        ma.member_name@ != "encode"@ && ma.member_name@ != "encodePacked"@ ==> encode_findings(ma).len() == 0,
{
    reveal_strlit("encode");
    reveal_strlit("encodePacked");
    assert("encode"@ != "encodePacked"@) by {
        assert("encode"@.len() != "encodePacked"@.len());
    }
}

} // verus!
