//! The `address_zero` gas module: comparisons with `address(0)`, which
//! assembly checks more cheaply.
use vstd::prelude::*;
use std::collections::BTreeMap;
use crate::findings::{FindingKey, Severity, SourceLocation, key_is};
use crate::ast::{BinaryOperator, Expression, FunctionCallKind, PushedFinding};
use crate::text::{opt_is, opt_str_eq, str_eq};

verus! {

/// Code of a comparison with `address(0)`.
pub const ADDRESS_ZERO_CHECK: usize = 0;

/// The keys of the module's findings.
pub fn finding_keys() -> (r: BTreeMap<usize, FindingKey>)
    ensures
        r@.dom() == set![ADDRESS_ZERO_CHECK],
        key_is(
            r@[ADDRESS_ZERO_CHECK],
            "address(0) check"@,
            "Use assembly to check for `address(0)`, *Saves 6 gas per instance*"@,
            Severity::Gas,
        ),
{
    broadcast use vstd::laws_cmp::group_laws_cmp;

    let mut keys: BTreeMap<usize, FindingKey> = BTreeMap::new();
    keys.insert(
        ADDRESS_ZERO_CHECK,
        FindingKey::new(
            "address(0) check",
            "Use assembly to check for `address(0)`, *Saves 6 gas per instance*",
            Severity::Gas,
        ),
    );
    proof {
        assert(keys@.dom() =~= set![ADDRESS_ZERO_CHECK]);
    }
    keys
}

/// The finding of an expression that converts the literal `0` to the type
/// `address`, that is `address(0)`, located at the literal; nothing for any
/// other expression.
pub open spec fn address_zero_findings(expr: Expression) -> Seq<PushedFinding> {
    match expr {
        Expression::FunctionCall(call) => {
            if call.kind == FunctionCallKind::TypeConversion && opt_is(
                call.type_descriptions.type_string,
                "address"@,
            ) && call.arguments@.len() > 0 {
                match call.arguments@[0] {
                    Expression::Literal(lit) => match lit.value {
                        Some(v) => if v@ == "0"@ {
                            seq![PushedFinding { src: Some(lit.src), code: ADDRESS_ZERO_CHECK }]
                        } else {
                            seq![]
                        },
                        None => seq![],
                    },
                    _ => seq![],
                }
            } else {
                seq![]
            }
        },
        _ => seq![],
    }
}

/// Looks for `address(0)`: the literal `0` converted to `address`.
pub fn check_address_zero(expr: &Expression) -> (r: Vec<PushedFinding>)
    ensures
        r@ == address_zero_findings(*expr),
{
    match expr {
        Expression::FunctionCall(func_call) => {
            if func_call.kind == FunctionCallKind::TypeConversion && opt_str_eq(
                &func_call.type_descriptions.type_string,
                "address",
            ) && func_call.arguments.len() > 0 {
                match &func_call.arguments[0] {
                    Expression::Literal(lit) => match &lit.value {
                        Some(v) => {
                            if str_eq(v.as_str(), "0") {
                                let mut r: Vec<PushedFinding> = Vec::new();
                                r.push(PushedFinding { src: Some(lit.src), code: ADDRESS_ZERO_CHECK });
                                proof {
                                    assert(r@ =~= address_zero_findings(*expr));
                                }
                                return r;
                            }
                        },
                        None => {},
                    },
                    _ => {},
                }
            }
        },
        _ => {},
    }
    let r: Vec<PushedFinding> = Vec::new();
    proof {
        assert(r@ =~= address_zero_findings(*expr));
    }
    r
}

/// The findings of a binary operation: for `==` and `!=`, those of the left
/// side then those of the right side; nothing for other operators.
pub open spec fn binary_operation_findings(
    operator: BinaryOperator,
    lhs: Expression,
    rhs: Expression,
) -> Seq<PushedFinding> {
    if operator == BinaryOperator::Equal || operator == BinaryOperator::NotEqual {
        address_zero_findings(lhs) + address_zero_findings(rhs)
    } else {
        seq![]
    }
}

/// Checks both sides of an equality or inequality for `address(0)`.
pub fn check_binary_operation(operator: BinaryOperator, lhs: &Expression, rhs: &Expression) -> (r:
    Vec<PushedFinding>)
    ensures
        r@ == binary_operation_findings(operator, *lhs, *rhs),
{
    match operator {
        BinaryOperator::Equal | BinaryOperator::NotEqual => {
            let mut r = check_address_zero(lhs);
            let mut right = check_address_zero(rhs);
            let ghost l = r@;
            let ghost rr = right@;
            r.append(&mut right);
            proof {
                assert(r@ =~= l + rr);
            }
            r
        },
        _ => {
            let r: Vec<PushedFinding> = Vec::new();
            proof {
                assert(r@ =~= binary_operation_findings(operator, *lhs, *rhs));
            }
            r
        },
    }
}

/// Where the literal `0` of `address(0)` stands, when `expr` is that
/// conversion: a type conversion to `address` whose first argument is the
/// literal `0`.
pub open spec fn address_zero_literal(expr: Expression) -> Option<SourceLocation> {
    match expr {
        Expression::FunctionCall(c) => match c.type_descriptions.type_string {
            Some(t) => if c.kind == FunctionCallKind::TypeConversion && t@ == "address"@
                && c.arguments@.len() > 0 {
                match c.arguments@[0] {
                    Expression::Literal(lit) => match lit.value {
                        Some(v) => if v@ == "0"@ {
                            Some(lit.src)
                        } else {
                            None
                        },
                        None => None,
                    },
                    _ => None,
                }
            } else {
                None
            },
            None => None,
        },
        _ => None,
    }
}

/// `address(0)`, the literal `0` converted to `address`, is reported at
/// the literal, and nothing else is; comparing with `==` or `!=` reports
/// what each side gives, and other operators report nothing.
pub proof fn lemma_address_zero_rules(expr: Expression, operator: BinaryOperator, other: Expression)
    ensures
        address_zero_literal(expr) matches Some(src) ==> address_zero_findings(expr) == seq![
            PushedFinding { src: Some(src), code: ADDRESS_ZERO_CHECK },
        ],
        address_zero_literal(expr) is None ==> address_zero_findings(expr).len() == 0,
        (operator == BinaryOperator::Equal || operator == BinaryOperator::NotEqual) ==> binary_operation_findings(
            operator,
            other,
            expr,
        ) == address_zero_findings(other) + address_zero_findings(expr),
        !(operator == BinaryOperator::Equal || operator == BinaryOperator::NotEqual) ==> binary_operation_findings(
            operator,
            other,
            expr,
        ).len() == 0,
{
}

} // verus!
