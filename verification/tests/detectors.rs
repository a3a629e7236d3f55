use solhunt::detectors::address_zero::{check_address_zero, check_binary_operation};
use solhunt::ast::{
    BinaryOperator, Block, ElementaryTypeName, Expression, ExpressionStatement, FunctionCall,
    FunctionCallKind, Identifier, Literal, MemberAccess, Parameter, PushedFinding, Statement,
    StorageLocation, TypeDescriptions, TypeName,
};
use solhunt::detectors::calls::{
    check_delegatecall_in_loop, check_for_external_call, check_function_definition, parse_body,
    parse_params,
};
use solhunt::findings::{Inside, SourceLocation};

fn loc(start: usize, length: usize) -> SourceLocation {
    SourceLocation { start: Some(start), length: Some(length), index: Some(0) }
}

fn param(name: &str, ty: &str) -> Parameter {
    Parameter {
        src: loc(0, 1),
        name: name.to_string(),
        declared_type: Some(TypeName::ElementaryTypeName(ElementaryTypeName { name: ty.to_string() })),
        storage_location: StorageLocation::Default,
    }
}

fn ident(name: &str) -> Expression {
    Expression::Identifier(Identifier {
        src: loc(0, 2),
        name: name.to_string(),
        type_descriptions: TypeDescriptions::default(),
        argument_types: vec![],
    })
}

/// `<target>.<member>(...)` as a statement, the call at `src`.
fn member_call(target: &str, member: &str, src: SourceLocation) -> Statement {
    Statement::ExpressionStatement(ExpressionStatement {
        expression: Expression::FunctionCall(FunctionCall {
            src,
            kind: FunctionCallKind::FunctionCall,
            expression: Box::new(Expression::MemberAccess(MemberAccess {
                src: loc(src.start.unwrap(), 7),
                member_name: member.to_string(),
                expression: Box::new(ident(target)),
                type_descriptions: TypeDescriptions::default(),
                argument_types: vec![],
            })),
            arguments: vec![],
            type_descriptions: TypeDescriptions::default(),
        }),
    })
}

/// `<ty>(<value>)`, the literal at `src`.
fn conversion(ty_src: SourceLocation, value: &str, src: SourceLocation) -> Expression {
    Expression::FunctionCall(FunctionCall {
        src: ty_src,
        kind: FunctionCallKind::TypeConversion,
        expression: Box::new(ident("address")),
        arguments: vec![Expression::Literal(Literal { src, value: Some(value.to_string()) })],
        type_descriptions: TypeDescriptions {
            type_identifier: Some("t_address".to_string()),
            type_string: Some("address".to_string()),
        },
    })
}

#[test]
fn address_parameters_are_recorded() {
    let data = parse_params(&[param("to", "address"), param("amount", "uint256")]);
    assert_eq!(data.get("to"), Some("address".to_string()));
    assert_eq!(data.get("amount"), None);
    assert_eq!(data.get("missing"), None);
}

#[test]
fn parameters_without_elementary_type_are_ignored() {
    let data = parse_params(&[
        Parameter {
            src: loc(0, 1),
            name: "list".to_string(),
            declared_type: Some(TypeName::ArrayTypeName),
            storage_location: StorageLocation::Memory,
        },
        Parameter {
            src: loc(0, 1),
            name: "x".to_string(),
            declared_type: None,
            storage_location: StorageLocation::Default,
        },
    ]);
    assert!(data.entries.is_empty());
}

#[test]
fn a_call_statement_is_an_external_call() {
    let data = parse_params(&[]);
    let found = check_for_external_call(&member_call("to", "setStuff", loc(200, 13)), &data);
    assert_eq!(found, vec![PushedFinding { src: Some(loc(200, 13)), code: 0 }]);
}

#[test]
fn a_call_on_an_address_parameter_is_arbitrary() {
    let data = parse_params(&[param("to", "address")]);
    let found = check_for_external_call(&member_call("to", "call", loc(90, 12)), &data);
    assert_eq!(
        found,
        vec![
            PushedFinding { src: Some(loc(90, 12)), code: 0 },
            PushedFinding { src: Some(loc(90, 12)), code: 1 },
        ]
    );
}

#[test]
fn other_statements_have_no_call_findings() {
    let data = parse_params(&[param("to", "address")]);
    assert!(check_for_external_call(&Statement::Other, &data).is_empty());
    let not_a_call = Statement::ExpressionStatement(ExpressionStatement { expression: ident("to") });
    assert!(check_for_external_call(&not_a_call, &data).is_empty());
}

#[test]
fn a_body_is_checked_statement_by_statement() {
    let data = parse_params(&[param("to", "address")]);
    let body = Block {
        statements: vec![
            member_call("other", "f", loc(10, 3)),
            Statement::Other,
            member_call("to", "call", loc(30, 4)),
        ],
    };
    assert_eq!(
        parse_body(&body, &data),
        vec![
            PushedFinding { src: Some(loc(10, 3)), code: 0 },
            PushedFinding { src: Some(loc(30, 4)), code: 0 },
            PushedFinding { src: Some(loc(30, 4)), code: 1 },
        ]
    );
}

#[test]
fn a_function_without_body_has_no_call_findings() {
    assert!(check_function_definition(&[param("to", "address")], &None).is_empty());
    let body = Some(Block { statements: vec![member_call("to", "call", loc(5, 5))] });
    assert_eq!(check_function_definition(&[param("to", "address")], &body).len(), 2);
}

#[test]
fn delegatecall_only_counts_in_loops() {
    let member = MemberAccess {
        src: loc(120, 14),
        member_name: "delegatecall".to_string(),
        expression: Box::new(ident("to")),
        type_descriptions: TypeDescriptions::default(),
        argument_types: vec![],
    };
    let outside = Inside::default();
    assert_eq!(check_delegatecall_in_loop(&outside, &member), None);
    let in_for = Inside { for_loop: true, ..Inside::default() };
    assert_eq!(
        check_delegatecall_in_loop(&in_for, &member),
        Some(PushedFinding { src: Some(loc(120, 14)), code: 2 })
    );
    let in_while = Inside { while_loop: true, ..Inside::default() };
    assert!(check_delegatecall_in_loop(&in_while, &member).is_some());
    let call = MemberAccess { member_name: "call".to_string(), ..member };
    assert_eq!(check_delegatecall_in_loop(&in_for, &call), None);
}

#[test]
fn address_zero_is_found_at_the_literal() {
    let expr = conversion(loc(50, 10), "0", loc(58, 1));
    assert_eq!(check_address_zero(&expr), vec![PushedFinding { src: Some(loc(58, 1)), code: 0 }]);
    assert!(check_address_zero(&conversion(loc(50, 10), "1", loc(58, 1))).is_empty());
    assert!(check_address_zero(&ident("owner")).is_empty());
    // `uint256(0)` converts the literal 0 to another type
    let to_uint = match conversion(loc(50, 10), "0", loc(58, 1)) {
        Expression::FunctionCall(c) => Expression::FunctionCall(FunctionCall {
            type_descriptions: TypeDescriptions {
                type_identifier: Some("t_uint256".to_string()),
                type_string: Some("uint256".to_string()),
            },
            ..c
        }),
        other => other,
    };
    assert!(check_address_zero(&to_uint).is_empty());
}

#[test]
fn only_comparisons_are_checked_for_address_zero() {
    let zero = conversion(loc(50, 10), "0", loc(58, 1));
    let owner = ident("owner");
    assert_eq!(
        check_binary_operation(BinaryOperator::NotEqual, &owner, &zero),
        vec![PushedFinding { src: Some(loc(58, 1)), code: 0 }]
    );
    assert_eq!(check_binary_operation(BinaryOperator::Equal, &zero, &zero).len(), 2);
    assert!(check_binary_operation(BinaryOperator::Add, &owner, &zero).is_empty());
}
