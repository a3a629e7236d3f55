use solhunt::ast::{
    AssignmentOperator, Assignment, Expression, ExpressionStatement, FunctionCall, FunctionCallKind,
    Identifier, IdentifierPath, MemberAccess, ModifierInvocation, ModifierName, Mutability,
    PragmaDirective, PushedFinding, TypeDescriptions, VariableDeclaration, Visibility,
    YulIdentifier,
};
use solhunt::detectors::{
    assembly, centralization, chainlink, dirty, encode_packed, erc20, inline_assembly, misc,
    overflow, uint256,
};
use solhunt::findings::{Severity, SourceLocation};
use solhunt::version::Version;

fn loc(start: usize, length: usize) -> SourceLocation {
    SourceLocation { start: Some(start), length: Some(length), index: Some(0) }
}

fn found(src: SourceLocation, code: usize) -> PushedFinding {
    PushedFinding { src: Some(src), code }
}

fn types(type_identifier: Option<&str>, type_string: Option<&str>) -> TypeDescriptions {
    TypeDescriptions {
        type_identifier: type_identifier.map(|s| s.to_string()),
        type_string: type_string.map(|s| s.to_string()),
    }
}

fn ident(name: &str, type_string: Option<&str>) -> Identifier {
    Identifier {
        src: loc(1, 3),
        name: name.to_string(),
        type_descriptions: types(None, type_string),
        argument_types: vec![],
    }
}

fn member(target: Identifier, name: &str, td: TypeDescriptions, args: Vec<TypeDescriptions>) -> MemberAccess {
    MemberAccess {
        src: loc(40, 20),
        member_name: name.to_string(),
        expression: Box::new(Expression::Identifier(target)),
        type_descriptions: td,
        argument_types: args,
    }
}

fn lits(v: &[&str]) -> Vec<String> {
    v.iter().map(|s| s.to_string()).collect()
}

#[test]
fn extcodesize_identifier() {
    let yul = YulIdentifier { src: loc(8, 11), name: "extcodesize".to_string() };
    assert_eq!(assembly::check_yul_identifier(&yul), Some(found(loc(8, 11), 0)));
    let other = YulIdentifier { src: loc(8, 7), name: "balance".to_string() };
    assert_eq!(assembly::check_yul_identifier(&other), None);
    assert_eq!(assembly::finding_keys()[&0].severity, Severity::Medium);
}

#[test]
fn inline_assembly_usage() {
    assert_eq!(inline_assembly::check_inline_assembly(loc(3, 30)), found(loc(3, 30), 0));
    let yul = YulIdentifier { src: loc(9, 11), name: "extcodesize".to_string() };
    assert_eq!(inline_assembly::check_yul_function_call(&yul), Some(found(loc(9, 11), 1)));
    let keys = inline_assembly::finding_keys();
    assert_eq!(keys[&0].severity, Severity::Informal);
    assert_eq!(keys[&1].severity, Severity::Medium);
}

#[test]
fn only_owner_is_centralization() {
    let only_owner = ModifierInvocation {
        src: loc(500, 9),
        modifier_name: ModifierName::IdentifierPath(IdentifierPath { src: loc(500, 9), name: "onlyOwner".to_string() }),
    };
    assert_eq!(
        centralization::check_modifier_invocation(&only_owner),
        vec![found(loc(500, 9), 0), found(loc(500, 9), 1)]
    );
    let by_identifier = ModifierInvocation {
        src: loc(500, 9),
        modifier_name: ModifierName::Identifier(ident("onlyOwner", None)),
    };
    assert!(centralization::check_modifier_invocation(&by_identifier).is_empty());
}

#[test]
fn encode_packed_with_strings() {
    let abi = || ident("abi", Some("abi"));
    let string = types(Some("t_string_calldata_ptr"), Some("string calldata"));
    let bytes = types(Some("t_bytes_calldata_ptr"), Some("bytes calldata"));
    let address = types(Some("t_address"), Some("address"));
    let no_string = member(abi(), "encodePacked", types(None, None), vec![address.clone(), bytes.clone()]);
    assert_eq!(encode_packed::check_encode(&no_string), vec![found(loc(40, 20), 0)]);
    let one = member(abi(), "encodePacked", types(None, None), vec![address.clone(), string.clone(), bytes]);
    assert_eq!(encode_packed::check_encode(&one), vec![found(loc(40, 20), 0), found(loc(40, 20), 1)]);
    let two = member(abi(), "encodePacked", types(None, None), vec![string.clone(), string]);
    assert_eq!(encode_packed::check_encode(&two), vec![found(loc(40, 20), 0), found(loc(40, 20), 2)]);
    let encode = member(abi(), "encode", types(None, None), vec![address]);
    assert_eq!(encode_packed::check_encode(&encode), vec![found(loc(40, 20), 3)]);
    let not_abi = member(ident("abi", None), "encode", types(None, None), vec![]);
    assert!(encode_packed::check_encode(&not_abi).is_empty());
}

#[test]
fn unsafe_erc20_operations() {
    let token = || ident("token", None);
    let transfer = member(
        token(),
        "transfer",
        types(None, Some("function (address,uint256) external returns (bool)")),
        vec![],
    );
    assert_eq!(erc20::check_erc20_member_access(&transfer), vec![found(loc(40, 20), 0)]);
    let eth_transfer = member(token(), "transfer", types(None, Some("function (uint256)")), vec![]);
    assert!(erc20::check_erc20_member_access(&eth_transfer).is_empty());
    let approve = member(token(), "safeApprove", types(None, None), vec![]);
    assert_eq!(erc20::check_erc20_member_access(&approve), vec![found(loc(40, 20), 1)]);
    let transfer_from = member(token(), "transferFrom", types(None, None), vec![]);
    assert!(erc20::check_erc20_member_access(&transfer_from).is_empty());
}

#[test]
fn unlocked_pragmas_and_deprecated_functions() {
    let unlocked = PragmaDirective { src: loc(0, 23), literals: lits(&["solidity", "^", "0.8", ".0"]) };
    assert_eq!(misc::check_pragma_directive(&unlocked), Some(found(loc(0, 23), 0)));
    let locked = PragmaDirective { src: loc(0, 22), literals: lits(&["solidity", "0.8", ".0"]) };
    assert_eq!(misc::check_pragma_directive(&locked), None);
    let setup_role = Identifier {
        src: loc(70, 10),
        name: "_setupRole".to_string(),
        type_descriptions: types(
            Some("t_function_internal_nonpayable$_t_bytes32_$_t_address_$returns$__$"),
            None,
        ),
        argument_types: vec![],
    };
    assert_eq!(misc::check_deprecated_identifier(&setup_role), Some(found(loc(70, 10), 1)));
    assert_eq!(misc::check_deprecated_identifier(&ident("_setupRole", None)), None);
}

#[test]
fn pushing_to_bytes() {
    let call = |ts: &str, m: &str| FunctionCall {
        src: loc(90, 12),
        kind: FunctionCallKind::FunctionCall,
        expression: Box::new(Expression::MemberAccess(member(ident("data", None), m, types(None, None), vec![]))),
        arguments: vec![],
        type_descriptions: types(None, Some(ts)),
    };
    assert_eq!(dirty::check_function_call(&call("bytes1", "push")), Some(found(loc(90, 12), 0)));
    assert_eq!(dirty::check_function_call(&call("uint256", "push")), None);
    assert_eq!(dirty::check_function_call(&call("bytes1", "pop")), None);
}

#[test]
fn uint256_variables() {
    let var = |ti: &str| VariableDeclaration {
        src: loc(30, 12),
        name: "x".to_string(),
        state_variable: true,
        visibility: Visibility::Internal,
        mutability: Mutability::Mutable,
        type_descriptions: types(Some(ti), Some("uint256")),
    };
    assert_eq!(uint256::check_variable_declaration(&var("t_uint256")), Some(found(loc(30, 12), 0)));
    assert_eq!(uint256::check_variable_declaration(&var("t_uint8")), None);
}

#[test]
fn chainlink_feeds() {
    let feed = || ident("feed", None);
    let latest_answer = member(feed(), "latestAnswer", types(Some("t_function_external_view$__$returns$_t_int256_$"), None), vec![]);
    assert_eq!(chainlink::check_member_access(&latest_answer), Some(found(loc(40, 20), 0)));
    let round = member(
        feed(),
        "latestRoundData",
        types(Some("t_function_external_view$__$returns$_t_uint80_$_t_int256_$_t_uint256_$_t_uint256_$_t_uint80_$"), None),
        vec![],
    );
    assert_eq!(chainlink::check_member_access(&round), Some(found(loc(40, 20), 1)));
    let other = member(feed(), "decimals", types(Some("t_function_external_view$__$returns$_t_uint8_$"), None), vec![]);
    assert_eq!(chainlink::check_member_access(&other), None);
}

#[test]
fn overflow_under_old_compilers_and_unchecked_blocks() {
    let assign = |op: AssignmentOperator| ExpressionStatement {
        expression: Expression::Assignment(Assignment {
            src: loc(60, 6),
            operator: op,
            lhs: Box::new(Expression::Identifier(ident("x", None))),
        }),
    };
    let mut module = overflow::OverflowModule::new();
    assert_eq!(module.check_expression_statement(&assign(AssignmentOperator::AddAssign)), None);
    assert_eq!(module.visit_pragma_directive(Version::new(0, 8, 0)), None);
    assert_eq!(module.check_expression_statement(&assign(AssignmentOperator::AddAssign)), None);
    assert_eq!(module.enter_unchecked_block(loc(50, 30)), found(loc(50, 30), 3));
    assert_eq!(module.check_expression_statement(&assign(AssignmentOperator::AddAssign)), Some(found(loc(60, 6), 1)));
    assert_eq!(module.check_expression_statement(&assign(AssignmentOperator::MulAssign)), Some(found(loc(60, 6), 1)));
    assert_eq!(module.check_expression_statement(&assign(AssignmentOperator::SubAssign)), Some(found(loc(60, 6), 2)));
    assert_eq!(module.check_expression_statement(&assign(AssignmentOperator::Assign)), None);
    module.exit_unchecked_block();
    assert_eq!(module.check_expression_statement(&assign(AssignmentOperator::SubAssign)), None);
    assert_eq!(module.visit_pragma_directive(Version::new(0, 7, 6)), Some(PushedFinding { src: None, code: 0 }));
    assert_eq!(module.check_expression_statement(&assign(AssignmentOperator::SubAssign)), Some(found(loc(60, 6), 2)));
}
