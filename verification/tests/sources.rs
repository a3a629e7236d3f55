//! The detection modules on the Solidity sources that exercise them: the
//! syntax nodes each module looks at are built by hand at their places in
//! the source, visited in source order, and the lines reported are read back
//! through the source map.
use solhunt::ast::{
    Assignment, AssignmentOperator, BinaryOperation, BinaryOperator, Block, ElementaryTypeName,
    EmitStatement, Expression, ExpressionStatement, FunctionCall, FunctionCallKind,
    FunctionDefinition, FunctionKind, Identifier, IdentifierPath, IfStatement, Literal,
    MemberAccess, ModifierInvocation, ModifierName, Mutability, Parameter, PragmaDirective,
    PushedFinding, StateMutability, Statement, StorageLocation, TypeDescriptions, TypeName,
    VariableDeclaration, Visibility, YulIdentifier,
};
use solhunt::detectors::{
    address_zero, assembly, calls, centralization, chainlink, condition, constructor, dirty,
    encode_packed, erc20, function, immutable, inline_assembly, maths, misc, overflow, oz, require,
    state, tree,
};
use solhunt::findings::{AllFindings, FindingKey, Inside, SourceLocation};
use solhunt::source::get_source_map;
use solhunt::tight_pack::extract_struct_bytes;
use solhunt::version::Version;
use solhunt::walker::{record_source_findings, ModuleState, SourceEntry, SourceMap};
use std::collections::BTreeMap;

/// The place of the `n`-th occurrence (from 0) of `needle` in `text`.
fn nth(text: &str, needle: &str, n: usize) -> SourceLocation {
    let start = text.match_indices(needle).nth(n).expect("the needle is in the source").0;
    SourceLocation { start: Some(start), length: Some(needle.len()), index: Some(0) }
}

fn at(text: &str, needle: &str) -> SourceLocation {
    nth(text, needle, 0)
}

/// The lines of the findings with `code` that a module reports in `text`.
fn lines(module: &str, keys: &BTreeMap<usize, FindingKey>, text: &str, pushed: &[PushedFinding], code: usize) -> Vec<usize> {
    let mut state = ModuleState::new(module.to_string());
    state.push_findings(keys, &pushed.to_vec());
    let path = "/project/src/C.sol".to_string();
    let map = SourceMap {
        entries: vec![SourceEntry {
            path: path.clone(),
            content: text.to_string(),
            lines_to_bytes: get_source_map(&text.to_string()),
        }],
    };
    let mut all = AllFindings::new();
    record_source_findings(&state, 0, &"C".to_string(), &path, &map, &mut all);
    all.modules
        .iter()
        .flat_map(|m| m.findings.iter())
        .filter(|mf| mf.finding.code == code)
        .map(|mf| mf.meta.line.unwrap())
        .collect()
}

fn has(pushed: &[PushedFinding], code: usize) -> bool {
    pushed.iter().any(|f| f.code == code)
}

fn types(type_identifier: &str, type_string: &str) -> TypeDescriptions {
    TypeDescriptions { type_identifier: Some(type_identifier.to_string()), type_string: Some(type_string.to_string()) }
}

fn identifier(name: &str, src: SourceLocation, td: TypeDescriptions, argument_types: Vec<TypeDescriptions>) -> Identifier {
    Identifier { src, name: name.to_string(), type_descriptions: td, argument_types }
}

fn ident(name: &str, src: SourceLocation) -> Expression {
    Expression::Identifier(identifier(name, src, TypeDescriptions::default(), vec![]))
}

fn member(src: SourceLocation, of: Expression, name: &str, td: TypeDescriptions, argument_types: Vec<TypeDescriptions>) -> MemberAccess {
    MemberAccess { src, member_name: name.to_string(), expression: Box::new(of), type_descriptions: td, argument_types }
}

fn call(src: SourceLocation, callee: Expression, arguments: Vec<Expression>) -> FunctionCall {
    FunctionCall { src, kind: FunctionCallKind::FunctionCall, expression: Box::new(callee), arguments, type_descriptions: TypeDescriptions::default() }
}

fn statement(e: Expression) -> Statement {
    Statement::ExpressionStatement(ExpressionStatement { expression: e })
}

fn assignment(src: SourceLocation, operator: AssignmentOperator, lhs: Expression) -> Assignment {
    Assignment { src, operator, lhs: Box::new(lhs) }
}

fn state_var(src: SourceLocation, name: &str, type_string: &str, visibility: Visibility, mutability: Mutability) -> VariableDeclaration {
    VariableDeclaration {
        src,
        name: name.to_string(),
        state_variable: true,
        visibility,
        mutability,
        type_descriptions: TypeDescriptions { type_identifier: None, type_string: Some(type_string.to_string()) },
    }
}

fn local_var(src: SourceLocation, name: &str, type_string: &str) -> VariableDeclaration {
    VariableDeclaration {
        state_variable: false,
        visibility: Visibility::Internal,
        ..state_var(src, name, type_string, Visibility::Internal, Mutability::Mutable)
    }
}

fn param(src: SourceLocation, name: &str, elementary: Option<&str>, storage_location: StorageLocation) -> Parameter {
    Parameter {
        src,
        name: name.to_string(),
        declared_type: Some(match elementary {
            Some(t) => TypeName::ElementaryTypeName(ElementaryTypeName { name: t.to_string() }),
            None => TypeName::Other,
        }),
        storage_location,
    }
}

fn function_def(src: SourceLocation, name: &str, kind: FunctionKind, visibility: Visibility, mutability: StateMutability, parameters: Vec<Parameter>, body: Option<Block>) -> FunctionDefinition {
    FunctionDefinition { src, name: name.to_string(), kind: Some(kind), state_mutability: Some(mutability), visibility, parameters, body }
}

fn block(statements: Vec<Statement>) -> Option<Block> {
    Some(Block { statements })
}

fn pragma(text: &str, literals: &[&str]) -> PragmaDirective {
    PragmaDirective { src: at(text, "pragma solidity"), literals: literals.iter().map(|l| l.to_string()).collect() }
}

fn yul(text: &str, name: &str, n: usize) -> YulIdentifier {
    YulIdentifier { src: nth(text, name, n), name: name.to_string() }
}

#[test]
fn state_var_in_event() {
    let text = "pragma solidity 0.8.0;

contract StateVarEvent {
    event Mint(uint256);

    uint256 public supply;

    function wastesGas() public {
        emit Mint(supply); 
    }
}";
    let mut m = state::StateModule::new();
    let mut found = m.visit_variable_declaration(&state_var(at(text, "uint256 public supply"), "supply", "uint256", Visibility::Public, Mutability::Mutable));
    let f = function_def(at(text, "function wastesGas"), "wastesGas", FunctionKind::Function, Visibility::Public, StateMutability::Nonpayable, vec![], None);
    m.enter_function_definition(&f);
    m.visit_emit_statement(&EmitStatement { src: at(text, "emit Mint(supply)"), arguments: vec![ident("supply", at(text, "supply)"))] });
    m.exit_function_definition();
    found.extend(m.finish_source_unit());
    assert_eq!(lines("state", &state::finding_keys(), text, &found, 0), vec![9]);
}

#[test]
fn stack_var_in_event() {
    let text = "pragma solidity 0.8.0;

contract StateVarEvent {
    event Mint(uint256);

    function wastesGas() public {
        uint256 supply = 1_000_000;

        emit Mint(supply); 
    }
}";
    let mut m = state::StateModule::new();
    let f = function_def(at(text, "function wastesGas"), "wastesGas", FunctionKind::Function, Visibility::Public, StateMutability::Nonpayable, vec![], None);
    m.enter_function_definition(&f);
    let mut found = m.visit_variable_declaration(&local_var(at(text, "uint256 supply"), "supply", "uint256"));
    m.visit_emit_statement(&EmitStatement { src: at(text, "emit Mint(supply)"), arguments: vec![ident("supply", at(text, "supply)"))] });
    m.exit_function_definition();
    found.extend(m.finish_source_unit());
    assert!(!has(&found, 0));
}

#[test]
fn using_public_state() {
    let text = "pragma solidity 0.8.0;

contract StateVarPublic {
    uint256 public supply;
}";
    let mut m = state::StateModule::new();
    let mut found = m.visit_variable_declaration(&state_var(at(text, "uint256 public supply"), "supply", "uint256", Visibility::Public, Mutability::Mutable));
    found.extend(m.finish_source_unit());
    assert_eq!(lines("state", &state::finding_keys(), text, &found, 5), vec![4]);
}

#[test]
fn immut_public() {
    let text = "pragma solidity 0.8.0;

contract Immut {
    uint256 immutable public num;
    address constant public addr = 0x0000000000000000000000000000000000000000;

    constructor(uint256 _num) {
        num = _num;
    }
}";
    let mut m = state::StateModule::new();
    let mut found = m.visit_variable_declaration(&state_var(at(text, "uint256 immutable public num"), "num", "uint256", Visibility::Public, Mutability::Immutable));
    found.extend(m.visit_variable_declaration(&state_var(at(text, "address constant public addr"), "addr", "address", Visibility::Public, Mutability::Constant)));
    let ctor = function_def(at(text, "constructor"), "", FunctionKind::Constructor, Visibility::Public, StateMutability::Nonpayable, vec![], None);
    m.enter_function_definition(&ctor);
    found.extend(m.visit_variable_declaration(&local_var(at(text, "uint256 _num"), "_num", "uint256")));
    found.extend(m.visit_assignment(&assignment(at(text, "num = _num"), AssignmentOperator::Assign, ident("num", at(text, "num = _num")))));
    m.exit_function_definition();
    found.extend(m.finish_source_unit());
    assert_eq!(lines("state", &state::finding_keys(), text, &found, 1), vec![4, 5]);
}

#[test]
fn mut_public() {
    let text = "pragma solidity 0.8.0;

contract Immut {
    uint256 public num;
}";
    let mut m = state::StateModule::new();
    let mut found = m.visit_variable_declaration(&state_var(at(text, "uint256 public num"), "num", "uint256", Visibility::Public, Mutability::Mutable));
    found.extend(m.finish_source_unit());
    assert!(!has(&found, 1));
}

#[test]
fn compound_state() {
    let text = "pragma solidity 0.8.0;

contract Compound {
    uint private a;

    function moreExpensive() public {
        a += 1;
    }

    function moreExpensive2() public {
        a -= 1;
    }

    function lessExpensive1() public {
        a = a + 1;
    }

    function lessExpensive2() public {
        a = a - 1;
    }
}";
    let mut m = state::StateModule::new();
    let mut found = m.visit_variable_declaration(&state_var(at(text, "uint private a"), "a", "uint256", Visibility::Private, Mutability::Mutable));
    for (name, stmt, op) in [
        ("moreExpensive()", "a += 1", AssignmentOperator::AddAssign),
        ("moreExpensive2()", "a -= 1", AssignmentOperator::SubAssign),
        ("lessExpensive1()", "a = a + 1", AssignmentOperator::Assign),
        ("lessExpensive2()", "a = a - 1", AssignmentOperator::Assign),
    ] {
        let f = function_def(at(text, name), name, FunctionKind::Function, Visibility::Public, StateMutability::Nonpayable, vec![], None);
        m.enter_function_definition(&f);
        found.extend(m.visit_assignment(&assignment(at(text, stmt), op, ident("a", at(text, stmt)))));
        m.exit_function_definition();
    }
    found.extend(m.finish_source_unit());
    assert_eq!(lines("state", &state::finding_keys(), text, &found, 3), vec![7, 11]);
}

#[test]
fn compound_non_state() {
    let text = "pragma solidity 0.8.0;

contract Compound {
    function moreExpensive() public {
        uint a;
        a += 1;
    }

    function moreExpensive2() public {
        uint a;
        a -= 1;
    }

    function lessExpensive1() public {
        uint a;
        a = a + 1;
    }

    function lessExpensive2() public {
        uint a;
        a = a - 1;
    }
}";
    let mut m = state::StateModule::new();
    let mut found = Vec::new();
    for (k, (name, stmt, op)) in [
        ("moreExpensive()", "a += 1", AssignmentOperator::AddAssign),
        ("moreExpensive2()", "a -= 1", AssignmentOperator::SubAssign),
        ("lessExpensive1()", "a = a + 1", AssignmentOperator::Assign),
        ("lessExpensive2()", "a = a - 1", AssignmentOperator::Assign),
    ]
    .into_iter()
    .enumerate()
    {
        let f = function_def(at(text, name), name, FunctionKind::Function, Visibility::Public, StateMutability::Nonpayable, vec![], None);
        m.enter_function_definition(&f);
        found.extend(m.visit_variable_declaration(&local_var(nth(text, "uint a", k), "a", "uint256")));
        found.extend(m.visit_assignment(&assignment(at(text, stmt), op, ident("a", at(text, stmt)))));
        m.exit_function_definition();
    }
    found.extend(m.finish_source_unit());
    assert!(!has(&found, 3));
}

#[test]
fn bool_storage() {
    let text = "pragma solidity 0.8.0;

contract Bool {
    bool public flip;
}";
    let mut m = state::StateModule::new();
    let mut found = m.visit_variable_declaration(&state_var(at(text, "bool public flip"), "flip", "bool", Visibility::Public, Mutability::Mutable));
    found.extend(m.finish_source_unit());
    assert_eq!(lines("state", &state::finding_keys(), text, &found, 4), vec![4]);
}

#[test]
fn not_primitive_const() {
    let text = "pragma solidity 0.8.0;

contract NotChange {
    string public baseURI;
    mapping(uint256 => uint256) public map;

    constructor(string memory _baseURI) {
        baseURI = _baseURI;
    }
}";
    let mut m = state::StateModule::new();
    let mut found = m.visit_variable_declaration(&state_var(at(text, "string public baseURI"), "baseURI", "string", Visibility::Public, Mutability::Mutable));
    found.extend(m.visit_variable_declaration(&state_var(at(text, "mapping(uint256 => uint256) public map"), "map", "mapping(uint256 => uint256)", Visibility::Public, Mutability::Mutable)));
    let ctor = function_def(at(text, "constructor"), "", FunctionKind::Constructor, Visibility::Public, StateMutability::Nonpayable, vec![], None);
    m.enter_function_definition(&ctor);
    found.extend(m.visit_variable_declaration(&local_var(at(text, "string memory _baseURI"), "_baseURI", "string")));
    found.extend(m.visit_assignment(&assignment(at(text, "baseURI = _baseURI"), AssignmentOperator::Assign, ident("baseURI", at(text, "baseURI = _baseURI")))));
    m.exit_function_definition();
    found.extend(m.finish_source_unit());
    assert!(!has(&found, 5));
}

#[test]
fn state_changing() {
    let text = "pragma solidity 0.8.0;

contract Changes {
    string public baseURI;

    constructor(string memory _baseURI) {
        baseURI = _baseURI;
    }

    function setURI(string memory _baseURI) public {
        baseURI = _baseURI;
    }
}";
    let mut m = immutable::ImmutableModule::new();
    m.visit_variable_declaration(&state_var(at(text, "string public baseURI"), "baseURI", "string", Visibility::Public, Mutability::Mutable));
    let ctor = function_def(at(text, "constructor"), "", FunctionKind::Constructor, Visibility::Public, StateMutability::Nonpayable, vec![], None);
    m.enter_function_definition(&ctor);
    m.visit_assignment(&assignment(nth(text, "baseURI = _baseURI", 0), AssignmentOperator::Assign, ident("baseURI", nth(text, "baseURI = _baseURI", 0))));
    m.exit_function_definition();
    let set = function_def(at(text, "function setURI"), "setURI", FunctionKind::Function, Visibility::Public, StateMutability::Nonpayable, vec![], None);
    m.enter_function_definition(&set);
    m.visit_assignment(&assignment(nth(text, "baseURI = _baseURI", 1), AssignmentOperator::Assign, ident("baseURI", nth(text, "baseURI = _baseURI", 1))));
    m.exit_function_definition();
    let found = m.finish_source_unit();
    assert!(!has(&found, 5));
}

#[test]
fn immut() {
    let text = "pragma solidity 0.8.0;

contract Immut {
    uint256 immutable num;

    constructor(uint256 _num) {
        num = _num;
    }
}";
    let mut m = immutable::ImmutableModule::new();
    m.visit_variable_declaration(&state_var(at(text, "uint256 immutable num"), "num", "uint256", Visibility::Internal, Mutability::Immutable));
    let ctor = function_def(at(text, "constructor"), "", FunctionKind::Constructor, Visibility::Public, StateMutability::Nonpayable, vec![], None);
    m.enter_function_definition(&ctor);
    m.visit_assignment(&assignment(at(text, "num = _num"), AssignmentOperator::Assign, ident("num", at(text, "num = _num"))));
    m.exit_function_definition();
    let found = m.finish_source_unit();
    assert!(!has(&found, 5));
}

#[test]
fn not_primitive() {
    let text = "pragma solidity 0.8.0;

contract Immut {
    string num;
}";
    let mut m = immutable::ImmutableModule::new();
    m.visit_variable_declaration(&state_var(at(text, "string num"), "num", "string", Visibility::Internal, Mutability::Mutable));
    let found = m.finish_source_unit();
    assert!(!has(&found, 5));
}

#[test]
fn const_var() {
    let text = "pragma solidity 0.8.0;

contract Const {
    uint256 constant num = 100;
}";
    let mut m = immutable::ImmutableModule::new();
    m.visit_variable_declaration(&state_var(at(text, "uint256 constant num"), "num", "uint256", Visibility::Internal, Mutability::Constant));
    let found = m.finish_source_unit();
    assert!(!has(&found, 5));
}

#[test]
fn not_changing() {
    let text = "pragma solidity 0.8.0;

contract NotChange {
    string public baseURI;

    constructor(string memory _baseURI) {
        baseURI = _baseURI;
    }
}";
    let mut m = immutable::ImmutableModule::new();
    m.visit_variable_declaration(&state_var(at(text, "string public baseURI"), "baseURI", "string", Visibility::Public, Mutability::Mutable));
    let ctor = function_def(at(text, "constructor"), "", FunctionKind::Constructor, Visibility::Public, StateMutability::Nonpayable, vec![], None);
    m.enter_function_definition(&ctor);
    m.visit_variable_declaration(&local_var(at(text, "string memory _baseURI"), "_baseURI", "string"));
    m.visit_assignment(&assignment(at(text, "baseURI = _baseURI"), AssignmentOperator::Assign, ident("baseURI", at(text, "baseURI = _baseURI"))));
    m.exit_function_definition();
    let found = m.finish_source_unit();
    assert_eq!(lines("immutable", &immutable::finding_keys(), text, &found, 0), vec![4]);
}

#[test]
fn immutable_changing() {
    let text = "pragma solidity 0.8.0;

contract Changes {
    string public baseURI;

    constructor(string memory _baseURI) {
        baseURI = _baseURI;
    }

    function setURI(string memory _baseURI) public {
        baseURI = _baseURI;
    }
}";
    let mut m = immutable::ImmutableModule::new();
    m.visit_variable_declaration(&state_var(at(text, "string public baseURI"), "baseURI", "string", Visibility::Public, Mutability::Mutable));
    let ctor = function_def(at(text, "constructor"), "", FunctionKind::Constructor, Visibility::Public, StateMutability::Nonpayable, vec![], None);
    m.enter_function_definition(&ctor);
    m.visit_assignment(&assignment(nth(text, "baseURI = _baseURI", 0), AssignmentOperator::Assign, ident("baseURI", nth(text, "baseURI = _baseURI", 0))));
    m.exit_function_definition();
    let set = function_def(at(text, "function setURI"), "setURI", FunctionKind::Function, Visibility::Public, StateMutability::Nonpayable, vec![], None);
    m.enter_function_definition(&set);
    m.visit_assignment(&assignment(nth(text, "baseURI = _baseURI", 1), AssignmentOperator::Assign, ident("baseURI", nth(text, "baseURI = _baseURI", 1))));
    m.exit_function_definition();
    let found = m.finish_source_unit();
    assert!(!has(&found, 0));
}

#[test]
fn only_called_once() {
    let text = "pragma solidity ^0.8.0;

contract OnlyOnce {
    function _once() internal {
        //
    }

    function make() public {
        _once();
    }
}
";
    let mut m = tree::TreeModule::new();
    m.visit_function_definition(&function_def(at(text, "function _once"), "_once", FunctionKind::Function, Visibility::Internal, StateMutability::Nonpayable, vec![], None));
    m.visit_function_definition(&function_def(at(text, "function make"), "make", FunctionKind::Function, Visibility::Public, StateMutability::Nonpayable, vec![], None));
    m.visit_function_call(&call(at(text, "_once();"), ident("_once", at(text, "_once();")), vec![]));
    let found = m.finish_source_unit();
    assert_eq!(lines("tree", &tree::finding_keys(), text, &found, 0), vec![9]);
}

#[test]
fn called_twice() {
    let text = "pragma solidity ^0.8.0;

contract OnlyOnce {
    function _once() internal {
        //
    }

    function make() public {
        _once();
    }

    function act() public {
        _once();
    }
}
";
    let mut m = tree::TreeModule::new();
    m.visit_function_definition(&function_def(at(text, "function _once"), "_once", FunctionKind::Function, Visibility::Internal, StateMutability::Nonpayable, vec![], None));
    m.visit_function_definition(&function_def(at(text, "function make"), "make", FunctionKind::Function, Visibility::Public, StateMutability::Nonpayable, vec![], None));
    m.visit_function_call(&call(nth(text, "_once();", 0), ident("_once", nth(text, "_once();", 0)), vec![]));
    m.visit_function_definition(&function_def(at(text, "function act"), "act", FunctionKind::Function, Visibility::Public, StateMutability::Nonpayable, vec![], None));
    m.visit_function_call(&call(nth(text, "_once();", 1), ident("_once", nth(text, "_once();", 1)), vec![]));
    let found = m.finish_source_unit();
    assert!(!has(&found, 0));
}

#[test]
fn called_in_comment() {
    let text = "pragma solidity ^0.8.0;

contract InComment {
    function _once() internal {
        //
    }

    function make() public {
        _once();
    }

    /** @notice this is a very cool function
      * @dev in reality, you can just call _once
      * @dev to rug everybody ...
      */
    function act() public {
        // send it
    }
}
";
    let mut m = tree::TreeModule::new();
    m.visit_function_definition(&function_def(at(text, "function _once"), "_once", FunctionKind::Function, Visibility::Internal, StateMutability::Nonpayable, vec![], None));
    m.visit_function_definition(&function_def(at(text, "function make"), "make", FunctionKind::Function, Visibility::Public, StateMutability::Nonpayable, vec![], None));
    m.visit_function_call(&call(at(text, "_once();"), ident("_once", at(text, "_once();")), vec![]));
    m.visit_function_definition(&function_def(at(text, "function act"), "act", FunctionKind::Function, Visibility::Public, StateMutability::Nonpayable, vec![], None));
    let found = m.finish_source_unit();
    assert_eq!(lines("tree", &tree::finding_keys(), text, &found, 0), vec![9]);
}

#[test]
fn overriden() {
    let text = "pragma solidity ^0.8.0;

contract Kid {
    function _once() internal {
        //
    }
}

contract Overriden is Kid {
    function make() public {
        _once();
    }

    function act() public {
        // send it
    }
}
";
    let mut m = tree::TreeModule::new();
    m.visit_function_definition(&function_def(at(text, "function _once"), "_once", FunctionKind::Function, Visibility::Internal, StateMutability::Nonpayable, vec![], None));
    m.visit_function_definition(&function_def(at(text, "function make"), "make", FunctionKind::Function, Visibility::Public, StateMutability::Nonpayable, vec![], None));
    m.visit_function_call(&call(at(text, "_once();"), ident("_once", at(text, "_once();")), vec![]));
    m.visit_function_definition(&function_def(at(text, "function act"), "act", FunctionKind::Function, Visibility::Public, StateMutability::Nonpayable, vec![], None));
    let found = m.finish_source_unit();
    assert_eq!(lines("tree", &tree::finding_keys(), text, &found, 0), vec![11]);
}

#[test]
fn modifier_func() {
    let text = r#"pragma solidity 0.8.0;

contract ModifFunc {
    address public immutable owner = msg.sender;

    modifier onlyOwner() {
        _checkOwner();
        _;
    }

    function _checkOwner() internal view virtual {
        require(owner == msg.sender, "Ownable: caller is not the owner");
    }
}"#;
    let mut m = tree::TreeModule::new();
    let local_call = || {
        let check_owner = Expression::Identifier(identifier(
            "_checkOwner",
            at(text, "_checkOwner();"),
            types("t_function_internal_view$__$returns$__$", "function () view"),
            vec![],
        ));
        call(at(text, "_checkOwner();"), check_owner, vec![])
    };
    let mut found = tree::check_modifier_definition(&Block {
        statements: vec![statement(Expression::FunctionCall(local_call())), Statement::Other],
    });
    m.visit_function_call(&local_call());
    m.visit_function_definition(&function_def(at(text, "function _checkOwner"), "_checkOwner", FunctionKind::Function, Visibility::Internal, StateMutability::View, vec![], None));
    let require_call = call(at(text, "require(owner"), ident("require", at(text, "require(owner")), vec![]);
    m.visit_function_call(&require_call);
    found.extend(m.finish_source_unit());
    assert!(!has(&found, 1));
}

#[test]
fn modifier_with_its_own_code() {
    // the modifier's own statement is reported where it stands
    let text = r#"pragma solidity 0.8.0;

contract ModifFunc {
    address public immutable owner = msg.sender;

    modifier onlyOwner() {
        require(owner == msg.sender, "Ownable: caller is not the owner");
        _;
    }
}"#;
    let require = Expression::Identifier(identifier(
        "require",
        at(text, "require("),
        types("t_function_require_pure$_t_bool_$_t_string_memory_ptr_$returns$__$", "function (bool,string memory) pure"),
        vec![],
    ));
    let require_call = call(at(text, "require(owner == msg.sender"), require, vec![]);
    let found = tree::check_modifier_definition(&Block {
        statements: vec![statement(Expression::FunctionCall(require_call)), Statement::Other],
    });
    assert_eq!(lines("tree", &tree::finding_keys(), text, &found, 1), vec![7]);
}

#[test]
fn custom_error_string() {
    let text = r#"pragma solidity 0.8.0;

contract CustomError {
    function reverts() public {
        require(1 == 0, "This is some costly revert reason string");
    }
}"#;
    let mut m = require::RequireModule::new();
    let reason = types("t_stringliteral_costly", "literal_string \"This is some costly revert reason string\"");
    let mut found = m.check_identifier(&identifier("require", at(text, "require("), TypeDescriptions::default(), vec![types("t_bool", "bool"), reason]));
    found.extend(m.finish_source_unit());
    assert_eq!(lines("require", &require::finding_keys(), text, &found, 0), vec![5]);
    assert!(!has(&found, 1));
}

#[test]
fn require_twice() {
    let text = r#"pragma solidity 0.8.0;

contract Require {
    function require1() public {
        require(true, "Repeated error");
    }

    function require2() public {
        require(false, "Repeated error");
    }
}"#;
    let mut m = require::RequireModule::new();
    let reason = types("t_stringliteral_repeated", "literal_string \"Repeated error\"");
    let mut found = Vec::new();
    for (k, condition) in [("t_bool", "bool"), ("t_bool", "bool")].into_iter().enumerate() {
        let id = identifier("require", nth(text, "require(", k), TypeDescriptions::default(), vec![types(condition.0, condition.1), reason.clone()]);
        found.extend(m.check_identifier(&id));
    }
    found.extend(m.finish_source_unit());
    assert_eq!(lines("require", &require::finding_keys(), text, &found, 1), vec![5, 9]);
}

#[test]
fn revert_twice() {
    let text = r#"pragma solidity 0.8.0;

contract Revert {
    function revert1() public {
        revert("Repeated error");
    }

    function revert2() public {
        revert("Repeated error");
    }
}"#;
    let mut m = require::RequireModule::new();
    let reason = types("t_stringliteral_repeated", "literal_string \"Repeated error\"");
    let mut found = Vec::new();
    for k in 0..2 {
        found.extend(m.check_identifier(&identifier("revert", nth(text, "revert(", k), TypeDescriptions::default(), vec![reason.clone()])));
    }
    found.extend(m.finish_source_unit());
    assert_eq!(lines("require", &require::finding_keys(), text, &found, 1), vec![5, 9]);
}

#[test]
fn mixed_rev() {
    let text = r#"pragma solidity 0.8.0;

contract Mixed {
    function revert1() public {
        revert("Repeated error");
    }

    function require1() public {
        require(false, "Repeated error");
    }
}"#;
    let mut m = require::RequireModule::new();
    let reason = types("t_stringliteral_repeated", "literal_string \"Repeated error\"");
    let mut found = m.check_identifier(&identifier("revert", at(text, "revert("), TypeDescriptions::default(), vec![reason.clone()]));
    found.extend(m.check_identifier(&identifier("require", at(text, "require("), TypeDescriptions::default(), vec![types("t_bool", "bool"), reason])));
    found.extend(m.finish_source_unit());
    assert_eq!(lines("require", &require::finding_keys(), text, &found, 1), vec![5, 9]);
}

#[test]
fn not_repeated() {
    let text = r#"pragma solidity 0.8.0;

contract NotRep {
    function revert1() public {
        revert("Repeated error");
    }

    function require1() public {
        require(false, "Nope");
    }
}"#;
    let mut m = require::RequireModule::new();
    let repeated = types("t_stringliteral_repeated", "literal_string \"Repeated error\"");
    let nope = types("t_stringliteral_nope", "literal_string \"Nope\"");
    let mut found = m.check_identifier(&identifier("revert", at(text, "revert("), TypeDescriptions::default(), vec![repeated]));
    found.extend(m.check_identifier(&identifier("require", at(text, "require("), TypeDescriptions::default(), vec![types("t_bool", "bool"), nope])));
    found.extend(m.finish_source_unit());
    assert!(!has(&found, 1));
}

#[test]
fn uses_assert() {
    let text = r#"pragma solidity 0.8.0;

contract Assert {
    function asserting() public {
        assert(false);
    }
}"#;
    let mut m = require::RequireModule::new();
    let mut found = m.check_identifier(&identifier("assert", at(text, "assert("), TypeDescriptions::default(), vec![types("t_bool", "bool")]));
    found.extend(m.finish_source_unit());
    assert_eq!(lines("require", &require::finding_keys(), text, &found, 2), vec![5]);
}

#[test]
fn if_else() {
    let text = "pragma solidity ^0.8.0;

contract IfElse {
    function flip() public returns(bool) {
        if (true) {
            return false;
        } else {
            return true;
        }
    }
}";
    let found: Vec<PushedFinding> = condition::check_if_statement(&IfStatement { src: at(text, "if (true)"), has_false_body: true }).into_iter().collect();
    assert_eq!(lines("condition", &condition::finding_keys(), text, &found, 0), vec![5]);
}

#[test]
fn ternary() {
    let text = "pragma solidity ^0.8.0;

contract Ternary {
    function flip() public returns(bool) {
        return true ? false : true;
    }
}";
    // a conditional expression is no `if` statement: nothing reaches the module
    let found: Vec<PushedFinding> = Vec::new();
    assert!(text.contains("true ? false : true"));
    assert!(!has(&found, 0));
}

#[test]
fn if_only() {
    let text = "pragma solidity ^0.8.0;

contract IfOnly {
    function flip() public returns(bool) {
        if (true) {
            return false;
        }    }
}";
    let found: Vec<PushedFinding> = condition::check_if_statement(&IfStatement { src: at(text, "if (true)"), has_false_body: false }).into_iter().collect();
    assert!(!has(&found, 0));
}

#[test]
fn payable_constructor() {
    let text = r#"pragma solidity 0.8.0;

contract NoPayableConstructor {
    constructor() {
        revert("I'm not payable at all ahah!");
    }
}"#;
    let ctor = function_def(at(text, "constructor()"), "", FunctionKind::Constructor, Visibility::Public, StateMutability::Nonpayable, vec![], None);
    let found: Vec<PushedFinding> = constructor::check_function_definition(&ctor).into_iter().collect();
    assert_eq!(lines("constructor", &constructor::finding_keys(), text, &found, 0), vec![4]);
    let text = r#"pragma solidity 0.8.0;

contract PayableConstructor {
    constructor() payable {
        revert("I'm payable!");
    }
}"#;
    let ctor = function_def(at(text, "constructor()"), "", FunctionKind::Constructor, Visibility::Public, StateMutability::Payable, vec![], None);
    let found: Vec<PushedFinding> = constructor::check_function_definition(&ctor).into_iter().collect();
    assert!(!has(&found, 0));
}

#[test]
fn new_deploy() {
    let text = "pragma solidity 0.8.0;

contract DeployMe {}

contract Deployer {
    function deployOne() public {
        address deployed = address(new DeployMe());
    }
}";
    let found = vec![constructor::check_new_expression(at(text, "new DeployMe"))];
    assert_eq!(lines("constructor", &constructor::finding_keys(), text, &found, 1), vec![7]);
}

#[test]
fn memory_param() {
    let text = "pragma solidity 0.8.0;

contract Mem {
    function loop(uint[] memory arr) external pure returns (uint sum) {
        for (uint i = 0; i < arr.length; i++) {
            sum += arr[i];
        }
    }
}";
    let arr = param(at(text, "uint[] memory arr"), "arr", None, StorageLocation::Memory);
    let f = function_def(at(text, "function loop"), "loop", FunctionKind::Function, Visibility::External, StateMutability::Pure, vec![arr], None);
    let found = function::check_function_definition(&f);
    assert_eq!(lines("function", &function::finding_keys(), text, &found, 0), vec![4]);
}

#[test]
fn calldata_param() {
    let text = "pragma solidity 0.8.0;

contract Mem {
    function loop(uint[] calldata arr) external pure returns (uint sum) {
        for (uint i = 0; i < arr.length; i++) {
            sum += arr[i];
        }
    }
}";
    let arr = param(at(text, "uint[] calldata arr"), "arr", None, StorageLocation::Calldata);
    let f = function_def(at(text, "function loop"), "loop", FunctionKind::Function, Visibility::External, StateMutability::Pure, vec![arr], None);
    let found = function::check_function_definition(&f);
    assert!(!has(&found, 0));
}

#[test]
fn mul_ama() {
    let text = "pragma solidity 0.8.0;

contract Mul {
    function calculateStuff(uint256 a) public {
        uint256 val = a * 2;
    }
}";
    let bo = BinaryOperation {
        src: at(text, "a * 2"),
        operator: BinaryOperator::Mul,
        lhs: ident("a", at(text, "a * 2")),
        rhs: Expression::Literal(Literal { src: at(text, "2;"), value: Some("2".to_string()) }),
    };
    let found: Vec<PushedFinding> = maths::check_binary_operation(&bo).into_iter().collect();
    assert_eq!(lines("maths", &maths::finding_keys(), text, &found, 0), vec![5]);
}

#[test]
fn can_find_interface_call() {
    let text = "pragma solidity ^0.8.0;
interface Coll {
    function setStuff() external;
}

contract CallInt {
    Coll to;

    constructor(Coll _to) {
        to = _to;
    }

    function doTheThing() public {
        to.setStuff();
    }
}";
    let ctor_body = block(vec![statement(Expression::Assignment(assignment(at(text, "to = _to"), AssignmentOperator::Assign, ident("to", at(text, "to = _to")))))]);
    let mut found = calls::check_function_definition(&[param(at(text, "Coll _to"), "_to", None, StorageLocation::Default)], &ctor_body);
    let callee = Expression::MemberAccess(member(at(text, "to.setStuff"), ident("to", at(text, "to.setStuff")), "setStuff", TypeDescriptions::default(), vec![]));
    let body = block(vec![statement(Expression::FunctionCall(call(at(text, "to.setStuff()"), callee, vec![])))]);
    found.extend(calls::check_function_definition(&[], &body));
    assert_eq!(lines("calls", &calls::finding_keys(), text, &found, 0), vec![14]);
}

#[test]
fn can_find_contract_call() {
    let text = "pragma solidity ^0.8.0;
contract Coll {
    uint256 val;

    function setStuff(uint256 _val) external {
                val = _val;
    }
}

contract CallContract {
    Coll to;

    constructor(Coll _to) {
        to = _to;
    }

    function doTheThing() public {
        to.setStuff(10);
    }
}";
    let set_body = block(vec![statement(Expression::Assignment(assignment(at(text, "val = _val"), AssignmentOperator::Assign, ident("val", at(text, "val = _val")))))]);
    let mut found = calls::check_function_definition(&[param(at(text, "uint256 _val"), "_val", Some("uint256"), StorageLocation::Default)], &set_body);
    let ctor_body = block(vec![statement(Expression::Assignment(assignment(at(text, "to = _to"), AssignmentOperator::Assign, ident("to", at(text, "to = _to")))))]);
    found.extend(calls::check_function_definition(&[param(at(text, "Coll _to"), "_to", None, StorageLocation::Default)], &ctor_body));
    let callee = Expression::MemberAccess(member(at(text, "to.setStuff"), ident("to", at(text, "to.setStuff")), "setStuff", TypeDescriptions::default(), vec![]));
    let ten = Expression::Literal(Literal { src: at(text, "10)"), value: Some("10".to_string()) });
    let body = block(vec![statement(Expression::FunctionCall(call(at(text, "to.setStuff(10)"), callee, vec![ten])))]);
    found.extend(calls::check_function_definition(&[], &body));
    assert_eq!(lines("calls", &calls::finding_keys(), text, &found, 0), vec![18]);
}

#[test]
fn delegatecall_in_while_loop() {
    let text = r#"pragma solidity ^0.8.0;

contract DelegateCallWhileLoop {
    function causeTrouble(address to) public {
        uint256 i = 0;
        while (i < 10) {
            to.delegatecall("");
        }
    }
}"#;
    let access = member(at(text, "to.delegatecall"), ident("to", at(text, "to.delegatecall")), "delegatecall", TypeDescriptions::default(), vec![]);
    let in_loop = Inside { while_loop: true, ..Inside::default() };
    let found: Vec<PushedFinding> = calls::check_delegatecall_in_loop(&in_loop, &access).into_iter().collect();
    assert_eq!(lines("calls", &calls::finding_keys(), text, &found, 2), vec![7]);
}

#[test]
fn assembly_with_extcodesize() {
    let text = "pragma solidity ^0.8.0;

contract ExtCodeSize {
    function make(address to) public {
        uint256 size;
            
        assembly {
            size := extcodesize(to)
        }
    }
}";
    let mut inline = vec![inline_assembly::check_inline_assembly(at(text, "assembly {"))];
    let mut medium = Vec::new();
    for name in ["size", "extcodesize", "to"] {
        let y = yul(text, name, if name == "size" { 1 } else { 0 });
        if name == "extcodesize" {
            inline.extend(inline_assembly::check_yul_function_call(&y));
        }
        medium.extend(assembly::check_yul_identifier(&y));
    }
    assert_eq!(lines("assembly", &inline_assembly::finding_keys(), text, &inline, 0), vec![7]);
    assert_eq!(lines("assembly", &inline_assembly::finding_keys(), text, &inline, 1), vec![8]);
    assert_eq!(lines("assembly", &assembly::finding_keys(), text, &medium, 0), vec![8]);
}

#[test]
fn assembly_without_extcodesize() {
    let text = "pragma solidity ^0.8.0;

contract WithoutExtCodeSize {
    function make(address to) public {
        uint256 bal;
            
        assembly {
            bal := balance(to)
        }
    }
}";
    let mut inline = vec![inline_assembly::check_inline_assembly(at(text, "assembly {"))];
    let mut medium = Vec::new();
    for name in ["bal :=", "balance", "to)"] {
        let y = YulIdentifier { src: at(text, name), name: name.trim_end_matches(" :=").trim_end_matches(')').to_string() };
        if y.name == "balance" {
            inline.extend(inline_assembly::check_yul_function_call(&y));
        }
        medium.extend(assembly::check_yul_identifier(&y));
    }
    assert_eq!(lines("assembly", &inline_assembly::finding_keys(), text, &inline, 0), vec![7]);
    assert!(!has(&inline, 1));
    assert!(!has(&medium, 0));
}

#[test]
fn assembly_nested_extcodesize() {
    let text = "pragma solidity ^0.8.0;

contract NestedExtCodeSize {
    function make(address to) public {
        uint256 size;
            
        assembly {
            for { let i:= 0 } lt(i, 10) { i := add(i, 1) } {
                size := extcodesize(to)
            }
        }
    }
}";
    let mut inline = vec![inline_assembly::check_inline_assembly(at(text, "assembly {"))];
    let mut medium = Vec::new();
    let calls_made = [("lt", "lt(i"), ("add", "add(i"), ("extcodesize", "extcodesize(to)")];
    for (name, needle) in calls_made {
        let y = YulIdentifier { src: at(text, needle), name: name.to_string() };
        inline.extend(inline_assembly::check_yul_function_call(&y));
        medium.extend(assembly::check_yul_identifier(&y));
    }
    for needle in ["i:= 0", "size :=", "to)"] {
        let y = YulIdentifier { src: at(text, needle), name: needle[..needle.find(|c: char| !c.is_alphanumeric()).unwrap()].to_string() };
        medium.extend(assembly::check_yul_identifier(&y));
    }
    assert_eq!(lines("assembly", &inline_assembly::finding_keys(), text, &inline, 0), vec![7]);
    assert_eq!(lines("assembly", &inline_assembly::finding_keys(), text, &inline, 1), vec![9]);
    assert_eq!(lines("assembly", &assembly::finding_keys(), text, &medium, 0), vec![9]);
}

#[test]
fn deprecated_chainlink_feed() {
    let text = "pragma solidity 0.8.0;

interface AggregatorInterface {
  function latestAnswer() external view returns (int256);
}

contract DeprecatedChainlink {
    function getPrice(AggregatorInterface oracle) public view returns (int256) {
        int256 price = oracle.latestAnswer();
        return price;
    }
}";
    let access = member(
        at(text, "oracle.latestAnswer"),
        ident("oracle", at(text, "oracle.latestAnswer")),
        "latestAnswer",
        types("t_function_external_view$__$returns$_t_int256_$", "function () view external returns (int256)"),
        vec![],
    );
    let found: Vec<PushedFinding> = chainlink::check_member_access(&access).into_iter().collect();
    assert_eq!(lines("chainlink", &chainlink::finding_keys(), text, &found, 0), vec![9]);
}

#[test]
fn stale_price_no_get() {
    let text = "pragma solidity 0.8.0;

interface AggregatorInterface {
  function latestRoundData() external view returns (uint80 roundId, int256 answer, uint256 startedAt, uint256 updatedAt, uint80 answeredInRound);
}

contract StalePrice {
    function getPrice(AggregatorInterface oracle) public view returns (int256) {
        (,int256 price, , ,) = oracle.latestRoundData();
        return price;
    }
}";
    let access = member(
        at(text, "oracle.latestRoundData"),
        ident("oracle", at(text, "oracle.latestRoundData")),
        "latestRoundData",
        types(
            "t_function_external_view$__$returns$_t_uint80_$_t_int256_$_t_uint256_$_t_uint256_$_t_uint80_$",
            "function () view external returns (uint80,int256,uint256,uint256,uint80)",
        ),
        vec![],
    );
    let found: Vec<PushedFinding> = chainlink::check_member_access(&access).into_iter().collect();
    assert_eq!(lines("chainlink", &chainlink::finding_keys(), text, &found, 1), vec![9]);
}

#[test]
fn encode_packed_encode_packed_collision() {
    let text = "pragma solidity ^0.8.0;
contract EncodePacked {
    modifier signedOnly(bytes memory message, bytes memory signature) {
        // do some amazing checks
        _;
    }

    function deploy(
        string calldata templateName,
        bytes calldata initdata,
        bytes calldata signature
    )
        external
        payable
        signedOnly(
            abi.encodePacked(msg.sender, templateName, initdata),
            signature
        )
    {
        // _deploy(templateName, latestVersion[templateName], initdata);
    }
}";
    let abi = Expression::Identifier(identifier("abi", at(text, "abi.encodePacked"), types("t_magic_abi", "abi"), vec![]));
    let access = member(
        at(text, "abi.encodePacked"),
        abi,
        "encodePacked",
        TypeDescriptions::default(),
        vec![types("t_address", "address"), types("t_string_calldata_ptr", "string calldata"), types("t_bytes_calldata_ptr", "bytes calldata")],
    );
    let found = encode_packed::check_encode(&access);
    assert_eq!(lines("encode_packed", &encode_packed::finding_keys(), text, &found, 0), vec![16]);
}

#[test]
fn encode_less_efficient() {
    let text = "pragma solidity ^0.8.0;

contract Encode {
    function encode(bytes32 clear) public returns (bytes memory) {
        return abi.encode(clear);
    }
}";
    let abi = Expression::Identifier(identifier("abi", at(text, "abi.encode"), types("t_magic_abi", "abi"), vec![]));
    let access = member(at(text, "abi.encode"), abi, "encode", TypeDescriptions::default(), vec![types("t_bytes32", "bytes32")]);
    let found = encode_packed::check_encode(&access);
    assert_eq!(lines("encode_packed", &encode_packed::finding_keys(), text, &found, 3), vec![5]);
}

#[test]
fn erc20_usage_of_transfer() {
    let text = "pragma solidity 0.8.0;

interface IERC20 {
  function transfer(address, uint256) external view returns (bool);
}

contract SafeTransfer {
    address immutable owner = msg.sender;

    function pull(IERC20 token) public view returns (int256) {
        token.transfer(owner, 100);
    }
}";
    let access = member(
        at(text, "token.transfer"),
        ident("token", at(text, "token.transfer")),
        "transfer",
        types("t_function_external_view$_t_address_$_t_uint256_$returns$_t_bool_$", "function (address,uint256) view external returns (bool)"),
        vec![],
    );
    let found = erc20::check_erc20_member_access(&access);
    assert_eq!(lines("erc20", &erc20::finding_keys(), text, &found, 0), vec![11]);
}

#[test]
fn deprecated_safe_approve() {
    let text = "pragma solidity ^0.8.0;

interface IERC20 {
    function safeApprove(address, uint256) external;
}

contract SafeApprove {
    function approve(IERC20 token) public {
        token.safeApprove(address(0), 123456); 
    }
}";
    let access = member(
        at(text, "token.safeApprove"),
        ident("token", at(text, "token.safeApprove")),
        "safeApprove",
        types("t_function_external_nonpayable$_t_address_$_t_uint256_$returns$__$", "function (address,uint256) external"),
        vec![],
    );
    let found = erc20::check_erc20_member_access(&access);
    assert_eq!(lines("erc20", &erc20::finding_keys(), text, &found, 1), vec![9]);
}

#[test]
fn eth_transfer() {
    let text = "pragma solidity ^0.8.0;

contract EthTransfer {
    function ethTransfer() public {
        payable(msg.sender).transfer(address(this).balance);
    }
}";
    let access = member(
        at(text, ".transfer"),
        Expression::Other,
        "transfer",
        types("t_function_transfer_nonpayable$_t_uint256_$returns$__$", "function (uint256)"),
        vec![],
    );
    let found = erc20::check_erc20_member_access(&access);
    assert!(!has(&found, 0));
}

#[test]
fn misc_usage_of_transfer() {
    let text = "pragma solidity ^0.8.0;

contract UnlockedPragma {
}";
    let found: Vec<PushedFinding> = misc::check_pragma_directive(&pragma(text, &["solidity", "^", "0.8", ".0"])).into_iter().collect();
    assert_eq!(lines("misc", &misc::finding_keys(), text, &found, 0), vec![1]);
}

#[test]
fn rareskills() {
    let text = "pragma solidity 0.7.0;

contract Dirty {
    mapping(address => string) public usernameOf;

    function setUsername(uint256 obfuscationDegree) public payable {
        for (uint256 i; i < obfuscationDegree; ++i) {
            bytes(usernameOf[msg.sender]).push();
        }
    }
}";
    let push = member(at(text, ".push"), Expression::Other, "push", TypeDescriptions::default(), vec![]);
    let fc = FunctionCall {
        type_descriptions: types("t_bytes1", "bytes1"),
        ..call(at(text, "bytes(usernameOf[msg.sender]).push()"), Expression::MemberAccess(push), vec![])
    };
    let found: Vec<PushedFinding> = dirty::check_function_call(&fc).into_iter().collect();
    assert_eq!(lines("dirty", &dirty::finding_keys(), text, &found, 0), vec![8]);
}

#[test]
fn only_owner_modifier() {
    let text = r#"pragma solidity ^0.8.0;

contract Ownable {
    address private _owner;

    constructor() {
        _owner = msg.sender;
    }

    modifier onlyOwner() {
        require(msg.sender == _owner, "Not owner");
        _;
    }

    function owner() public view returns (address) {
        return _owner;
    }
}

contract OnlyOwnerModifer is Ownable {
    function rugEverybody() external onlyOwner {
        payable(owner()).transfer(address(this).balance);
    }
}
"#;
    let invocation = ModifierInvocation {
        src: at(text, "onlyOwner {"),
        modifier_name: ModifierName::IdentifierPath(IdentifierPath { src: at(text, "onlyOwner {"), name: "onlyOwner".to_string() }),
    };
    let found = centralization::check_modifier_invocation(&invocation);
    assert_eq!(lines("centralization", &centralization::finding_keys(), text, &found, 0), vec![21]);
    assert_eq!(lines("centralization", &centralization::finding_keys(), text, &found, 1), vec![21]);
}

#[test]
fn overflow_can_find_overflow_old_ver() {
    let text = "pragma solidity 0.7.0;
contract OldVerCheck {
    mapping(address => uint256) bal;

    function deposit() external payable {
        bal[msg.sender] += msg.value;
    }

    function withdraw(uint256 amount) external {
        bal[msg.sender] -= amount;
        payable(msg.sender).transfer(amount);
    }

    fallback() external payable {}
}";
    let mut m = overflow::OverflowModule::new();
    let mut found: Vec<PushedFinding> = m.visit_pragma_directive(Version::new(0, 7, 0)).into_iter().collect();
    m.enter_function_definition();
    let deposit = ExpressionStatement { expression: Expression::Assignment(assignment(at(text, "bal[msg.sender] += msg.value"), AssignmentOperator::AddAssign, Expression::Other)) };
    found.extend(m.check_expression_statement(&deposit));
    m.exit_function_definition();
    m.enter_function_definition();
    let withdraw = ExpressionStatement { expression: Expression::Assignment(assignment(at(text, "bal[msg.sender] -= amount"), AssignmentOperator::SubAssign, Expression::Other)) };
    found.extend(m.check_expression_statement(&withdraw));
    let transfer = ExpressionStatement { expression: Expression::FunctionCall(call(at(text, "payable(msg.sender).transfer(amount)"), Expression::Other, vec![])) };
    found.extend(m.check_expression_statement(&transfer));
    m.exit_function_definition();
    assert!(has(&found, 0));
    assert_eq!(lines("overflow", &overflow::finding_keys(), text, &found, 1), vec![6]);
    assert_eq!(lines("overflow", &overflow::finding_keys(), text, &found, 2), vec![10]);
}

#[test]
fn overflow_dont_find_overflow() {
    let text = "pragma solidity ^0.8.10;
contract NoOverFlow {
    mapping(address => uint256) bal;
    
    function deposit() external payable {
        bal[msg.sender] += msg.value;
    }
    
    function withdraw(uint256 amount) external {
        bal[msg.sender] -= amount;
        payable(msg.sender).transfer(amount);
    }
    
    fallback() external payable {}
}";
    let mut m = overflow::OverflowModule::new();
    let mut found: Vec<PushedFinding> = m.visit_pragma_directive(Version::new(0, 8, 10)).into_iter().collect();
    m.enter_function_definition();
    let deposit = ExpressionStatement { expression: Expression::Assignment(assignment(at(text, "bal[msg.sender] += msg.value"), AssignmentOperator::AddAssign, Expression::Other)) };
    found.extend(m.check_expression_statement(&deposit));
    m.exit_function_definition();
    m.enter_function_definition();
    let withdraw = ExpressionStatement { expression: Expression::Assignment(assignment(at(text, "bal[msg.sender] -= amount"), AssignmentOperator::SubAssign, Expression::Other)) };
    found.extend(m.check_expression_statement(&withdraw));
    m.exit_function_definition();
    assert!(found.is_empty());
}

#[test]
fn overflow_find_unchecked_overflow() {
    let text = "pragma solidity ^0.8.10;
contract Unchecked {
    mapping(address => uint256) bal;
    
    function deposit() external payable {
        unchecked {
            bal[msg.sender] += msg.value;
        }
    }
    
    function withdraw(uint256 amount) external {
        unchecked {
            bal[msg.sender] -= amount;
        }
        payable(msg.sender).transfer(amount);
    }
    
    fallback() external payable {}
}";
    let mut m = overflow::OverflowModule::new();
    let mut found: Vec<PushedFinding> = m.visit_pragma_directive(Version::new(0, 8, 10)).into_iter().collect();
    m.enter_function_definition();
    found.push(m.enter_unchecked_block(nth(text, "unchecked {", 0)));
    let deposit = ExpressionStatement { expression: Expression::Assignment(assignment(at(text, "bal[msg.sender] += msg.value"), AssignmentOperator::AddAssign, Expression::Other)) };
    found.extend(m.check_expression_statement(&deposit));
    m.exit_unchecked_block();
    m.exit_function_definition();
    m.enter_function_definition();
    found.push(m.enter_unchecked_block(nth(text, "unchecked {", 1)));
    let withdraw = ExpressionStatement { expression: Expression::Assignment(assignment(at(text, "bal[msg.sender] -= amount"), AssignmentOperator::SubAssign, Expression::Other)) };
    found.extend(m.check_expression_statement(&withdraw));
    m.exit_unchecked_block();
    let transfer = ExpressionStatement { expression: Expression::FunctionCall(call(at(text, "payable(msg.sender).transfer(amount)"), Expression::Other, vec![])) };
    found.extend(m.check_expression_statement(&transfer));
    m.exit_function_definition();
    assert!(!has(&found, 0));
    assert_eq!(lines("overflow", &overflow::finding_keys(), text, &found, 3), vec![6, 12]);
    assert_eq!(lines("overflow", &overflow::finding_keys(), text, &found, 1), vec![7]);
    assert_eq!(lines("overflow", &overflow::finding_keys(), text, &found, 2), vec![13]);
}

#[test]
fn extract_types_from_struct() {
    // `uint256 val_1; address user; uint8 lil;`
    assert_eq!(extract_struct_bytes(&[32, 20, 1]), vec![vec![32], vec![20, 1]]);
    // a user operation of addresses and 32-byte numbers
    assert_eq!(
        extract_struct_bytes(&[20, 32, 32, 32, 32, 20, 32, 32]),
        vec![vec![20], vec![32], vec![32], vec![32], vec![32], vec![20], vec![32], vec![32]]
    );
    // dynamic `bytes` members take a slot of their own
    assert_eq!(
        extract_struct_bytes(&[20, 32, 32, 32, 32, 32, 32, 32, 32, 32, 32]),
        vec![vec![20], vec![32], vec![32], vec![32], vec![32], vec![32], vec![32], vec![32], vec![32], vec![32], vec![32]]
    );
}

#[test]
fn oz_usage_of_transfer() {
    let text = "pragma solidity 0.8.0;

interface IERC20 {
  function transfer(address, uint256) external view returns (bool);
}

contract SafeTransfer {
    address immutable owner = msg.sender;

    function pull(IERC20 token) public view returns (int256) {
        token.transfer(owner, 100);
    }
}";
    let access = member(at(text, "token.transfer"), ident("token", at(text, "token.transfer")), "transfer", TypeDescriptions::default(), vec![]);
    let found: Vec<PushedFinding> = oz::check_member_access(&access).into_iter().collect();
    assert_eq!(lines("oz", &oz::finding_keys(), text, &found, 0), vec![11]);
    let other = member(at(text, "owner"), Expression::Other, "sender", TypeDescriptions::default(), vec![]);
    assert!(oz::check_member_access(&other).is_none());
}
