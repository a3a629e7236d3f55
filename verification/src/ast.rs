//! The parts of a Solidity syntax tree that the detection modules read.
use vstd::prelude::*;
use crate::findings::SourceLocation;

verus! {

/// A finding a detection module asks to push: its code and where it is.
#[derive(Debug, Clone, Copy, PartialEq, Eq, Structural)]
pub struct PushedFinding {
    pub src: Option<SourceLocation>,
    pub code: usize,
}

/// What the compiler says of the type of an expression.
#[derive(Debug, Clone, Default, PartialEq, Eq)]
pub struct TypeDescriptions {
    pub type_identifier: Option<String>,
    pub type_string: Option<String>,
}

/// A built-in type such as `address` or `uint256`.
pub struct ElementaryTypeName {
    pub name: String,
}

/// The declared type of a variable or parameter.
pub enum TypeName {
    ElementaryTypeName(ElementaryTypeName),
    ArrayTypeName,
    /// Mappings, user-defined and function types.
    Other,
}

/// Where a reference-typed value lives.
#[derive(Debug, Clone, Copy, PartialEq, Eq, Structural)]
pub enum StorageLocation {
    Calldata,
    Default,
    Memory,
    Storage,
}

/// A function parameter.
pub struct Parameter {
    pub src: SourceLocation,
    pub name: String,
    pub declared_type: Option<TypeName>,
    pub storage_location: StorageLocation,
}

/// What a call expression does.
#[derive(Debug, Clone, Copy, PartialEq, Eq, Structural)]
pub enum FunctionCallKind {
    FunctionCall,
    TypeConversion,
    StructConstructorCall,
}

/// Operators of binary operations.
#[derive(Debug, Clone, Copy, PartialEq, Eq, Structural)]
pub enum BinaryOperator {
    Add,
    Sub,
    Mul,
    Div,
    Mod,
    Pow,
    And,
    Or,
    NotEqual,
    Equal,
    LessThan,
    LessThanOrEqual,
    GreaterThan,
    GreaterThanOrEqual,
    Xor,
    BitNot,
    BitAnd,
    BitOr,
    Shl,
    Shr,
}

/// Operators of assignments.
#[derive(Debug, Clone, Copy, PartialEq, Eq, Structural)]
pub enum AssignmentOperator {
    Assign,
    AddAssign,
    SubAssign,
    MulAssign,
    DivAssign,
    ModAssign,
    OrAssign,
    AndAssign,
    XorAssign,
    ShrAssign,
    ShlAssign,
}

/// Who can see a function or a variable.
#[derive(Debug, Clone, Copy, PartialEq, Eq, Structural)]
pub enum Visibility {
    External,
    Public,
    Internal,
    Private,
}

/// What a function may do to the state.
#[derive(Debug, Clone, Copy, PartialEq, Eq, Structural)]
pub enum StateMutability {
    Payable,
    Pure,
    Nonpayable,
    View,
}

/// Whether a variable can change.
#[derive(Debug, Clone, Copy, PartialEq, Eq, Structural)]
pub enum Mutability {
    Mutable,
    Immutable,
    Constant,
}

/// The kinds of function definitions.
#[derive(Debug, Clone, Copy, PartialEq, Eq, Structural)]
pub enum FunctionKind {
    Function,
    Receive,
    Constructor,
    Fallback,
    FreeFunction,
}

/// A call: the called expression and its arguments.
pub struct FunctionCall {
    pub src: SourceLocation,
    pub kind: FunctionCallKind,
    pub expression: Box<Expression>,
    pub arguments: Vec<Expression>,
    pub type_descriptions: TypeDescriptions,
}

/// `expression.member_name`.
pub struct MemberAccess {
    pub src: SourceLocation,
    pub member_name: String,
    pub expression: Box<Expression>,
    pub type_descriptions: TypeDescriptions,
    /// the types of the arguments when the member is called
    pub argument_types: Vec<TypeDescriptions>,
}

/// A name.
pub struct Identifier {
    pub src: SourceLocation,
    pub name: String,
    pub type_descriptions: TypeDescriptions,
    /// the types of the arguments when the name is called
    pub argument_types: Vec<TypeDescriptions>,
}

/// A literal and its value as written.
pub struct Literal {
    pub src: SourceLocation,
    pub value: Option<String>,
}

/// An assignment to `lhs`.
pub struct Assignment {
    pub src: SourceLocation,
    pub operator: AssignmentOperator,
    pub lhs: Box<Expression>,
}

/// An expression.
pub enum Expression {
    FunctionCall(FunctionCall),
    MemberAccess(MemberAccess),
    Identifier(Identifier),
    Literal(Literal),
    Assignment(Assignment),
    /// Every other kind of expression.
    Other,
}

/// A statement made of one expression.
pub struct ExpressionStatement {
    pub expression: Expression,
}

/// A statement.
pub enum Statement {
    ExpressionStatement(ExpressionStatement),
    /// Every other kind of statement.
    Other,
}

/// A block of statements.
pub struct Block {
    pub statements: Vec<Statement>,
}

/// A binary operation.
pub struct BinaryOperation {
    pub src: SourceLocation,
    pub operator: BinaryOperator,
    pub lhs: Expression,
    pub rhs: Expression,
}

/// A function, constructor, fallback or receive definition.
pub struct FunctionDefinition {
    pub src: SourceLocation,
    pub name: String,
    pub kind: Option<FunctionKind>,
    pub state_mutability: Option<StateMutability>,
    pub visibility: Visibility,
    pub parameters: Vec<Parameter>,
    pub body: Option<Block>,
}

/// A variable declaration, of a state variable or a local one.
pub struct VariableDeclaration {
    pub src: SourceLocation,
    pub name: String,
    pub state_variable: bool,
    pub visibility: Visibility,
    pub mutability: Mutability,
    pub type_descriptions: TypeDescriptions,
}

/// `pragma <literals>;`.
pub struct PragmaDirective {
    pub src: SourceLocation,
    pub literals: Vec<String>,
}

/// The name a modifier is invoked by.
pub enum ModifierName {
    Identifier(Identifier),
    /// a possibly qualified name
    IdentifierPath(IdentifierPath),
}

/// A possibly qualified name, such as `Ownable.onlyOwner`.
pub struct IdentifierPath {
    pub src: SourceLocation,
    pub name: String,
}

/// A modifier invoked on a function.
pub struct ModifierInvocation {
    pub src: SourceLocation,
    pub modifier_name: ModifierName,
}

/// An `if` statement; whether it has an `else` branch.
pub struct IfStatement {
    pub src: SourceLocation,
    pub has_false_body: bool,
}

/// `emit Event(arguments)`.
pub struct EmitStatement {
    pub src: SourceLocation,
    pub arguments: Vec<Expression>,
}

/// A name in inline assembly.
pub struct YulIdentifier {
    pub src: SourceLocation,
    pub name: String,
}

} // verus!
