//! The `overflow` module: arithmetic that may wrap, in `unchecked` blocks or
//! under compilers older than 0.8.0, which had no built-in overflow check.
use vstd::prelude::*;
use std::collections::BTreeMap;
use crate::ast::{AssignmentOperator, Expression, ExpressionStatement, PushedFinding};
use crate::findings::{FindingKey, Inside, Severity, SourceLocation, key_is};
use crate::version::Version;

verus! {

/// Code of a compiler older than 0.8.0.
pub const OLD_COMPILER: usize = 0;

/// Code of an addition or multiplication that may overflow.
pub const OVERFLOW: usize = 1;

/// Code of a subtraction that may underflow.
pub const UNDERFLOW: usize = 2;

/// Code of an `unchecked` block.
pub const UNCHECKED: usize = 3;

/// The keys of the module's findings.
pub fn finding_keys() -> (r: BTreeMap<usize, FindingKey>)
    ensures
        r@.dom() == set![OLD_COMPILER, OVERFLOW, UNDERFLOW, UNCHECKED],
        key_is(
            r@[OLD_COMPILER],
            "No built-in overflow checker"@,
            "Looks like this contract is < 0.8.0"@,
            Severity::Informal,
        ),
        key_is(r@[OVERFLOW], "Overflow"@, "Overflow may happen"@, Severity::Medium),
        key_is(r@[UNDERFLOW], "Underflow"@, "Underflow may happen"@, Severity::Medium),
        key_is(r@[UNCHECKED], "Unchecked"@, "Unchecked block"@, Severity::Informal),
{
    broadcast use vstd::laws_cmp::group_laws_cmp;

    let mut keys: BTreeMap<usize, FindingKey> = BTreeMap::new();
    keys.insert(
        OLD_COMPILER,
        FindingKey::new(
            "No built-in overflow checker",
            "Looks like this contract is < 0.8.0",
            Severity::Informal,
        ),
    );
    keys.insert(OVERFLOW, FindingKey::new("Overflow", "Overflow may happen", Severity::Medium));
    keys.insert(UNDERFLOW, FindingKey::new("Underflow", "Underflow may happen", Severity::Medium));
    keys.insert(UNCHECKED, FindingKey::new("Unchecked", "Unchecked block", Severity::Informal));
    proof {
        assert(keys@.dom() =~= set![OLD_COMPILER, OVERFLOW, UNDERFLOW, UNCHECKED]);
    }
    keys
}

/// The compiler version of the source and where the walk is.
pub struct OverflowModule {
    pub version: Option<Version>,
    pub inside: Inside,
}

/// Arithmetic is unchecked: inside an `unchecked` block, or under a
/// compiler older than 0.8.0.
pub open spec fn unchecked_arithmetic(version: Option<Version>, inside: Inside) -> bool {
    inside.unchecked || match version {
        Some(v) => v.minor < 8,
        None => false,
    }
}

/// The finding of a statement: an assignment that adds or multiplies may
/// overflow, one that subtracts may underflow, where arithmetic is
/// unchecked.
pub open spec fn statement_finding(unchecked: bool, stmt: ExpressionStatement) -> Option<PushedFinding> {
    if unchecked {
        match stmt.expression {
            Expression::Assignment(a) => if a.operator == AssignmentOperator::AddAssign || a.operator
                == AssignmentOperator::MulAssign {
                Some(PushedFinding { src: Some(a.src), code: OVERFLOW })
            } else if a.operator == AssignmentOperator::SubAssign {
                Some(PushedFinding { src: Some(a.src), code: UNDERFLOW })
            } else {
                None
            },
            _ => None,
        }
    } else {
        None
    }
}

impl OverflowModule {
    /// No version known, outside everything.
    pub fn new() -> (r: OverflowModule)
        ensures
            r.version is None,
            r.inside == (Inside {
                function: false,
                unchecked: false,
                for_loop: false,
                while_loop: false,
                constructor: false,
            }),
    {
        OverflowModule {
            version: None,
            inside: Inside {
                function: false,
                unchecked: false,
                for_loop: false,
                while_loop: false,
                constructor: false,
            },
        }
    }

    /// Notes the version a pragma asks for; a compiler older than 0.8.0 is
    /// reported, with no place.
    pub fn visit_pragma_directive(&mut self, version: Version) -> (r: Option<PushedFinding>)
        ensures
            r == (if version.minor < 8 {
                Some(PushedFinding { src: None, code: OLD_COMPILER })
            } else {
                None
            }),
            final(self).version == Some(version),
            final(self).inside == old(self).inside,
    {
        let old_compiler = version.minor < 8;
        self.version = Some(version);
        if old_compiler {
            Some(PushedFinding { src: None, code: OLD_COMPILER })
        } else {
            None
        }
    }

    /// Enters an `unchecked` block, which is reported where it stands.
    pub fn enter_unchecked_block(&mut self, src: SourceLocation) -> (r: PushedFinding)
        ensures
            r == (PushedFinding { src: Some(src), code: UNCHECKED }),
            final(self).inside == (Inside { unchecked: true, ..old(self).inside }),
            final(self).version == old(self).version,
    {
        self.inside.unchecked = true;
        PushedFinding { src: Some(src), code: UNCHECKED }
    }

    /// Leaves an `unchecked` block.
    pub fn exit_unchecked_block(&mut self)
        ensures
            final(self).inside == (Inside { unchecked: false, ..old(self).inside }),
            final(self).version == old(self).version,
    {
        self.inside.unchecked = false;
    }

    /// Enters a function definition.
    pub fn enter_function_definition(&mut self)
        ensures
            final(self).inside == (Inside { function: true, ..old(self).inside }),
            final(self).version == old(self).version,
    {
        self.inside.function = true;
    }

    /// Leaves a function definition.
    pub fn exit_function_definition(&mut self)
        ensures
            final(self).inside == (Inside { function: false, ..old(self).inside }),
            final(self).version == old(self).version,
    {
        self.inside.function = false;
    }

    /// Checks a statement for arithmetic that may wrap.
    pub fn check_expression_statement(&self, stmt: &ExpressionStatement) -> (r: Option<PushedFinding>)
        ensures
            r == statement_finding(unchecked_arithmetic(self.version, self.inside), *stmt),
    {
        let old_version = match &self.version {
            Some(v) => v.minor < 8,
            None => false,
        };
        if self.inside.unchecked || old_version {
            match &stmt.expression {
                Expression::Assignment(ass) => match ass.operator {
                    AssignmentOperator::AddAssign | AssignmentOperator::MulAssign => {
                        Some(PushedFinding { src: Some(ass.src), code: OVERFLOW })
                    },
                    AssignmentOperator::SubAssign => Some(PushedFinding { src: Some(ass.src), code: UNDERFLOW }),
                    _ => None,
                },
                _ => None,
            }
        } else {
            None
        }
    }
}

/// Under a compiler older than 0.8.0 (any minor version below 8), or inside
/// an `unchecked` block, every `+=` or `*=` statement is reported as a
/// possible overflow and every `-=` statement as a possible underflow, at the
/// assignment; with a compiler from 0.8.0 on (or none known) and outside
/// `unchecked`, no statement is reported.
pub proof fn lemma_unchecked_arithmetic_reported(m: OverflowModule, stmt: ExpressionStatement)
    ensures
        ({
            let old_compiler = match m.version {
                Some(v) => v.minor < 8,
                None => false,
            };
            let r = statement_finding(unchecked_arithmetic(m.version, m.inside), stmt);
            &&& (old_compiler || m.inside.unchecked) ==> match stmt.expression {
                Expression::Assignment(a) => {
                    &&& (a.operator == AssignmentOperator::AddAssign || a.operator
                        == AssignmentOperator::MulAssign) ==> r == Some(
                        PushedFinding { src: Some(a.src), code: OVERFLOW },
                    )
                    &&& a.operator == AssignmentOperator::SubAssign ==> r == Some(
                        PushedFinding { src: Some(a.src), code: UNDERFLOW },
                    )
                },
                _ => r is None,
            }
            &&& !(old_compiler || m.inside.unchecked) ==> r is None
        }),
{
}

} // verus!
