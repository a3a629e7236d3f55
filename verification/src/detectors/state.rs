//! The `state` gas module: state variables read in events, public
//! constants, compound assignments and booleans in storage, and state
//! variables that never change after construction.
use vstd::prelude::*;
use vstd::utf8::*;
use std::collections::BTreeMap;
use crate::ast::{
    Assignment, AssignmentOperator, EmitStatement, Expression, FunctionDefinition, FunctionKind,
    Mutability, PushedFinding, VariableDeclaration, Visibility,
};
use crate::findings::{FindingKey, Severity, SourceLocation, key_is, opt_chars};
use crate::names::{NameSet, distinct_names, with_name, without_name};
use crate::text::{bytes_start_with, opt_is, opt_str_eq, str_eq, str_starts_with};

verus! {

/// Code of a state variable read in an event.
pub const STATE_IN_EVENT: usize = 0;

/// Code of a public constant or immutable.
pub const PUBLIC_CONSTANT: usize = 1;

/// Code kept in the key table with no rule that reports it.
pub const STRUCT_ASSIGNMENT: usize = 2;

/// Code of a compound assignment to a state variable.
pub const COMPOUND_ASSIGNMENT: usize = 3;

/// Code of a boolean state variable.
pub const STATE_BOOLEAN: usize = 4;

/// Code of a state variable that never changes after construction.
pub const NEVER_CHANGES: usize = 5;

/// The keys of the module's findings.
pub fn finding_keys() -> (r: BTreeMap<usize, FindingKey>)
    ensures
        r@.dom() == set![
            STATE_IN_EVENT,
            PUBLIC_CONSTANT,
            STRUCT_ASSIGNMENT,
            COMPOUND_ASSIGNMENT,
            STATE_BOOLEAN,
            NEVER_CHANGES,
        ],
        key_is(
            r@[STATE_IN_EVENT],
            "Using a state variable in an event emission wastes gas"@,
            "A state variable should not be used in an event emission because it will load it from the storage. It should rather be loaded from the stack or the memory."@,
            Severity::Gas,
        ),
        key_is(
            r@[PUBLIC_CONSTANT],
            "Avoid using public for immutable/constant state variables"@,
            "Public state variable are generating a getter function which costs more gas on deployment. Some variables may not need to require a getter function."@,
            Severity::Gas,
        ),
        key_is(
            r@[STRUCT_ASSIGNMENT],
            "Assign values to the struct directly"@,
            "Assigning the values to the storage struct rather than one by one saves gas"@,
            Severity::Gas,
        ),
        key_is(
            r@[COMPOUND_ASSIGNMENT],
            "Avoid using compound operators with state variables"@,
            "+= and -= are more expensive than = + and = -"@,
            Severity::Gas,
        ),
        key_is(
            r@[STATE_BOOLEAN],
            "Avoid using state booleans"@,
            "more expensive than using uint256(1) and uint256(2)"@,
            Severity::Gas,
        ),
        key_is(
            r@[NEVER_CHANGES],
            "State variables that never change should be directly inlined in the bytecode"@,
            "When state variables are guaranteed to never change, they should be inlined in the bytecode of the contract by declaring them as immutables or constants to avoid paying the upfront cost of SLOAD which are expensive, mainly when the slot is cold."@,
            Severity::Gas,
        ),
{
    broadcast use vstd::laws_cmp::group_laws_cmp;

    let mut keys: BTreeMap<usize, FindingKey> = BTreeMap::new();
    keys.insert(
        STATE_IN_EVENT,
        FindingKey::new(
            "Using a state variable in an event emission wastes gas",
            "A state variable should not be used in an event emission because it will load it from the storage. It should rather be loaded from the stack or the memory.",
            Severity::Gas,
        ),
    );
    keys.insert(
        PUBLIC_CONSTANT,
        FindingKey::new(
            "Avoid using public for immutable/constant state variables",
            "Public state variable are generating a getter function which costs more gas on deployment. Some variables may not need to require a getter function.",
            Severity::Gas,
        ),
    );
    keys.insert(
        STRUCT_ASSIGNMENT,
        FindingKey::new(
            "Assign values to the struct directly",
            "Assigning the values to the storage struct rather than one by one saves gas",
            Severity::Gas,
        ),
    );
    keys.insert(
        COMPOUND_ASSIGNMENT,
        FindingKey::new(
            "Avoid using compound operators with state variables",
            "+= and -= are more expensive than = + and = -",
            Severity::Gas,
        ),
    );
    keys.insert(
        STATE_BOOLEAN,
        FindingKey::new(
            "Avoid using state booleans",
            "more expensive than using uint256(1) and uint256(2)",
            Severity::Gas,
        ),
    );
    keys.insert(
        NEVER_CHANGES,
        FindingKey::new(
            "State variables that never change should be directly inlined in the bytecode",
            "When state variables are guaranteed to never change, they should be inlined in the bytecode of the contract by declaring them as immutables or constants to avoid paying the upfront cost of SLOAD which are expensive, mainly when the slot is cold.",
            Severity::Gas,
        ),
    );
    proof {
        assert(keys@.dom() =~= set![
            STATE_IN_EVENT,
            PUBLIC_CONSTANT,
            STRUCT_ASSIGNMENT,
            COMPOUND_ASSIGNMENT,
            STATE_BOOLEAN,
            NEVER_CHANGES,
        ]);
    }
    keys
}

/// A state variable as declared: its name, where, its type and whether it
/// can change.
pub struct StateVariable {
    pub name: String,
    pub src: SourceLocation,
    pub type_string: Option<String>,
    pub mutability: Mutability,
}

/// An event emitted: where, and the name of each argument that is a plain
/// name.
pub struct EmittedEvent {
    pub src: SourceLocation,
    pub argument_names: Vec<Option<String>>,
}

/// The index of the last declaration of `name`, or `-1` when there is none.
pub open spec fn last_declaration(decls: Seq<StateVariable>, name: Seq<char>) -> int
    decreases decls.len(),
{
    if decls.len() == 0 {
        -1
    } else if decls.last().name@ == name {
        decls.len() - 1
    } else {
        last_declaration(decls.drop_last(), name)
    }
}

pub(crate) proof fn lemma_last_declaration(decls: Seq<StateVariable>, name: Seq<char>)
    ensures
        -1 <= last_declaration(decls, name) < decls.len(),
        last_declaration(decls, name) >= 0 ==> decls[last_declaration(decls, name)].name@ == name,
        last_declaration(decls, name) < 0 ==> forall|k: int| 0 <= k < decls.len() ==> (#[trigger] decls[k]).name@ != name,
    decreases decls.len(),
{
    if decls.len() > 0 {
        lemma_last_declaration(decls.drop_last(), name);
        if decls.last().name@ != name && last_declaration(decls.drop_last(), name) < 0 {
            assert forall|k: int| 0 <= k < decls.len() implies (#[trigger] decls[k]).name@ != name by {
                if k < decls.len() - 1 {
                    assert(decls[k] == decls.drop_last()[k]);
                }
            }
        }
        if last_declaration(decls.drop_last(), name) >= 0 && decls.last().name@ != name {
            let i = last_declaration(decls.drop_last(), name);
            assert(decls[i] == decls.drop_last()[i]);
        }
    }
}

/// Whether `name` was declared.
pub open spec fn is_declared(decls: Seq<StateVariable>, name: Seq<char>) -> bool {
    exists|k: int| 0 <= k < decls.len() && (#[trigger] decls[k]).name@ == name
}

/// The index of the last declaration of `name`.
pub(crate) fn find_last_declaration(decls: &Vec<StateVariable>, name: &str) -> (r: usize)
    requires
        is_declared(decls@, name@),
    ensures
        r == last_declaration(decls@, name@),
        r < decls@.len(),
        decls@[r as int].name@ == name@,
{
    proof {
        lemma_last_declaration(decls@, name@);
        if last_declaration(decls@, name@) < 0 {
            let k = choose|k: int| 0 <= k < decls@.len() && (#[trigger] decls@[k]).name@ == name@;
            assert(decls@[k].name@ != name@);
        }
    }
    let mut i: usize = decls.len();
    proof {
        assert(decls@.subrange(0, decls@.len() as int) =~= decls@);
    }
    while i > 0
        invariant
            i <= decls@.len(),
            last_declaration(decls@, name@) >= 0,
            last_declaration(decls@, name@) == last_declaration(decls@.subrange(0, i as int), name@),
            last_declaration(decls@, name@) < i,
        decreases i,
    {
        let ghost s = decls@.subrange(0, i as int);
        proof {
            assert(s.drop_last() =~= decls@.subrange(0, i - 1));
            assert(s.last() == decls@[i - 1]);
            lemma_last_declaration(s.drop_last(), name@);
        }
        if str_eq(decls[i - 1].name.as_str(), name) {
            return i - 1;
        }
        i = i - 1;
    }
    proof {
        assert(decls@.subrange(0, 0) =~= Seq::<StateVariable>::empty());
    }
    0
}

/// What the module gathers over a source unit: the state variables, their
/// declarations, which of them are assigned, which are assigned only in the
/// constructor, the events emitted, and whether the walk is inside a
/// constructor.
pub struct StateModule {
    pub state_variables: NameSet,
    pub declarations: Vec<StateVariable>,
    pub assigned_variables: NameSet,
    pub constructor_variables: NameSet,
    pub events: Vec<EmittedEvent>,
    pub inside_constructor: bool,
}

/// The name assigned to, when the assigned expression is a plain name.
pub open spec fn assigned_name(a: Assignment) -> Option<Seq<char>> {
    match *a.lhs {
        Expression::Identifier(id) => Some(id.name@),
        _ => None,
    }
}

/// The findings of a variable declaration: for a state variable, public and
/// unchangeable, then boolean.
pub open spec fn declaration_findings(var: VariableDeclaration) -> Seq<PushedFinding> {
    if var.state_variable {
        let first = if var.visibility == Visibility::Public && var.mutability != Mutability::Mutable {
            seq![PushedFinding { src: Some(var.src), code: PUBLIC_CONSTANT }]
        } else {
            seq![]
        };
        if opt_is(var.type_descriptions.type_string, "bool"@) {
            first.push(PushedFinding { src: Some(var.src), code: STATE_BOOLEAN })
        } else {
            first
        }
    } else {
        seq![]
    }
}

/// The findings of the events: for each event, in order, one at the event
/// for each argument that names a state variable.
pub open spec fn event_findings(events: Seq<EmittedEvent>, state: Seq<Seq<char>>) -> Seq<PushedFinding>
    decreases events.len(),
{
    if events.len() == 0 {
        seq![]
    } else {
        event_findings(events.drop_last(), state) + argument_findings(
            events.last().argument_names@,
            state,
            events.last().src,
        )
    }
}

/// One finding at `src` for each argument that names a state variable.
pub open spec fn argument_findings(args: Seq<Option<String>>, state: Seq<Seq<char>>, src: SourceLocation) -> Seq<
    PushedFinding,
>
    decreases args.len(),
{
    if args.len() == 0 {
        seq![]
    } else {
        let prev = argument_findings(args.drop_last(), state, src);
        match args.last() {
            Some(n) => if state.contains(n@) {
                prev.push(PushedFinding { src: Some(src), code: STATE_IN_EVENT })
            } else {
                prev
            },
            None => prev,
        }
    }
}

/// A type that lives in storage as a reference: a mapping, a string or bytes.
pub open spec fn is_reference_type(t: Seq<char>) -> bool {
    ||| bytes_start_with(encode_utf8(t), encode_utf8("mapping"@))
    ||| bytes_start_with(encode_utf8(t), encode_utf8("string"@))
    ||| bytes_start_with(encode_utf8(t), encode_utf8("bytes"@))
}

/// A state variable that could be inlined: of a value type, mutable, and
/// assigned only in the constructor or never.
pub open spec fn never_changes(
    name: Seq<char>,
    decl: StateVariable,
    assigned: Seq<Seq<char>>,
    constructor: Seq<Seq<char>>,
) -> bool {
    match decl.type_string {
        Some(t) => !is_reference_type(t@) && (constructor.contains(name) || !assigned.contains(name))
            && decl.mutability == Mutability::Mutable,
        None => false,
    }
}

/// For each state variable, in order, that never changes: a finding at its
/// last declaration.
pub open spec fn never_changes_findings(
    vars: Seq<Seq<char>>,
    decls: Seq<StateVariable>,
    assigned: Seq<Seq<char>>,
    constructor: Seq<Seq<char>>,
) -> Seq<PushedFinding>
    decreases vars.len(),
{
    if vars.len() == 0 {
        seq![]
    } else {
        let prev = never_changes_findings(vars.drop_last(), decls, assigned, constructor);
        let name = vars.last();
        let decl = decls[last_declaration(decls, name)];
        if never_changes(name, decl, assigned, constructor) {
            prev.push(PushedFinding { src: Some(decl.src), code: NEVER_CHANGES })
        } else {
            prev
        }
    }
}

impl StateModule {
    /// The sets hold each name once, and every state variable is declared.
    pub open spec fn wf(&self) -> bool {
        &&& distinct_names(self.state_variables@)
        &&& distinct_names(self.assigned_variables@)
        &&& distinct_names(self.constructor_variables@)
        &&& forall|k: int|
            0 <= k < self.state_variables@.len() ==> is_declared(
                self.declarations@,
                #[trigger] self.state_variables@[k],
            )
    }

    /// Nothing gathered yet.
    pub fn new() -> (r: StateModule)
        ensures
            r.wf(),
            r.state_variables@.len() == 0,
            r.declarations@.len() == 0,
            r.assigned_variables@.len() == 0,
            r.constructor_variables@.len() == 0,
            r.events@.len() == 0,
            !r.inside_constructor,
    {
        StateModule {
            state_variables: NameSet::new(),
            declarations: Vec::new(),
            assigned_variables: NameSet::new(),
            constructor_variables: NameSet::new(),
            events: Vec::new(),
            inside_constructor: false,
        }
    }

    /// Records a state variable and reports it when public and
    /// unchangeable, or boolean.
    pub fn visit_variable_declaration(&mut self, var: &VariableDeclaration) -> (r: Vec<PushedFinding>)
        requires
            old(self).wf(),
        ensures
            final(self).wf(),
            r@ == declaration_findings(*var),
            final(self).state_variables@ == (if var.state_variable {
                with_name(old(self).state_variables@, var.name@)
            } else {
                old(self).state_variables@
            }),
            var.state_variable ==> final(self).declarations@.drop_last() == old(self).declarations@
                && final(self).declarations@.len() == old(self).declarations@.len() + 1
                && final(self).declarations@.last().name@ == var.name@
                && final(self).declarations@.last().src == var.src
                && opt_chars(final(self).declarations@.last().type_string) == opt_chars(var.type_descriptions.type_string)
                && final(self).declarations@.last().mutability == var.mutability,
            !var.state_variable ==> final(self).declarations@ == old(self).declarations@,
            final(self).assigned_variables@ == old(self).assigned_variables@,
            final(self).constructor_variables@ == old(self).constructor_variables@,
            final(self).events@ == old(self).events@,
            final(self).inside_constructor == old(self).inside_constructor,
    {
        let mut r: Vec<PushedFinding> = Vec::new();
        if var.state_variable {
            let ghost before_decls = self.declarations@;
            let ghost before_state = self.state_variables@;
            self.state_variables.insert(&var.name);
            let type_string = match &var.type_descriptions.type_string {
                Some(t) => Some(t.clone()),
                None => None,
            };
            self.declarations.push(
                StateVariable {
                    name: var.name.clone(),
                    src: var.src,
                    type_string,
                    mutability: var.mutability,
                },
            );
            proof {
                assert(self.declarations@.drop_last() =~= before_decls);
                assert forall|k: int| 0 <= k < self.state_variables@.len() implies is_declared(
                    self.declarations@,
                    #[trigger] self.state_variables@[k],
                ) by {
                    let n = self.state_variables@[k];
                    if before_state.contains(n) {
                        let j = choose|j: int| 0 <= j < before_state.len() && before_state[j] == n;
                        assert(is_declared(before_decls, before_state[j]));
                        let w = choose|w: int| 0 <= w < before_decls.len() && (#[trigger] before_decls[w]).name@ == n;
                        assert(self.declarations@[w] == before_decls[w]);
                    } else {
                        if k < before_state.len() {
                            assert(before_state.contains(before_state[k]));
                        }
                        assert(n == var.name@);
                        assert(self.declarations@[before_decls.len() as int].name@ == n);
                    }
                }
            }
            if var.visibility == Visibility::Public && var.mutability != Mutability::Mutable {
                r.push(PushedFinding { src: Some(var.src), code: PUBLIC_CONSTANT });
            }
            if opt_str_eq(&var.type_descriptions.type_string, "bool") {
                r.push(PushedFinding { src: Some(var.src), code: STATE_BOOLEAN });
            }
        }
        proof {
            assert(r@ =~= declaration_findings(*var));
        }
        r
    }

    /// Records an emitted event.
    pub fn visit_emit_statement(&mut self, emit_statement: &EmitStatement)
        requires
            old(self).wf(),
        ensures
            final(self).wf(),
            final(self).events@.drop_last() == old(self).events@,
            final(self).events@.len() == old(self).events@.len() + 1,
            final(self).events@.last().src == emit_statement.src,
            final(self).events@.last().argument_names@.len() == emit_statement.arguments@.len(),
            forall|k: int|
                0 <= k < emit_statement.arguments@.len() ==> opt_chars(#[trigger] final(self).events@.last().argument_names@[k]) == argument_name(
                    emit_statement.arguments@[k],
                ),
            final(self).state_variables@ == old(self).state_variables@,
            final(self).declarations@ == old(self).declarations@,
            final(self).assigned_variables@ == old(self).assigned_variables@,
            final(self).constructor_variables@ == old(self).constructor_variables@,
            final(self).inside_constructor == old(self).inside_constructor,
    {
        let mut names: Vec<Option<String>> = Vec::new();
        let mut i: usize = 0;
        while i < emit_statement.arguments.len()
            invariant
                i <= emit_statement.arguments@.len(),
                names@.len() == i,
                forall|k: int|
                    0 <= k < i ==> opt_chars(#[trigger] names@[k]) == argument_name(emit_statement.arguments@[k]),
            decreases emit_statement.arguments@.len() - i,
        {
            let name = match &emit_statement.arguments[i] {
                Expression::Identifier(id) => Some(id.name.clone()),
                _ => None,
            };
            names.push(name);
            i = i + 1;
        }
        let ghost before = self.events@;
        self.events.push(EmittedEvent { src: emit_statement.src, argument_names: names });
        assert(self.events@.drop_last() =~= before);
    }

    /// Notes entering a function definition: a constructor sets the flag.
    pub fn enter_function_definition(&mut self, function_definition: &FunctionDefinition)
        requires
            old(self).wf(),
        ensures
            final(self).wf(),
            final(self).inside_constructor == (old(self).inside_constructor
                || function_definition.kind == Some(FunctionKind::Constructor)),
            final(self).state_variables@ == old(self).state_variables@,
            final(self).declarations@ == old(self).declarations@,
            final(self).assigned_variables@ == old(self).assigned_variables@,
            final(self).constructor_variables@ == old(self).constructor_variables@,
            final(self).events@ == old(self).events@,
    {
        if function_definition.kind == Some(FunctionKind::Constructor) {
            self.inside_constructor = true;
        }
    }

    /// Notes leaving a function definition: the flag is cleared.
    pub fn exit_function_definition(&mut self)
        requires
            old(self).wf(),
        ensures
            final(self).wf(),
            !final(self).inside_constructor,
            final(self).state_variables@ == old(self).state_variables@,
            final(self).declarations@ == old(self).declarations@,
            final(self).assigned_variables@ == old(self).assigned_variables@,
            final(self).constructor_variables@ == old(self).constructor_variables@,
            final(self).events@ == old(self).events@,
    {
        self.inside_constructor = false;
    }

    /// Records an assignment to a name: assigned, and assigned in the
    /// constructor only while every assignment to it is in the constructor;
    /// reports `+=` and `-=` on a state variable.
    pub fn visit_assignment(&mut self, assignment: &Assignment) -> (r: Vec<PushedFinding>)
        requires
            old(self).wf(),
        ensures
            final(self).wf(),
            final(self).assigned_variables@ == (match assigned_name(*assignment) {
                Some(n) => with_name(old(self).assigned_variables@, n),
                None => old(self).assigned_variables@,
            }),
            final(self).constructor_variables@ == (match assigned_name(*assignment) {
                Some(n) => if old(self).inside_constructor {
                    with_name(old(self).constructor_variables@, n)
                } else {
                    without_name(old(self).constructor_variables@, n)
                },
                None => old(self).constructor_variables@,
            }),
            r@ == (match assigned_name(*assignment) {
                Some(n) => if (assignment.operator == AssignmentOperator::AddAssign || assignment.operator
                    == AssignmentOperator::SubAssign) && old(self).state_variables@.contains(n) {
                    seq![PushedFinding { src: Some(assignment.src), code: COMPOUND_ASSIGNMENT }]
                } else {
                    seq![]
                },
                None => seq![],
            }),
            final(self).state_variables@ == old(self).state_variables@,
            final(self).declarations@ == old(self).declarations@,
            final(self).events@ == old(self).events@,
            final(self).inside_constructor == old(self).inside_constructor,
    {
        let mut r: Vec<PushedFinding> = Vec::new();
        match &*assignment.lhs {
            Expression::Identifier(identifier) => {
                let var_name = &identifier.name;
                self.assigned_variables.insert(var_name);
                if self.inside_constructor {
                    self.constructor_variables.insert(var_name);
                } else {
                    self.constructor_variables.remove(var_name.as_str());
                }
                let compound = match assignment.operator {
                    AssignmentOperator::AddAssign | AssignmentOperator::SubAssign => true,
                    _ => false,
                };
                if compound && self.state_variables.contains(var_name.as_str()) {
                    r.push(PushedFinding { src: Some(assignment.src), code: COMPOUND_ASSIGNMENT });
                }
            },
            _ => {},
        }
        proof {
            assert(r@ =~= (match assigned_name(*assignment) {
                Some(n) => if (assignment.operator == AssignmentOperator::AddAssign || assignment.operator
                    == AssignmentOperator::SubAssign) && old(self).state_variables@.contains(n) {
                    seq![PushedFinding { src: Some(assignment.src), code: COMPOUND_ASSIGNMENT }]
                } else {
                    seq![]
                },
                None => seq![],
            }));
        }
        r
    }

    /// At the end of a source unit: a finding at each event for each
    /// argument naming a state variable, then one at the declaration of each
    /// state variable that never changes; then everything but the events is
    /// cleared for the next unit.
    pub fn finish_source_unit(&mut self) -> (r: Vec<PushedFinding>)
        requires
            old(self).wf(),
        ensures
            final(self).wf(),
            r@ == event_findings(old(self).events@, old(self).state_variables@) + never_changes_findings(
                old(self).state_variables@,
                old(self).declarations@,
                old(self).assigned_variables@,
                old(self).constructor_variables@,
            ),
            final(self).state_variables@.len() == 0,
            final(self).declarations@.len() == 0,
            final(self).assigned_variables@.len() == 0,
            final(self).constructor_variables@.len() == 0,
            final(self).events@ == old(self).events@,
            final(self).inside_constructor == old(self).inside_constructor,
    {
        let mut r: Vec<PushedFinding> = Vec::new();
        let mut i: usize = 0;
        while i < self.events.len()
            invariant
                i <= self.events@.len(),
                self.wf(),
                self.events@ == old(self).events@,
                self.state_variables@ == old(self).state_variables@,
                self.declarations@ == old(self).declarations@,
                self.assigned_variables@ == old(self).assigned_variables@,
                self.constructor_variables@ == old(self).constructor_variables@,
                self.inside_constructor == old(self).inside_constructor,
                r@ == event_findings(self.events@.subrange(0, i as int), self.state_variables@),
            decreases self.events@.len() - i,
        {
            proof {
                assert(self.events@.subrange(0, i + 1).drop_last() =~= self.events@.subrange(0, i as int));
            }
            let event = &self.events[i];
            let ghost before = r@;
            let mut j: usize = 0;
            while j < event.argument_names.len()
                invariant
                    j <= event.argument_names@.len(),
                    r@ == before + argument_findings(
                        event.argument_names@.subrange(0, j as int),
                        self.state_variables@,
                        event.src,
                    ),
                decreases event.argument_names@.len() - j,
            {
                proof {
                    assert(event.argument_names@.subrange(0, j + 1).drop_last()
                        =~= event.argument_names@.subrange(0, j as int));
                }
                let ghost r0 = r@;
                match &event.argument_names[j] {
                    Some(name) => {
                        if self.state_variables.contains(name.as_str()) {
                            r.push(PushedFinding { src: Some(event.src), code: STATE_IN_EVENT });
                            proof {
                                assert(r@ =~= r0.push(PushedFinding { src: Some(event.src), code: STATE_IN_EVENT }));
                            }
                        }
                    },
                    None => {},
                }
                j = j + 1;
            }
            proof {
                assert(event.argument_names@.subrange(0, event.argument_names@.len() as int)
                    =~= event.argument_names@);
            }
            i = i + 1;
        }
        proof {
            assert(self.events@.subrange(0, self.events@.len() as int) =~= self.events@);
        }
        let ghost after_events = r@;
        let mut k: usize = 0;
        while k < self.state_variables.names.len()
            invariant
                k <= self.state_variables@.len(),
                self.wf(),
                self.events@ == old(self).events@,
                self.state_variables@ == old(self).state_variables@,
                self.declarations@ == old(self).declarations@,
                self.assigned_variables@ == old(self).assigned_variables@,
                self.constructor_variables@ == old(self).constructor_variables@,
                self.inside_constructor == old(self).inside_constructor,
                r@ == after_events + never_changes_findings(
                    self.state_variables@.subrange(0, k as int),
                    self.declarations@,
                    self.assigned_variables@,
                    self.constructor_variables@,
                ),
            decreases self.state_variables@.len() - k,
        {
            let var = &self.state_variables.names[k];
            proof {
                assert(self.state_variables@.subrange(0, k + 1).drop_last() =~= self.state_variables@.subrange(
                    0,
                    k as int,
                ));
                assert(self.state_variables@[k as int] == var@);
                assert(is_declared(self.declarations@, self.state_variables@[k as int]));
            }
            let d = find_last_declaration(&self.declarations, var.as_str());
            let decl = &self.declarations[d];
            let ghost r0 = r@;
            match &decl.type_string {
                Some(td) => {
                    let reference = str_starts_with(td.as_str(), "mapping") || str_starts_with(
                        td.as_str(),
                        "string",
                    ) || str_starts_with(td.as_str(), "bytes");
                    if !reference && (self.constructor_variables.contains(var.as_str())
                        || !self.assigned_variables.contains(var.as_str())) && decl.mutability
                        == Mutability::Mutable {
                        r.push(PushedFinding { src: Some(decl.src), code: NEVER_CHANGES });
                        proof {
                            assert(r@ =~= r0.push(PushedFinding { src: Some(decl.src), code: NEVER_CHANGES }));
                        }
                    }
                },
                None => {},
            }
            k = k + 1;
        }
        proof {
            assert(self.state_variables@.subrange(0, self.state_variables@.len() as int)
                =~= self.state_variables@);
        }
        self.constructor_variables = NameSet::new();
        self.state_variables = NameSet::new();
        self.declarations = Vec::new();
        self.assigned_variables = NameSet::new();
        r
    }
}

/// The name of an argument that is a plain name.
pub open spec fn argument_name(e: Expression) -> Option<Seq<char>> {
    match e {
        Expression::Identifier(id) => Some(id.name@),
        _ => None,
    }
}

/// A declaration of a value type, as a never-changes finding needs: a type
/// named at all, not starting with `mapping`, `string` or `bytes` (so
/// `bytes`, `bytes32` and the like are excluded), and mutable.
pub open spec fn inlinable_declaration(d: StateVariable) -> bool {
    match d.type_string {
        Some(t) => {
            &&& !bytes_start_with(encode_utf8(t@), encode_utf8("mapping"@))
            &&& !bytes_start_with(encode_utf8(t@), encode_utf8("string"@))
            &&& !bytes_start_with(encode_utf8(t@), encode_utf8("bytes"@))
            &&& d.mutability == Mutability::Mutable
        },
        None => false,
    }
}

/// `f` is the never-changes finding of the `i`-th state variable: at its last
/// declaration, which is of a value type and mutable, the variable being
/// assigned only in the constructor or never.
pub open spec fn reports_unchanging(
    f: PushedFinding,
    vars: Seq<Seq<char>>,
    decls: Seq<StateVariable>,
    assigned: Seq<Seq<char>>,
    constructor: Seq<Seq<char>>,
    i: int,
) -> bool {
    let d = decls[last_declaration(decls, vars[i])];
    &&& 0 <= i < vars.len()
    &&& f == (PushedFinding { src: Some(d.src), code: NEVER_CHANGES })
    &&& inlinable_declaration(d)
    &&& (constructor.contains(vars[i]) || !assigned.contains(vars[i]))
}

/// `f` is the never-changes finding of one of the state variables.
pub open spec fn reports_some_unchanging(
    f: PushedFinding,
    vars: Seq<Seq<char>>,
    decls: Seq<StateVariable>,
    assigned: Seq<Seq<char>>,
    constructor: Seq<Seq<char>>,
) -> bool {
    exists|i: int| reports_unchanging(f, vars, decls, assigned, constructor, i)
}

/// A state variable is reported as never changing only when it is declared
/// with a value type (never `mapping`, `string`, `bytes` or `bytesN`) and is
/// mutable, and is assigned only in the constructor or never; each such
/// finding sits at the last declaration of one of the state variables.
pub proof fn lemma_never_changes_only_mutable_value_types(
    vars: Seq<Seq<char>>,
    decls: Seq<StateVariable>,
    assigned: Seq<Seq<char>>,
    constructor: Seq<Seq<char>>,
)
    ensures
        forall|k: int|
            0 <= k < never_changes_findings(vars, decls, assigned, constructor).len()
                ==> reports_some_unchanging(
                #[trigger] never_changes_findings(vars, decls, assigned, constructor)[k],
                vars,
                decls,
                assigned,
                constructor,
            ),
    decreases vars.len(),
{
    if vars.len() > 0 {
        let init = vars.drop_last();
        lemma_never_changes_only_mutable_value_types(init, decls, assigned, constructor);
        let prev = never_changes_findings(init, decls, assigned, constructor);
        let all = never_changes_findings(vars, decls, assigned, constructor);
        assert forall|k: int| 0 <= k < all.len() implies reports_some_unchanging(
            #[trigger] all[k],
            vars,
            decls,
            assigned,
            constructor,
        ) by {
            if k < prev.len() {
                assert(all[k] == prev[k]);
                assert(reports_some_unchanging(prev[k], init, decls, assigned, constructor));
                let i = choose|i: int| reports_unchanging(prev[k], init, decls, assigned, constructor, i);
                assert(init[i] == vars[i]);
                assert(reports_unchanging(all[k], vars, decls, assigned, constructor, i));
            } else {
                let i = vars.len() - 1;
                let d = decls[last_declaration(decls, vars.last())];
                assert(vars[i] == vars.last());
                if never_changes(vars.last(), d, assigned, constructor) {
                    assert(all == prev.push(PushedFinding { src: Some(d.src), code: NEVER_CHANGES }));
                    assert(all[k] == (PushedFinding { src: Some(d.src), code: NEVER_CHANGES }));
                    assert(inlinable_declaration(d));
                } else {
                    assert(all == prev);
                }
                assert(reports_unchanging(all[k], vars, decls, assigned, constructor, i));
            }
        }
    }
}

/// Every state variable declared (last) with a value type, mutable, and
/// assigned only in the constructor or never, is reported at its last
/// declaration.
pub proof fn lemma_unchanging_reported(
    vars: Seq<Seq<char>>,
    decls: Seq<StateVariable>,
    assigned: Seq<Seq<char>>,
    constructor: Seq<Seq<char>>,
    i: int,
)
    requires
        0 <= i < vars.len(),
        inlinable_declaration(decls[last_declaration(decls, vars[i])]),
        constructor.contains(vars[i]) || !assigned.contains(vars[i]),
    ensures
        never_changes_findings(vars, decls, assigned, constructor).contains(
            PushedFinding { src: Some(decls[last_declaration(decls, vars[i])].src), code: NEVER_CHANGES },
        ),
    decreases vars.len(),
{
    let init = vars.drop_last();
    let prev = never_changes_findings(init, decls, assigned, constructor);
    let all = never_changes_findings(vars, decls, assigned, constructor);
    let f = PushedFinding { src: Some(decls[last_declaration(decls, vars[i])].src), code: NEVER_CHANGES };
    if i < vars.len() - 1 {
        assert(init[i] == vars[i]);
        lemma_unchanging_reported(init, decls, assigned, constructor, i);
        let w = choose|w: int| 0 <= w < prev.len() && prev[w] == f;
        assert(all == prev || all == prev.push(all.last()));
        assert(all[w] == f);
    } else {
        assert(vars[i] == vars.last());
        let d = decls[last_declaration(decls, vars.last())];
        assert(never_changes(vars.last(), d, assigned, constructor));
        assert(all == prev.push(f));
        assert(all[all.len() - 1] == f);
    }
}

/// The findings on events that a source unit's end reports all have the
/// event code, so its findings with the never-changes code all come from
/// the state variables, as `lemma_never_changes_only_mutable_value_types`
/// states.
pub proof fn lemma_event_findings_code(events: Seq<EmittedEvent>, state: Seq<Seq<char>>)
    ensures
        forall|k: int|
            0 <= k < event_findings(events, state).len() ==> (#[trigger] event_findings(
                events,
                state,
            )[k]).code == STATE_IN_EVENT,
    decreases events.len(),
{
    if events.len() > 0 {
        lemma_event_findings_code(events.drop_last(), state);
        lemma_argument_findings_code(events.last().argument_names@, state, events.last().src);
        let prev = event_findings(events.drop_last(), state);
        let more = argument_findings(events.last().argument_names@, state, events.last().src);
        assert forall|k: int| 0 <= k < event_findings(events, state).len() implies (
        #[trigger] event_findings(events, state)[k]).code == STATE_IN_EVENT by {
            if k < prev.len() {
                assert(event_findings(events, state)[k] == prev[k]);
            } else {
                assert(event_findings(events, state)[k] == more[k - prev.len()]);
            }
        }
    }
}

proof fn lemma_argument_findings_code(args: Seq<Option<String>>, state: Seq<Seq<char>>, src: SourceLocation)
    ensures
        forall|k: int|
            0 <= k < argument_findings(args, state, src).len() ==> (#[trigger] argument_findings(
                args,
                state,
                src,
            )[k]) == (PushedFinding { src: Some(src), code: STATE_IN_EVENT }),
    decreases args.len(),
{
    if args.len() > 0 {
        lemma_argument_findings_code(args.drop_last(), state, src);
    }
}

/// A declaration is reported only as a state variable: a public constant
/// or immutable gets the public-constant finding, a `bool` gets the
/// state-boolean finding, both where it is declared; a local variable gets
/// nothing.
pub proof fn lemma_declaration_rules(var: VariableDeclaration)
    ensures
        !var.state_variable ==> declaration_findings(var).len() == 0,
        var.state_variable && var.visibility == Visibility::Public && var.mutability
            != Mutability::Mutable ==> declaration_findings(var).contains(
            PushedFinding { src: Some(var.src), code: PUBLIC_CONSTANT },
        ),
        var.state_variable && var.type_descriptions.type_string is Some
            && var.type_descriptions.type_string->0@ == "bool"@ ==> declaration_findings(var).contains(
            PushedFinding { src: Some(var.src), code: STATE_BOOLEAN },
        ),
        forall|k: int|
            0 <= k < declaration_findings(var).len() ==> #[trigger] declaration_findings(var)[k]
                == (PushedFinding { src: Some(var.src), code: PUBLIC_CONSTANT }) && var.visibility
                == Visibility::Public && var.mutability != Mutability::Mutable
                || declaration_findings(var)[k] == (PushedFinding { src: Some(var.src), code: STATE_BOOLEAN })
                && var.type_descriptions.type_string is Some && var.type_descriptions.type_string->0@ == "bool"@,
{
    let r = declaration_findings(var);
    if var.state_variable {
        if var.visibility == Visibility::Public && var.mutability != Mutability::Mutable {
            assert(r[0] == (PushedFinding { src: Some(var.src), code: PUBLIC_CONSTANT }));
        }
        if opt_is(var.type_descriptions.type_string, "bool"@) {
            assert(r[r.len() - 1] == (PushedFinding { src: Some(var.src), code: STATE_BOOLEAN }));
        }
    }
}

/// Each argument of an emitted event that names a state variable gets a
/// finding at the event.
pub proof fn lemma_state_in_event_reported(events: Seq<EmittedEvent>, state: Seq<Seq<char>>, e: int, a: int)
    requires
        0 <= e < events.len(),
        0 <= a < events[e].argument_names@.len(),
        events[e].argument_names@[a] is Some,
        state.contains(events[e].argument_names@[a]->0@),
    ensures
        event_findings(events, state).contains(
            PushedFinding { src: Some(events[e].src), code: STATE_IN_EVENT },
        ),
    decreases events.len(),
{
    let init = events.drop_last();
    let prev = event_findings(init, state);
    let f = PushedFinding { src: Some(events[e].src), code: STATE_IN_EVENT };
    if e < events.len() - 1 {
        assert(init[e] == events[e]);
        lemma_state_in_event_reported(init, state, e, a);
        let w = choose|w: int| 0 <= w < prev.len() && prev[w] == f;
        assert(event_findings(events, state)[w] == f);
    } else {
        assert(events[e] == events.last());
        lemma_argument_reported(events.last().argument_names@, state, events.last().src, a);
        let more = argument_findings(events.last().argument_names@, state, events.last().src);
        let w = choose|w: int| 0 <= w < more.len() && more[w] == f;
        assert(event_findings(events, state)[prev.len() + w] == f);
    }
}

proof fn lemma_argument_reported(args: Seq<Option<String>>, state: Seq<Seq<char>>, src: SourceLocation, a: int)
    requires
        0 <= a < args.len(),
        args[a] is Some,
        state.contains(args[a]->0@),
    ensures
        argument_findings(args, state, src).contains(PushedFinding { src: Some(src), code: STATE_IN_EVENT }),
    decreases args.len(),
{
    let init = args.drop_last();
    let prev = argument_findings(init, state, src);
    let f = PushedFinding { src: Some(src), code: STATE_IN_EVENT };
    if a < args.len() - 1 {
        assert(init[a] == args[a]);
        lemma_argument_reported(init, state, src, a);
        let w = choose|w: int| 0 <= w < prev.len() && prev[w] == f;
        assert(argument_findings(args, state, src)[w] == f);
    } else {
        assert(args[a] == args.last());
        let all = argument_findings(args, state, src);
        assert(all[all.len() - 1] == f);
    }
}

} // verus!
