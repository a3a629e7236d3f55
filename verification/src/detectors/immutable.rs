//! The `immutable` gas module: state variables assigned only in the
//! constructor, which could be immutable.
use vstd::prelude::*;
use std::collections::BTreeMap;
use crate::ast::{Assignment, Expression, FunctionDefinition, FunctionKind, PushedFinding, VariableDeclaration};
use crate::detectors::state::{
    StateVariable, assigned_name, find_last_declaration, is_declared, last_declaration,
};
use crate::findings::{FindingKey, Severity, key_is, opt_chars};
use crate::names::{NameSet, distinct_names, with_name, without_name};

verus! {

/// Code of a state variable assigned only in the constructor.
pub const CONSTRUCTOR_ONLY: usize = 0;

/// The keys of the module's findings.
pub fn finding_keys() -> (r: BTreeMap<usize, FindingKey>)
    ensures
        r@.dom() == set![CONSTRUCTOR_ONLY],
        key_is(
            r@[CONSTRUCTOR_ONLY],
            "State variables that never change should be directly inlined in the bytecode"@,
            "When state variables are guaranteed to never change, they should be inlined in the bytecode of the contract by declaring them as immutables or constants to avoid paying the upfront cost of SLOAD which are expensive, mainly when the slot is cold."@,
            Severity::Gas,
        ),
{
    broadcast use vstd::laws_cmp::group_laws_cmp;

    let mut keys: BTreeMap<usize, FindingKey> = BTreeMap::new();
    keys.insert(
        CONSTRUCTOR_ONLY,
        FindingKey::new(
            "State variables that never change should be directly inlined in the bytecode",
            "When state variables are guaranteed to never change, they should be inlined in the bytecode of the contract by declaring them as immutables or constants to avoid paying the upfront cost of SLOAD which are expensive, mainly when the slot is cold.",
            Severity::Gas,
        ),
    );
    proof {
        assert(keys@.dom() =~= set![CONSTRUCTOR_ONLY]);
    }
    keys
}

/// What the module gathers: the state variables and their declarations,
/// the names assigned only in a constructor so far, and whether the walk is
/// inside a constructor. Nothing is cleared between source units.
pub struct ImmutableModule {
    pub state_variables: NameSet,
    pub declarations: Vec<StateVariable>,
    pub constructor_variables: NameSet,
    pub inside_constructor: bool,
}

/// For each name assigned only in a constructor, in order, that is a state
/// variable: a finding at its last declaration.
pub open spec fn constructor_only_findings(
    constructor: Seq<Seq<char>>,
    state: Seq<Seq<char>>,
    decls: Seq<StateVariable>,
) -> Seq<PushedFinding>
    decreases constructor.len(),
{
    if constructor.len() == 0 {
        seq![]
    } else {
        let prev = constructor_only_findings(constructor.drop_last(), state, decls);
        let name = constructor.last();
        if state.contains(name) {
            prev.push(
                PushedFinding { src: Some(decls[last_declaration(decls, name)].src), code: CONSTRUCTOR_ONLY },
            )
        } else {
            prev
        }
    }
}

impl ImmutableModule {
    /// The sets hold each name once, and every state variable is declared.
    pub open spec fn wf(&self) -> bool {
        &&& distinct_names(self.state_variables@)
        &&& distinct_names(self.constructor_variables@)
        &&& forall|k: int|
            0 <= k < self.state_variables@.len() ==> is_declared(
                self.declarations@,
                #[trigger] self.state_variables@[k],
            )
    }

    /// Nothing gathered yet.
    pub fn new() -> (r: ImmutableModule)
        ensures
            r.wf(),
            r.state_variables@.len() == 0,
            r.declarations@.len() == 0,
            r.constructor_variables@.len() == 0,
            !r.inside_constructor,
    {
        ImmutableModule {
            state_variables: NameSet::new(),
            declarations: Vec::new(),
            constructor_variables: NameSet::new(),
            inside_constructor: false,
        }
    }

    /// Records a state variable and its declaration.
    pub fn visit_variable_declaration(&mut self, var: &VariableDeclaration)
        requires
            old(self).wf(),
        ensures
            final(self).wf(),
            final(self).state_variables@ == (if var.state_variable {
                with_name(old(self).state_variables@, var.name@)
            } else {
                old(self).state_variables@
            }),
            var.state_variable ==> final(self).declarations@.drop_last() == old(self).declarations@
                && final(self).declarations@.len() == old(self).declarations@.len() + 1
                && final(self).declarations@.last().name@ == var.name@
                && final(self).declarations@.last().src == var.src
                && opt_chars(final(self).declarations@.last().type_string) == opt_chars(
                var.type_descriptions.type_string,
            ) && final(self).declarations@.last().mutability == var.mutability,
            !var.state_variable ==> final(self).declarations@ == old(self).declarations@,
            final(self).constructor_variables@ == old(self).constructor_variables@,
            final(self).inside_constructor == old(self).inside_constructor,
    {
        if var.state_variable {
            let ghost before_decls = self.declarations@;
            let ghost before_state = self.state_variables@;
            self.state_variables.insert(&var.name);
            let type_string = match &var.type_descriptions.type_string {
                Some(t) => Some(t.clone()),
                None => None,
            };
            self.declarations.push(
                StateVariable {
                    name: var.name.clone(),
                    src: var.src,
                    type_string,
                    mutability: var.mutability,
                },
            );
            proof {
                assert(self.declarations@.drop_last() =~= before_decls);
                assert forall|k: int| 0 <= k < self.state_variables@.len() implies is_declared(
                    self.declarations@,
                    #[trigger] self.state_variables@[k],
                ) by {
                    let n = self.state_variables@[k];
                    if before_state.contains(n) {
                        let j = choose|j: int| 0 <= j < before_state.len() && before_state[j] == n;
                        assert(is_declared(before_decls, before_state[j]));
                        let w = choose|w: int| 0 <= w < before_decls.len() && (#[trigger] before_decls[w]).name@ == n;
                        assert(self.declarations@[w] == before_decls[w]);
                    } else {
                        if k < before_state.len() {
                            assert(before_state.contains(before_state[k]));
                        }
                        assert(n == var.name@);
                        assert(self.declarations@[before_decls.len() as int].name@ == n);
                    }
                }
            }
        }
    }

    /// Notes entering a function definition: a constructor sets the flag.
    pub fn enter_function_definition(&mut self, function_definition: &FunctionDefinition)
        requires
            old(self).wf(),
        ensures
            final(self).wf(),
            final(self).inside_constructor == (old(self).inside_constructor
                || function_definition.kind == Some(FunctionKind::Constructor)),
            final(self).state_variables@ == old(self).state_variables@,
            final(self).declarations@ == old(self).declarations@,
            final(self).constructor_variables@ == old(self).constructor_variables@,
    {
        if function_definition.kind == Some(FunctionKind::Constructor) {
            self.inside_constructor = true;
        }
    }

    /// Notes leaving a function definition: the flag is cleared.
    pub fn exit_function_definition(&mut self)
        requires
            old(self).wf(),
        ensures
            final(self).wf(),
            !final(self).inside_constructor,
            final(self).state_variables@ == old(self).state_variables@,
            final(self).declarations@ == old(self).declarations@,
            final(self).constructor_variables@ == old(self).constructor_variables@,
    {
        self.inside_constructor = false;
    }

    /// Records an assignment to a name: kept as assigned only in the
    /// constructor while every assignment to it is in the constructor.
    pub fn visit_assignment(&mut self, assignment: &Assignment)
        requires
            old(self).wf(),
        ensures
            final(self).wf(),
            final(self).constructor_variables@ == (match assigned_name(*assignment) {
                Some(n) => if old(self).inside_constructor {
                    with_name(old(self).constructor_variables@, n)
                } else {
                    without_name(old(self).constructor_variables@, n)
                },
                None => old(self).constructor_variables@,
            }),
            final(self).state_variables@ == old(self).state_variables@,
            final(self).declarations@ == old(self).declarations@,
            final(self).inside_constructor == old(self).inside_constructor,
    {
        match &*assignment.lhs {
            Expression::Identifier(identifier) => {
                if self.inside_constructor {
                    self.constructor_variables.insert(&identifier.name);
                } else {
                    self.constructor_variables.remove(identifier.name.as_str());
                }
            },
            _ => {},
        }
    }

    /// At the end of a source unit: a finding at the declaration of each
    /// state variable assigned only in a constructor.
    pub fn finish_source_unit(&self) -> (r: Vec<PushedFinding>)
        requires
            self.wf(),
        ensures
            r@ == constructor_only_findings(
                self.constructor_variables@,
                self.state_variables@,
                self.declarations@,
            ),
    {
        let mut r: Vec<PushedFinding> = Vec::new();
        let mut i: usize = 0;
        while i < self.constructor_variables.names.len()
            invariant
                i <= self.constructor_variables@.len(),
                self.wf(),
                r@ == constructor_only_findings(
                    self.constructor_variables@.subrange(0, i as int),
                    self.state_variables@,
                    self.declarations@,
                ),
            decreases self.constructor_variables@.len() - i,
        {
            let var = &self.constructor_variables.names[i];
            proof {
                assert(self.constructor_variables@.subrange(0, i + 1).drop_last()
                    =~= self.constructor_variables@.subrange(0, i as int));
                assert(self.constructor_variables@[i as int] == var@);
            }
            if self.state_variables.contains(var.as_str()) {
                proof {
                    let j = choose|j: int| 0 <= j < self.state_variables@.len() && self.state_variables@[j] == var@;
                    assert(is_declared(self.declarations@, self.state_variables@[j]));
                }
                let d = find_last_declaration(&self.declarations, var.as_str());
                r.push(PushedFinding { src: Some(self.declarations[d].src), code: CONSTRUCTOR_ONLY });
            }
            i = i + 1;
        }
        proof {
            assert(self.constructor_variables@.subrange(0, self.constructor_variables@.len() as int)
                =~= self.constructor_variables@);
        }
        r
    }
}

/// Every name assigned only in a constructor that is a state variable is
/// reported at the last declaration of that variable.
pub proof fn lemma_constructor_only_reported(
    constructor: Seq<Seq<char>>,
    state: Seq<Seq<char>>,
    decls: Seq<StateVariable>,
    i: int,
)
    requires
        0 <= i < constructor.len(),
        state.contains(constructor[i]),
    ensures
        constructor_only_findings(constructor, state, decls).contains(
            PushedFinding { src: Some(decls[last_declaration(decls, constructor[i])].src), code: CONSTRUCTOR_ONLY },
        ),
    decreases constructor.len(),
{
    let init = constructor.drop_last();
    let prev = constructor_only_findings(init, state, decls);
    let all = constructor_only_findings(constructor, state, decls);
    let f = PushedFinding { src: Some(decls[last_declaration(decls, constructor[i])].src), code: CONSTRUCTOR_ONLY };
    if i < constructor.len() - 1 {
        assert(init[i] == constructor[i]);
        lemma_constructor_only_reported(init, state, decls, i);
        let w = choose|w: int| 0 <= w < prev.len() && prev[w] == f;
        assert(all == prev || all == prev.push(all.last()));
        assert(all[w] == f);
    } else {
        assert(constructor[i] == constructor.last());
        assert(all == prev.push(f));
        assert(all[all.len() - 1] == f);
    }
}

/// `f` is the finding at the last declaration of the `i`-th name assigned
/// only in a constructor, a state variable.
pub open spec fn at_constructor_only(
    f: PushedFinding,
    constructor: Seq<Seq<char>>,
    state: Seq<Seq<char>>,
    decls: Seq<StateVariable>,
    i: int,
) -> bool {
    &&& 0 <= i < constructor.len()
    &&& state.contains(constructor[i])
    &&& f == (PushedFinding { src: Some(decls[last_declaration(decls, constructor[i])].src), code: CONSTRUCTOR_ONLY })
}

/// Every finding is at the last declaration of a state variable assigned
/// only in a constructor.
pub proof fn lemma_constructor_only_only(
    constructor: Seq<Seq<char>>,
    state: Seq<Seq<char>>,
    decls: Seq<StateVariable>,
    w: int,
)
    requires
        0 <= w < constructor_only_findings(constructor, state, decls).len(),
    ensures
        exists|i: int| at_constructor_only(constructor_only_findings(constructor, state, decls)[w], constructor, state, decls, i),
    decreases constructor.len(),
{
    let init = constructor.drop_last();
    let prev = constructor_only_findings(init, state, decls);
    let all = constructor_only_findings(constructor, state, decls);
    if w < prev.len() {
        assert(all[w] == prev[w]);
        lemma_constructor_only_only(init, state, decls, w);
        let i = choose|i: int| at_constructor_only(prev[w], init, state, decls, i);
        assert(init[i] == constructor[i]);
        assert(at_constructor_only(all[w], constructor, state, decls, i));
    } else {
        let i = constructor.len() - 1;
        assert(constructor[i] == constructor.last());
        assert(at_constructor_only(all[w], constructor, state, decls, i));
    }
}

} // verus!
