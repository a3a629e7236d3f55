//! The `tree` gas module: internal functions called only once, which could
//! be inlined, and modifiers holding code of their own rather than calling a
//! local function.
use vstd::prelude::*;
use std::collections::BTreeMap;
use vstd::utf8::*;
use crate::ast::{
    Block, Expression, FunctionCall, FunctionCallKind, FunctionDefinition, PushedFinding, Statement,
    Visibility,
};
use crate::findings::{FindingKey, Severity, SourceLocation, key_is, opt_chars};
use crate::text::{bytes_start_with, opt_is, opt_str_eq, str_starts_with};

verus! {

/// Code of an internal function called once.
pub const CALLED_ONCE: usize = 0;

/// Code of a statement of a modifier that is not a call of a local function.
pub const MODIFIER_CODE: usize = 1;

/// The keys of the module's findings.
pub fn finding_keys() -> (r: BTreeMap<usize, FindingKey>)
    ensures
        r@.dom() == set![CALLED_ONCE, MODIFIER_CODE],
        key_is(
            r@[CALLED_ONCE],
            "`internal` functions only called once can be inlined to save gas"@,
            "Not inlining costs 20 to 40 gas because of two extra JUMP instructions and additional stack operations needed for function calls."@,
            Severity::Gas,
        ),
        key_is(
            r@[MODIFIER_CODE],
            "Refactor a modifier to call a local function instead of directly having the code in the modifier, saving bytecode size and thereby deployment cost"@,
            "Modifiers code is copied in all instances where it's used, increasing bytecode size. By doing a refractor to the internal function, one can reduce bytecode size significantly at the cost of one JUMP. Consider doing this only if you are constrained by bytecode size."@,
            Severity::Gas,
        ),
{
    broadcast use vstd::laws_cmp::group_laws_cmp;

    let mut keys: BTreeMap<usize, FindingKey> = BTreeMap::new();
    keys.insert(
        CALLED_ONCE,
        FindingKey::new(
            "`internal` functions only called once can be inlined to save gas",
            "Not inlining costs 20 to 40 gas because of two extra JUMP instructions and additional stack operations needed for function calls.",
            Severity::Gas,
        ),
    );
    keys.insert(
        MODIFIER_CODE,
        FindingKey::new(
            "Refactor a modifier to call a local function instead of directly having the code in the modifier, saving bytecode size and thereby deployment cost",
            "Modifiers code is copied in all instances where it's used, increasing bytecode size. By doing a refractor to the internal function, one can reduce bytecode size significantly at the cost of one JUMP. Consider doing this only if you are constrained by bytecode size.",
            Severity::Gas,
        ),
    );
    proof {
        assert(keys@.dom() =~= set![CALLED_ONCE, MODIFIER_CODE]);
    }
    keys
}

/// A function call seen in the source: the name called when the called
/// expression is a plain name, and where the call stands.
pub struct CallSite {
    pub callee: Option<String>,
    pub src: SourceLocation,
}

/// A function definition seen in the source: its name and visibility.
pub struct DefinedFunction {
    pub name: String,
    pub visibility: Visibility,
}

/// The calls and definitions gathered over one source unit.
pub struct TreeModule {
    pub function_definitions: Vec<DefinedFunction>,
    pub function_calls: Vec<CallSite>,
}

/// The calls of `name`, in order.
pub open spec fn calls_to(calls: Seq<CallSite>, name: Seq<char>) -> Seq<CallSite>
    decreases calls.len(),
{
    if calls.len() == 0 {
        seq![]
    } else {
        let prev = calls_to(calls.drop_last(), name);
        if opt_is(calls.last().callee, name) {
            prev.push(calls.last())
        } else {
            prev
        }
    }
}

/// For each internal or private function, in order, called exactly once:
/// a finding at that call.
pub open spec fn called_once_findings(defs: Seq<DefinedFunction>, calls: Seq<CallSite>) -> Seq<
    PushedFinding,
>
    decreases defs.len(),
{
    if defs.len() == 0 {
        seq![]
    } else {
        let prev = called_once_findings(defs.drop_last(), calls);
        let d = defs.last();
        let to = calls_to(calls, d.name@);
        if (d.visibility == Visibility::Internal || d.visibility == Visibility::Private) && to.len()
            == 1 {
            prev.push(PushedFinding { src: Some(to[0].src), code: CALLED_ONCE })
        } else {
            prev
        }
    }
}

/// The name called, when the called expression is a plain name.
pub open spec fn callee_of(fc: FunctionCall) -> Option<Seq<char>> {
    match *fc.expression {
        Expression::Identifier(id) => Some(id.name@),
        _ => None,
    }
}

/// The calls of `name`, in order.
fn find_calls_to(calls: &Vec<CallSite>, name: &str) -> (r: Vec<SourceLocation>)
    ensures
        r@ == calls_to(calls@, name@).map_values(|c: CallSite| c.src),
{
    let mut r: Vec<SourceLocation> = Vec::new();
    let mut i: usize = 0;
    while i < calls.len()
        invariant
            i <= calls@.len(),
            r@ == calls_to(calls@.subrange(0, i as int), name@).map_values(|c: CallSite| c.src),
        decreases calls@.len() - i,
    {
        proof {
            assert(calls@.subrange(0, i + 1).drop_last() =~= calls@.subrange(0, i as int));
        }
        if opt_str_eq(&calls[i].callee, name) {
            let ghost before = r@;
            r.push(calls[i].src);
            proof {
                let prev = calls_to(calls@.subrange(0, i as int), name@);
                assert(calls_to(calls@.subrange(0, i + 1), name@) == prev.push(calls@[i as int]));
                assert(r@ =~= prev.push(calls@[i as int]).map_values(|c: CallSite| c.src));
            }
        }
        i = i + 1;
    }
    proof {
        assert(calls@.subrange(0, calls@.len() as int) =~= calls@);
    }
    r
}

impl TreeModule {
    /// Nothing gathered yet.
    pub fn new() -> (r: TreeModule)
        ensures
            r.function_definitions@.len() == 0,
            r.function_calls@.len() == 0,
    {
        TreeModule { function_definitions: Vec::new(), function_calls: Vec::new() }
    }

    /// Records a function definition.
    pub fn visit_function_definition(&mut self, function_definition: &FunctionDefinition)
        ensures
            final(self).function_calls@ == old(self).function_calls@,
            final(self).function_definitions@.len() == old(self).function_definitions@.len() + 1,
            final(self).function_definitions@.drop_last() == old(self).function_definitions@,
            final(self).function_definitions@.last().name@ == function_definition.name@,
            final(self).function_definitions@.last().visibility == function_definition.visibility,
    {
        let ghost before = self.function_definitions@;
        self.function_definitions.push(
            DefinedFunction {
                name: function_definition.name.clone(),
                visibility: function_definition.visibility,
            },
        );
        assert(self.function_definitions@.drop_last() =~= before);
    }

    /// Records a call, when it is a function call proper (no conversion
    /// and no struct construction).
    pub fn visit_function_call(&mut self, function_call: &FunctionCall)
        ensures
            final(self).function_definitions@ == old(self).function_definitions@,
            function_call.kind == FunctionCallKind::FunctionCall ==> {
                &&& final(self).function_calls@.len() == old(self).function_calls@.len() + 1
                &&& final(self).function_calls@.drop_last() == old(self).function_calls@
                &&& opt_chars(final(self).function_calls@.last().callee) == callee_of(*function_call)
                &&& final(self).function_calls@.last().src == function_call.src
            },
            function_call.kind != FunctionCallKind::FunctionCall ==> final(self).function_calls@ == old(
                self,
            ).function_calls@,
    {
        if function_call.kind == FunctionCallKind::FunctionCall {
            let callee = match &*function_call.expression {
                Expression::Identifier(e) => Some(e.name.clone()),
                _ => None,
            };
            let ghost before = self.function_calls@;
            self.function_calls.push(CallSite { callee, src: function_call.src });
            assert(self.function_calls@.drop_last() =~= before);
        }
    }

    /// At the end of a source unit: a finding at the one call of each
    /// internal or private function called exactly once; then everything
    /// gathered is cleared for the next unit.
    pub fn finish_source_unit(&mut self) -> (r: Vec<PushedFinding>)
        ensures
            r@ == called_once_findings(old(self).function_definitions@, old(self).function_calls@),
            final(self).function_definitions@.len() == 0,
            final(self).function_calls@.len() == 0,
    {
        let mut r: Vec<PushedFinding> = Vec::new();
        let mut i: usize = 0;
        while i < self.function_definitions.len()
            invariant
                i <= self.function_definitions@.len(),
                self.function_definitions@ == old(self).function_definitions@,
                self.function_calls@ == old(self).function_calls@,
                r@ == called_once_findings(
                    self.function_definitions@.subrange(0, i as int),
                    self.function_calls@,
                ),
            decreases self.function_definitions@.len() - i,
        {
            let ghost defs = self.function_definitions@.subrange(0, i + 1);
            proof {
                assert(defs.drop_last() =~= self.function_definitions@.subrange(0, i as int));
            }
            let fd = &self.function_definitions[i];
            if fd.visibility == Visibility::Internal || fd.visibility == Visibility::Private {
                let calls = find_calls_to(&self.function_calls, fd.name.as_str());
                if calls.len() == 1 {
                    r.push(PushedFinding { src: Some(calls[0]), code: CALLED_ONCE });
                }
            }
            i = i + 1;
        }
        proof {
            assert(self.function_definitions@.subrange(0, self.function_definitions@.len() as int)
                =~= self.function_definitions@);
        }
        self.function_calls = Vec::new();
        self.function_definitions = Vec::new();
        r
    }
}

/// The calls of `name` are, in order, the calls whose callee is `name`: a
/// single call `calls[j]` of a name called nowhere else gives exactly that
/// call.
proof fn lemma_single_call(calls: Seq<CallSite>, name: Seq<char>, j: int)
    requires
        0 <= j < calls.len(),
        opt_is(calls[j].callee, name),
        forall|k: int| 0 <= k < calls.len() && k != j ==> !opt_is(#[trigger] calls[k].callee, name),
    ensures
        calls_to(calls, name) == seq![calls[j]],
    decreases calls.len(),
{
    let init = calls.drop_last();
    if j < calls.len() - 1 {
        assert forall|k: int| 0 <= k < init.len() && k != j implies !opt_is(#[trigger] init[k].callee, name) by {
            assert(init[k] == calls[k]);
        }
        lemma_single_call(init, name, j);
        assert(!opt_is(calls[calls.len() - 1].callee, name));
    } else {
        lemma_no_call(init, name);
    }
}

proof fn lemma_no_call(calls: Seq<CallSite>, name: Seq<char>)
    requires
        forall|k: int| 0 <= k < calls.len() ==> !opt_is(#[trigger] calls[k].callee, name),
    ensures
        calls_to(calls, name) == Seq::<CallSite>::empty(),
    decreases calls.len(),
{
    if calls.len() > 0 {
        let init = calls.drop_last();
        assert forall|k: int| 0 <= k < init.len() implies !opt_is(#[trigger] init[k].callee, name) by {
            assert(init[k] == calls[k]);
        }
        lemma_no_call(init, name);
        assert(!opt_is(calls[calls.len() - 1].callee, name));
    }
}

/// Every `internal` or `private` function called exactly once is reported
/// at that one call.
pub proof fn lemma_called_once_reported(defs: Seq<DefinedFunction>, calls: Seq<CallSite>, i: int, j: int)
    requires
        0 <= i < defs.len(),
        defs[i].visibility == Visibility::Internal || defs[i].visibility == Visibility::Private,
        0 <= j < calls.len(),
        opt_is(calls[j].callee, defs[i].name@),
        forall|k: int|
            0 <= k < calls.len() && k != j ==> !opt_is(#[trigger] calls[k].callee, defs[i].name@),
    ensures
        called_once_findings(defs, calls).contains(
            PushedFinding { src: Some(calls[j].src), code: CALLED_ONCE },
        ),
    decreases defs.len(),
{
    let init = defs.drop_last();
    let prev = called_once_findings(init, calls);
    let f = PushedFinding { src: Some(calls[j].src), code: CALLED_ONCE };
    if i < defs.len() - 1 {
        assert(init[i] == defs[i]);
        lemma_called_once_reported(init, calls, i, j);
        let w = choose|w: int| 0 <= w < prev.len() && prev[w] == f;
        let all = called_once_findings(defs, calls);
        assert(all == prev || all == prev.push(all.last()));
        assert(all[w] == f);
    } else {
        lemma_single_call(calls, defs[i].name@, j);
        let all = called_once_findings(defs, calls);
        assert(all == prev.push(f));
        assert(all[all.len() - 1] == f);
    }
}

/// `f` is the finding at the one call `calls[j]` of the `internal` or
/// `private` function `defs[i]`, called nowhere else.
pub open spec fn at_single_call(f: PushedFinding, defs: Seq<DefinedFunction>, calls: Seq<CallSite>, i: int, j: int) -> bool {
    &&& 0 <= i < defs.len()
    &&& defs[i].visibility == Visibility::Internal || defs[i].visibility == Visibility::Private
    &&& 0 <= j < calls.len()
    &&& opt_is(calls[j].callee, defs[i].name@)
    &&& forall|k: int| 0 <= k < calls.len() && k != j ==> !opt_is(#[trigger] calls[k].callee, defs[i].name@)
    &&& f == (PushedFinding { src: Some(calls[j].src), code: CALLED_ONCE })
}

/// `f` is the finding at the single call of some such function.
pub open spec fn at_some_single_call(f: PushedFinding, defs: Seq<DefinedFunction>, calls: Seq<CallSite>) -> bool {
    exists|i: int, j: int| at_single_call(f, defs, calls, i, j)
}

proof fn lemma_one_call(calls: Seq<CallSite>, name: Seq<char>)
    requires
        calls_to(calls, name).len() == 1,
    ensures
        exists|j: int|
            0 <= j < calls.len() && calls[j] == calls_to(calls, name)[0] && opt_is(calls[j].callee, name)
                && forall|k: int| 0 <= k < calls.len() && k != j ==> !opt_is(#[trigger] calls[k].callee, name),
    decreases calls.len(),
{
    let init = calls.drop_last();
    let last = calls.len() - 1;
    if opt_is(calls[last].callee, name) {
        assert(calls_to(calls, name) == calls_to(init, name).push(calls[last]));
        assert(calls_to(init, name).len() == 0);
        lemma_calls_to_empty(init, name);
        assert forall|k: int| 0 <= k < calls.len() && k != last implies !opt_is(#[trigger] calls[k].callee, name) by {
            assert(init[k] == calls[k]);
        }
    } else {
        assert(calls_to(calls, name) == calls_to(init, name));
        lemma_one_call(init, name);
        let j = choose|j: int|
            0 <= j < init.len() && init[j] == calls_to(init, name)[0] && opt_is(init[j].callee, name)
                && forall|k: int| 0 <= k < init.len() && k != j ==> !opt_is(#[trigger] init[k].callee, name);
        assert(calls[j] == init[j]);
        assert forall|k: int| 0 <= k < calls.len() && k != j implies !opt_is(#[trigger] calls[k].callee, name) by {
            if k < last {
                assert(init[k] == calls[k]);
            }
        }
    }
}

proof fn lemma_calls_to_empty(calls: Seq<CallSite>, name: Seq<char>)
    requires
        calls_to(calls, name).len() == 0,
    ensures
        forall|k: int| 0 <= k < calls.len() ==> !opt_is(#[trigger] calls[k].callee, name),
    decreases calls.len(),
{
    if calls.len() > 0 {
        let init = calls.drop_last();
        if opt_is(calls[calls.len() - 1].callee, name) {
            assert(calls_to(calls, name).len() == calls_to(init, name).len() + 1);
        } else {
            lemma_calls_to_empty(init, name);
            assert forall|k: int| 0 <= k < calls.len() implies !opt_is(#[trigger] calls[k].callee, name) by {
                if k < calls.len() - 1 {
                    assert(init[k] == calls[k]);
                }
            }
        }
    }
}

/// Every called-once finding is at the single call of an `internal` or
/// `private` function called exactly once.
pub proof fn lemma_called_once_only(defs: Seq<DefinedFunction>, calls: Seq<CallSite>, w: int)
    requires
        0 <= w < called_once_findings(defs, calls).len(),
    ensures
        at_some_single_call(called_once_findings(defs, calls)[w], defs, calls),
    decreases defs.len(),
{
    let init = defs.drop_last();
    let prev = called_once_findings(init, calls);
    let all = called_once_findings(defs, calls);
    if w < prev.len() {
        assert(all[w] == prev[w]);
        lemma_called_once_only(init, calls, w);
        let (i, j) = choose|i: int, j: int| at_single_call(prev[w], init, calls, i, j);
        assert(init[i] == defs[i]);
        assert(at_single_call(all[w], defs, calls, i, j));
    } else {
        let i = defs.len() - 1;
        let d = defs[i];
        let to = calls_to(calls, d.name@);
        assert(to.len() == 1);
        lemma_one_call(calls, d.name@);
        let j = choose|j: int|
            0 <= j < calls.len() && calls[j] == to[0] && opt_is(calls[j].callee, d.name@)
                && forall|k: int| 0 <= k < calls.len() && k != j ==> !opt_is(#[trigger] calls[k].callee, d.name@);
        assert(all[w] == (PushedFinding { src: Some(to[0].src), code: CALLED_ONCE }));
        assert(at_single_call(all[w], defs, calls, i, j));
    }
}

/// A call of a function of the contract (an `internal` function, by the
/// type the compiler gives the called name).
pub open spec fn is_local_call(e: Expression) -> bool {
    match e {
        Expression::FunctionCall(c) => match *c.expression {
            Expression::Identifier(id) => match id.type_descriptions.type_identifier {
                Some(t) => bytes_start_with(encode_utf8(t@), encode_utf8("t_function_internal"@)),
                None => false,
            },
            _ => false,
        },
        _ => false,
    }
}

/// Where an expression stands, when the model knows it.
pub open spec fn expression_src(e: Expression) -> Option<SourceLocation> {
    match e {
        Expression::FunctionCall(c) => Some(c.src),
        Expression::MemberAccess(m) => Some(m.src),
        Expression::Identifier(i) => Some(i.src),
        Expression::Literal(l) => Some(l.src),
        Expression::Assignment(a) => Some(a.src),
        Expression::Other => None,
    }
}

/// The finding of one statement of a modifier: an expression statement that
/// is not a call of a local function, found where its expression stands.
pub open spec fn modifier_statement_finding(st: Statement) -> Option<PushedFinding> {
    match st {
        Statement::ExpressionStatement(es) => if is_local_call(es.expression) {
            None
        } else {
            match expression_src(es.expression) {
                Some(src) => Some(PushedFinding { src: Some(src), code: MODIFIER_CODE }),
                None => None,
            }
        },
        Statement::Other => None,
    }
}

/// The findings of the statements of a modifier's body, in order.
pub open spec fn modifier_findings(stats: Seq<Statement>) -> Seq<PushedFinding>
    decreases stats.len(),
{
    if stats.len() == 0 {
        seq![]
    } else {
        let prev = modifier_findings(stats.drop_last());
        match modifier_statement_finding(stats.last()) {
            Some(f) => prev.push(f),
            None => prev,
        }
    }
}

fn statement_finding(st: &Statement) -> (r: Option<PushedFinding>)
    ensures
        r == modifier_statement_finding(*st),
{
    match st {
        Statement::ExpressionStatement(es) => {
            let local = match &es.expression {
                Expression::FunctionCall(c) => match &*c.expression {
                    Expression::Identifier(id) => match &id.type_descriptions.type_identifier {
                        Some(t) => str_starts_with(t.as_str(), "t_function_internal"),
                        None => false,
                    },
                    _ => false,
                },
                _ => false,
            };
            if local {
                return None;
            }
            let src = match &es.expression {
                Expression::FunctionCall(c) => Some(c.src),
                Expression::MemberAccess(m) => Some(m.src),
                Expression::Identifier(i) => Some(i.src),
                Expression::Literal(l) => Some(l.src),
                Expression::Assignment(a) => Some(a.src),
                Expression::Other => None,
            };
            match src {
                Some(src) => Some(PushedFinding { src: Some(src), code: MODIFIER_CODE }),
                None => None,
            }
        },
        Statement::Other => None,
    }
}

/// Checks the body of a modifier: each statement that is not a call of a
/// local function is code that the modifier copies into every function it
/// modifies.
pub fn check_modifier_definition(body: &Block) -> (r: Vec<PushedFinding>)
    ensures
        r@ == modifier_findings(body.statements@),
{
    let mut found: Vec<PushedFinding> = Vec::new();
    let mut i: usize = 0;
    while i < body.statements.len()
        invariant
            i <= body.statements@.len(),
            found@ == modifier_findings(body.statements@.subrange(0, i as int)),
        decreases body.statements@.len() - i,
    {
        proof {
            assert(body.statements@.subrange(0, i + 1).drop_last() =~= body.statements@.subrange(
                0,
                i as int,
            ));
        }
        match statement_finding(&body.statements[i]) {
            Some(f) => found.push(f),
            None => {},
        }
        i = i + 1;
    }
    proof {
        assert(body.statements@.subrange(0, body.statements@.len() as int) =~= body.statements@);
    }
    found
}

/// Each statement of a modifier's body that calls a name whose type is not
/// that of an `internal` function (such as `require`) is reported where the
/// call stands; a statement that calls an `internal` function, and a
/// statement that is no expression (such as `_;`), is not.
pub proof fn lemma_modifier_rules(stats: Seq<Statement>, k: int)
    requires
        0 <= k < stats.len(),
    ensures
        (stats[k] matches Statement::ExpressionStatement(es) && es.expression matches Expression::FunctionCall(c)
            && (*c.expression matches Expression::Identifier(id) && (id.type_descriptions.type_identifier is None
            || !bytes_start_with(encode_utf8(id.type_descriptions.type_identifier->0@), encode_utf8("t_function_internal"@)))))
            ==> modifier_findings(stats).contains(PushedFinding {
            src: Some(stats[k]->ExpressionStatement_0.expression->FunctionCall_0.src),
            code: MODIFIER_CODE,
        }),
        (stats[k] matches Statement::ExpressionStatement(es) && es.expression matches Expression::FunctionCall(c)
            && (*c.expression matches Expression::Identifier(id) && id.type_descriptions.type_identifier is Some
            && bytes_start_with(encode_utf8(id.type_descriptions.type_identifier->0@), encode_utf8("t_function_internal"@))))
            ==> modifier_statement_finding(stats[k]) is None,
        stats[k] is Other ==> modifier_statement_finding(stats[k]) is None,
    decreases stats.len(),
{
    let init = stats.drop_last();
    let prev = modifier_findings(init);
    let all = modifier_findings(stats);
    if k < stats.len() - 1 {
        assert(init[k] == stats[k]);
        lemma_modifier_rules(init, k);
        if stats[k] matches Statement::ExpressionStatement(es) && es.expression matches Expression::FunctionCall(c)
            && (*c.expression matches Expression::Identifier(id) && (id.type_descriptions.type_identifier is None
            || !bytes_start_with(encode_utf8(id.type_descriptions.type_identifier->0@), encode_utf8("t_function_internal"@)))) {
            let f = PushedFinding { src: Some(stats[k]->ExpressionStatement_0.expression->FunctionCall_0.src), code: MODIFIER_CODE };
            let w = choose|w: int| 0 <= w < prev.len() && prev[w] == f;
            assert(all == prev || all == prev.push(all.last()));
            assert(all[w] == f);
        }
    } else {
        assert(stats[k] == stats.last());
        if stats[k] matches Statement::ExpressionStatement(es) && es.expression matches Expression::FunctionCall(c)
            && (*c.expression matches Expression::Identifier(id) && (id.type_descriptions.type_identifier is None
            || !bytes_start_with(encode_utf8(id.type_descriptions.type_identifier->0@), encode_utf8("t_function_internal"@)))) {
            assert(!is_local_call(stats[k]->ExpressionStatement_0.expression));
            assert(all[all.len() - 1] == (PushedFinding { src: Some(stats[k]->ExpressionStatement_0.expression->FunctionCall_0.src), code: MODIFIER_CODE }));
        }
    }
}

} // verus!
