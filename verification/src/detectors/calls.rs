//! The `calls` detection module: external calls, calls on an address taken
//! as a parameter, and `delegatecall` inside loops.
use vstd::prelude::*;
use std::collections::BTreeMap;
use crate::ast::{
    Block, Expression, MemberAccess, Parameter, PushedFinding, Statement, TypeName,
};
use crate::findings::{FindingKey, Inside, Severity, key_is};
use crate::text::str_eq;

verus! {

/// Code of an external call.
pub const EXTERNAL_CALL: usize = 0;

/// Code of an external call on an address taken as a parameter.
pub const ARBITRARY_ADDRESS_CALL: usize = 1;

/// Code of a `delegatecall` inside a loop.
pub const DELEGATECALL_IN_LOOP: usize = 2;

/// The keys of the module's findings; this module gives its findings no
/// summary.
pub fn finding_keys() -> (r: BTreeMap<usize, FindingKey>)
    ensures
        r@.dom() == set![EXTERNAL_CALL, ARBITRARY_ADDRESS_CALL, DELEGATECALL_IN_LOOP],
        key_is(r@[EXTERNAL_CALL], ""@, "external call detected"@, Severity::Informal),
        key_is(
            r@[ARBITRARY_ADDRESS_CALL],
            ""@,
            "external call with arbitrary address"@,
            Severity::Medium,
        ),
        key_is(r@[DELEGATECALL_IN_LOOP], ""@, "delegatecall in a loop"@, Severity::High),
{
    broadcast use vstd::laws_cmp::group_laws_cmp;

    let mut keys: BTreeMap<usize, FindingKey> = BTreeMap::new();
    keys.insert(EXTERNAL_CALL, FindingKey::new("", "external call detected", Severity::Informal));
    keys.insert(
        ARBITRARY_ADDRESS_CALL,
        FindingKey::new("", "external call with arbitrary address", Severity::Medium),
    );
    keys.insert(DELEGATECALL_IN_LOOP, FindingKey::new("", "delegatecall in a loop", Severity::High));
    proof {
        assert(keys@.dom() =~= set![EXTERNAL_CALL, ARBITRARY_ADDRESS_CALL, DELEGATECALL_IN_LOOP]);
    }
    keys
}

/// Parameter names mapped to a type, the later of two equal names winning.
pub struct ParamTypes {
    pub entries: Vec<(String, String)>,
}

/// The map that inserting `e` in order builds.
pub open spec fn entries_map(e: Seq<(String, String)>) -> Map<Seq<char>, Seq<char>>
    decreases e.len(),
{
    if e.len() == 0 {
        Map::empty()
    } else {
        entries_map(e.drop_last()).insert(e.last().0@, e.last().1@)
    }
}

impl View for ParamTypes {
    type V = Map<Seq<char>, Seq<char>>;

    open spec fn view(&self) -> Map<Seq<char>, Seq<char>> {
        entries_map(self.entries@)
    }
}

impl ParamTypes {
    /// The type recorded for `name`, if any.
    pub fn get(&self, name: &str) -> (r: Option<String>)
        ensures
            match r {
                Some(t) => self@.contains_key(name@) && t@ == self@[name@],
                None => !self@.contains_key(name@),
            },
    {
        let mut found: Option<String> = None;
        let mut i: usize = 0;
        while i < self.entries.len()
            invariant
                i <= self.entries@.len(),
                match found {
                    Some(t) => entries_map(self.entries@.subrange(0, i as int)).contains_key(name@)
                        && t@ == entries_map(self.entries@.subrange(0, i as int))[name@],
                    None => !entries_map(self.entries@.subrange(0, i as int)).contains_key(name@),
                },
            decreases self.entries@.len() - i,
        {
            proof {
                let s = self.entries@.subrange(0, i + 1);
                assert(s.drop_last() =~= self.entries@.subrange(0, i as int));
            }
            if str_eq(self.entries[i].0.as_str(), name) {
                found = Some(self.entries[i].1.clone());
            }
            i = i + 1;
        }
        proof {
            assert(self.entries@.subrange(0, self.entries@.len() as int) =~= self.entries@);
        }
        found
    }
}

/// Whether a type is the elementary type `address`.
pub open spec fn is_address_type(t: Option<TypeName>) -> bool {
    match t {
        Some(TypeName::ElementaryTypeName(e)) => e.name@ == "address"@,
        _ => false,
    }
}

/// Each parameter of type `address` mapped to `address`.
pub open spec fn param_types_of(params: Seq<Parameter>) -> Map<Seq<char>, Seq<char>>
    decreases params.len(),
{
    if params.len() == 0 {
        Map::empty()
    } else {
        let prev = param_types_of(params.drop_last());
        if is_address_type(params.last().declared_type) {
            prev.insert(params.last().name@, "address"@)
        } else {
            prev
        }
    }
}

/// Records which parameters of a function are addresses.
pub fn parse_params(params: &[Parameter]) -> (r: ParamTypes)
    ensures
        r@ == param_types_of(params@),
{
    let mut entries: Vec<(String, String)> = Vec::new();
    let mut i: usize = 0;
    while i < params.len()
        invariant
            i <= params@.len(),
            entries_map(entries@) == param_types_of(params@.subrange(0, i as int)),
        decreases params@.len() - i,
    {
        let p = &params[i];
        let ghost before = entries@;
        proof {
            let s = params@.subrange(0, i + 1);
            assert(s.drop_last() =~= params@.subrange(0, i as int));
            assert(s.last() == *p);
        }
        match &p.declared_type {
            Some(TypeName::ElementaryTypeName(t)) => {
                if str_eq(t.name.as_str(), "address") {
                    entries.push((p.name.clone(), "address".to_owned()));
                    proof {
                        assert(entries@.drop_last() =~= before);
                    }
                }
            },
            _ => {},
        }
        i = i + 1;
    }
    proof {
        assert(params@.subrange(0, params@.len() as int) =~= params@);
    }
    ParamTypes { entries }
}

/// Parameter `i` is declared with the elementary type `address`.
pub open spec fn declared_address(params: Seq<Parameter>, i: int) -> bool {
    &&& 0 <= i < params.len()
    &&& params[i].declared_type matches Some(TypeName::ElementaryTypeName(e)) && e.name@ == "address"@
}

/// The parameters recorded are exactly those declared `address`, at any
/// position, each mapped to `address`: every such parameter's name is in
/// the map, and every name in the map is that of such a parameter.
pub proof fn lemma_address_parameters_recorded(params: Seq<Parameter>)
    ensures
        forall|i: int|
            declared_address(params, i) ==> #[trigger] param_types_of(params).contains_key(
                params[i].name@,
            ),
        forall|n: Seq<char>|
            #[trigger] param_types_of(params).contains_key(n) ==> param_types_of(params)[n]
                == "address"@ && exists|i: int| declared_address(params, i) && params[i].name@ == n,
    decreases params.len(),
{
    if params.len() > 0 {
        let init = params.drop_last();
        lemma_address_parameters_recorded(init);
        let last = params.len() - 1;
        assert forall|i: int| declared_address(params, i) implies #[trigger] param_types_of(
            params,
        ).contains_key(params[i].name@) by {
            if i < last {
                assert(init[i] == params[i]);
                assert(declared_address(init, i));
                assert(param_types_of(init).contains_key(params[i].name@));
            } else {
                assert(is_address_type(params[last].declared_type));
            }
        }
        assert forall|n: Seq<char>| #[trigger] param_types_of(params).contains_key(n) implies param_types_of(params)[n]
            == "address"@ && exists|i: int| declared_address(params, i) && params[i].name@ == n by {
            if param_types_of(init).contains_key(n) && !(is_address_type(params[last].declared_type)
                && params[last].name@ == n) {
                let i = choose|i: int| declared_address(init, i) && init[i].name@ == n;
                assert(init[i] == params[i]);
                assert(declared_address(params, i));
            } else {
                assert(declared_address(params, last));
            }
        }
    }
}

/// Whether a called expression is a member of a name mapped to `address`.
pub open spec fn called_on_address(callee: Expression, data: Map<Seq<char>, Seq<char>>) -> bool {
    match callee {
        Expression::MemberAccess(mem) => match *mem.expression {
            Expression::Identifier(id) => data.contains_key(id.name@) && data[id.name@] == "address"@,
            _ => false,
        },
        _ => false,
    }
}

/// The findings of a statement: an external call for a statement that is a
/// call, and an arbitrary-address call besides when the call is made on a
/// member of an `address` parameter.
pub open spec fn external_call_findings(stat: Statement, data: Map<Seq<char>, Seq<char>>) -> Seq<
    PushedFinding,
> {
    match stat {
        Statement::ExpressionStatement(es) => match es.expression {
            Expression::FunctionCall(call) => {
                let first = seq![PushedFinding { src: Some(call.src), code: EXTERNAL_CALL }];
                if called_on_address(*call.expression, data) {
                    first.push(PushedFinding { src: Some(call.src), code: ARBITRARY_ADDRESS_CALL })
                } else {
                    first
                }
            },
            _ => seq![],
        },
        _ => seq![],
    }
}

/// Checks one statement for external calls.
pub fn check_for_external_call(stat: &Statement, data: &ParamTypes) -> (r: Vec<PushedFinding>)
    ensures
        r@ == external_call_findings(*stat, data@),
{
    let mut findings: Vec<PushedFinding> = Vec::new();
    match stat {
        Statement::ExpressionStatement(expr) => match &expr.expression {
            Expression::FunctionCall(call) => {
                findings.push(PushedFinding { src: Some(call.src), code: EXTERNAL_CALL });
                match &*call.expression {
                    Expression::MemberAccess(mem) => match &*mem.expression {
                        Expression::Identifier(identifier) => {
                            match data.get(identifier.name.as_str()) {
                                Some(arb_type) => {
                                    if str_eq(arb_type.as_str(), "address") {
                                        findings.push(
                                            PushedFinding {
                                                src: Some(call.src),
                                                code: ARBITRARY_ADDRESS_CALL,
                                            },
                                        );
                                    }
                                },
                                None => {},
                            }
                        },
                        _ => {},
                    },
                    _ => {},
                }
                proof {
                    assert(findings@ =~= external_call_findings(*stat, data@));
                }
            },
            _ => {},
        },
        _ => {},
    }
    proof {
        assert(findings@ =~= external_call_findings(*stat, data@));
    }
    findings
}

/// The findings of the statements of a body, statement after statement.
pub open spec fn body_findings(stats: Seq<Statement>, data: Map<Seq<char>, Seq<char>>) -> Seq<
    PushedFinding,
>
    decreases stats.len(),
{
    if stats.len() == 0 {
        seq![]
    } else {
        body_findings(stats.drop_last(), data) + external_call_findings(stats.last(), data)
    }
}

/// Checks each top-level statement of a function body for external calls.
pub fn parse_body(body: &Block, data: &ParamTypes) -> (r: Vec<PushedFinding>)
    ensures
        r@ == body_findings(body.statements@, data@),
{
    let mut findings: Vec<PushedFinding> = Vec::new();
    let mut i: usize = 0;
    while i < body.statements.len()
        invariant
            i <= body.statements@.len(),
            findings@ == body_findings(body.statements@.subrange(0, i as int), data@),
        decreases body.statements@.len() - i,
    {
        let mut more = check_for_external_call(&body.statements[i], data);
        let ghost before = findings@;
        let ghost added = more@;
        findings.append(&mut more);
        proof {
            let s = body.statements@.subrange(0, i + 1);
            assert(s.drop_last() =~= body.statements@.subrange(0, i as int));
            assert(findings@ =~= before + added);
        }
        i = i + 1;
    }
    proof {
        assert(body.statements@.subrange(0, body.statements@.len() as int) =~= body.statements@);
    }
    findings
}

/// The findings of a function definition: those of its body, if it has one,
/// judged against its `address` parameters.
pub open spec fn function_findings(params: Seq<Parameter>, body: Option<Block>) -> Seq<PushedFinding> {
    match body {
        Some(b) => body_findings(b.statements@, param_types_of(params)),
        None => seq![],
    }
}

/// Checks a function definition for external calls.
pub fn check_function_definition(params: &[Parameter], body: &Option<Block>) -> (r: Vec<
    PushedFinding,
>)
    ensures
        r@ == function_findings(params@, *body),
{
    let data = parse_params(params);
    match body {
        Some(b) => parse_body(b, &data),
        None => Vec::new(),
    }
}

/// A `delegatecall` member reached inside a `for` or `while` loop.
pub fn check_delegatecall_in_loop(inside: &Inside, member_access: &MemberAccess) -> (r: Option<
    PushedFinding,
>)
    ensures
        r == (if (inside.for_loop || inside.while_loop) && member_access.member_name@
            == "delegatecall"@ {
            Some(PushedFinding { src: Some(member_access.src), code: DELEGATECALL_IN_LOOP })
        } else {
            None
        }),
{
    if (inside.for_loop || inside.while_loop) && str_eq(
        member_access.member_name.as_str(),
        "delegatecall",
    ) {
        Some(PushedFinding { src: Some(member_access.src), code: DELEGATECALL_IN_LOOP })
    } else {
        None
    }
}

/// Every top-level statement of a body that is a call is reported as an
/// external call at the call; when the call is on a member of a name mapped
/// to `address`, it is also reported as a call on an arbitrary address.
pub proof fn lemma_body_calls_reported(stats: Seq<Statement>, data: Map<Seq<char>, Seq<char>>, k: int)
    requires
        0 <= k < stats.len(),
        stats[k] matches Statement::ExpressionStatement(es) && es.expression is FunctionCall,
    ensures
        ({
            let c = stats[k]->ExpressionStatement_0.expression->FunctionCall_0;
            &&& body_findings(stats, data).contains(PushedFinding { src: Some(c.src), code: EXTERNAL_CALL })
            &&& (*c.expression matches Expression::MemberAccess(m) && *m.expression matches Expression::Identifier(id)
                && data.contains_key(id.name@) && data[id.name@] == "address"@) ==> body_findings(stats, data).contains(
                PushedFinding { src: Some(c.src), code: ARBITRARY_ADDRESS_CALL },
            )
        }),
    decreases stats.len(),
{
    let init = stats.drop_last();
    let prev = body_findings(init, data);
    let all = body_findings(stats, data);
    let c = stats[k]->ExpressionStatement_0.expression->FunctionCall_0;
    let f = PushedFinding { src: Some(c.src), code: EXTERNAL_CALL };
    let g = PushedFinding { src: Some(c.src), code: ARBITRARY_ADDRESS_CALL };
    if k < stats.len() - 1 {
        assert(init[k] == stats[k]);
        lemma_body_calls_reported(init, data, k);
        let w = choose|w: int| 0 <= w < prev.len() && prev[w] == f;
        assert(all[w] == prev[w]);
        if *c.expression matches Expression::MemberAccess(m) && *m.expression matches Expression::Identifier(id)
            && data.contains_key(id.name@) && data[id.name@] == "address"@ {
            let v = choose|v: int| 0 <= v < prev.len() && prev[v] == g;
            assert(all[v] == prev[v]);
        }
    } else {
        assert(stats[k] == stats.last());
        let more = external_call_findings(stats.last(), data);
        assert(all == prev + more);
        assert(more[0] == f);
        assert(all[prev.len() as int] == f);
        if *c.expression matches Expression::MemberAccess(m) && *m.expression matches Expression::Identifier(id)
            && data.contains_key(id.name@) && data[id.name@] == "address"@ {
            assert(more[1] == g);
            assert(all[prev.len() + 1int] == g);
        }
    }
}

} // verus!
