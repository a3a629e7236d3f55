//! The `function` gas module: `memory` parameters of external functions,
//! which `calldata` would spare copying.
use vstd::prelude::*;
use std::collections::BTreeMap;
use crate::ast::{FunctionDefinition, Parameter, PushedFinding, StorageLocation, Visibility};
use crate::findings::{FindingKey, Severity, key_is};

verus! {

/// Code of a `memory` parameter of an external function.
pub const MEMORY_PARAMETER: usize = 0;

/// The keys of the module's findings.
pub fn finding_keys() -> (r: BTreeMap<usize, FindingKey>)
    ensures
        r@.dom() == set![MEMORY_PARAMETER],
        key_is(
            r@[MEMORY_PARAMETER],
            "Use calldata instead of memory for external function parameters"@,
            "By the use of the `memory` keyword, all of the variables from the function parameter are copied to the memory by using the opcode `CALLDATACOPY`. This opcode gas cost grows linearly as a function of the number of slots to copy plus the memory expansion cost which can grow quadratically if there are a lot of slots to copy. If there is no need to alter the variables and store them somewhere, then we can safely load them from the calldata. See on evm.codes for more informations: https://www.evm.codes/#37"@,
            Severity::Gas,
        ),
{
    broadcast use vstd::laws_cmp::group_laws_cmp;

    let mut keys: BTreeMap<usize, FindingKey> = BTreeMap::new();
    keys.insert(
        MEMORY_PARAMETER,
        FindingKey::new(
            "Use calldata instead of memory for external function parameters",
            "By the use of the `memory` keyword, all of the variables from the function parameter are copied to the memory by using the opcode `CALLDATACOPY`. This opcode gas cost grows linearly as a function of the number of slots to copy plus the memory expansion cost which can grow quadratically if there are a lot of slots to copy. If there is no need to alter the variables and store them somewhere, then we can safely load them from the calldata. See on evm.codes for more informations: https://www.evm.codes/#37",
            Severity::Gas,
        ),
    );
    proof {
        assert(keys@.dom() =~= set![MEMORY_PARAMETER]);
    }
    keys
}

/// A finding at each `memory` parameter, in order.
pub open spec fn memory_parameters(params: Seq<Parameter>) -> Seq<PushedFinding>
    decreases params.len(),
{
    if params.len() == 0 {
        seq![]
    } else {
        let prev = memory_parameters(params.drop_last());
        if params.last().storage_location == StorageLocation::Memory {
            prev.push(PushedFinding { src: Some(params.last().src), code: MEMORY_PARAMETER })
        } else {
            prev
        }
    }
}

/// The `memory` parameters of an external function, each found where it is
/// declared; nothing for other functions.
pub fn check_function_definition(func: &FunctionDefinition) -> (r: Vec<PushedFinding>)
    ensures
        r@ == (if func.visibility == Visibility::External {
            memory_parameters(func.parameters@)
        } else {
            seq![]
        }),
{
    let mut r: Vec<PushedFinding> = Vec::new();
    if func.visibility == Visibility::External {
        let mut i: usize = 0;
        while i < func.parameters.len()
            invariant
                i <= func.parameters@.len(),
                r@ == memory_parameters(func.parameters@.subrange(0, i as int)),
            decreases func.parameters@.len() - i,
        {
            proof {
                assert(func.parameters@.subrange(0, i + 1).drop_last() =~= func.parameters@.subrange(
                    0,
                    i as int,
                ));
            }
            let param = &func.parameters[i];
            if param.storage_location == StorageLocation::Memory {
                r.push(PushedFinding { src: Some(param.src), code: MEMORY_PARAMETER });
            }
            i = i + 1;
        }
        proof {
            assert(func.parameters@.subrange(0, func.parameters@.len() as int) =~= func.parameters@);
        }
    }
    r
}

/// `f` is the finding at the `i`-th parameter, declared `memory`.
pub open spec fn at_memory_parameter(f: PushedFinding, params: Seq<Parameter>, i: int) -> bool {
    &&& 0 <= i < params.len()
    &&& params[i].storage_location == StorageLocation::Memory
    &&& f == (PushedFinding { src: Some(params[i].src), code: MEMORY_PARAMETER })
}

/// `f` is the finding at some parameter declared `memory`.
pub open spec fn at_some_memory_parameter(f: PushedFinding, params: Seq<Parameter>) -> bool {
    exists|i: int| at_memory_parameter(f, params, i)
}

/// Every `memory` parameter is reported where it is declared, and every
/// finding is at a `memory` parameter.
pub proof fn lemma_memory_parameters(params: Seq<Parameter>)
    ensures
        forall|i: int|
            0 <= i < params.len() && params[i].storage_location == StorageLocation::Memory
                ==> #[trigger] memory_parameters(params).contains(
                PushedFinding { src: Some(params[i].src), code: MEMORY_PARAMETER },
            ),
        forall|k: int|
            0 <= k < memory_parameters(params).len() ==> at_some_memory_parameter(
                #[trigger] memory_parameters(params)[k],
                params,
            ),
    decreases params.len(),
{
    if params.len() > 0 {
        let init = params.drop_last();
        lemma_memory_parameters(init);
        let prev = memory_parameters(init);
        let all = memory_parameters(params);
        let last = params.len() - 1;
        assert forall|i: int|
            0 <= i < params.len() && params[i].storage_location == StorageLocation::Memory implies #[trigger] memory_parameters(
            params,
        ).contains(PushedFinding { src: Some(params[i].src), code: MEMORY_PARAMETER }) by {
            let f = PushedFinding { src: Some(params[i].src), code: MEMORY_PARAMETER };
            if i < last {
                assert(init[i] == params[i]);
                assert(prev.contains(f));
                let w = choose|w: int| 0 <= w < prev.len() && prev[w] == f;
                assert(all[w] == f);
            } else {
                assert(all[all.len() - 1] == f);
            }
        }
        assert forall|k: int| 0 <= k < all.len() implies at_some_memory_parameter(#[trigger] all[k], params) by {
            if k < prev.len() {
                assert(all[k] == prev[k]);
                assert(at_some_memory_parameter(prev[k], init));
                let i = choose|i: int| at_memory_parameter(prev[k], init, i);
                assert(init[i] == params[i]);
                assert(at_memory_parameter(all[k], params, i));
            } else {
                assert(at_memory_parameter(all[k], params, last));
            }
        }
    }
}

} // verus!
