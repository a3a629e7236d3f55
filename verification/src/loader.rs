//! The detection modules that a run loads.
use vstd::prelude::*;

verus! {

/// A detection module, known by its name.
pub struct Module {
    pub name: String,
}

impl Module {
    /// A module named `name`.
    pub fn new(name: String) -> (r: Module)
        ensures
            r.name@ == name@,
    {
        Module { name }
    }
}

/// The `style` module, which checks code style; it reports nothing yet.
pub fn get_module() -> (r: Module)
    ensures
        r.name@ == "style"@,
{
    Module::new("style".to_owned())
}

/// The modules loaded by default: none, every detection module being a
/// visitor of its own.
pub fn get_all_modules() -> (r: Vec<Module>)
    ensures
        r@.len() == 0,
{
    Vec::new()
}

} // verus!
