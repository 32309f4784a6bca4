//! Bookkeeping of the modules that `require` has loaded.
use vstd::prelude::*;
use crate::error::ScmResult;
use crate::text::{concat, same_text};

verus! {

/// A loaded module: its name, and why it was loaded.
#[derive(Clone, Debug, PartialEq, Eq)]
pub struct Module {
    pub name: String,
    pub loaded_from: String,
}

/// Whether a module of the given name is among `modules`.
pub open spec fn is_loaded(modules: Seq<Module>, name: Seq<char>) -> bool {
    exists|i: int| 0 <= i < modules.len() && (#[trigger] modules[i]).name@ == name
}

/// Whether no module named `mod_name` has been loaded yet.
pub fn should_load_mod(mod_name: &str, modules: &Vec<Module>) -> (r: bool)
    ensures
        r == !is_loaded(modules@, mod_name@),
{
    let mut i: usize = 0;
    while i < modules.len()
        invariant
            i <= modules@.len(),
            forall|k: int| 0 <= k < i ==> (#[trigger] modules@[k]).name@ != mod_name@,
        decreases modules.len() - i,
    {
        if same_text(modules[i].name.as_str(), mod_name) {
            return false;
        }
        i = i + 1;
    }
    true
}

/// Records that the file module `name` is loaded, for the reason `why_loaded`,
/// unless a module of that name already is. Whether it was not loaded before.
pub fn mark_loaded(modules: &mut Vec<Module>, name: &str, why_loaded: &str) -> (r: bool)
    ensures
        r == !is_loaded(old(modules)@, name@),
        is_loaded(final(modules)@, name@),
        r ==> final(modules)@.len() == old(modules)@.len() + 1
            && final(modules)@.take(old(modules)@.len() as int) == old(modules)@
            && final(modules)@.last().name@ == name@
            && final(modules)@.last().loaded_from@ == why_loaded@,
        !r ==> final(modules)@ == old(modules)@,
{
    broadcast use vstd::string::group_string_axioms;
    if should_load_mod(name, modules) {
        modules.push(Module { name: name.to_string(), loaded_from: why_loaded.to_string() });
        proof {
            assert(final(modules)@.take(old(modules)@.len() as int) =~= old(modules)@);
            assert(final(modules)@[old(modules)@.len() as int].name@ == name@);
        }
        true
    } else {
        false
    }
}

/// Records a module that the interpreter provides itself, as `name<synthetic>`,
/// unless a module of that recorded name is loaded already: a loaded module
/// is not loaded again.
pub fn require_synthetic(module_name: Option<&str>, why_loaded: &str, modules: &mut Vec<Module>) -> (r: ScmResult<()>)
    requires
        module_name is Some,
    ensures
        r is Ok,
        ({
            let recorded = module_name->0@ + "<synthetic>"@;
            if is_loaded(old(modules)@, recorded) {
                final(modules)@ == old(modules)@
            } else {
                &&& final(modules)@.len() == old(modules)@.len() + 1
                &&& final(modules)@.take(old(modules)@.len() as int) == old(modules)@
                &&& final(modules)@.last().name@ == recorded
                &&& final(modules)@.last().loaded_from@ == why_loaded@
            }
        }),
        is_loaded(final(modules)@, module_name->0@ + "<synthetic>"@),
{
    broadcast use vstd::string::group_string_axioms;
    let base = match module_name {
        Some(n) => n,
        None => "core",
    };
    let mod_name = concat(base, "<synthetic>");
    if !should_load_mod(mod_name.as_str(), modules) {
        return Ok(());
    }
    modules.push(Module { name: mod_name, loaded_from: why_loaded.to_string() });
    proof {
        assert(final(modules)@.take(old(modules)@.len() as int) =~= old(modules)@);
        assert(final(modules)@[old(modules)@.len() as int].name@ == module_name->0@ + "<synthetic>"@);
    }
    Ok(())
}

/// What a `(require 'name)` loads.
#[derive(Clone, Copy, Debug, PartialEq, Eq)]
pub enum RequireTarget {
    /// The module `sys`: printing, reading a line, exiting.
    Sys,
    /// The module `unsafe`: boxes on the heap.
    Unsafe,
    /// The module `imperative/constructs`: `begin`.
    ImperativeConstructs,
    /// A file of that name on the search path.
    File,
}

/// Which module a `require` of `name` loads.
pub fn require_target(name: &str) -> (r: RequireTarget)
    ensures
        r == if name@ == "sys"@ {
            RequireTarget::Sys
        } else if name@ == "unsafe"@ {
            RequireTarget::Unsafe
        } else if name@ == "imperative/constructs"@ {
            RequireTarget::ImperativeConstructs
        } else {
            RequireTarget::File
        },
{
    if same_text(name, "sys") {
        RequireTarget::Sys
    } else if same_text(name, "unsafe") {
        RequireTarget::Unsafe
    } else if same_text(name, "imperative/constructs") {
        RequireTarget::ImperativeConstructs
    } else {
        RequireTarget::File
    }
}

/// The reason recorded for a module that `require` loads from the module `module_name`.
pub fn require_reason(module_name: Option<&str>) -> (r: String)
    ensures
        r@ == "loaded by require from "@ + match module_name {
            Some(n) => n@,
            None => "unknown"@,
        },
{
    let name = match module_name {
        Some(n) => n,
        None => "unknown",
    };
    concat("loaded by require from ", name)
}

/// The namespace in which `eval` evaluates a quoted list, from the module `module_name`.
pub fn dynamic_eval_namespace(module_name: Option<&str>) -> (r: String)
    ensures
        r@ == match module_name {
            Some(n) => n@,
            None => "<eval>"@,
        } + "::<dynamic eval>"@,
{
    let name = match module_name {
        Some(n) => n,
        None => "<eval>",
    };
    concat(name, "::<dynamic eval>")
}

} // verus!
