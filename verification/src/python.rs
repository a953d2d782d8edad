//! Python configuration attached to each shell.

use std::collections::HashMap;

use vstd::prelude::*;

verus! {

/// The global names of a shell's Python namespace.
pub type PythonGlobals = HashMap<String, String>;

/// Python configuration and namespace state attached to a shell.
#[derive(Clone, Debug)]
pub struct PythonContext {
    /// The global names of the shell's Python namespace.
    pub globals: PythonGlobals,
    /// Enables command-not-found fallback for dotted names.
    pub implicit_dotted_dispatch: bool,
    /// Enables shell-argument auto-conversion for callable dispatch.
    pub auto_convert_args: bool,
}

impl Default for PythonContext {
    fn default() -> (r: Self)
        ensures
            r.globals@ == Map::<String, String>::empty(),
            !r.implicit_dotted_dispatch,
            !r.auto_convert_args,
    {
        PythonContext {
            globals: HashMap::new(),
            implicit_dotted_dispatch: false,
            auto_convert_args: false,
        }
    }
}

impl PythonContext {
    /// Create context defaults for interactive or non-interactive mode.
    pub fn defaults_for_interactive(interactive: bool) -> (r: Self)
        ensures
            r.globals@ == Map::<String, String>::empty(),
            r.implicit_dotted_dispatch == interactive,
            r.auto_convert_args,
    {
        PythonContext {
            globals: HashMap::new(),
            implicit_dotted_dispatch: interactive,
            auto_convert_args: true,
        }
    }
}

} // verus!
