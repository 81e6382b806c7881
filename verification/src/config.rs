//! Where the service's settings are read from.

use vstd::prelude::*;

verus! {

/// The run mode used when none is given.
pub open spec fn default_run_mode() -> Seq<char> {
    "dev"@
}

/// The settings file of a run mode: `config/<mode>.yaml`, with mode `dev`
/// when none is given.
pub fn config_file_name(run_mode: Option<String>) -> (path: String)
    ensures
        path@ == "config/"@ + match run_mode {
            Some(m) => m@,
            None => default_run_mode(),
        } + ".yaml"@,
{
    let mode = match run_mode {
        Some(m) => m,
        None => String::from_str("dev"),
    };
    String::from_str("config/").concat(mode.as_str()).concat(".yaml")
}

} // verus!
