//! Where the sample project for `init` is fetched from.
use vstd::prelude::*;

verus! {

/// The location that holds the sample config, spec and data files.
pub const BOILERPLATE_SOURCE_BASE: &'static str =
    "https://raw.githubusercontent.com/metamemelord/Mockerino/feature/core/boilerplate";

/// The address of one sample file, given by its path in the sample project.
pub fn boilerplate_url(file_path: &str) -> (r: String)
    ensures
        r@ == BOILERPLATE_SOURCE_BASE@ + "/"@ + file_path@,
{
    let mut r = String::from_str(BOILERPLATE_SOURCE_BASE);
    r.append("/");
    r.append(file_path);
    r
}

} // verus!
