//! The name under which this suite reports itself.

use vstd::prelude::*;

verus! {

/// Returns this test suite's name, for use in cross-category output.
pub fn suite_name() -> (name: &'static str)
    ensures
        name@ == "RustForge"@,
{
    "RustForge"
}

} // verus!
