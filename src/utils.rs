use vstd::prelude::*;

verus! {

/// The released version of this library.
pub const PACKAGE_VERSION: &'static str = "0.1.0";

/// The version string reported by the command line tool and written into the
/// metadata table.
pub fn version() -> (r: &'static str)
    ensures
        r@ == PACKAGE_VERSION@,
{
    PACKAGE_VERSION
}

} // verus!
