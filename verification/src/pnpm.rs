//! Locating the bundled pnpm.
//!
//! The harness's dependency graph is roughly five hundred packages; npm
//! cannot install it in a usable time, pnpm can, so pnpm ships inside the app.
use vstd::prelude::*;

use crate::paths::FsPath;

verus! {

/// pnpm's entry script among the bundled resources.
pub const BUNDLED: &'static str = "pnpm/bin/pnpm.cjs";

/// pnpm's entry script in a development checkout.
pub const IN_CHECKOUT: &'static str = "node_modules/pnpm/bin/pnpm.cjs";

/// Why pnpm is missing.
pub open spec fn pnpm_missing() -> Seq<char> {
    "pnpm was not found: this build has no staged resources. Build with `npm run build`."@
}

/// pnpm's entry script: the bundled one if this build has it, otherwise the
/// one a development checkout holds, otherwise an error.
pub fn locate(bundled: Option<FsPath>, in_checkout: Option<FsPath>) -> (r: Result<FsPath, String>)
    ensures
        bundled matches Some(b) ==> (r matches Ok(p) && p@ == b@),
        bundled is None ==> match in_checkout {
            Some(c) => r matches Ok(p) && p@ == c@,
            None => r matches Err(m) && m@ == pnpm_missing(),
        },
{
    match bundled {
        Some(b) => Ok(b),
        None => match in_checkout {
            Some(c) => Ok(c),
            None => Err(
                String::from_str(
                    "pnpm was not found: this build has no staged resources. Build with `npm run build`.",
                ),
            ),
        },
    }
}

} // verus!
