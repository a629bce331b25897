//! How the shell names its own version.

use crate::text::{from_chars, push_str};
use vstd::prelude::*;

verus! {

/// The description of a build: `v`, the version, and the kind of build in
/// parentheses. A debug build shows the development version, any other the
/// stable one.
pub open spec fn version_description(
    dev_version: Seq<char>,
    stable_version: Seq<char>,
    debug_build: bool,
) -> Seq<char> {
    if debug_build {
        seq!['v'] + dev_version + " (Dev Build)"@
    } else {
        seq!['v'] + stable_version + " (Stable)"@
    }
}

/// The description of this build, from the two versions that the version
/// file gives: see [`version_description`].
pub fn get_version_description(dev_version: &str, stable_version: &str, debug_build: bool) -> (s:
    String)
    ensures
        s@ == version_description(dev_version@, stable_version@, debug_build),
{
    let mut out: Vec<char> = Vec::new();
    out.push('v');
    if debug_build {
        push_str(&mut out, dev_version);
        push_str(&mut out, " (Dev Build)");
    } else {
        push_str(&mut out, stable_version);
        push_str(&mut out, " (Stable)");
    }
    from_chars(&out)
}

} // verus!
