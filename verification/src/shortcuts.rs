//! The default push-to-talk shortcut, in the textual form the shortcut
//! registry and the settings store use.

use vstd::prelude::*;
use vstd::string::StrSliceExecFns;
use vstd::string::StringExecFns;

verus! {

/// The default record shortcut (Alt held with the Z key), rendered the way
/// the shortcut registry serializes it.
pub fn default_record_shortcut() -> (r: String)
    ensures
        r@ == "alt+KeyZ"@,
        r@.len() > 0,
{
    let r = String::from_str("alt+KeyZ");
    proof {
        reveal_strlit("alt+KeyZ");
    }
    r
}

} // verus!
