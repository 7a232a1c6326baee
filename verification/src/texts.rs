//! The translation probe's response body.

use vstd::prelude::*;
use vstd::string::StringExecFns;

verus! {

/// The body answering a translation probe: the application asked about and
/// the language the caller accepts.
pub fn translate(app: &str, lang: &str) -> (r: String)
    ensures
        r@ == "App: "@ + app@ + ", Lang: "@ + lang@,
{
    let mut out = "App: ".to_owned();
    out.append(app);
    out.append(", Lang: ");
    out.append(lang);
    proof {
        assert(out@ =~= "App: "@ + app@ + ", Lang: "@ + lang@);
    }
    out
}

} // verus!
