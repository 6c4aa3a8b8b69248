//! Signature rendering shared by the language drivers.

use vstd::prelude::*;

use crate::strings::push_str;

verus! {

broadcast use vstd::string::group_string_axioms;

/// `name` and `params`, followed by `: ret` when a non-empty return type is given.
pub open spec fn rendered_signature(name: Seq<char>, params: Seq<char>, ret: Option<Seq<char>>) -> Seq<char> {
    match ret {
        Some(r) => if r.len() > 0 {
            name + params + ": "@ + r
        } else {
            name + params
        },
        None => name + params,
    }
}

/// Render a signature for inline display: `"name(params): ret"` when a
/// return type is present, `"name(params)"` when absent.
pub fn render_signature(name: &str, params: &str, return_type: Option<&str>) -> (r: String)
    ensures
        r@ == rendered_signature(
            name@,
            params@,
            match return_type {
                Some(t) => Some(t@),
                None => None,
            },
        ),
{
    let mut out = name.to_owned();
    push_str(&mut out, params);
    match return_type {
        Some(ret) => {
            let cs = crate::strings::chars_of(ret);
            if cs.len() > 0 {
                push_str(&mut out, ": ");
                push_str(&mut out, ret);
            }
        },
        None => {},
    }
    out
}

} // verus!
