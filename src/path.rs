//! Object-store paths, joined with relative_path's rules.

use relative_path::RelativePathBuf;
use vstd::prelude::*;

verus! {

/// `base` with `seg` appended as a new component: a leading `/` of `seg` is
/// dropped, and a `/` is put between the two unless `base` is empty or
/// already ends with one.
pub open spec fn pushed(base: Seq<char>, seg: Seq<char>) -> Seq<char> {
    let rest = if seg.len() > 0 && seg[0] == '/' { seg.drop_first() } else { seg };
    if base.len() > 0 && base.last() != '/' {
        base + seq!['/'] + rest
    } else {
        base + rest
    }
}

/// Relies on `relative_path::RelativePathBuf::push`, whose source strips one
/// leading separator of the pushed path and inserts one separator when the
/// buffer is non-empty and does not end with one.
#[verifier::external_body]
pub(crate) fn push_component(base: String, seg: &str) -> (r: String)
    ensures
        r@ == pushed(base@, seg@),
{
    let mut p = RelativePathBuf::from(base);
    p.push(seg);
    p.into_string()
}

} // verus!
