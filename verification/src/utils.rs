//! Small helpers shared by the scanner.

use vstd::prelude::*;

verus! {

/// Relies on `String::push`: appends the given character to the end of the
/// string.
#[verifier::external_body]
pub(crate) fn push_byte(s: &mut String, b: u8)
    ensures
        final(s)@ == old(s)@.push(b as char),
{
    s.push(b as char);
}

/// Short-circuit conjunction of two thunks: `b` is evaluated only when `a`
/// came back true.
pub fn both<F: Fn() -> bool, G: Fn() -> bool>(a: F, b: G) -> (r: bool)
    requires
        a.requires(()),
        forall|ra: bool| a.ensures((), ra) && ra ==> b.requires(()),
    ensures
        exists|ra: bool|
            a.ensures((), ra) && if ra {
                exists|rb: bool| b.ensures((), rb) && r == rb
            } else {
                r == false
            },
{
    let aval = a();
    if aval {
        b()
    } else {
        aval
    }
}

} // verus!
