use vstd::prelude::*;

verus! {

/// The decimal rendering of an integer, as `i32`'s `Display` produces it.
/// It depends on the argument alone; nothing more is assumed of it here.
pub uninterp spec fn decimal_of(n: int) -> Seq<char>;

/// Relies on `i32`'s `Display` implementation (through `ToString`): the
/// decimal digits of `n`, a pure function of the argument.
#[verifier::external_body]
pub(crate) fn int_to_string(n: i32) -> (r: String)
    ensures
        r@ == decimal_of(n as int),
{
    n.to_string()
}

} // verus!
