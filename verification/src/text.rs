use vstd::prelude::*;

verus! {

/// String equality over the character views.
///
/// `String` comparison is specified by vstd, so routing two `&str` values
/// through owned copies yields a fully verified equality test.
pub fn str_eq(a: &str, b: &str) -> (r: bool)
    ensures
        r == (a@ == b@),
{
    let owned_a: String = a.to_owned();
    let owned_b: String = b.to_owned();
    owned_a == owned_b
}

} // verus!
