use vstd::prelude::*;

verus! {

/// The MD5 digest of the UTF-8 bytes of `s`, written as lower-case hexadecimal.
pub uninterp spec fn md5_hex_of(s: Seq<char>) -> Seq<char>;

/// Relies on md5::compute and the `Debug` form of its `Digest` (each of the sixteen
/// bytes as two lower-case hexadecimal digits): the text depends on the bytes of `s` alone.
#[verifier::external_body]
pub(crate) fn md5_hex(s: &str) -> (r: String)
    ensures
        r@ == md5_hex_of(s@),
{
    format!("{:?}", md5::compute(s))
}

} // verus!
