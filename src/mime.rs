//! MIME type inference, delegated to `mime_guess`.
use vstd::prelude::*;

verus! {

/// The MIME type that `mime_guess` infers for a path, with
/// `application/octet-stream` where the extension is unknown.
pub uninterp spec fn mime_of(path: Seq<char>) -> Seq<char>;

/// Relies on `mime_guess::from_path(..).first_or_octet_stream()`: the guess
/// depends on the path's text alone.
#[verifier::external_body]
pub(crate) fn guess_mime(path: &str) -> (r: String)
    ensures
        r@ == mime_of(path@),
{
    mime_guess::from_path(path).first_or_octet_stream().to_string()
}

} // verus!
