//! The calls into the messaging library and the MIME table that the engine
//! relies on, with what it relies on them for.
use vstd::prelude::*;
use crate::record::Encoding;

verus! {

/// Whether a string is a canonical key expression of the messaging library.
pub uninterp spec fn is_key_expr(s: Seq<char>) -> bool;

/// Whether two key expressions share at least one key.
pub uninterp spec fn key_exprs_intersect(a: Seq<char>, b: Seq<char>) -> bool;

/// The MIME type guessed from the extension of a path.
pub uninterp spec fn guessed_mime(path: Seq<char>) -> Seq<char>;

/// The encoding id and schema that a textual encoding maps to.
pub uninterp spec fn encoding_of_str(s: Seq<char>) -> (u16, Seq<u8>);

/// Relies on `keyexpr::new`: accepts exactly the canonical key expressions.
#[verifier::external_body]
pub(crate) fn key_expr_valid(s: &str) -> (r: bool)
    ensures
        r == is_key_expr(s@),
{
    zenoh::key_expr::keyexpr::new(s).is_ok()
}

/// Relies on `keyexpr::intersects`: whether some key lies in both expressions.
#[verifier::external_body]
pub(crate) fn key_expr_intersects(a: &str, b: &str) -> (r: bool)
    requires
        is_key_expr(a@),
        is_key_expr(b@),
    ensures
        r == key_exprs_intersect(a@, b@),
{
    match (zenoh::key_expr::keyexpr::new(a), zenoh::key_expr::keyexpr::new(b)) {
        (Ok(x), Ok(y)) => x.intersects(y),
        _ => false,
    }
}

/// Relies on `mime_guess::from_path(..).first_or_octet_stream()`: the MIME
/// type registered for the path's extension, `application/octet-stream` otherwise.
#[verifier::external_body]
pub(crate) fn mime_of_path(path: &str) -> (r: String)
    ensures
        r@ == guessed_mime(path@),
{
    mime_guess::from_path(path).first_or_octet_stream().essence_str().to_string()
}

/// Relies on `Encoding: From<&str>`: a known MIME name maps to its registered
/// id, anything else to the custom id with the text as schema.
#[verifier::external_body]
pub(crate) fn encoding_from_str(s: &str) -> (r: Encoding)
    ensures
        (r.id, r.schema@) == encoding_of_str(s@),
{
    let e = zenoh::bytes::Encoding::from(s);
    Encoding { id: e.id(), schema: e.schema().map(|z| z.to_vec()).unwrap_or_default() }
}

/// Relies on `Encoding::APPLICATION_OCTET_STREAM`, whose id is 3.
#[verifier::external_body]
pub(crate) fn octet_stream_id() -> (r: u16)
    ensures
        r == 3,
{
    zenoh::bytes::Encoding::APPLICATION_OCTET_STREAM.id()
}

} // verus!
