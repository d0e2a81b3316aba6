//! From raw bytes to the JSON text that they hold.

use crate::container::Container;
use vstd::prelude::*;
use vstd::slice::slice_subrange;
use vstd::string::StringSliceAdditionalSpecFns;
use vstd::utf8::{decode_utf8, valid_utf8};

verus! {

/// The request buffer does not hold a request.
#[derive(Debug, Clone, Copy, PartialEq, Eq, Structural)]
pub enum RequestError {
    /// The bytes are not UTF-8, or their text is not the JSON of a request.
    InvalidRequest,
}

/// The payload of the container does not hold a catalog.
#[derive(Debug, Clone, Copy, PartialEq, Eq, Structural)]
pub enum CatalogError {
    /// The bytes are not UTF-8, or their text is not the JSON of a catalog.
    InvalidCatalog,
}

/// `bytes` without the zero bytes at its end.
pub open spec fn strip_trailing_zeros(bytes: Seq<u8>) -> Seq<u8>
    decreases bytes.len(),
{
    if bytes.len() > 0 && bytes.last() == 0 {
        strip_trailing_zeros(bytes.drop_last())
    } else {
        bytes
    }
}

/// What is left of a region is a prefix of it that does not end in a zero
/// byte, and all that was taken off is zero bytes.
pub proof fn lemma_strip_trailing_zeros(bytes: Seq<u8>)
    ensures
        strip_trailing_zeros(bytes).is_prefix_of(bytes),
        strip_trailing_zeros(bytes).len() > 0 ==> strip_trailing_zeros(bytes).last() != 0,
        forall|at: int| strip_trailing_zeros(bytes).len() <= at < bytes.len() ==> bytes[at] == 0,
    decreases bytes.len(),
{
    if bytes.len() > 0 && bytes.last() == 0 {
        lemma_strip_trailing_zeros(bytes.drop_last());
        assert forall|at: int| strip_trailing_zeros(bytes).len() <= at < bytes.len() implies bytes[at]
            == 0 by {
            if at < bytes.len() - 1 {
                assert(bytes.drop_last()[at] == bytes[at]);
            }
        }
    }
}

/// Takes the zero bytes that pad a region off its end.
pub fn trim_padding<'a>(region: &'a [u8]) -> (trimmed: &'a [u8])
    ensures
        trimmed@ == strip_trailing_zeros(region@),
{
    let mut end: usize = region.len();
    assert(region@.take(end as int) =~= region@);
    while end > 0 && region[end - 1] == 0
        invariant
            end <= region@.len(),
            strip_trailing_zeros(region@) == strip_trailing_zeros(region@.take(end as int)),
        decreases end,
    {
        assert(region@.take(end as int).drop_last() =~= region@.take(end - 1));
        end = end - 1;
    }
    assert(region@.take(end as int) =~= region@.subrange(0, end as int));
    slice_subrange(region, 0, end)
}

/// `core::str::from_utf8`: the bytes as a string slice where they are valid
/// UTF-8, and nothing where they are not. The string's bytes are the bytes
/// given.
#[verifier::external_body]
fn utf8_text<'a>(bytes: &'a [u8]) -> (text: Option<&'a str>)
    ensures
        text is Some <==> valid_utf8(bytes@),
        text is Some ==> text->0.spec_bytes() == bytes@,
{
    core::str::from_utf8(bytes).ok()
}

/// The text of a request buffer.
pub fn request_text<'a>(bytes: &'a [u8]) -> (result: Result<&'a str, RequestError>)
    ensures
        match result {
            Ok(text) => valid_utf8(bytes@) && text@ == decode_utf8(bytes@),
            Err(error) => !valid_utf8(bytes@) && error == RequestError::InvalidRequest,
        },
{
    match utf8_text(bytes) {
        Some(text) => {
            proof {
                vstd::utf8::encode_utf8_decode_utf8(text@);
            }
            Ok(text)
        },
        None => Err(RequestError::InvalidRequest),
    }
}

/// The bytes of the JSON text in a container: its payload region without the
/// zero bytes that pad it.
pub open spec fn catalog_payload(container: &Container) -> Seq<u8> {
    strip_trailing_zeros(container@.payload_bytes(container.bytes()))
}

/// The text of the JSON payload of a container.
pub fn catalog_text<'a>(container: &Container<'a>) -> (result: Result<&'a str, CatalogError>)
    ensures
        match result {
            Ok(text) => valid_utf8(catalog_payload(container)) && text@ == decode_utf8(
                catalog_payload(container),
            ),
            Err(error) => !valid_utf8(catalog_payload(container)) && error
                == CatalogError::InvalidCatalog,
        },
{
    match utf8_text(trim_padding(container.json_region())) {
        Some(text) => {
            proof {
                vstd::utf8::encode_utf8_decode_utf8(text@);
            }
            Ok(text)
        },
        None => Err(CatalogError::InvalidCatalog),
    }
}

} // verus!
