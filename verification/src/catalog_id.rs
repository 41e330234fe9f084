//! Catalog identifiers as texts of hexadecimal digits.

use vstd::prelude::*;
use crate::catalog::CatalogId;
use crate::user::UserDetails;

verus! {

/// The error of `bson` for a text that is no object identifier.
#[verifier::external_type_specification]
#[verifier::external_body]
pub struct ExObjectIdError(bson::oid::Error);

/// Why a request cannot be served.
#[derive(Clone, Copy, Debug, PartialEq, Eq, Structural)]
pub enum RequestError {
    /// The text is no catalog identifier.
    InvalidCatalogId,
    /// The user has not chosen a catalog.
    NoCatalog,
}

/// Whether the character is a hexadecimal digit, with small or capital
/// letters.
pub open spec fn is_hex_digit(c: char) -> bool {
    ||| '0' as u32 <= c as u32 <= '9' as u32
    ||| 'a' as u32 <= c as u32 <= 'f' as u32
    ||| 'A' as u32 <= c as u32 <= 'F' as u32
}

/// The value of a hexadecimal digit.
pub open spec fn hex_value(c: char) -> nat
    recommends
        is_hex_digit(c),
{
    if '0' as u32 <= c as u32 <= '9' as u32 {
        (c as u32 - '0' as u32) as nat
    } else if 'a' as u32 <= c as u32 <= 'f' as u32 {
        (c as u32 - 'a' as u32 + 10) as nat
    } else {
        (c as u32 - 'A' as u32 + 10) as nat
    }
}

/// Whether the text is a catalog identifier: twenty-four hexadecimal
/// digits.
pub open spec fn is_catalog_id_text(text: Seq<char>) -> bool {
    &&& text.len() == 24
    &&& forall|i: int| 0 <= i < 24 ==> is_hex_digit(#[trigger] text[i])
}

/// Whether `bytes` are the twelve bytes that the digits of `text` denote,
/// two digits to a byte, the high digit first.
pub open spec fn denotes(text: Seq<char>, bytes: Seq<u8>) -> bool {
    &&& bytes.len() == 12
    &&& forall|i: int|
        0 <= i < 12 ==> (#[trigger] bytes[i]) as nat == hex_value(text[2 * i]) * 16 + hex_value(
            text[2 * i + 1],
        )
}

/// `bson::oid::ObjectId::parse_str`, followed by `ObjectId::bytes`: a text
/// of twenty-four hexadecimal digits is decoded to the twelve bytes that it
/// denotes, and any other text is refused.
#[verifier::external_body]
fn decode_object_id(text: &str) -> (r: Result<[u8; 12], bson::oid::Error>)
    ensures
        r is Ok <==> is_catalog_id_text(text@),
        r is Ok ==> denotes(text@, r->Ok_0@),
{
    match bson::oid::ObjectId::parse_str(text) {
        Ok(id) => Ok(id.bytes()),
        Err(e) => Err(e),
    }
}

/// Reads a catalog identifier from its text of twenty-four hexadecimal
/// digits.
pub fn parse_catalog_id(text: &str) -> (r: Result<CatalogId, RequestError>)
    ensures
        match r {
            Ok(id) => is_catalog_id_text(text@) && denotes(text@, id.bytes@),
            Err(e) => !is_catalog_id_text(text@) && e == RequestError::InvalidCatalogId,
        },
{
    match decode_object_id(text) {
        Ok(bytes) => Ok(CatalogId { bytes }),
        Err(_) => Err(RequestError::InvalidCatalogId),
    }
}

/// The identifier of the catalog that the user has chosen.
pub fn chosen_catalog_id(details: &UserDetails) -> (r: Result<CatalogId, RequestError>)
    ensures
        match r {
            Ok(id) => details.catalog is Some && id == details.catalog->0.id,
            Err(e) => details.catalog is None && e == RequestError::NoCatalog,
        },
{
    match &details.catalog {
        Some(catalog) => Ok(catalog.id),
        None => Err(RequestError::NoCatalog),
    }
}

} // verus!
