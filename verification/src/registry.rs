//! Content-addressed schema registration.
//!
//! A schema's canonical text is reparsed into a structural JSON value and
//! reserialized, so that two sources differing only in field order or layout
//! normalize to the same text; that text's digest addresses the registry row.
//! The metadata-store exchanges themselves happen outside the library: the
//! functions here compute what to look up and what to insert, and interpret
//! the rows that come back.

use vstd::prelude::*;
use crate::errors::TopologyError;

verus! {

/// The canonical rendering serde_json gives a schema's text: `None` when the
/// text is not valid JSON, otherwise the reserialization of its parsed value.
/// The rendering depends on the text alone.
pub uninterp spec fn json_normal_of(s: Seq<char>) -> Option<Seq<char>>;

/// The lowercase hexadecimal MD5 digest of a text's bytes: a function of the
/// text alone.
pub uninterp spec fn md5_hex_of(s: Seq<char>) -> Seq<char>;

/// Relies on `serde_json::from_str::<Value>` and `Value`'s `to_string`:
/// parsing succeeds or fails as a function of the input text alone, and a
/// parsed value reserializes to one stable text regardless of the source's
/// field order or whitespace.
#[verifier::external_body]
fn normalize_json(s: &str) -> (r: Option<String>)
    ensures
        r is Some <==> json_normal_of(s@) is Some,
        r matches Some(n) ==> n@ == json_normal_of(s@)->Some_0,
{
    match serde_json::from_str::<serde_json::Value>(s) {
        Ok(v) => Some(v.to_string()),
        Err(_) => None,
    }
}

/// Relies on `md5::compute` and `Digest`'s `LowerHex` rendering: sixteen
/// digest bytes, each printed as two lowercase hexadecimal digits.
#[verifier::external_body]
fn md5_hex(s: &str) -> (r: String)
    ensures
        r@ == md5_hex_of(s@),
        r@.len() == 32,
{
    format!("{:x}", md5::compute(s.as_bytes()))
}

/// The content address of a schema text: the digest of its normal form, or
/// nothing when the text is not valid JSON.
pub open spec fn spec_schema_digest(s: Seq<char>) -> Option<Seq<char>> {
    match json_normal_of(s) {
        Some(n) => Some(md5_hex_of(n)),
        None => None,
    }
}

/// One row to insert into the schema registry when a digest is unseen: the
/// normalized schema text and the collection that first registered it.
#[derive(Debug)]
pub struct SchemaInsert {
    pub avro_schema: String,
    pub catalog_name: String,
}

/// Everything one content-addressed registration needs: the digest to look
/// up, and the row to insert should the lookup come back empty.
#[derive(Debug)]
pub struct SchemaRegistration {
    pub digest: String,
    pub insert: SchemaInsert,
}

impl SchemaRegistration {
    /// The registration correctly content-addresses `schema` on behalf of
    /// `catalog`.
    pub open spec fn wf(&self, schema: Seq<char>, catalog: Seq<char>) -> bool {
        &&& json_normal_of(schema) is Some
        &&& self.insert.avro_schema@ == json_normal_of(schema)->Some_0
        &&& self.digest@ == spec_schema_digest(schema)->Some_0
        &&& self.insert.catalog_name@ == catalog
    }
}

/// Prepare the content-addressed registration of one schema: normalize its
/// canonical text, digest the normal form, and assemble the row to insert if
/// the digest turns out to be unseen. Fails exactly when the text is not
/// valid JSON.
pub fn prepare_registration(schema: &str, catalog_name: &str) -> (r: Result<
    SchemaRegistration,
    TopologyError,
>)
    ensures
        r is Ok <==> json_normal_of(schema@) is Some,
        r matches Ok(reg) ==> reg.wf(schema@, catalog_name@),
        r matches Err(e) ==> e == TopologyError::SchemaNotJson,
{
    match normalize_json(schema) {
        Some(normal) => {
            let digest = md5_hex(normal.as_str());
            Ok(
                SchemaRegistration {
                    digest,
                    insert: SchemaInsert { avro_schema: normal, catalog_name: catalog_name.to_owned() },
                },
            )
        },
        None => Err(TopologyError::SchemaNotJson),
    }
}

/// Interpret the rows of a digest lookup: the registered ID when the digest
/// is already known, and nothing — meaning an insert must follow — when it is
/// not.
pub fn lookup_registered_id(rows: &Vec<u32>) -> (r: Option<u32>)
    ensures
        r is Some <==> rows@.len() > 0,
        r matches Some(id) ==> id == rows@.last(),
{
    if rows.len() > 0 {
        Some(rows[rows.len() - 1])
    } else {
        None
    }
}

/// Interpret the rows returned by a registry insert: the store reports the
/// newly assigned ID as a row, so an empty response never counts as success.
pub fn inserted_id(rows: &Vec<u32>) -> (id: u32)
    requires
        rows@.len() > 0,
    ensures
        id == rows@.last(),
{
    rows[rows.len() - 1]
}

/// Content-addressing: schema texts with the same canonical normal form — for
/// any collection, in any source field order — receive the same digest, so
/// both resolve to the same registry row and only the first ever inserts.
pub proof fn lemma_digest_content_addressed(a: Seq<char>, b: Seq<char>)
    requires
        json_normal_of(a) == json_normal_of(b),
    ensures
        spec_schema_digest(a) == spec_schema_digest(b),
{
}

} // verus!
