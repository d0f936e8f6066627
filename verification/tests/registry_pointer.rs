use dekaf::errors::TopologyError;
use dekaf::pointer::parse_pointer;
use dekaf::pointer::Token;
use dekaf::registry::inserted_id;
use dekaf::registry::lookup_registered_id;
use dekaf::registry::prepare_registration;

#[test]
fn same_schema_in_any_field_order_shares_one_digest() {
    // Two source texts of one schema, differing in field order and layout.
    let a = "{\"type\":\"record\",\"name\":\"r\",\"fields\":[]}";
    let b = "{ \"fields\": [], \"name\": \"r\", \"type\": \"record\" }";
    let ra = prepare_registration(a, "acme/clicks").unwrap();
    let rb = prepare_registration(b, "acme/orders").unwrap();
    assert_eq!(ra.digest, rb.digest);
    assert_eq!(ra.insert.avro_schema, rb.insert.avro_schema);
    assert_eq!(ra.insert.catalog_name, "acme/clicks");
    assert_eq!(rb.insert.catalog_name, "acme/orders");
}

#[test]
fn different_schemas_get_different_digests() {
    let ra = prepare_registration("{\"type\":\"string\"}", "c").unwrap();
    let rb = prepare_registration("{\"type\":\"long\"}", "c").unwrap();
    assert_ne!(ra.digest, rb.digest);
}

#[test]
fn digest_is_md5_of_the_normalized_text() {
    // The same digest the registry stores: MD5 of the reparsed, reserialized
    // canonical text — not of the source text as written.
    let spaced = "{ \"name\" : \"r\" , \"type\" : \"record\" }";
    let reg = prepare_registration(spaced, "c").unwrap();
    let normal = serde_json::from_str::<serde_json::Value>(spaced)
        .unwrap()
        .to_string();
    assert_ne!(normal, spaced);
    assert_eq!(reg.insert.avro_schema, normal);
    assert_eq!(reg.digest, format!("{:x}", md5::compute(&normal)));
    assert_eq!(reg.digest.len(), 32);
}

#[test]
fn invalid_schema_text_is_rejected() {
    let r = prepare_registration("not json at all", "c");
    assert_eq!(r.unwrap_err(), TopologyError::SchemaNotJson);
}

#[test]
fn lookup_hits_skip_the_insert() {
    assert_eq!(lookup_registered_id(&Vec::new()), None);
    assert_eq!(lookup_registered_id(&vec![17]), Some(17));
    assert_eq!(lookup_registered_id(&vec![17, 21]), Some(21));
    assert_eq!(inserted_id(&vec![42]), 42);
}

#[test]
fn pointer_parses_properties_indices_and_next_index() {
    let p = parse_pointer("/key/1/-");
    assert_eq!(p.tokens.len(), 3);
    assert!(matches!(&p.tokens[0], Token::Property(s) if s == "key"));
    assert!(matches!(p.tokens[1], Token::Index(1)));
    assert!(matches!(p.tokens[2], Token::NextIndex));
}

#[test]
fn pointer_unescapes_tilde_sequences() {
    let p = parse_pointer("/a~1b/c~0d");
    assert_eq!(p.tokens.len(), 2);
    assert!(matches!(&p.tokens[0], Token::Property(s) if s == "a/b"));
    assert!(matches!(&p.tokens[1], Token::Property(s) if s == "c~d"));
}

#[test]
fn pointer_edge_shapes() {
    assert!(parse_pointer("").tokens.is_empty());
    // A lone separator is one empty property.
    let lone = parse_pointer("/");
    assert_eq!(lone.tokens.len(), 1);
    assert!(matches!(&lone.tokens[0], Token::Property(s) if s.is_empty()));
    // A leading zero keeps a segment a property, "0" alone is an index.
    let p = parse_pointer("/01/0");
    assert!(matches!(&p.tokens[0], Token::Property(s) if s == "01"));
    assert!(matches!(p.tokens[1], Token::Index(0)));
    // An index too large for the machine stays a property.
    let big = parse_pointer("/99999999999999999999999999");
    assert!(matches!(&big.tokens[0], Token::Property(s) if s == "99999999999999999999999999"));
}
