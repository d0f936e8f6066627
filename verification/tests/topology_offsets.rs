use dekaf::offset::Fragment;
use dekaf::offset::FragmentSpec;
use dekaf::partition::Journal;
use dekaf::partition::JournalSpec;
use dekaf::partition::Route;
use dekaf::topology::auth_prefixes;
use dekaf::topology::build_journal_client;
use dekaf::topology::fetch_all_collection_names;
use dekaf::topology::spec_from_rows;
use dekaf::topology::Collection;
use dekaf::topology::CollectionSpec;
use dekaf::topology::GatewayAuth;
use dekaf::topology::JournalClient;
use dekaf::topology::NameRow;

fn sample_spec(name: &str) -> CollectionSpec {
    CollectionSpec {
        name: name.to_string(),
        key: vec!["/id".to_string(), "/ts".to_string()],
        uuid_ptr: "/_meta/uuid".to_string(),
        read_schema_json: String::new(),
        write_schema_json: "{\"type\":\"object\"}".to_string(),
    }
}

fn sample_journal(create_revision: i64, name: &str) -> Journal {
    Journal {
        create_revision,
        mod_revision: create_revision,
        spec: Some(JournalSpec { name: name.to_string() }),
        route: Some(Route { primary: 0, members: Vec::new() }),
    }
}

fn sample_client() -> JournalClient {
    build_journal_client(GatewayAuth {
        token: "SECRET-REDACTED".to_string(),
        gateway_url: "https://gateway.example".to_string(),
    })
}

fn sample_collection(not_before: i64) -> Collection {
    let journals = vec![
        sample_journal(5, "acme/clicks/part-002"),
        sample_journal(3, "acme/clicks/part-000"),
        sample_journal(5, "acme/clicks/part-001"),
    ];
    let schema = "{\"type\":\"object\"}".to_string();
    Collection::new(
        Some(sample_spec("acme/clicks")),
        sample_client(),
        journals,
        schema.clone(),
        schema,
        not_before,
    )
    .unwrap()
    .unwrap()
}

fn page(begin: i64, end: i64, mod_time: i64) -> Vec<Fragment> {
    vec![Fragment { spec: Some(FragmentSpec { begin, end, mod_time }) }]
}

#[test]
fn absence_is_not_found_not_error() {
    // Zero specification rows: Ok(None), even though journals exist.
    let r = Collection::new(
        spec_from_rows(Vec::new()),
        sample_client(),
        vec![sample_journal(1, "acme/clicks/part-000")],
        String::new(),
        String::new(),
        0,
    );
    assert!(matches!(r, Ok(None)));
}

#[test]
fn collection_assembles_with_stable_partition_order() {
    let c = sample_collection(0);
    let order: Vec<&str> = c.partitions.iter().map(|p| p.spec.name.as_str()).collect();
    assert_eq!(
        order,
        vec!["acme/clicks/part-000", "acme/clicks/part-001", "acme/clicks/part-002"]
    );
    assert_eq!(c.key_ptr.len(), 2);
    assert_eq!(c.spec.name, "acme/clicks");
}

#[test]
fn out_of_range_index_is_none() {
    let c = sample_collection(0);
    assert!(c.fragments_request(3, 1_000).is_none());
    assert!(c.fetch_partition_offset(3, 1_000, &Vec::new()).is_none());
    assert!(c.fragments_request(2, 1_000).is_some());
}

#[test]
fn oldest_sentinel_reads_fragment_begin_at_floor_zero() {
    let c = sample_collection(0);
    let req = c.fragments_request(0, -2).unwrap();
    assert_eq!(req.begin_mod_time, 0);
    assert_eq!(req.page_limit, 1);
    assert_eq!(req.journal, "acme/clicks/part-000");
    let got = c.fetch_partition_offset(0, -2, &page(0, 500, 1111)).unwrap();
    assert_eq!(got, (0, 1111));
}

#[test]
fn newest_sentinel_reads_last_fetchable_offset() {
    let c = sample_collection(0);
    let req = c.fragments_request(1, -1).unwrap();
    assert_eq!(req.begin_mod_time, i64::MAX);
    let got = c.fetch_partition_offset(1, -1, &page(4000, 5000, 2222)).unwrap();
    assert_eq!(got, (4999, 2222));
}

#[test]
fn timestamp_below_floor_behaves_like_the_floor() {
    let c = sample_collection(100);
    let early = c.fragments_request(0, 5_000).unwrap();
    let at_floor = c.fragments_request(0, 100_000).unwrap();
    assert_eq!(early.begin_mod_time, 100);
    assert_eq!(early.begin_mod_time, at_floor.begin_mod_time);
    let later = c.fragments_request(0, 250_999).unwrap();
    assert_eq!(later.begin_mod_time, 250);
}

#[test]
fn empty_fragment_page_defaults_to_zero() {
    let c = sample_collection(0);
    let got = c.fetch_partition_offset(0, 7_000, &Vec::new()).unwrap();
    assert_eq!(got, (0, 0));
}

#[test]
fn fragment_without_spec_defaults_to_zero() {
    let c = sample_collection(0);
    let got = c
        .fetch_partition_offset(0, 7_000, &vec![Fragment { spec: None }])
        .unwrap();
    assert_eq!(got, (0, 0));
}

#[test]
fn collection_names_map_from_rows() {
    let rows = vec![
        NameRow { catalog_name: "acme/clicks".to_string() },
        NameRow { catalog_name: "acme/orders".to_string() },
    ];
    assert_eq!(
        fetch_all_collection_names(rows),
        vec!["acme/clicks".to_string(), "acme/orders".to_string()]
    );
    assert!(fetch_all_collection_names(Vec::new()).is_empty());
}

#[test]
fn spec_rows_pop_the_single_row() {
    assert!(spec_from_rows(Vec::new()).is_none());
    let got = spec_from_rows(vec![sample_spec("acme/clicks")]).unwrap();
    assert_eq!(got.name, "acme/clicks");
}

#[test]
fn read_schema_preferred_write_schema_fallback() {
    let mut spec = sample_spec("acme/clicks");
    assert_eq!(spec.selected_schema_json(), "{\"type\":\"object\"}");
    spec.read_schema_json = "{\"const\":1}".to_string();
    assert_eq!(spec.selected_schema_json(), "{\"const\":1}");
}

#[test]
fn auth_request_names_exactly_the_collection() {
    let prefixes = auth_prefixes("acme/clicks");
    assert_eq!(prefixes, vec!["acme/clicks".to_string()]);
    let client = sample_client();
    assert_eq!(client.gateway_url, "https://gateway.example");
    assert_eq!(client.bearer_token, "SECRET-REDACTED");
}
