use dekaf::errors::TopologyError;
use dekaf::partition::fetch_partitions;
use dekaf::partition::sort_partitions;
use dekaf::partition::Journal;
use dekaf::partition::JournalSpec;
use dekaf::partition::Partition;
use dekaf::partition::Route;

fn journal(create_revision: i64, name: &str) -> Journal {
    Journal {
        create_revision,
        mod_revision: create_revision + 1,
        spec: Some(JournalSpec { name: name.to_string() }),
        route: Some(Route { primary: 0, members: vec!["broker-a".to_string()] }),
    }
}

fn names(parts: &[Partition]) -> Vec<String> {
    parts.iter().map(|p| p.spec.name.clone()).collect()
}

#[test]
fn end_to_end_scenario_order() {
    // Journals created at revisions [5, 3, 5] named [part-002, part-000, part-001]:
    // revision 3 first, then the two revision-5 journals in name order.
    let journals = vec![journal(5, "part-002"), journal(3, "part-000"), journal(5, "part-001")];
    let parts = fetch_partitions(journals).unwrap();
    assert_eq!(names(&parts), vec!["part-000", "part-001", "part-002"]);
    assert_eq!(parts[0].create_revision, 3);
    assert_eq!(parts[1].create_revision, 5);
    assert_eq!(parts[2].create_revision, 5);
}

#[test]
fn order_is_deterministic_across_input_orders() {
    let a = vec![journal(7, "b"), journal(2, "z"), journal(7, "a"), journal(1, "q")];
    let b = vec![journal(1, "q"), journal(7, "a"), journal(7, "b"), journal(2, "z")];
    let pa = fetch_partitions(a).unwrap();
    let pb = fetch_partitions(b).unwrap();
    assert_eq!(names(&pa), names(&pb));
    assert_eq!(names(&pa), vec!["q", "z", "a", "b"]);
}

#[test]
fn growth_appends_without_reordering() {
    let old = vec![journal(3, "p0"), journal(5, "p1")];
    let old_parts = fetch_partitions(old).unwrap();
    let grown = vec![journal(5, "p1"), journal(9, "p2"), journal(3, "p0")];
    let grown_parts = fetch_partitions(grown).unwrap();
    assert_eq!(names(&grown_parts), vec!["p0", "p1", "p2"]);
    assert_eq!(names(&grown_parts)[..2], names(&old_parts)[..]);
}

#[test]
fn empty_listing_is_empty_not_error() {
    let parts = fetch_partitions(Vec::new()).unwrap();
    assert!(parts.is_empty());
}

#[test]
fn missing_spec_is_integrity_error() {
    let mut j = journal(4, "p");
    j.spec = None;
    let r = fetch_partitions(vec![journal(1, "ok"), j]);
    assert_eq!(r.unwrap_err(), TopologyError::MissingJournalSpec);
}

#[test]
fn missing_route_is_integrity_error() {
    let mut j = journal(4, "p");
    j.route = None;
    let r = fetch_partitions(vec![j, journal(1, "ok")]);
    assert_eq!(r.unwrap_err(), TopologyError::MissingJournalRoute);
    assert_eq!(
        TopologyError::MissingJournalRoute.describe(),
        "expected journal Route"
    );
}

#[test]
fn sort_orders_by_revision_then_name() {
    let parts = vec![
        Partition {
            create_revision: 2,
            spec: JournalSpec { name: "bb".to_string() },
            _mod_revision: 0,
            _route: Route { primary: 0, members: Vec::new() },
        },
        Partition {
            create_revision: 2,
            spec: JournalSpec { name: "ba".to_string() },
            _mod_revision: 0,
            _route: Route { primary: 0, members: Vec::new() },
        },
        Partition {
            create_revision: 1,
            spec: JournalSpec { name: "zz".to_string() },
            _mod_revision: 0,
            _route: Route { primary: 0, members: Vec::new() },
        },
    ];
    let sorted = sort_partitions(parts);
    assert_eq!(names(&sorted), vec!["zz", "ba", "bb"]);
}

#[test]
fn name_tie_break_is_lexicographic_with_prefixes() {
    // A name that is a prefix of another sorts first.
    let journals = vec![journal(1, "part-10"), journal(1, "part-1")];
    let parts = fetch_partitions(journals).unwrap();
    assert_eq!(names(&parts), vec!["part-1", "part-10"]);
}
