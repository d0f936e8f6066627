//! Assembly of a collection's protocol-facing topology snapshot.
//!
//! A snapshot is built fresh for every request: the collection's
//! specification, its partitions in stable order, an authenticated data-plane
//! handle, and the derived key/value schemas. The network fetches that feed
//! the assembly — specification lookup, authorization, journal and fragment
//! listings, registry reads and inserts — run outside the library and hand in
//! plain values; everything decided from those values is verified here.

use vstd::prelude::*;
use crate::errors::TopologyError;
use crate::offset::Fragment;
use crate::offset::classify_timestamp;
use crate::offset::floor_seconds;
use crate::offset::fragment_offset;
use crate::offset::spec_classify_timestamp;
use crate::offset::spec_floor_seconds;
use crate::offset::spec_fragment_offset;
use crate::partition::Journal;
use crate::partition::Partition;
use crate::partition::fetch_partitions;
use crate::partition::journal_wf;
use crate::partition::partitions_sorted;
use crate::partition::spec_journal_error;
use crate::partition::spec_partition_of;
use crate::pointer::Pointer;
use crate::pointer::parse_pointer;
use crate::pointer::spec_parse_pointer;
use crate::registry::SchemaRegistration;
use crate::registry::json_normal_of;
use crate::registry::prepare_registration;

verus! {

/// The immutable collection specification as fetched from the metadata store:
/// the fields this core reads of it.
pub struct CollectionSpec {
    pub name: String,
    pub key: Vec<String>,
    pub uuid_ptr: String,
    pub read_schema_json: String,
    pub write_schema_json: String,
}

impl CollectionSpec {
    /// The JSON schema records are decoded with: the read schema when one is
    /// published, the write schema only as a fallback.
    pub open spec fn spec_selected_schema(&self) -> Seq<char> {
        if self.read_schema_json@.len() == 0 {
            self.write_schema_json@
        } else {
            self.read_schema_json@
        }
    }

    /// Select the JSON schema the snapshot's binary schemas derive from.
    pub fn selected_schema_json(&self) -> (r: &String)
        ensures
            r@ == self.spec_selected_schema(),
    {
        if self.read_schema_json.as_str().is_empty() {
            &self.write_schema_json
        } else {
            &self.read_schema_json
        }
    }
}

/// One row of the collection-name listing.
pub struct NameRow {
    pub catalog_name: String,
}

/// The names of all collections the current caller may read, from the name
/// rows the metadata store returned for the "collection" specification type.
/// Each is exposed as one topic.
pub fn fetch_all_collection_names(rows: Vec<NameRow>) -> (names: Vec<String>)
    ensures
        names@ == rows@.map_values(|r: NameRow| r.catalog_name),
{
    let ghost all = rows@;
    let mut rest = rows;
    let mut names: Vec<String> = Vec::new();
    while rest.len() > 0
        invariant
            names@.len() + rest@.len() == all.len(),
            rest@ == all.skip(names@.len() as int),
            names@ == all.take(names@.len() as int).map_values(|r: NameRow| r.catalog_name),
        decreases rest@.len(),
    {
        let ghost done = names@.len() as int;
        let row = rest.remove(0);
        proof {
            assert(row == all[done]);
            assert(rest@ =~= all.skip(done + 1));
            assert(all.take(done + 1).map_values(|r: NameRow| r.catalog_name) =~= names@.push(
                row.catalog_name,
            ));
        }
        names.push(row.catalog_name);
    }
    proof {
        assert(all.take(all.len() as int) =~= all);
    }
    names
}

/// The specification row for a collection. The metadata store returns zero
/// rows — the collection is unknown, a normal outcome — or one; were there
/// several, the last would win.
pub fn spec_from_rows(rows: Vec<CollectionSpec>) -> (r: Option<CollectionSpec>)
    ensures
        (r is Some) <==> rows@.len() > 0,
        r matches Some(cs) ==> cs == rows@.last(),
{
    let mut rows = rows;
    rows.pop()
}

/// Bearer credential and gateway address carried by a successful scoped
/// authorization.
pub struct GatewayAuth {
    pub token: String,
    pub gateway_url: String,
}

/// An authenticated handle bound to one collection's data plane: the gateway
/// to route to and the credential to present.
pub struct JournalClient {
    pub gateway_url: String,
    pub bearer_token: String,
}

/// The namespace prefixes a scoped authorization request names: exactly the
/// requested collection, so the credential is least-privilege.
pub fn auth_prefixes(collection: &str) -> (v: Vec<String>)
    ensures
        v@.len() == 1,
        v@[0]@ == collection@,
{
    let mut v: Vec<String> = Vec::new();
    v.push(collection.to_owned());
    v
}

/// Combine an authorization response into the data-plane handle a snapshot
/// owns.
pub fn build_journal_client(auth: GatewayAuth) -> (c: JournalClient)
    ensures
        c.gateway_url == auth.gateway_url,
        c.bearer_token == auth.token,
{
    JournalClient { gateway_url: auth.gateway_url, bearer_token: auth.token }
}

/// The fragment-listing request that serves one offset request: the
/// partition's journal, the modification-time floor, and a page of one entry
/// — only the first matching fragment matters.
pub struct FragmentsRequest {
    pub journal: String,
    pub begin_mod_time: i64,
    pub page_limit: u32,
}

/// Collection is the assembled metadata of a collection being accessed as a
/// topic of the foreign protocol.
pub struct Collection {
    pub journal_client: JournalClient,
    pub key_ptr: Vec<Pointer>,
    pub key_schema: String,
    pub not_before: i64,
    pub partitions: Vec<Partition>,
    pub spec: CollectionSpec,
    pub uuid_ptr: Pointer,
    pub value_schema: String,
}

impl Collection {
    /// Well-formedness of a snapshot: partitions stand in the stable order,
    /// the `not_before` floor is a valid instant, and every field locator is
    /// the parse of the specification's path that names it.
    pub open spec fn wf(&self) -> bool {
        &&& partitions_sorted(self.partitions@)
        &&& self.not_before >= 0
        &&& self.key_ptr@.len() == self.spec.key@.len()
        &&& forall|i: int|
            0 <= i < self.key_ptr@.len() ==> (#[trigger] self.key_ptr@[i])@ == spec_parse_pointer(
                self.spec.key@[i]@,
            )
        &&& self.uuid_ptr@ == spec_parse_pointer(self.spec.uuid_ptr@)
    }

    /// Build a Collection from the two fetches' results: the specification
    /// row (when the metadata store had one), the resolved data-plane handle
    /// with the journals it enumerated, the schemas derived from the selected
    /// JSON schema, and the gateway's `not_before` floor.
    ///
    /// No specification row means the collection is not known: the outcome is
    /// `Ok(None)`, never an error. A journal missing its specification or
    /// routing table is a data-integrity error.
    pub fn new(
        spec: Option<CollectionSpec>,
        journal_client: JournalClient,
        journals: Vec<Journal>,
        key_schema: String,
        value_schema: String,
        not_before: i64,
    ) -> (r: Result<Option<Collection>, TopologyError>)
        requires
            not_before >= 0,
        ensures
            (r matches Ok(None)) <==> (spec is None),
            (r is Err) <==> (spec is Some && exists|i: int|
                0 <= i < journals@.len() && !journal_wf(#[trigger] journals@[i])),
            r matches Ok(Some(c)) ==> {
                &&& spec matches Some(cs) && c.spec == cs
                &&& c.wf()
                &&& c.journal_client == journal_client
                &&& c.key_schema == key_schema
                &&& c.value_schema == value_schema
                &&& c.not_before == not_before
                &&& c.partitions@.to_multiset() == journals@.map_values(
                    |j: Journal| spec_partition_of(j),
                ).to_multiset()
            },
            r matches Err(e) ==> exists|i: int|
                {
                    &&& 0 <= i < journals@.len()
                    &&& !journal_wf(#[trigger] journals@[i])
                    &&& forall|k: int| 0 <= k < i ==> journal_wf(journals@[k])
                    &&& e == spec_journal_error(journals@[i])
                },
    {
        let cs = match spec {
            Some(cs) => cs,
            None => {
                return Ok(None);
            },
        };
        let partitions = match fetch_partitions(journals) {
            Ok(p) => p,
            Err(e) => {
                return Err(e);
            },
        };
        let mut key_ptr: Vec<Pointer> = Vec::new();
        let mut i: usize = 0;
        while i < cs.key.len()
            invariant
                key_ptr@.len() == i,
                i <= cs.key@.len(),
                forall|j: int|
                    0 <= j < i ==> (#[trigger] key_ptr@[j])@ == spec_parse_pointer(cs.key@[j]@),
            decreases cs.key@.len() - i,
        {
            key_ptr.push(parse_pointer(cs.key[i].as_str()));
            i = i + 1;
        }
        let uuid_ptr = parse_pointer(cs.uuid_ptr.as_str());
        Ok(
            Some(
                Collection {
                    journal_client,
                    key_ptr,
                    key_schema,
                    not_before,
                    partitions,
                    spec: cs,
                    uuid_ptr,
                    value_schema,
                },
            ),
        )
    }

    /// The fragment-listing request that resolves an offset request against
    /// one partition, or `None` — "no such partition" — when the index is out
    /// of range.
    pub fn fragments_request(&self, partition_index: usize, timestamp_millis: i64) -> (r: Option<
        FragmentsRequest,
    >)
        requires
            self.not_before >= 0,
        ensures
            (r is Some) <==> partition_index < self.partitions@.len(),
            r matches Some(req) ==> {
                &&& req.journal@ == self.partitions@[partition_index as int].spec.name@
                &&& req.begin_mod_time as int == spec_floor_seconds(
                    spec_classify_timestamp(timestamp_millis),
                    self.not_before as int,
                )
                &&& req.page_limit == 1
            },
    {
        if partition_index >= self.partitions.len() {
            return None;
        }
        let q = classify_timestamp(timestamp_millis);
        let begin_mod_time = floor_seconds(q, self.not_before);
        let journal = self.partitions[partition_index].spec.name.clone();
        Some(FragmentsRequest { journal, begin_mod_time, page_limit: 1 })
    }

    /// Map a partition index and timestamp request into the covering fragment
    /// offset, given the fragment page the broker returned for the request
    /// `fragments_request` built.
    ///
    /// An out-of-range index is `None` — "no such partition", never an error.
    /// An empty page yields the `(0, 0)` empty-partition default. The newest
    /// sentinel (`-1`) resolves to the fragment's last fetch-able offset;
    /// every other request resolves to its begin offset, always alongside the
    /// fragment's own modification time.
    pub fn fetch_partition_offset(
        &self,
        partition_index: usize,
        timestamp_millis: i64,
        page: &Vec<Fragment>,
    ) -> (r: Option<(i64, i64)>)
        requires
            page@.len() > 0 ==> (page@[0].spec matches Some(fs) ==> fs.wf()),
        ensures
            (r is Some) <==> partition_index < self.partitions@.len(),
            r matches Some(om) ==> (om.0 as int, om.1 as int) == spec_fragment_offset(
                page@,
                timestamp_millis == -1,
            ),
    {
        if partition_index >= self.partitions.len() {
            return None;
        }
        Some(fragment_offset(page, timestamp_millis == -1))
    }

    /// Prepare the content-addressed registrations of the snapshot's key and
    /// value schemas: the digests to look up, and the rows to insert should a
    /// digest be unseen. Both must normalize; the store exchanges themselves
    /// run outside, and `lookup_registered_id` and `inserted_id` interpret
    /// their results.
    pub fn registered_schema_ids(&self) -> (r: Result<
        (SchemaRegistration, SchemaRegistration),
        TopologyError,
    >)
        ensures
            (r is Ok) <==> (json_normal_of(self.key_schema@) is Some && json_normal_of(
                self.value_schema@,
            ) is Some),
            r matches Ok(pair) ==> pair.0.wf(self.key_schema@, self.spec.name@) && pair.1.wf(
                self.value_schema@,
                self.spec.name@,
            ),
            r matches Err(e) ==> e == TopologyError::SchemaNotJson,
    {
        let key_reg = match prepare_registration(self.key_schema.as_str(), self.spec.name.as_str()) {
            Ok(reg) => reg,
            Err(e) => {
                return Err(e);
            },
        };
        let value_reg = match prepare_registration(
            self.value_schema.as_str(),
            self.spec.name.as_str(),
        ) {
            Ok(reg) => reg,
            Err(e) => {
                return Err(e);
            },
        };
        Ok((key_reg, value_reg))
    }
}

} // verus!
