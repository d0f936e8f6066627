//! Translation of timestamp and sentinel offset requests into fragment
//! offsets.
//!
//! The foreign protocol asks for "the offset at or after timestamp T", with
//! two reserved sentinel timestamps: `-1` for the newest available offset and
//! `-2` for the oldest. The underlying log only answers "the first fragment
//! whose modification time is at or after a floor". This module computes that
//! floor and maps the returned fragment page back into an `(offset, mod_time)`
//! pair.

use vstd::prelude::*;

verus! {

/// Byte range and modification time of one fragment of a journal, as the log
/// broker reports it. `begin` is inclusive and `end` exclusive.
#[derive(Clone, Copy, PartialEq, Eq, Structural, Debug)]
pub struct FragmentSpec {
    pub begin: i64,
    pub end: i64,
    pub mod_time: i64,
}

impl FragmentSpec {
    /// The broker hands out fragments with a non-negative, non-inverted byte
    /// range; the newest-offset rule (`end - 1`) relies on it.
    pub open spec fn wf(&self) -> bool {
        0 <= self.begin <= self.end
    }
}

/// One entry of a fragment listing. The broker may omit the spec, in which
/// case the entry counts as "no fragment found".
#[derive(Clone, Copy, PartialEq, Eq, Structural, Debug)]
pub struct Fragment {
    pub spec: Option<FragmentSpec>,
}

/// Three-way reading of the foreign protocol's timestamp parameter: a reserved
/// sentinel for the newest or the oldest available offset, or a literal
/// millisecond timestamp.
#[derive(Clone, Copy, PartialEq, Eq, Structural, Debug)]
pub enum TimestampQuery {
    /// Sentinel `-1`: the newest available offset.
    Newest,
    /// Sentinel `-2`: the oldest available offset.
    Oldest,
    /// A literal timestamp in milliseconds since the epoch.
    Millis(i64),
}

pub open spec fn spec_classify_timestamp(timestamp_millis: i64) -> TimestampQuery {
    if timestamp_millis == -1 {
        TimestampQuery::Newest
    } else if timestamp_millis == -2 {
        TimestampQuery::Oldest
    } else {
        TimestampQuery::Millis(timestamp_millis)
    }
}

/// Read the two reserved sentinel values out of a raw timestamp parameter.
pub fn classify_timestamp(timestamp_millis: i64) -> (q: TimestampQuery)
    ensures
        q == spec_classify_timestamp(timestamp_millis),
{
    if timestamp_millis == -1 {
        TimestampQuery::Newest
    } else if timestamp_millis == -2 {
        TimestampQuery::Oldest
    } else {
        TimestampQuery::Millis(timestamp_millis)
    }
}

/// The floor, in seconds, handed to the log's fragment index: the far future
/// for "newest", time zero for "oldest", and otherwise the requested
/// timestamp in seconds clamped upward to the gateway's `not_before` floor.
pub open spec fn spec_floor_seconds(q: TimestampQuery, not_before_sec: int) -> int {
    match q {
        TimestampQuery::Newest => i64::MAX as int,
        TimestampQuery::Oldest => 0,
        TimestampQuery::Millis(ms) => {
            if ms < 0 {
                not_before_sec
            } else if ms as int / 1000 < not_before_sec {
                not_before_sec
            } else {
                ms as int / 1000
            }
        },
    }
}

/// Compute the modification-time floor for one offset request.
///
/// A client may never request data older than the gateway's authorized start
/// time, so an ordinary timestamp below `not_before_sec` is clamped up to it.
pub fn floor_seconds(q: TimestampQuery, not_before_sec: i64) -> (r: i64)
    requires
        not_before_sec >= 0,
    ensures
        r == spec_floor_seconds(q, not_before_sec as int),
{
    match q {
        TimestampQuery::Newest => i64::MAX,
        TimestampQuery::Oldest => 0,
        TimestampQuery::Millis(ms) => {
            if ms < 0 {
                not_before_sec
            } else {
                let ts: i64 = ms / 1000;
                if ts < not_before_sec {
                    not_before_sec
                } else {
                    ts
                }
            }
        },
    }
}

/// The `(offset, mod_time)` pair read off a fragment page: zeros when the page
/// is empty or carries no spec; otherwise the largest fetch-able offset of the
/// fragment (`end - 1`, since `end` is exclusive) for a newest-sentinel
/// request, and the fragment's begin offset for every other request.
pub open spec fn spec_fragment_offset(page: Seq<Fragment>, newest: bool) -> (int, int) {
    if page.len() > 0 && page[0].spec is Some {
        let fs = page[0].spec->Some_0;
        if newest {
            (fs.end - 1, fs.mod_time as int)
        } else {
            (fs.begin as int, fs.mod_time as int)
        }
    } else {
        (0, 0)
    }
}

/// Map the first entry of a fragment page to the `(offset, mod_time)` pair the
/// foreign protocol expects. An empty page is an empty-partition default, not
/// an error.
pub fn fragment_offset(page: &Vec<Fragment>, newest: bool) -> (r: (i64, i64))
    requires
        page@.len() > 0 ==> (page@[0].spec matches Some(fs) ==> fs.wf()),
    ensures
        (r.0 as int, r.1 as int) == spec_fragment_offset(page@, newest),
{
    if page.len() > 0 {
        match &page[0].spec {
            Some(fs) => {
                if newest {
                    (fs.end - 1, fs.mod_time)
                } else {
                    (fs.begin, fs.mod_time)
                }
            },
            None => (0, 0),
        }
    } else {
        (0, 0)
    }
}

/// An ordinary timestamp earlier than the `not_before` floor resolves to the
/// same fragment-index floor as requesting the floor instant itself.
pub proof fn lemma_floor_clamps_to_not_before(ms: i64, not_before_sec: i64)
    requires
        not_before_sec >= 0,
        not_before_sec * 1000 <= i64::MAX,
        ms < not_before_sec * 1000,
    ensures
        spec_floor_seconds(TimestampQuery::Millis(ms), not_before_sec as int)
            == spec_floor_seconds(
            TimestampQuery::Millis((not_before_sec * 1000) as i64),
            not_before_sec as int,
        ),
        spec_floor_seconds(TimestampQuery::Millis(ms), not_before_sec as int)
            == not_before_sec as int,
{
    let nb = not_before_sec as int;
    assert((nb * 1000) / 1000 == nb) by (nonlinear_arith)
        requires nb >= 0;
    if ms >= 0 {
        assert(ms as int / 1000 < nb) by (nonlinear_arith)
            requires 0 <= ms, ms < nb * 1000;
    }
}

} // verus!
