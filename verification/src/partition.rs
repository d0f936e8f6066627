//! Partitions and their stable total order.
//!
//! A collection is backed by a variable set of journals; the foreign protocol
//! expects a fixed, ordered list of partitions whose indices never move. That
//! stability is synthesized by sorting the enumerated journals by
//! `(create_revision, name)` ascending, with the name comparison lexicographic
//! by character. The order depends only on which journals exist, never on the
//! order the metadata store happens to return them in.

use vstd::prelude::*;
use crate::errors::TopologyError;

verus! {

/// A journal's own specification: its name and addressing metadata.
#[derive(Clone, Debug)]
pub struct JournalSpec {
    pub name: String,
}

/// Routing table of a journal at enumeration time. Retained only for
/// potential future use; never part of an external contract.
#[derive(Clone, Debug)]
pub struct Route {
    pub primary: i64,
    pub members: Vec<String>,
}

/// One entry of a journal listing as the log broker returns it. The broker
/// may omit the specification or the routing table; their absence is a
/// data-integrity error.
#[derive(Debug)]
pub struct Journal {
    pub create_revision: i64,
    pub mod_revision: i64,
    pub spec: Option<JournalSpec>,
    pub route: Option<Route>,
}

/// Partition is a collection journal which is mapped into a stable externally
/// visible partition order.
#[derive(Debug)]
pub struct Partition {
    pub create_revision: i64,
    pub spec: JournalSpec,
    pub _mod_revision: i64,
    pub _route: Route,
}

/// Lexicographic order on character sequences: the shorter of two sequences
/// with a common prefix comes first; otherwise the first differing character
/// decides.
pub open spec fn lex_le(a: Seq<char>, b: Seq<char>) -> bool
    decreases a.len(),
{
    if a.len() == 0 {
        true
    } else if b.len() == 0 {
        false
    } else if a[0] != b[0] {
        (a[0] as u32) < (b[0] as u32)
    } else {
        lex_le(a.skip(1), b.skip(1))
    }
}

/// Distinct characters have distinct code points.
proof fn lemma_char_cast_distinct(x: char, y: char)
    requires
        x != y,
    ensures
        (x as u32) != (y as u32),
{
}

pub proof fn lemma_lex_le_total(a: Seq<char>, b: Seq<char>)
    ensures
        lex_le(a, b) || lex_le(b, a),
    decreases a.len(),
{
    if a.len() > 0 && b.len() > 0 {
        if a[0] == b[0] {
            lemma_lex_le_total(a.skip(1), b.skip(1));
        } else {
            lemma_char_cast_distinct(a[0], b[0]);
        }
    }
}

pub proof fn lemma_lex_le_antisym(a: Seq<char>, b: Seq<char>)
    requires
        lex_le(a, b),
        lex_le(b, a),
    ensures
        a == b,
    decreases a.len(),
{
    if a.len() == 0 {
        assert(b.len() == 0);
        assert(a =~= b);
    } else {
        assert(b.len() > 0);
        assert(a[0] == b[0]);
        lemma_lex_le_antisym(a.skip(1), b.skip(1));
        assert forall|i: int| 0 <= i < a.len() implies a[i] == b[i] by {
            if i > 0 {
                assert(a.skip(1)[i - 1] == b.skip(1)[i - 1]);
            }
        }
        assert(a =~= b);
    }
}

pub proof fn lemma_lex_le_trans(a: Seq<char>, b: Seq<char>, c: Seq<char>)
    requires
        lex_le(a, b),
        lex_le(b, c),
    ensures
        lex_le(a, c),
    decreases a.len(),
{
    if a.len() > 0 {
        assert(b.len() > 0);
        assert(c.len() > 0);
        if a[0] == b[0] && b[0] == c[0] {
            lemma_lex_le_trans(a.skip(1), b.skip(1), c.skip(1));
        }
    }
}

/// `lex_le` restricted to a common prefix: if the first `i` characters agree,
/// the order is decided by the remainders.
pub proof fn lemma_lex_le_skip(a: Seq<char>, b: Seq<char>, i: int)
    requires
        0 <= i <= a.len(),
        i <= b.len(),
        forall|j: int| 0 <= j < i ==> a[j] == b[j],
    ensures
        lex_le(a, b) == lex_le(a.skip(i), b.skip(i)),
    decreases i,
{
    if i > 0 {
        assert(a[0] == b[0]);
        assert(a.len() > 0 && b.len() > 0);
        assert(lex_le(a, b) == lex_le(a.skip(1), b.skip(1)));
        assert forall|j: int| 0 <= j < i - 1 implies a.skip(1)[j] == b.skip(1)[j] by {
            assert(a[j + 1] == b[j + 1]);
        }
        lemma_lex_le_skip(a.skip(1), b.skip(1), i - 1);
        assert(a.skip(1).skip(i - 1) =~= a.skip(i));
        assert(b.skip(1).skip(i - 1) =~= b.skip(i));
    } else {
        assert(a.skip(0) == a);
        assert(b.skip(0) == b);
    }
}

/// Decide `lex_le` on two strings by walking their characters.
pub fn str_lex_le(a: &str, b: &str) -> (r: bool)
    ensures
        r == lex_le(a@, b@),
{
    let a_len = a.unicode_len();
    let b_len = b.unicode_len();
    let min: usize = if a_len < b_len {
        a_len
    } else {
        b_len
    };
    let mut i: usize = 0;
    while i < min
        invariant
            0 <= i <= min,
            min <= a@.len(),
            min <= b@.len(),
            min == a@.len() || min == b@.len(),
            a_len == a@.len(),
            b_len == b@.len(),
            forall|j: int| 0 <= j < i ==> a@[j] == b@[j],
        decreases min - i,
    {
        let ca = a.get_char(i);
        let cb = b.get_char(i);
        if ca != cb {
            proof {
                lemma_lex_le_skip(a@, b@, i as int);
            }
            return (ca as u32) < (cb as u32);
        }
        i += 1;
    }
    proof {
        lemma_lex_le_skip(a@, b@, min as int);
    }
    a_len <= b_len
}

/// The stable total order on partitions: ascending by creation revision,
/// ties broken lexicographically by journal name.
pub open spec fn partition_le(a: Partition, b: Partition) -> bool {
    a.create_revision < b.create_revision || (a.create_revision == b.create_revision && lex_le(
        a.spec.name@,
        b.spec.name@,
    ))
}

/// Two partitions carry the same ordering key.
pub open spec fn same_key(a: Partition, b: Partition) -> bool {
    a.create_revision == b.create_revision && a.spec.name@ == b.spec.name@
}

pub proof fn lemma_partition_le_total(a: Partition, b: Partition)
    ensures
        partition_le(a, b) || partition_le(b, a),
{
    lemma_lex_le_total(a.spec.name@, b.spec.name@);
}

pub proof fn lemma_partition_le_antisym(a: Partition, b: Partition)
    requires
        partition_le(a, b),
        partition_le(b, a),
    ensures
        same_key(a, b),
{
    lemma_lex_le_antisym(a.spec.name@, b.spec.name@);
}

pub proof fn lemma_partition_le_trans(a: Partition, b: Partition, c: Partition)
    requires
        partition_le(a, b),
        partition_le(b, c),
    ensures
        partition_le(a, c),
{
    if a.create_revision == b.create_revision && b.create_revision == c.create_revision {
        lemma_lex_le_trans(a.spec.name@, b.spec.name@, c.spec.name@);
    }
}

/// The sequence is in the stable partition order.
pub open spec fn partitions_sorted(s: Seq<Partition>) -> bool {
    forall|i: int, j: int| 0 <= i < j < s.len() ==> partition_le(s[i], s[j])
}

/// No two entries carry the same `(create_revision, name)` key.
pub open spec fn distinct_keys(s: Seq<Partition>) -> bool {
    forall|i: int, j: int| 0 <= i < j < s.len() ==> !same_key(s[i], s[j])
}

/// Decide the stable order on two partitions.
pub fn partition_le_exec(a: &Partition, b: &Partition) -> (r: bool)
    ensures
        r == partition_le(*a, *b),
{
    if a.create_revision != b.create_revision {
        a.create_revision < b.create_revision
    } else {
        str_lex_le(a.spec.name.as_str(), b.spec.name.as_str())
    }
}

/// The position in an already sorted vector at which `x` belongs: every
/// earlier element is at or below `x`, every later one at or above it.
fn insertion_point(out: &Vec<Partition>, x: &Partition) -> (pos: usize)
    requires
        partitions_sorted(out@),
    ensures
        pos <= out@.len(),
        forall|j: int| 0 <= j < pos ==> partition_le(out@[j], *x),
        forall|j: int| pos <= j < out@.len() ==> partition_le(*x, out@[j]),
{
    let mut pos: usize = 0;
    while pos < out.len()
        invariant
            pos <= out@.len(),
            partitions_sorted(out@),
            forall|j: int| 0 <= j < pos ==> partition_le(out@[j], *x),
        decreases out@.len() - pos,
    {
        if !partition_le_exec(&out[pos], x) {
            proof {
                lemma_partition_le_total(out@[pos as int], *x);
                assert forall|j: int| pos <= j < out@.len() implies partition_le(*x, out@[j]) by {
                    if j > pos {
                        lemma_partition_le_trans(*x, out@[pos as int], out@[j]);
                    }
                }
            }
            return pos;
        }
        pos += 1;
    }
    pos
}

/// Sort partitions into the stable order. The result is a permutation of the
/// input; which permutation depends only on the input's contents, not on
/// their arrival order.
pub fn sort_partitions(v: Vec<Partition>) -> (r: Vec<Partition>)
    ensures
        partitions_sorted(r@),
        r@.to_multiset() == v@.to_multiset(),
{
    broadcast use vstd::seq_lib::group_to_multiset_ensures;
    broadcast use vstd::multiset::group_multiset_axioms;

    let mut rest = v;
    let mut out: Vec<Partition> = Vec::new();
    proof {
        assert(out@.to_multiset().add(rest@.to_multiset()) =~= v@.to_multiset());
    }
    while rest.len() > 0
        invariant
            partitions_sorted(out@),
            out@.to_multiset().add(rest@.to_multiset()) == v@.to_multiset(),
        decreases rest@.len(),
    {
        let ghost out0 = out@;
        let ghost rest0 = rest@;
        let x = rest.remove(0);
        let pos = insertion_point(&out, &x);
        out.insert(pos, x);
        proof {
            assert(rest@ == rest0.remove(0));
            vstd::seq_lib::to_multiset_remove(rest0, 0);
            assert(rest0.contains(rest0[0]));
            vstd::seq_lib::to_multiset_contains(rest0, rest0[0]);
            assert(rest0.to_multiset().count(rest0[0]) > 0);
            assert(out@ == out0.insert(pos as int, x));
            vstd::seq_lib::to_multiset_insert(out0, pos as int, x);
            assert(out@.to_multiset().add(rest@.to_multiset()) =~= v@.to_multiset());
            out0.insert_ensures(pos as int, x);
            assert forall|i: int, j: int| 0 <= i < j < out@.len() implies partition_le(
                out@[i],
                out@[j],
            ) by {
                if j < pos {
                    assert(out@[i] == out0[i] && out@[j] == out0[j]);
                } else if j == pos {
                    assert(out@[i] == out0[i] && out@[j] == x);
                } else if i < pos {
                    assert(out@[i] == out0[i] && out@[j] == out0[j - 1]);
                    lemma_partition_le_trans(out0[i], x, out0[j - 1]);
                } else if i == pos {
                    assert(out@[i] == x && out@[j] == out0[j - 1]);
                } else {
                    assert(out@[i] == out0[i - 1] && out@[j] == out0[j - 1]);
                }
            }
        }
    }
    proof {
        assert(rest@.to_multiset().len() == 0);
        assert(out@.to_multiset() =~= v@.to_multiset());
    }
    out
}

/// A listed journal is usable only when it carries both a specification and a
/// routing table.
pub open spec fn journal_wf(j: Journal) -> bool {
    j.spec is Some && j.route is Some
}

/// The error reported for a journal missing its specification or its routing
/// table; a missing specification is reported first.
pub open spec fn spec_journal_error(j: Journal) -> TopologyError {
    if j.spec is None {
        TopologyError::MissingJournalSpec
    } else {
        TopologyError::MissingJournalRoute
    }
}

/// The partition a well-formed journal maps to.
pub open spec fn spec_partition_of(j: Journal) -> Partition
    recommends
        journal_wf(j),
{
    Partition {
        create_revision: j.create_revision,
        spec: j.spec->Some_0,
        _mod_revision: j.mod_revision,
        _route: j.route->Some_0,
    }
}

/// Map the journals of a collection into stable-order partitions.
///
/// Every journal must carry a specification and a routing table; the first
/// one that does not yields a data-integrity error. The result is the
/// journals' partitions sorted into the stable `(create_revision, name)`
/// order. An empty listing yields an empty sequence, not an error.
pub fn fetch_partitions(journals: Vec<Journal>) -> (r: Result<Vec<Partition>, TopologyError>)
    ensures
        (r is Ok) <==> (forall|i: int| 0 <= i < journals@.len() ==> journal_wf(journals@[i])),
        r matches Ok(parts) ==> {
            &&& partitions_sorted(parts@)
            &&& parts@.to_multiset() == journals@.map_values(|j: Journal| spec_partition_of(j)).to_multiset()
        },
        r matches Err(e) ==> exists|i: int|
            {
                &&& 0 <= i < journals@.len()
                &&& !journal_wf(#[trigger] journals@[i])
                &&& forall|k: int| 0 <= k < i ==> journal_wf(journals@[k])
                &&& e == spec_journal_error(journals@[i])
            },
{
    broadcast use vstd::seq_lib::group_to_multiset_ensures;

    let ghost mapped = journals@.map_values(|j: Journal| spec_partition_of(j));
    let mut rest = journals;
    let mut parts: Vec<Partition> = Vec::new();
    let ghost n = rest@.len();
    while rest.len() > 0
        invariant
            n == journals@.len(),
            parts@.len() + rest@.len() == n,
            rest@ == journals@.skip(parts@.len() as int),
            forall|k: int| 0 <= k < parts@.len() ==> journal_wf(journals@[k]),
            parts@ == mapped.take(parts@.len() as int),
            mapped == journals@.map_values(|j: Journal| spec_partition_of(j)),
        decreases rest@.len(),
    {
        let ghost done = parts@.len() as int;
        let ghost rest0 = rest@;
        let j = rest.remove(0);
        proof {
            assert(j == journals@[done]);
            assert(rest@ =~= journals@.skip(done + 1));
        }
        match (j.spec, j.route) {
            (Some(spec), Some(route)) => {
                let p = Partition {
                    create_revision: j.create_revision,
                    spec,
                    _mod_revision: j.mod_revision,
                    _route: route,
                };
                proof {
                    assert(p == spec_partition_of(journals@[done]));
                    assert(parts@.push(p) =~= mapped.take(done + 1));
                }
                parts.push(p);
            },
            (spec_opt, route_opt) => {
                let e = if spec_opt.is_none() {
                    TopologyError::MissingJournalSpec
                } else {
                    TopologyError::MissingJournalRoute
                };
                proof {
                    let bad = Journal {
                        create_revision: j.create_revision,
                        mod_revision: j.mod_revision,
                        spec: spec_opt,
                        route: route_opt,
                    };
                    assert(bad == journals@[done]);
                    assert(!journal_wf(journals@[done]));
                    assert(e == spec_journal_error(journals@[done]));
                }
                return Err(e);
            },
        }
    }
    proof {
        assert(parts@ =~= mapped);
    }
    Ok(sort_partitions(parts))
}

/// Determinism of the partition order: two sorted sequences holding the same
/// partitions are identical, provided no two partitions share an ordering
/// key. Enumeration order therefore never influences the indices assigned.
pub proof fn lemma_partition_order_deterministic(a: Seq<Partition>, b: Seq<Partition>)
    requires
        partitions_sorted(a),
        partitions_sorted(b),
        distinct_keys(a),
        a.to_multiset() == b.to_multiset(),
    ensures
        a == b,
    decreases a.len(),
{
    broadcast use vstd::seq_lib::group_to_multiset_ensures;
    broadcast use vstd::multiset::group_multiset_axioms;

    vstd::seq_lib::to_multiset_len(a);
    vstd::seq_lib::to_multiset_len(b);
    if a.len() == 0 {
        assert(b.len() == 0);
        assert(a =~= b);
    } else {
        assert(b.len() > 0);
        // Each first element occurs in the other sequence.
        assert(b.contains(b[0]));
        assert(b.to_multiset().count(b[0]) > 0);
        assert(a.to_multiset().count(b[0]) > 0);
        assert(a.contains(b[0]));
        let i = choose|i: int| 0 <= i < a.len() && a[i] == b[0];
        assert(a.contains(a[0]));
        assert(a.to_multiset().count(a[0]) > 0);
        assert(b.to_multiset().count(a[0]) > 0);
        assert(b.contains(a[0]));
        let k = choose|k: int| 0 <= k < b.len() && b[k] == a[0];
        // The two firsts are mutually at-or-below, hence share a key.
        if i > 0 {
            assert(partition_le(a[0], a[i]));
        }
        if k > 0 {
            assert(partition_le(b[0], b[k]));
        }
        lemma_partition_le_total(a[0], b[0]);
        lemma_partition_le_antisym(a[0], b[0]);
        assert(same_key(a[0], b[0]));
        // With keys distinct in `a`, the firsts are the same value.
        if a[0] != b[0] {
            assert(i != 0);
            assert(same_key(a[0], a[i]));
            assert(false);
        }
        // Drop the firsts and recurse.
        let a1 = a.drop_first();
        let b1 = b.drop_first();
        assert(a1 =~= a.remove(0));
        assert(b1 =~= b.remove(0));
        vstd::seq_lib::to_multiset_remove(a, 0);
        vstd::seq_lib::to_multiset_remove(b, 0);
        assert(a1.to_multiset() == a.to_multiset().remove(a[0]));
        assert(b1.to_multiset() == b.to_multiset().remove(b[0]));
        assert(forall|x: int, y: int|
            0 <= x < y < a1.len() ==> partition_le(#[trigger] a1[x], #[trigger] a1[y]));
        assert(forall|x: int, y: int|
            0 <= x < y < b1.len() ==> partition_le(#[trigger] b1[x], #[trigger] b1[y]));
        assert(forall|x: int, y: int|
            0 <= x < y < a1.len() ==> !same_key(#[trigger] a1[x], #[trigger] a1[y]));
        lemma_partition_order_deterministic(a1, b1);
        assert forall|m: int| 0 <= m < a.len() implies a[m] == b[m] by {
            if m > 0 {
                assert(a1[m - 1] == b1[m - 1]);
            }
        }
        assert(a =~= b);
    }
}

/// Index stability under growth: appending a partition whose creation
/// revision exceeds every existing one extends a sorted sequence in place —
/// the old indices keep their partitions and the newcomer takes the last
/// index.
pub proof fn lemma_index_stability_under_growth(p: Seq<Partition>, n: Partition)
    requires
        partitions_sorted(p),
        forall|i: int| 0 <= i < p.len() ==> (#[trigger] p[i]).create_revision < n.create_revision,
    ensures
        partitions_sorted(p.push(n)),
        p.push(n).take(p.len() as int) == p,
        p.push(n)[p.len() as int] == n,
{
    assert(p.push(n).take(p.len() as int) =~= p);
}

/// Index stability at the sort itself: however the grown journal set is
/// enumerated, sorting it reproduces the old assignment with the newcomer —
/// its creation revision above every existing one — appended at the end.
pub proof fn lemma_growth_keeps_assignment(p: Seq<Partition>, n: Partition, b: Seq<Partition>)
    requires
        partitions_sorted(p),
        distinct_keys(p),
        forall|i: int| 0 <= i < p.len() ==> (#[trigger] p[i]).create_revision < n.create_revision,
        partitions_sorted(b),
        b.to_multiset() == p.push(n).to_multiset(),
    ensures
        b == p.push(n),
{
    lemma_index_stability_under_growth(p, n);
    let g = p.push(n);
    assert forall|i: int, j: int| 0 <= i < j < g.len() implies !same_key(g[i], g[j]) by {
        if j == g.len() - 1 {
            assert(g[i] == p[i] && g[j] == n);
        } else {
            assert(g[i] == p[i] && g[j] == p[j]);
        }
    }
    lemma_partition_order_deterministic(g, b);
}

} // verus!
