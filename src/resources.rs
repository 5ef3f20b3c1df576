//! Identifier lists of database instances, clusters and cluster snapshots,
//! shaped from the records that the database service returns.

use vstd::prelude::*;
use crate::ResolveError;
use crate::keys::{all_present, unwrap_ids, id_views};

verus! {

/// A database instance as the service lists it.
#[derive(Debug, Clone, PartialEq, Eq)]
pub struct InstanceRecord {
    pub instance_id: Option<String>,
    /// The cluster the instance belongs to, if any.
    pub cluster_id: Option<String>,
}

/// A cluster snapshot as the service lists it; the creation time is in
/// seconds since the Unix epoch.
#[derive(Debug, Clone, PartialEq, Eq)]
pub struct SnapshotRecord {
    pub snapshot_id: Option<String>,
    pub created_at: Option<i64>,
}

pub open spec fn is_standalone(r: InstanceRecord) -> bool {
    r.cluster_id is None
}

/// Every instance that belongs to no cluster has an id.
pub open spec fn standalone_named(recs: Seq<InstanceRecord>) -> bool {
    forall|i: int|
        0 <= i < recs.len() && is_standalone(#[trigger] recs[i]) ==> recs[i].instance_id is Some
}

/// The ids of the instances that belong to no cluster, in the order listed.
pub open spec fn standalone_ids(recs: Seq<InstanceRecord>) -> Seq<Seq<char>>
    decreases recs.len(),
{
    if recs.len() == 0 {
        seq![]
    } else {
        let rest = standalone_ids(recs.drop_last());
        if is_standalone(recs.last()) {
            rest.push(recs.last().instance_id->0@)
        } else {
            rest
        }
    }
}

/// The ids of the instances that belong to no cluster: an instance that is a
/// cluster member is reached through its cluster. Fails when such an
/// instance has no id.
pub fn standalone_instances(records: Vec<InstanceRecord>) -> (r: Result<Vec<String>, ResolveError>)
    ensures
        r is Err <==> !standalone_named(records@),
        r is Err ==> r->Err_0 == ResolveError::MalformedRecord,
        r is Ok ==> id_views(r->Ok_0@) == standalone_ids(records@),
{
    let mut out: Vec<String> = Vec::new();
    let mut i: usize = 0;
    while i < records.len()
        invariant
            i <= records@.len(),
            standalone_named(records@.subrange(0, i as int)),
            id_views(out@) == standalone_ids(records@.subrange(0, i as int)),
        decreases records@.len() - i,
    {
        let rec = &records[i];
        assert(records@.subrange(0, i as int) =~= records@.subrange(0, i + 1).drop_last());
        assert(records@.subrange(0, i + 1).last() == records@[i as int]);
        if rec.cluster_id.is_none() {
            match &rec.instance_id {
                Some(id) => {
                    let ghost before = out@;
                    out.push(id.clone());
                    assert(id_views(out@) =~= id_views(before).push(id@));
                },
                None => {
                    assert(!standalone_named(records@)) by {
                        assert(records@[i as int] == rec);
                    }
                    return Err(ResolveError::MalformedRecord);
                },
            }
        }
        assert(standalone_named(records@.subrange(0, i + 1))) by {
            assert forall|k: int|
                0 <= k < i + 1 && is_standalone(#[trigger] records@.subrange(0, i + 1)[k])
                implies records@.subrange(0, i + 1)[k].instance_id is Some by {
                if k < i {
                    assert(records@.subrange(0, i + 1)[k] == records@.subrange(0, i as int)[k]);
                }
            }
        }
        i = i + 1;
    }
    assert(records@.subrange(0, records@.len() as int) =~= records@);
    Ok(out)
}

/// The ids of the clusters, as listed. Fails when one has no id.
pub fn cluster_ids(records: Vec<Option<String>>) -> (r: Result<Vec<String>, ResolveError>)
    ensures
        r is Err <==> !all_present(records@),
        r is Err ==> r->Err_0 == ResolveError::MalformedRecord,
        r is Ok ==> r->Ok_0@ == unwrap_ids(records@),
{
    let mut out: Vec<String> = Vec::new();
    let mut i: usize = 0;
    while i < records.len()
        invariant
            i <= records@.len(),
            forall|k: int| 0 <= k < i ==> (#[trigger] records@[k]) is Some,
            out@ == unwrap_ids(records@.subrange(0, i as int)),
        decreases records@.len() - i,
    {
        match &records[i] {
            Some(id) => {
                out.push(id.clone());
                assert(unwrap_ids(records@.subrange(0, i + 1)) =~= unwrap_ids(
                    records@.subrange(0, i as int),
                ).push(*id));
            },
            None => {
                return Err(ResolveError::MalformedRecord);
            },
        }
        i = i + 1;
    }
    assert(records@.subrange(0, records@.len() as int) =~= records@);
    Ok(out)
}

/// The text of a UTC time, `YYYY-MM-DD HH:MM:SS`, for a count of seconds
/// since the Unix epoch.
pub uninterp spec fn utc_timestamp_text(secs: int) -> Seq<char>;

/// From the start of year 0 to the end of year 9999.
pub open spec fn in_calendar_range(secs: int) -> bool {
    -62167219200 <= secs <= 253402300799
}

/// Relies on chrono's `DateTime::from_timestamp`, which gives `None` only
/// for counts out of its range (far wider than years 0 to 9999), and on its
/// `format("%Y-%m-%d %H:%M:%S")`, whose text holds only digits, a sign,
/// dashes, colons and a space.
#[verifier::external_body]
fn format_utc(secs: i64) -> (r: Option<String>)
    ensures
        r is Some ==> r->0@ == utc_timestamp_text(secs as int),
        r is Some ==> !r->0@.contains('|'),
        in_calendar_range(secs as int) ==> r is Some,
{
    match chrono::DateTime::from_timestamp(secs, 0) {
        Some(t) => Some(t.format("%Y-%m-%d %H:%M:%S").to_string()),
        None => None,
    }
}

/// A snapshot as offered for choice: its id, the separator, its creation time.
pub open spec fn descriptor(id: Seq<char>, timestamp: Seq<char>) -> Seq<char> {
    id + seq!['|'] + timestamp
}

/// Joins a snapshot id and the text of its creation time.
pub fn join_descriptor(id: &String, timestamp: &String) -> (r: String)
    ensures
        r@ == descriptor(id@, timestamp@),
{
    let sep = "|";
    proof {
        reveal_strlit("|");
    }
    let mut r = id.clone();
    r.append(sep);
    r.append(timestamp.as_str());
    r
}

/// The descriptor of the snapshot `id` created at `created_at` seconds since
/// the Unix epoch; `None` where the time cannot be shown.
pub fn snapshot_descriptor(id: &String, created_at: i64) -> (r: Option<String>)
    ensures
        r is Some ==> r->0@ == descriptor(id@, utc_timestamp_text(created_at as int)),
        in_calendar_range(created_at as int) ==> r is Some,
{
    match format_utc(created_at) {
        Some(t) => Some(join_descriptor(id, &t)),
        None => None,
    }
}

/// The snapshot has both an id and a creation time.
pub open spec fn complete(r: SnapshotRecord) -> bool {
    r.snapshot_id is Some && r.created_at is Some
}

pub open spec fn descriptor_of(r: SnapshotRecord) -> Seq<char> {
    descriptor(r.snapshot_id->0@, utc_timestamp_text(r.created_at->0 as int))
}

/// One descriptor for each snapshot, in the order listed. Fails when a
/// snapshot lacks its id or creation time, or the time cannot be shown.
pub fn snapshot_descriptors(records: Vec<SnapshotRecord>) -> (r: Result<Vec<String>, ResolveError>)
    ensures
        (exists|i: int| 0 <= i < records@.len() && !complete(#[trigger] records@[i])) ==> r is Err,
        (forall|i: int|
            0 <= i < records@.len() ==> complete(#[trigger] records@[i]) && in_calendar_range(
                records@[i].created_at->0 as int,
            )) ==> r is Ok,
        r is Err ==> r->Err_0 == ResolveError::MalformedRecord,
        r is Ok ==> {
            &&& r->Ok_0@.len() == records@.len()
            &&& forall|i: int|
                0 <= i < records@.len() ==> (#[trigger] r->Ok_0@[i])@ == descriptor_of(records@[i])
        },
{
    let mut out: Vec<String> = Vec::new();
    let mut i: usize = 0;
    while i < records.len()
        invariant
            i <= records@.len(),
            out@.len() == i,
            forall|k: int| 0 <= k < i ==> complete(#[trigger] records@[k]),
            forall|k: int| 0 <= k < i ==> (#[trigger] out@[k])@ == descriptor_of(records@[k]),
        decreases records@.len() - i,
    {
        let rec = &records[i];
        let d = match (&rec.snapshot_id, rec.created_at) {
            (Some(id), Some(t)) => snapshot_descriptor(id, t),
            _ => {
                return Err(ResolveError::MalformedRecord);
            },
        };
        match d {
            Some(d) => out.push(d),
            None => {
                return Err(ResolveError::MalformedRecord);
            },
        }
        i = i + 1;
    }
    Ok(out)
}

/// Splits a descriptor at its first separator into the snapshot id and the
/// text of the time; `None` where it holds no separator.
pub fn split_descriptor(d: &String) -> (r: Option<(String, String)>)
    ensures
        r is None <==> !d@.contains('|'),
        r is Some ==> {
            let parts = r->0;
            &&& d@ == descriptor(parts.0@, parts.1@)
            &&& !parts.0@.contains('|')
        },
{
    let s = d.as_str();
    let n = s.unicode_len();
    let mut k: usize = 0;
    while k < n
        invariant
            k <= n,
            n == d@.len(),
            s@ == d@,
            forall|j: int| 0 <= j < k ==> d@[j] != '|',
        decreases n - k,
    {
        if s.get_char(k) == '|' {
            let id = String::from_str(s.substring_char(0, k));
            let rest = String::from_str(s.substring_char(k + 1, n));
            assert(d@ =~= descriptor(id@, rest@));
            assert(!id@.contains('|')) by {
                if id@.contains('|') {
                    let j = choose|j: int| 0 <= j < id@.len() && id@[j] == '|';
                    assert(d@[j] == '|');
                }
            }
            return Some((id, rest));
        }
        k = k + 1;
    }
    assert(!d@.contains('|')) by {
        if d@.contains('|') {
            let j = choose|j: int| 0 <= j < d@.len() && d@[j] == '|';
        }
    }
    None
}

/// Splitting a descriptor at its first separator gives back the snapshot id
/// and the time it was made from, where the id holds no separator.
pub proof fn lemma_descriptor_round_trip(id: Seq<char>, timestamp: Seq<char>, head: Seq<char>, tail: Seq<char>)
    requires
        !id.contains('|'),
        !head.contains('|'),
        descriptor(head, tail) == descriptor(id, timestamp),
    ensures
        head == id,
        tail == timestamp,
{
    let d = descriptor(id, timestamp);
    assert(d[id.len() as int] == '|');
    assert(d[head.len() as int] == '|');
    if head.len() < id.len() {
        assert(id[head.len() as int] == d[head.len() as int]);
    } else if id.len() < head.len() {
        assert(head[id.len() as int] == d[id.len() as int]);
    }
    assert(head =~= d.subrange(0, id.len() as int));
    assert(id =~= d.subrange(0, id.len() as int));
    assert(tail =~= d.subrange(id.len() as int + 1, d.len() as int));
    assert(timestamp =~= d.subrange(id.len() as int + 1, d.len() as int));
}

/// An attribute of a snapshot as the service lists it: a name, such as the
/// one for restoring, and its values, such as the accounts allowed.
#[derive(Debug, Clone, PartialEq, Eq)]
pub struct AttributeRecord {
    pub name: Option<String>,
    pub values: Option<Vec<String>>,
}

/// An attribute name with its values.
#[derive(Debug, Clone, PartialEq, Eq)]
pub struct Attribute {
    pub name: String,
    pub values: Vec<String>,
}

pub open spec fn attribute_views(attrs: Seq<Attribute>) -> Seq<(Seq<char>, Seq<Seq<char>>)> {
    attrs.map_values(|a: Attribute| (a.name@, id_views(a.values@)))
}

pub open spec fn attribute_complete(r: AttributeRecord) -> bool {
    r.name is Some && r.values is Some
}

/// One entry per attribute name, in the order names first appear, each with
/// the values of the last record of that name.
pub open spec fn attribute_list(recs: Seq<AttributeRecord>) -> Seq<(Seq<char>, Seq<Seq<char>>)>
    decreases recs.len(),
{
    if recs.len() == 0 {
        seq![]
    } else {
        let prev = attribute_list(recs.drop_last());
        let n = recs.last().name->0@;
        let entry = (n, id_views(recs.last().values->0@));
        if exists|m: int| 0 <= m < prev.len() && (#[trigger] prev[m]).0 == n {
            prev.update(choose|m: int| 0 <= m < prev.len() && (#[trigger] prev[m]).0 == n, entry)
        } else {
            prev.push(entry)
        }
    }
}

fn copy_strings(v: &Vec<String>) -> (r: Vec<String>)
    ensures
        id_views(r@) == id_views(v@),
{
    let mut out: Vec<String> = Vec::new();
    let mut i: usize = 0;
    while i < v.len()
        invariant
            i <= v@.len(),
            out@.len() == i,
            forall|k: int| 0 <= k < i ==> (#[trigger] out@[k])@ == v@[k]@,
        decreases v@.len() - i,
    {
        out.push(v[i].clone());
        i = i + 1;
    }
    assert(id_views(out@) =~= id_views(v@));
    out
}

/// The attributes of a snapshot as a mapping from name to values: one entry
/// per name, where a later record of a name replaces an earlier one. Fails
/// when a record lacks its name or its values.
pub fn snapshot_attributes(records: Vec<AttributeRecord>) -> (r: Result<Vec<Attribute>, ResolveError>)
    ensures
        r is Err <==> exists|i: int| 0 <= i < records@.len() && !attribute_complete(#[trigger] records@[i]),
        r is Err ==> r->Err_0 == ResolveError::MalformedRecord,
        r is Ok ==> attribute_views(r->Ok_0@) == attribute_list(records@),
        r is Ok ==> forall|m: int, n: int|
            0 <= m < n < r->Ok_0@.len() ==> r->Ok_0@[m].name@ != r->Ok_0@[n].name@,
{
    let mut out: Vec<Attribute> = Vec::new();
    let mut i: usize = 0;
    while i < records.len()
        invariant
            i <= records@.len(),
            forall|k: int| 0 <= k < i ==> attribute_complete(#[trigger] records@[k]),
            attribute_views(out@) == attribute_list(records@.subrange(0, i as int)),
            forall|m: int, n: int| 0 <= m < n < out@.len() ==> out@[m].name@ != out@[n].name@,
        decreases records@.len() - i,
    {
        let rec = &records[i];
        let (name, values) = match (&rec.name, &rec.values) {
            (Some(n), Some(v)) => (n, v),
            _ => {
                return Err(ResolveError::MalformedRecord);
            },
        };
        let ghost pre = records@.subrange(0, i as int);
        let ghost post = records@.subrange(0, i + 1);
        assert(pre =~= post.drop_last());
        assert(post.last() == records@[i as int]);
        let ghost prev = attribute_list(pre);
        let ghost before = out@;
        let entry = Attribute { name: name.clone(), values: copy_strings(values) };
        let mut m: usize = 0;
        while m < out.len()
            invariant
                m <= out@.len(),
                out@ == before,
                forall|k: int| 0 <= k < m ==> (#[trigger] out@[k]).name@ != name@,
            ensures
                m <= out@.len(),
                out@ == before,
                forall|k: int| 0 <= k < m ==> (#[trigger] out@[k]).name@ != name@,
                m < out@.len() ==> out@[m as int].name@ == name@,
            decreases out@.len() - m,
        {
            if out[m].name.eq(name) {
                break;
            }
            m = m + 1;
        }
        if m < out.len() {
            out[m] = entry;
            proof {
                assert(prev[m as int].0 == name@);
                let c = choose|c: int| 0 <= c < prev.len() && (#[trigger] prev[c]).0 == name@;
                assert(before[c].name@ == name@);
                assert(attribute_views(out@) =~= prev.update(m as int, (name@, id_views(values@))));
            }
        } else {
            out.push(entry);
            proof {
                assert(!exists|c: int| 0 <= c < prev.len() && (#[trigger] prev[c]).0 == name@) by {
                    if exists|c: int| 0 <= c < prev.len() && (#[trigger] prev[c]).0 == name@ {
                        let c = choose|c: int| 0 <= c < prev.len() && (#[trigger] prev[c]).0 == name@;
                        assert(before[c].name@ == name@);
                    }
                }
                assert(attribute_views(out@) =~= prev.push((name@, id_views(values@))));
                assert forall|p: int, q: int| 0 <= p < q < out@.len() implies out@[p].name@
                    != out@[q].name@ by {
                    assert(out@[p] == before[p]);
                    if q < before.len() {
                        assert(out@[q] == before[q]);
                    }
                }
            }
        }
        i = i + 1;
    }
    assert(records@.subrange(0, records@.len() as int) =~= records@);
    Ok(out)
}

} // verus!
