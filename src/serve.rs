use crate::config::{Config, RecordV, Zone, ZoneV};
use crate::lb::LB;
use crate::record_type::RecordTypeV;
use crate::dns_name::DNSName;
use crate::config::Peer;
use crate::record_type::{
    ns_sets, record_sets, sets_view, soa_fits, soa_sets, RecordSet, RecordSetV, RrType, ToRecord,
};
use vstd::prelude::*;

verus! {

/// Two record-sets share a key when they have the same owner and type.
pub open spec fn same_key(a: RecordSetV, b: RecordSetV) -> bool {
    a.name@ == b.name@ && a.rr_type == b.rr_type
}

pub open spec fn keys_unique(s: Seq<RecordSetV>) -> bool {
    forall|i: int, j: int| 0 <= i < j < s.len() ==> !same_key(#[trigger] s[i], #[trigger] s[j])
}

/// `acc` with `s` merged in: appended to the record-set of the same key if
/// there is one, else added after the others.
pub open spec fn merge_into(acc: Seq<RecordSetV>, s: RecordSetV) -> Seq<RecordSetV> {
    if exists|i: int| 0 <= i < acc.len() && same_key(#[trigger] acc[i], s) {
        let i = choose|i: int| 0 <= i < acc.len() && same_key(#[trigger] acc[i], s);
        acc.update(i, RecordSetV { rdata: acc[i].rdata + s.rdata, ..acc[i] })
    } else {
        acc.push(s)
    }
}

/// `acc` with each of `s` merged in, in order.
pub open spec fn merge_all(acc: Seq<RecordSetV>, s: Seq<RecordSetV>) -> Seq<RecordSetV>
    decreases s.len(),
{
    if s.len() == 0 {
        acc
    } else {
        merge_into(merge_all(acc, s.drop_last()), s.last())
    }
}

/// The record-sets of `s` with those of one key merged into one.
pub open spec fn merge_sets(s: Seq<RecordSetV>) -> Seq<RecordSetV> {
    merge_all(Seq::empty(), s)
}

/// What the records publish, record after record.
pub open spec fn records_sets(
    records: Seq<RecordV>,
    peers: Seq<Peer>,
    me: Seq<char>,
    serial: u32,
) -> Seq<RecordSetV>
    decreases records.len(),
{
    if records.len() == 0 {
        Seq::empty()
    } else {
        records_sets(records.drop_last(), peers, me, serial) + record_sets(
            records.last().record,
            peers,
            me,
            records.last().name,
            serial,
        )
    }
}

/// What a zone with apex `name` publishes, before merging: its SOA, its NS
/// and then its records.
pub open spec fn zone_sets(name: DNSName, z: ZoneV, peers: Seq<Peer>, me: Seq<char>) -> Seq<
    RecordSetV,
> {
    soa_sets(z.soa, name, z.soa.serial) + ns_sets(z.ns, name, z.soa.serial) + records_sets(
        z.records,
        peers,
        me,
        z.soa.serial,
    )
}

/// The catalog entry of a zone: one record-set per owner name and type.
pub open spec fn zone_catalog(name: DNSName, z: ZoneV, peers: Seq<Peer>, me: Seq<char>) -> Seq<
    RecordSetV,
> {
    merge_sets(zone_sets(name, z, peers, me))
}

proof fn lemma_merge_all_concat(acc: Seq<RecordSetV>, a: Seq<RecordSetV>, b: Seq<RecordSetV>)
    ensures
        merge_all(acc, a + b) == merge_all(merge_all(acc, a), b),
    decreases b.len(),
{
    if b.len() == 0 {
        assert(a + b == a);
    } else {
        assert((a + b).drop_last() == a + b.drop_last());
        assert((a + b).last() == b.last());
        lemma_merge_all_concat(acc, a, b.drop_last());
    }
}

proof fn lemma_merge_into_unique(acc: Seq<RecordSetV>, s: RecordSetV)
    requires
        keys_unique(acc),
    ensures
        keys_unique(merge_into(acc, s)),
{
}

/// An authoritative zone as served: its apex and its record-sets.
#[derive(Debug)]
pub struct ZoneAuthority {
    pub origin: DNSName,
    pub record_sets: Vec<RecordSet>,
}

/// Why no catalog can be built from a configuration.
#[derive(Clone, Copy, Debug, PartialEq, Eq, Structural)]
pub enum CatalogError {
    /// A zone's SOA has a refresh, retry or expire above the signed 32-bit range.
    SoaOutOfRange,
}

fn insert_set(sets: &mut Vec<RecordSet>, s: RecordSet)
    requires
        keys_unique(sets_view(old(sets)@)),
    ensures
        sets_view(final(sets)@) == merge_into(sets_view(old(sets)@), s@),
        keys_unique(sets_view(final(sets)@)),
{
    let ghost acc = sets_view(sets@);
    let ghost sv = s@;
    let mut i: usize = 0;
    let mut found = false;
    while i < sets.len()
        invariant
            i <= sets.len(),
            sets_view(sets@) == acc,
            s@ == sv,
            keys_unique(acc),
            forall|j: int| 0 <= j < i ==> !same_key(#[trigger] acc[j], sv),
            found ==> i < sets.len() && same_key(acc[i as int], sv),
        ensures
            found || i == sets.len(),
        decreases sets.len() - i,
    {
        assert(acc[i as int] == sets@[i as int]@);
        if sets[i].name == s.name && sets[i].rr_type == s.rr_type {
            found = true;
            break;
        }
        i += 1;
    }
    if found {
        let ghost k = choose|k: int| 0 <= k < acc.len() && same_key(#[trigger] acc[k], sv);
        assert(k == i) by {
            if k != i {
                if k < i {
                    assert(!same_key(acc[k], acc[i as int]));
                } else {
                    assert(!same_key(acc[i as int], acc[k]));
                }
            }
        }
        let ghost old_rdata = sets@[i as int].rdata@;
        let mut more = s.rdata;
        let ghost new_rdata = more@;
        sets[i].rdata.append(&mut more);
        assert(sets@[i as int].rdata@ == old_rdata + new_rdata);
        assert(sets@[i as int].rdata@.map_values(|d: crate::record_type::RData| d@)
            =~= old_rdata.map_values(|d: crate::record_type::RData| d@) + new_rdata.map_values(
            |d: crate::record_type::RData| d@,
        ));
        assert(merge_into(acc, sv) == acc.update(
            i as int,
            RecordSetV { rdata: acc[i as int].rdata + sv.rdata, ..acc[i as int] },
        ));
        assert(sets_view(sets@) =~= acc.update(
            i as int,
            RecordSetV { rdata: acc[i as int].rdata + sv.rdata, ..acc[i as int] },
        ));
    } else {
        sets.push(s);
        assert(sets_view(sets@) =~= merge_into(acc, sv));
    }
}

fn insert_all(sets: &mut Vec<RecordSet>, items: Vec<RecordSet>)
    requires
        keys_unique(sets_view(old(sets)@)),
    ensures
        sets_view(final(sets)@) == merge_all(sets_view(old(sets)@), sets_view(items@)),
        keys_unique(sets_view(final(sets)@)),
{
    let ghost acc = sets_view(sets@);
    let ghost all = sets_view(items@);
    let mut items = items;
    let mut j: usize = 0;
    let ghost n = items.len() as nat;
    while items.len() > 0
        invariant
            j + items@.len() == n,
            n <= usize::MAX,
            all.len() == n,
            sets_view(items@) == all.skip(j as int),
            sets_view(sets@) == merge_all(acc, all.take(j as int)),
            keys_unique(sets_view(sets@)),
        decreases items.len(),
    {
        assert(sets_view(items@)[0] == items@[0]@);
        let ghost old_items = items@;
        let x = items.remove(0);
        assert(items@ =~= old_items.skip(1));
        assert(sets_view(items@) =~= sets_view(old_items).skip(1));
        assert(all.skip(j as int).skip(1) =~= all.skip(j + 1));
        assert(x@ == all[j as int]);
        insert_set(sets, x);
        assert(all.take(j + 1).drop_last() == all.take(j as int));
        j += 1;
        assert(sets_view(items@) =~= all.skip(j as int));
    }
    assert(all.take(j as int) == all);
}

/// Builds the catalog that the DNS server answers from: for each zone, in
/// order, the record-sets of its SOA, its NS and its records, those of one
/// owner name and type merged into one.
pub fn construct_catalog(config: &Config) -> (r: Result<Vec<ZoneAuthority>, CatalogError>)
    ensures
        r is Err <==> exists|k: int|
            0 <= k < config.zones@.len() && !soa_fits(#[trigger] config.zones@[k].1.soa),
        r is Err ==> r->Err_0 == CatalogError::SoaOutOfRange,
        r is Ok ==> r->Ok_0@.len() == config.zones@.len(),
        r is Ok ==> forall|k: int|
            0 <= k < config.zones@.len() ==> {
                &&& (#[trigger] r->Ok_0@[k]).origin == config.zones@[k].0
                &&& sets_view(r->Ok_0@[k].record_sets@) == zone_catalog(
                    config.zones@[k].0,
                    config.zones@[k].1@,
                    config.peers@,
                    config.me@,
                )
            },
{
    let mut k: usize = 0;
    while k < config.zones.len()
        invariant
            k <= config.zones.len(),
            forall|m: int| 0 <= m < k ==> soa_fits(#[trigger] config.zones@[m].1.soa),
        decreases config.zones.len() - k,
    {
        let soa = &config.zones[k].1.soa;
        if soa.refresh > 2147483647 || soa.retry > 2147483647 || soa.expire > 2147483647 {
            return Err(CatalogError::SoaOutOfRange);
        }
        k += 1;
    }
    let mut out: Vec<ZoneAuthority> = Vec::new();
    let mut k: usize = 0;
    while k < config.zones.len()
        invariant
            k <= config.zones.len(),
            forall|m: int| 0 <= m < config.zones@.len() ==> soa_fits(#[trigger] config.zones@[m].1.soa),
            out@.len() == k,
            forall|m: int|
                0 <= m < k ==> {
                    &&& (#[trigger] out@[m]).origin == config.zones@[m].0
                    &&& sets_view(out@[m].record_sets@) == zone_catalog(
                        config.zones@[m].0,
                        config.zones@[m].1@,
                        config.peers@,
                        config.me@,
                    )
                },
        decreases config.zones.len() - k,
    {
        let entry = zone_authority(config, &config.zones[k].0, &config.zones[k].1);
        out.push(entry);
        k += 1;
    }
    Ok(out)
}

fn zone_authority(config: &Config, name: &DNSName, zone: &crate::config::Zone) -> (r: ZoneAuthority)
    requires
        soa_fits(zone.soa),
    ensures
        r.origin == *name,
        sets_view(r.record_sets@) == zone_catalog(*name, zone@, config.peers@, config.me@),
{
    let serial = zone.soa.serial();
    let mut sets: Vec<RecordSet> = Vec::new();
    let ghost peers = config.peers@;
    let ghost me = config.me@;
    let ghost head = soa_sets(zone.soa, *name, serial) + ns_sets(zone.ns@, *name, serial);
    assert(sets_view(sets@) =~= Seq::<RecordSetV>::empty());
    let soa_part = zone.soa.to_record(config, name.clone(), serial);
    assert(sets_view(soa_part@) == soa_sets(zone.soa, *name, serial));
    insert_all(&mut sets, soa_part);
    assert(sets_view(sets@) == merge_all(Seq::empty(), soa_sets(zone.soa, *name, serial)));
    let ns_part = zone.ns.to_record(config, name.clone(), serial);
    proof {
        lemma_merge_all_concat(Seq::empty(), soa_sets(zone.soa, *name, serial), ns_sets(zone.ns@, *name, serial));
    }
    assert(sets_view(ns_part@) == ns_sets(zone.ns@, *name, serial));
    insert_all(&mut sets, ns_part);
    assert(sets_view(sets@) == merge_sets(head));
    assert(zone@.records.take(0) =~= Seq::<RecordV>::empty());
    assert(head + records_sets(zone@.records.take(0), peers, me, serial) =~= head);
    let mut i: usize = 0;
    while i < zone.records.len()
        invariant
            i <= zone.records.len(),
            sets_view(sets@) == merge_sets(
                head + records_sets(zone@.records.take(i as int), peers, me, serial),
            ),
            keys_unique(sets_view(sets@)),
            peers == config.peers@,
            me == config.me@,
            serial == zone.soa.serial,
        decreases zone.records.len() - i,
    {
        let rec = &zone.records[i];
        let part = rec.record.to_record(config, rec.name.clone(), serial);
        let ghost so_far = head + records_sets(zone@.records.take(i as int), peers, me, serial);
        let ghost added = record_sets(rec.record@, peers, me, rec.name, serial);
        insert_all(&mut sets, part);
        proof {
            lemma_merge_all_concat(Seq::empty(), so_far, added);
            assert(zone@.records.take(i + 1).drop_last() == zone@.records.take(i as int));
            assert(zone@.records.take(i + 1).last() == rec@);
            assert(so_far + added == head + records_sets(zone@.records.take(i + 1), peers, me, serial));
        }
        i += 1;
    }
    assert(zone@.records.take(zone.records.len() as int) == zone@.records);
    ZoneAuthority { origin: name.clone(), record_sets: sets }
}

proof fn lemma_merge_all_unique(acc: Seq<RecordSetV>, s: Seq<RecordSetV>)
    requires
        keys_unique(acc),
    ensures
        keys_unique(merge_all(acc, s)),
    decreases s.len(),
{
    if s.len() > 0 {
        lemma_merge_all_unique(acc, s.drop_last());
        lemma_merge_into_unique(merge_all(acc, s.drop_last()), s.last());
    }
}

/// Merging record-sets of other types keeps an SOA record-set in place.
proof fn lemma_merge_keeps_soa(acc: Seq<RecordSetV>, s: Seq<RecordSetV>, i: int)
    requires
        0 <= i < acc.len(),
        acc[i].rr_type == RrType::SOA,
        forall|k: int| 0 <= k < s.len() ==> (#[trigger] s[k]).rr_type != RrType::SOA,
    ensures
        i < merge_all(acc, s).len(),
        merge_all(acc, s)[i] == acc[i],
    decreases s.len(),
{
    if s.len() > 0 {
        let p = s.drop_last();
        assert forall|k: int| 0 <= k < p.len() implies (#[trigger] p[k]).rr_type != RrType::SOA by {
            assert(p[k] == s[k]);
        }
        lemma_merge_keeps_soa(acc, p, i);
        assert(s.last() == s[s.len() - 1]);
    }
}

proof fn lemma_records_sets_not_soa(records: Seq<RecordV>, peers: Seq<Peer>, me: Seq<char>, serial: u32)
    ensures
        forall|k: int|
            0 <= k < records_sets(records, peers, me, serial).len() ==> (#[trigger] records_sets(
                records,
                peers,
                me,
                serial,
            )[k]).rr_type != RrType::SOA,
    decreases records.len(),
{
    if records.len() > 0 {
        lemma_records_sets_not_soa(records.drop_last(), peers, me, serial);
    }
}

/// The catalog entry of every zone holds exactly one SOA record-set at the
/// apex: the zone's own, versioned by the zone's serial.
pub proof fn lemma_one_soa_at_apex(name: DNSName, z: ZoneV, peers: Seq<Peer>, me: Seq<char>)
    ensures
        ({
            let c = zone_catalog(name, z, peers, me);
            exists|i: int|
                0 <= i < c.len() && #[trigger] c[i] == soa_sets(z.soa, name, z.soa.serial)[0] && forall|j: int|
                    0 <= j < c.len() && j != i ==> !(c[j].name@ == name@ && c[j].rr_type == RrType::SOA)
        }),
        soa_sets(z.soa, name, z.soa.serial)[0].name == name,
        soa_sets(z.soa, name, z.soa.serial)[0].rr_type == RrType::SOA,
        soa_sets(z.soa, name, z.soa.serial)[0].serial == z.soa.serial,
{
    let serial = z.soa.serial;
    let soa = soa_sets(z.soa, name, serial);
    let ns = ns_sets(z.ns, name, serial);
    let recs = records_sets(z.records, peers, me, serial);
    let rest = ns + recs;
    assert(soa + ns + recs == soa + rest);
    lemma_merge_all_concat(Seq::empty(), soa, rest);
    let start = merge_all(Seq::empty(), soa);
    assert(soa.drop_last() =~= Seq::<RecordSetV>::empty());
    assert(merge_all(Seq::empty(), Seq::<RecordSetV>::empty()) == Seq::<RecordSetV>::empty());
    assert(start == merge_into(Seq::empty(), soa[0]));
    assert(start =~= seq![soa[0]]);
    lemma_records_sets_not_soa(z.records, peers, me, serial);
    assert forall|k: int| 0 <= k < rest.len() implies (#[trigger] rest[k]).rr_type != RrType::SOA by {
        if k >= ns.len() {
            assert(rest[k] == recs[k - ns.len()]);
        }
    }
    lemma_merge_keeps_soa(start, rest, 0);
    lemma_merge_all_unique(start, rest);
    let c = zone_catalog(name, z, peers, me);
    assert(c == merge_all(start, rest));
    assert(c[0] == soa[0]);
    assert forall|j: int| 0 <= j < c.len() && j != 0 implies !(c[j].name@ == name@ && c[j].rr_type
        == RrType::SOA) by {
        assert(!same_key(c[0], c[j]));
    }
}

/// The LB records of `records`, in order.
pub open spec fn lb_records_of(records: Seq<RecordV>) -> Seq<RecordTypeV>
    decreases records.len(),
{
    if records.len() == 0 {
        Seq::empty()
    } else if records.last().record is LB {
        lb_records_of(records.drop_last()).push(records.last().record)
    } else {
        lb_records_of(records.drop_last())
    }
}

/// The LB records of all zones, zone after zone.
pub open spec fn lb_records(zones: Seq<(DNSName, Zone)>) -> Seq<RecordTypeV>
    decreases zones.len(),
{
    if zones.len() == 0 {
        Seq::empty()
    } else {
        lb_records(zones.drop_last()) + lb_records_of(zones.last().1@.records)
    }
}

/// One load balancer task for each LB record of the configuration, zone
/// after zone and in record order.
pub fn lb_tasks(config: &Config) -> (r: Vec<LB>)
    ensures
        r@.map_values(|lb: LB| lb@) == lb_records(config.zones@),
{
    let mut out: Vec<LB> = Vec::new();
    let mut k: usize = 0;
    while k < config.zones.len()
        invariant
            k <= config.zones.len(),
            out@.map_values(|lb: LB| lb@) == lb_records(config.zones@.take(k as int)),
        decreases config.zones.len() - k,
    {
        let records = &config.zones[k].1.records;
        let ghost start = out@.map_values(|lb: LB| lb@);
        let ghost rv = records@.map_values(|r: crate::config::Record| r@);
        let mut i: usize = 0;
        while i < records.len()
            invariant
                i <= records.len(),
                rv == records@.map_values(|r: crate::config::Record| r@),
                out@.map_values(|lb: LB| lb@) == start + lb_records_of(rv.take(i as int)),
            decreases records.len() - i,
        {
            assert(rv.take(i + 1).drop_last() == rv.take(i as int));
            assert(rv.take(i + 1).last() == records@[i as int]@);
            match LB::new(records[i].record.clone()) {
                Ok(lb) => {
                    let ghost prev = out@;
                    out.push(lb);
                    assert(out@.map_values(|lb: LB| lb@) =~= prev.map_values(|lb: LB| lb@).push(lb@));
                },
                Err(_) => {},
            }
            i += 1;
        }
        assert(rv.take(records.len() as int) == rv);
        assert(config.zones@.take(k + 1).drop_last() == config.zones@.take(k as int));
        k += 1;
    }
    assert(config.zones@.take(config.zones.len() as int) == config.zones@);
    out
}

} // verus!
