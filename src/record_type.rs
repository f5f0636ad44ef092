use crate::config::{expand, local_addrs, local_listener, peer_ips, Config, Peer};
use crate::dns_name::DNSName;
use crate::health_check::HealthCheck;
use crate::lb::{LBKind, TLSSettings};
use crate::listener::Listener;
use crate::net::{IpAddr, SocketAddr};
use vstd::prelude::*;

verus! {

/// The TTL of a record whose configuration gives none.
pub fn default_ttl() -> (r: u32)
    ensures
        r == 30,
{
    30
}

/// The kinds of configured records.
#[derive(Debug)]
pub enum RecordType {
    A { addresses: Vec<IpAddr>, ttl: u32, healthcheck: Vec<HealthCheck> },
    TXT { value: Vec<String>, ttl: u32 },
    LB {
        backends: Vec<SocketAddr>,
        kind: LBKind,
        listeners: Vec<Listener>,
        tls: Option<TLSSettings>,
        healthcheck: Vec<HealthCheck>,
        ttl: u32,
    },
}

/// A configured record with its sequences as `Seq`s.
pub enum RecordTypeV {
    A { addresses: Seq<IpAddr>, ttl: u32, healthcheck: Seq<HealthCheck> },
    TXT { value: Seq<String>, ttl: u32 },
    LB {
        backends: Seq<SocketAddr>,
        kind: LBKind,
        listeners: Seq<Listener>,
        tls: Option<TLSSettings>,
        healthcheck: Seq<HealthCheck>,
        ttl: u32,
    },
}

impl View for RecordType {
    type V = RecordTypeV;

    open spec fn view(&self) -> RecordTypeV {
        match self {
            RecordType::A { addresses, ttl, healthcheck } => RecordTypeV::A {
                addresses: addresses@,
                ttl: *ttl,
                healthcheck: healthcheck@,
            },
            RecordType::TXT { value, ttl } => RecordTypeV::TXT { value: value@, ttl: *ttl },
            RecordType::LB { backends, kind, listeners, tls, healthcheck, ttl } => RecordTypeV::LB {
                backends: backends@,
                kind: *kind,
                listeners: listeners@,
                tls: *tls,
                healthcheck: healthcheck@,
                ttl: *ttl,
            },
        }
    }
}

impl Clone for RecordType {
    fn clone(&self) -> (r: Self)
        ensures
            r@ == self@,
    {
        match self {
            RecordType::A { addresses, ttl, healthcheck } => {
                let a = addresses.clone();
                let h = healthcheck.clone();
                assert(a@ =~= addresses@);
                assert(h@ =~= healthcheck@);
                RecordType::A { addresses: a, ttl: *ttl, healthcheck: h }
            },
            RecordType::TXT { value, ttl } => {
                let v = value.clone();
                assert(v@ =~= value@);
                RecordType::TXT { value: v, ttl: *ttl }
            },
            RecordType::LB { backends, kind, listeners, tls, healthcheck, ttl } => {
                let b = backends.clone();
                let l = listeners.clone();
                let h = healthcheck.clone();
                let t = match tls {
                    Some(t) => Some(t.clone()),
                    None => None,
                };
                assert(b@ =~= backends@);
                assert(l@ =~= listeners@);
                assert(h@ =~= healthcheck@);
                RecordType::LB {
                    backends: b,
                    kind: *kind,
                    listeners: l,
                    tls: t,
                    healthcheck: h,
                    ttl: *ttl,
                }
            },
        }
    }
}

/// The start of authority of a zone.
#[derive(Debug)]
pub struct SOA {
    pub domain: DNSName,
    pub admin: DNSName,
    pub minttl: u32,
    pub serial: u32,
    pub refresh: u32,
    pub retry: u32,
    pub expire: u32,
}

impl SOA {
    pub fn serial(&self) -> (r: u32)
        ensures
            r == self.serial,
    {
        self.serial
    }
}

impl Clone for SOA {
    fn clone(&self) -> (r: Self)
        ensures
            r == *self,
    {
        SOA {
            domain: self.domain.clone(),
            admin: self.admin.clone(),
            minttl: self.minttl,
            serial: self.serial,
            refresh: self.refresh,
            retry: self.retry,
            expire: self.expire,
        }
    }
}

/// The name servers of a zone.
#[derive(Debug)]
pub struct NS {
    pub servers: Vec<DNSName>,
    pub ttl: u32,
}

pub struct NSV {
    pub servers: Seq<DNSName>,
    pub ttl: u32,
}

impl View for NS {
    type V = NSV;

    open spec fn view(&self) -> NSV {
        NSV { servers: self.servers@, ttl: self.ttl }
    }
}

/// The DNS types of the record-sets that a zone publishes.
#[derive(Clone, Copy, Debug, PartialEq, Eq, Structural)]
pub enum RrType {
    A,
    AAAA,
    TXT,
    NS,
    SOA,
}

/// The data of a start of authority record.
#[derive(Debug)]
pub struct SoaData {
    pub mname: DNSName,
    pub rname: DNSName,
    pub serial: u32,
    pub refresh: i32,
    pub retry: i32,
    pub expire: i32,
    pub minimum: u32,
}

/// The data of one DNS record.
#[derive(Debug)]
pub enum RData {
    A(u32),
    AAAA(u128),
    TXT(Vec<String>),
    NS(DNSName),
    SOA(SoaData),
}

pub enum RDataV {
    A(u32),
    AAAA(u128),
    TXT(Seq<String>),
    NS(DNSName),
    SOA(SoaData),
}

impl View for RData {
    type V = RDataV;

    open spec fn view(&self) -> RDataV {
        match self {
            RData::A(a) => RDataV::A(*a),
            RData::AAAA(a) => RDataV::AAAA(*a),
            RData::TXT(v) => RDataV::TXT(v@),
            RData::NS(n) => RDataV::NS(*n),
            RData::SOA(s) => RDataV::SOA(*s),
        }
    }
}

/// The records of one owner name and one type, each versioned by `serial`.
#[derive(Debug)]
pub struct RecordSet {
    pub name: DNSName,
    pub rr_type: RrType,
    pub ttl: u32,
    pub serial: u32,
    pub rdata: Vec<RData>,
}

pub struct RecordSetV {
    pub name: DNSName,
    pub rr_type: RrType,
    pub ttl: u32,
    pub serial: u32,
    pub rdata: Seq<RDataV>,
}

impl View for RecordSet {
    type V = RecordSetV;

    open spec fn view(&self) -> RecordSetV {
        RecordSetV {
            name: self.name,
            rr_type: self.rr_type,
            ttl: self.ttl,
            serial: self.serial,
            rdata: self.rdata@.map_values(|d: RData| d@),
        }
    }
}

pub open spec fn sets_view(v: Seq<RecordSet>) -> Seq<RecordSetV> {
    v.map_values(|s: RecordSet| s@)
}

/// The A data of the v4 addresses of `addrs`, in order.
pub open spec fn v4_rdata(addrs: Seq<IpAddr>) -> Seq<RDataV>
    decreases addrs.len(),
{
    if addrs.len() == 0 {
        Seq::empty()
    } else {
        match addrs.last() {
            IpAddr::V4(a) => v4_rdata(addrs.drop_last()).push(RDataV::A(a)),
            IpAddr::V6(_) => v4_rdata(addrs.drop_last()),
        }
    }
}

/// The AAAA data of the v6 addresses of `addrs`, in order.
pub open spec fn v6_rdata(addrs: Seq<IpAddr>) -> Seq<RDataV>
    decreases addrs.len(),
{
    if addrs.len() == 0 {
        Seq::empty()
    } else {
        match addrs.last() {
            IpAddr::V6(a) => v6_rdata(addrs.drop_last()).push(RDataV::AAAA(a)),
            IpAddr::V4(_) => v6_rdata(addrs.drop_last()),
        }
    }
}

/// An A record-set and an AAAA record-set at `name`, splitting `addrs` by
/// family; either may be empty.
pub open spec fn address_sets(name: DNSName, serial: u32, addrs: Seq<IpAddr>, ttl: u32) -> Seq<
    RecordSetV,
> {
    seq![
        RecordSetV { name, rr_type: RrType::A, ttl, serial, rdata: v4_rdata(addrs) },
        RecordSetV { name, rr_type: RrType::AAAA, ttl, serial, rdata: v6_rdata(addrs) },
    ]
}

/// One TXT record-set at `name` holding one record whose strings are `value`.
pub open spec fn txt_sets(name: DNSName, serial: u32, value: Seq<String>, ttl: u32) -> Seq<
    RecordSetV,
> {
    seq![RecordSetV { name, rr_type: RrType::TXT, ttl, serial, rdata: seq![RDataV::TXT(value)] }]
}

/// What a configured record publishes at `name` on the node whose peer is
/// `me`.
pub open spec fn record_sets(
    rt: RecordTypeV,
    peers: Seq<Peer>,
    me: Seq<char>,
    name: DNSName,
    serial: u32,
) -> Seq<RecordSetV> {
    match rt {
        RecordTypeV::A { addresses, ttl, .. } => address_sets(name, serial, addresses, ttl),
        RecordTypeV::TXT { value, ttl } => txt_sets(name, serial, value, ttl),
        RecordTypeV::LB { listeners, ttl, .. } => match local_addrs(listeners, peers, me) {
            Some(addrs) => address_sets(
                name,
                serial,
                addrs.map_values(|a: SocketAddr| a.ip),
                ttl,
            ),
            None => Seq::empty(),
        },
    }
}

/// Whether the 32-bit counters of a start of authority fit in signed 32 bits.
pub open spec fn soa_fits(soa: SOA) -> bool {
    soa.refresh <= i32::MAX && soa.retry <= i32::MAX && soa.expire <= i32::MAX
}

/// The one SOA record-set of a zone with apex `name`.
pub open spec fn soa_sets(soa: SOA, name: DNSName, serial: u32) -> Seq<RecordSetV> {
    seq![
        RecordSetV {
            name,
            rr_type: RrType::SOA,
            ttl: soa.minttl,
            serial,
            rdata: seq![
                RDataV::SOA(
                    SoaData {
                        mname: soa.domain,
                        rname: soa.admin,
                        serial: soa.serial,
                        refresh: soa.refresh as i32,
                        retry: soa.retry as i32,
                        expire: soa.expire as i32,
                        minimum: soa.minttl,
                    },
                ),
            ],
        },
    ]
}

/// The one NS record-set of a zone with apex `name`, one record per server.
pub open spec fn ns_sets(ns: NSV, name: DNSName, serial: u32) -> Seq<RecordSetV> {
    seq![
        RecordSetV {
            name,
            rr_type: RrType::NS,
            ttl: ns.ttl,
            serial,
            rdata: ns.servers.map_values(|n: DNSName| RDataV::NS(n)),
        },
    ]
}

fn generate_txt(domain: DNSName, serial: u32, value: Vec<String>, ttl: u32) -> (r: Vec<RecordSet>)
    ensures
        sets_view(r@) == txt_sets(domain, serial, value@, ttl),
{
    let ghost v = value@;
    let mut rdata: Vec<RData> = Vec::new();
    rdata.push(RData::TXT(value));
    let rs = RecordSet { name: domain, rr_type: RrType::TXT, ttl, serial, rdata };
    assert(rs.rdata@.map_values(|d: RData| d@) =~= seq![RDataV::TXT(v)]);
    let mut out: Vec<RecordSet> = Vec::new();
    out.push(rs);
    assert(sets_view(out@) =~= txt_sets(domain, serial, v, ttl));
    out
}

fn generate_a(domain: DNSName, serial: u32, addresses: &Vec<IpAddr>, ttl: u32) -> (r: Vec<
    RecordSet,
>)
    ensures
        sets_view(r@) == address_sets(domain, serial, addresses@, ttl),
{
    let mut v4: Vec<RData> = Vec::new();
    let mut v6: Vec<RData> = Vec::new();
    let mut i: usize = 0;
    while i < addresses.len()
        invariant
            i <= addresses.len(),
            v4@.map_values(|d: RData| d@) == v4_rdata(addresses@.take(i as int)),
            v6@.map_values(|d: RData| d@) == v6_rdata(addresses@.take(i as int)),
        decreases addresses.len() - i,
    {
        assert(addresses@.take(i + 1).drop_last() == addresses@.take(i as int));
        match addresses[i] {
            IpAddr::V4(a) => {
                v4.push(RData::A(a));
            },
            IpAddr::V6(a) => {
                v6.push(RData::AAAA(a));
            },
        }
        i += 1;
        assert(v4@.map_values(|d: RData| d@) =~= v4_rdata(addresses@.take(i as int)));
        assert(v6@.map_values(|d: RData| d@) =~= v6_rdata(addresses@.take(i as int)));
    }
    assert(addresses@.take(addresses.len() as int) == addresses@);
    let a_set = RecordSet { name: domain.clone(), rr_type: RrType::A, ttl, serial, rdata: v4 };
    let aaaa_set = RecordSet { name: domain, rr_type: RrType::AAAA, ttl, serial, rdata: v6 };
    let mut out: Vec<RecordSet> = Vec::new();
    out.push(a_set);
    out.push(aaaa_set);
    assert(sets_view(out@) =~= address_sets(domain, serial, addresses@, ttl));
    out
}

/// Projects a part of the configuration into the record-sets it publishes.
pub trait ToRecord {
    /// What `to_record` needs of the value.
    spec fn publishable(&self) -> bool;

    /// The record-sets published at `domain`, each versioned by `serial`, on
    /// the node whose peer is `me`.
    spec fn published(&self, peers: Seq<Peer>, me: Seq<char>, domain: DNSName, serial: u32) -> Seq<
        RecordSetV,
    >;

    fn to_record(&self, config: &Config, domain: DNSName, serial: u32) -> (r: Vec<RecordSet>)
        requires
            self.publishable(),
        ensures
            sets_view(r@) == self.published(config.peers@, config.me@, domain, serial),
    ;
}

impl ToRecord for RecordType {
    open spec fn publishable(&self) -> bool {
        true
    }

    open spec fn published(&self, peers: Seq<Peer>, me: Seq<char>, domain: DNSName, serial: u32) -> Seq<
        RecordSetV,
    > {
        record_sets(self@, peers, me, domain, serial)
    }

    fn to_record(&self, config: &Config, domain: DNSName, serial: u32) -> (r: Vec<RecordSet>) {
        match self {
            RecordType::LB { listeners, ttl, .. } => {
                match config.local_addrs(listeners) {
                    Some(addresses) => {
                        let mut ips: Vec<IpAddr> = Vec::new();
                        let mut i: usize = 0;
                        while i < addresses.len()
                            invariant
                                i <= addresses.len(),
                                ips@ == addresses@.take(i as int).map_values(
                                    |a: SocketAddr| a.ip,
                                ),
                            decreases addresses.len() - i,
                        {
                            ips.push(addresses[i].ip());
                            i += 1;
                            assert(ips@ =~= addresses@.take(i as int).map_values(
                                |a: SocketAddr| a.ip,
                            ));
                        }
                        assert(addresses@.take(addresses.len() as int) == addresses@);
                        generate_a(domain, serial, &ips, *ttl)
                    },
                    None => {
                        let out: Vec<RecordSet> = Vec::new();
                        assert(sets_view(out@) =~= Seq::empty());
                        out
                    },
                }
            },
            RecordType::TXT { value, ttl } => {
                let v = value.clone();
                assert(v@ =~= value@);
                generate_txt(domain, serial, v, *ttl)
            },
            RecordType::A { addresses, ttl, .. } => generate_a(domain, serial, addresses, *ttl),
        }
    }
}

impl ToRecord for SOA {
    open spec fn publishable(&self) -> bool {
        soa_fits(*self)
    }

    open spec fn published(&self, peers: Seq<Peer>, me: Seq<char>, domain: DNSName, serial: u32) -> Seq<
        RecordSetV,
    > {
        soa_sets(*self, domain, serial)
    }

    fn to_record(&self, config: &Config, domain: DNSName, serial: u32) -> (r: Vec<RecordSet>) {
        let data = SoaData {
            mname: self.domain.clone(),
            rname: self.admin.clone(),
            serial: self.serial,
            refresh: self.refresh as i32,
            retry: self.retry as i32,
            expire: self.expire as i32,
            minimum: self.minttl,
        };
        let mut rdata: Vec<RData> = Vec::new();
        rdata.push(RData::SOA(data));
        let rs = RecordSet { name: domain, rr_type: RrType::SOA, ttl: self.minttl, serial, rdata };
        let mut out: Vec<RecordSet> = Vec::new();
        out.push(rs);
        assert(rs.rdata@.map_values(|d: RData| d@) =~= seq![RDataV::SOA(data)]);
        assert(sets_view(out@) =~= soa_sets(*self, domain, serial));
        out
    }
}

impl ToRecord for NS {
    open spec fn publishable(&self) -> bool {
        true
    }

    open spec fn published(&self, peers: Seq<Peer>, me: Seq<char>, domain: DNSName, serial: u32) -> Seq<
        RecordSetV,
    > {
        ns_sets(self@, domain, serial)
    }

    fn to_record(&self, config: &Config, domain: DNSName, serial: u32) -> (r: Vec<RecordSet>) {
        let mut rdata: Vec<RData> = Vec::new();
        let mut i: usize = 0;
        while i < self.servers.len()
            invariant
                i <= self.servers.len(),
                rdata@.map_values(|d: RData| d@) == self.servers@.take(i as int).map_values(
                    |n: DNSName| RDataV::NS(n),
                ),
            decreases self.servers.len() - i,
        {
            let n = self.servers[i].clone();
            let ghost prev = rdata@;
            assert(self.servers@.take(i + 1) == self.servers@.take(i as int).push(n));
            rdata.push(RData::NS(n));
            assert(rdata@.map_values(|d: RData| d@) =~= prev.map_values(|d: RData| d@).push(
                RDataV::NS(n),
            ));
            i += 1;
            assert(rdata@.map_values(|d: RData| d@) =~= self.servers@.take(i as int).map_values(
                |n: DNSName| RDataV::NS(n),
            ));
        }
        assert(self.servers@.take(self.servers.len() as int) == self.servers@);
        let rs = RecordSet { name: domain, rr_type: RrType::NS, ttl: self.ttl, serial, rdata };
        let mut out: Vec<RecordSet> = Vec::new();
        out.push(rs);
        assert(sets_view(out@) =~= ns_sets(self@, domain, serial));
        out
    }
}

proof fn lemma_push_contains<T>(s: Seq<T>, y: T, z: T)
    ensures
        s.push(y).contains(z) <==> (s.contains(z) || y == z),
{
    if s.contains(z) {
        let i = choose|i: int| 0 <= i < s.len() && s[i] == z;
        assert(s.push(y)[i] == z);
    }
    if y == z {
        assert(s.push(y)[s.len() as int] == z);
    }
    if s.push(y).contains(z) {
        let i = choose|i: int| 0 <= i < s.push(y).len() && s.push(y)[i] == z;
        if i < s.len() {
            assert(s[i] == z);
        }
    }
}

proof fn lemma_v4_rdata(addrs: Seq<IpAddr>)
    ensures
        forall|i: int| 0 <= i < v4_rdata(addrs).len() ==> #[trigger] v4_rdata(addrs)[i] is A,
        forall|x: u32| v4_rdata(addrs).contains(RDataV::A(x)) <==> addrs.contains(IpAddr::V4(x)),
    decreases addrs.len(),
{
    if addrs.len() > 0 {
        let p = addrs.drop_last();
        lemma_v4_rdata(p);
        assert(addrs == p.push(addrs.last()));
        assert forall|x: u32| v4_rdata(addrs).contains(RDataV::A(x)) <==> addrs.contains(IpAddr::V4(x)) by {
            lemma_push_contains(p, addrs.last(), IpAddr::V4(x));
            match addrs.last() {
                IpAddr::V4(a) => {
                    lemma_push_contains(v4_rdata(p), RDataV::A(a), RDataV::A(x));
                },
                IpAddr::V6(_) => {},
            }
        }
    }
}

proof fn lemma_v6_rdata(addrs: Seq<IpAddr>)
    ensures
        forall|i: int| 0 <= i < v6_rdata(addrs).len() ==> #[trigger] v6_rdata(addrs)[i] is AAAA,
        forall|x: u128| v6_rdata(addrs).contains(RDataV::AAAA(x)) <==> addrs.contains(IpAddr::V6(x)),
    decreases addrs.len(),
{
    if addrs.len() > 0 {
        let p = addrs.drop_last();
        lemma_v6_rdata(p);
        assert(addrs == p.push(addrs.last()));
        assert forall|x: u128| v6_rdata(addrs).contains(RDataV::AAAA(x)) <==> addrs.contains(IpAddr::V6(x)) by {
            lemma_push_contains(p, addrs.last(), IpAddr::V6(x));
            match addrs.last() {
                IpAddr::V6(a) => {
                    lemma_push_contains(v6_rdata(p), RDataV::AAAA(a), RDataV::AAAA(x));
                },
                IpAddr::V4(_) => {},
            }
        }
    }
}

/// An LB record publishes nothing on a node whose peer none of its
/// listeners names; on a node whose peer `me` a listener names, it
/// publishes at its owner an A record-set and an AAAA record-set that hold
/// exactly the v4 and the v6 IPs of that peer.
pub proof fn lemma_lb_publishes_local_ips(
    rt: RecordTypeV,
    peers: Seq<Peer>,
    me: Seq<char>,
    name: DNSName,
    serial: u32,
)
    requires
        rt is LB,
    ensures
        local_listener(rt->LB_listeners, me) is None ==> record_sets(rt, peers, me, name, serial).len()
            == 0,
        local_listener(rt->LB_listeners, me) is Some && peer_ips(peers, me) is Some ==> {
            let sets = record_sets(rt, peers, me, name, serial);
            let ips = peer_ips(peers, me)->0;
            &&& sets.len() == 2
            &&& sets[0].name == name && sets[0].rr_type == RrType::A
            &&& sets[1].name == name && sets[1].rr_type == RrType::AAAA
            &&& forall|i: int| 0 <= i < sets[0].rdata.len() ==> #[trigger] sets[0].rdata[i] is A
            &&& forall|i: int| 0 <= i < sets[1].rdata.len() ==> #[trigger] sets[1].rdata[i] is AAAA
            &&& forall|x: u32| sets[0].rdata.contains(RDataV::A(x)) <==> ips.contains(IpAddr::V4(x))
            &&& forall|x: u128| sets[1].rdata.contains(RDataV::AAAA(x)) <==> ips.contains(IpAddr::V6(x))
        },
{
    let listeners = rt->LB_listeners;
    lemma_local_listener_names(listeners, me);
    if local_listener(listeners, me) is Some && peer_ips(peers, me) is Some {
        let l = local_listener(listeners, me)->0;
        let ips = peer_ips(peers, me)->0;
        assert(expand(ips, l@.1).map_values(|a: SocketAddr| a.ip) =~= ips);
        lemma_v4_rdata(ips);
        lemma_v6_rdata(ips);
    }
}

proof fn lemma_local_listener_names(listeners: Seq<Listener>, me: Seq<char>)
    ensures
        local_listener(listeners, me) is Some ==> local_listener(listeners, me)->0@.0 == me,
    decreases listeners.len(),
{
    if listeners.len() > 0 {
        lemma_local_listener_names(listeners.drop_first(), me);
    }
}

} // verus!
