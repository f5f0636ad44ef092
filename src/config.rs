use crate::dns_name::DNSName;
use crate::listener::Listener;
use crate::net::{
    count_of, holds, lemma_push_absent, lemma_remove_all_absent, lemma_remove_all_idempotent,
    push_absent, remove_all, IpAddr, SocketAddr,
};
use crate::record_type::{RecordType, RecordTypeV, NS, NSV, SOA};
use vstd::prelude::*;

verus! {

/// A node of the cluster. Its name is the identifier of its key.
#[derive(Debug)]
pub struct Peer {
    pub ips: Vec<IpAddr>,
    pub control_server: String,
    pub key_id: String,
}

impl Peer {
    pub fn name(&self) -> (r: String)
        ensures
            r@ == self.key_id@,
    {
        self.key_id.clone()
    }
}

/// Where the node's own services listen.
#[derive(Clone, Copy, Debug, PartialEq, Eq, Structural)]
pub struct ListenConfig {
    pub dns: SocketAddr,
    pub control: SocketAddr,
}

/// A zone: its authority, its name servers and its records.
#[derive(Debug)]
pub struct Zone {
    pub soa: SOA,
    pub ns: NS,
    pub records: Vec<Record>,
}

pub struct ZoneV {
    pub soa: SOA,
    pub ns: NSV,
    pub records: Seq<RecordV>,
}

impl View for Zone {
    type V = ZoneV;

    open spec fn view(&self) -> ZoneV {
        ZoneV { soa: self.soa, ns: self.ns@, records: self.records@.map_values(|r: Record| r@) }
    }
}

/// A record of a zone: an owner name and what is published there.
#[derive(Debug)]
pub struct Record {
    pub name: DNSName,
    pub record: RecordType,
}

pub struct RecordV {
    pub name: DNSName,
    pub record: RecordTypeV,
}

impl View for Record {
    type V = RecordV;

    open spec fn view(&self) -> RecordV {
        RecordV { name: self.name, record: self.record@ }
    }
}

impl Clone for Record {
    fn clone(&self) -> (r: Self)
        ensures
            r@ == self@,
    {
        Record { name: self.name.clone(), record: self.record.clone() }
    }
}

impl RecordV {
    pub open spec fn with_ip_added(self, ip: IpAddr) -> RecordV {
        match self.record {
            RecordTypeV::A { addresses, ttl, healthcheck } => RecordV {
                record: RecordTypeV::A { addresses: push_absent(addresses, ip), ttl, healthcheck },
                ..self
            },
            _ => self,
        }
    }

    pub open spec fn with_ip_removed(self, ip: IpAddr) -> RecordV {
        match self.record {
            RecordTypeV::A { addresses, ttl, healthcheck } => RecordV {
                record: RecordTypeV::A { addresses: remove_all(addresses, ip), ttl, healthcheck },
                ..self
            },
            _ => self,
        }
    }

    pub open spec fn with_listener_added(self, l: Listener) -> RecordV {
        match self.record {
            RecordTypeV::LB { backends, kind, listeners, tls, healthcheck, ttl } => RecordV {
                record: RecordTypeV::LB {
                    backends,
                    kind,
                    listeners: push_absent(listeners, l),
                    tls,
                    healthcheck,
                    ttl,
                },
                ..self
            },
            _ => self,
        }
    }

    pub open spec fn with_listener_removed(self, l: (Seq<char>, u16)) -> RecordV {
        match self.record {
            RecordTypeV::LB { backends, kind, listeners, tls, healthcheck, ttl } => RecordV {
                record: RecordTypeV::LB {
                    backends,
                    kind,
                    listeners: remove_all(listeners, l),
                    tls,
                    healthcheck,
                    ttl,
                },
                ..self
            },
            _ => self,
        }
    }

    pub open spec fn with_backend_added(self, a: SocketAddr) -> RecordV {
        match self.record {
            RecordTypeV::LB { backends, kind, listeners, tls, healthcheck, ttl } => RecordV {
                record: RecordTypeV::LB {
                    backends: push_absent(backends, a),
                    kind,
                    listeners,
                    tls,
                    healthcheck,
                    ttl,
                },
                ..self
            },
            _ => self,
        }
    }

    pub open spec fn with_backend_removed(self, a: SocketAddr) -> RecordV {
        match self.record {
            RecordTypeV::LB { backends, kind, listeners, tls, healthcheck, ttl } => RecordV {
                record: RecordTypeV::LB {
                    backends: remove_all(backends, a),
                    kind,
                    listeners,
                    tls,
                    healthcheck,
                    ttl,
                },
                ..self
            },
            _ => self,
        }
    }
}

fn holds_ip(v: &Vec<IpAddr>, ip: IpAddr) -> (r: bool)
    ensures
        r == holds(v@, ip),
{
    let mut i: usize = 0;
    while i < v.len()
        invariant
            i <= v.len(),
            forall|j: int| 0 <= j < i ==> v@[j] != ip,
        decreases v.len() - i,
    {
        if v[i] == ip {
            assert(v@[i as int]@ == ip);
            return true;
        }
        i += 1;
    }
    false
}

fn holds_addr(v: &Vec<SocketAddr>, a: SocketAddr) -> (r: bool)
    ensures
        r == holds(v@, a),
{
    let mut i: usize = 0;
    while i < v.len()
        invariant
            i <= v.len(),
            forall|j: int| 0 <= j < i ==> v@[j] != a,
        decreases v.len() - i,
    {
        if v[i] == a {
            assert(v@[i as int]@ == a);
            return true;
        }
        i += 1;
    }
    false
}

fn holds_listener(v: &Vec<Listener>, l: &Listener) -> (r: bool)
    ensures
        r == holds(v@, l@),
{
    let mut i: usize = 0;
    while i < v.len()
        invariant
            i <= v.len(),
            forall|j: int| 0 <= j < i ==> v@[j]@ != l@,
        decreases v.len() - i,
    {
        if v[i] == *l {
            return true;
        }
        i += 1;
    }
    false
}

fn without_ip(v: &Vec<IpAddr>, ip: IpAddr) -> (r: Vec<IpAddr>)
    ensures
        r@ == remove_all(v@, ip),
{
    let mut out: Vec<IpAddr> = Vec::new();
    let mut i: usize = 0;
    while i < v.len()
        invariant
            i <= v.len(),
            out@ == remove_all(v@.take(i as int), ip),
        decreases v.len() - i,
    {
        assert(v@.take(i + 1).drop_last() == v@.take(i as int));
        if v[i] != ip {
            out.push(v[i]);
        }
        i += 1;
    }
    assert(v@.take(v.len() as int) == v@);
    out
}

pub fn without_addr(v: &Vec<SocketAddr>, a: SocketAddr) -> (r: Vec<SocketAddr>)
    ensures
        r@ == remove_all(v@, a),
{
    let mut out: Vec<SocketAddr> = Vec::new();
    let mut i: usize = 0;
    while i < v.len()
        invariant
            i <= v.len(),
            out@ == remove_all(v@.take(i as int), a),
        decreases v.len() - i,
    {
        assert(v@.take(i + 1).drop_last() == v@.take(i as int));
        if v[i] != a {
            out.push(v[i]);
        }
        i += 1;
    }
    assert(v@.take(v.len() as int) == v@);
    out
}

fn without_listener(v: &Vec<Listener>, l: &Listener) -> (r: Vec<Listener>)
    ensures
        r@ == remove_all(v@, l@),
{
    let mut out: Vec<Listener> = Vec::new();
    let mut i: usize = 0;
    while i < v.len()
        invariant
            i <= v.len(),
            out@ == remove_all(v@.take(i as int), l@),
        decreases v.len() - i,
    {
        assert(v@.take(i + 1).drop_last() == v@.take(i as int));
        if v[i] != *l {
            out.push(v[i].clone());
        }
        i += 1;
    }
    assert(v@.take(v.len() as int) == v@);
    out
}

impl Record {
    /// Adds `listener` to an LB record that does not hold it yet.
    pub fn add_listener(&mut self, listener: Listener)
        ensures
            final(self)@ == old(self)@.with_listener_added(listener),
    {
        match &mut self.record {
            RecordType::LB { listeners, .. } => {
                if !holds_listener(listeners, &listener) {
                    listeners.push(listener);
                }
            },
            _ => {},
        }
    }

    /// Adds `ip` to an A record that does not hold it yet.
    pub fn add_ip(&mut self, ip: IpAddr)
        ensures
            final(self)@ == old(self)@.with_ip_added(ip),
    {
        match &mut self.record {
            RecordType::A { addresses, .. } => {
                if !holds_ip(addresses, ip) {
                    addresses.push(ip);
                }
            },
            _ => {},
        }
    }

    /// Adds `addr` to the backends of an LB record that does not hold it yet.
    pub fn add_backend(&mut self, addr: SocketAddr)
        ensures
            final(self)@ == old(self)@.with_backend_added(addr),
    {
        match &mut self.record {
            RecordType::LB { backends, .. } => {
                if !holds_addr(backends, addr) {
                    backends.push(addr);
                }
            },
            _ => {},
        }
    }

    /// Takes every copy of `ip` out of an A record.
    pub fn remove_ip(&mut self, ip: IpAddr)
        ensures
            final(self)@ == old(self)@.with_ip_removed(ip),
    {
        match &mut self.record {
            RecordType::A { addresses, .. } => {
                let kept = without_ip(addresses, ip);
                *addresses = kept;
            },
            _ => {},
        }
    }

    /// Takes every copy of `listener` out of an LB record.
    pub fn remove_listener(&mut self, listener: Listener)
        ensures
            final(self)@ == old(self)@.with_listener_removed(listener@),
    {
        match &mut self.record {
            RecordType::LB { listeners, .. } => {
                let kept = without_listener(listeners, &listener);
                *listeners = kept;
            },
            _ => {},
        }
    }

    /// Takes every copy of `addr` out of the backends of an LB record.
    pub fn remove_backend(&mut self, addr: SocketAddr)
        ensures
            final(self)@ == old(self)@.with_backend_removed(addr),
    {
        match &mut self.record {
            RecordType::LB { backends, .. } => {
                let kept = without_addr(backends, addr);
                *backends = kept;
            },
            _ => {},
        }
    }
}

/// The whole configuration of the cluster, with `me` naming the peer that
/// this node is.
#[derive(Debug)]
pub struct Config {
    pub listen: ListenConfig,
    pub peers: Vec<Peer>,
    pub zones: Vec<(DNSName, Zone)>,
    pub me: String,
    pub shutdown_wait_ms: u64,
}

/// The IPs of the first peer named `name`, if any peer is.
pub open spec fn peer_ips(peers: Seq<Peer>, name: Seq<char>) -> Option<Seq<IpAddr>>
    decreases peers.len(),
{
    if peers.len() == 0 {
        None
    } else if peers[0].key_id@ == name {
        Some(peers[0].ips@)
    } else {
        peer_ips(peers.drop_first(), name)
    }
}

/// Each IP of `ips` with `port`, in order.
pub open spec fn expand(ips: Seq<IpAddr>, port: u16) -> Seq<SocketAddr> {
    ips.map_values(|ip: IpAddr| SocketAddr { ip, port })
}

/// The first listener that names peer `me`, if any does.
pub open spec fn local_listener(listeners: Seq<Listener>, me: Seq<char>) -> Option<Listener>
    decreases listeners.len(),
{
    if listeners.len() == 0 {
        None
    } else if listeners[0]@.0 == me {
        Some(listeners[0])
    } else {
        local_listener(listeners.drop_first(), me)
    }
}

/// The socket addresses that the listener of peer `me` among `listeners`
/// stands for, if one names `me` and that peer is known.
pub open spec fn local_addrs(listeners: Seq<Listener>, peers: Seq<Peer>, me: Seq<char>) -> Option<
    Seq<SocketAddr>,
> {
    match local_listener(listeners, me) {
        Some(l) => match peer_ips(peers, l@.0) {
            Some(ips) => Some(expand(ips, l@.1)),
            None => None,
        },
        None => None,
    }
}

proof fn lemma_peer_ips_step(peers: Seq<Peer>, name: Seq<char>, i: int)
    requires
        0 <= i < peers.len(),
        peers[i].key_id@ != name,
    ensures
        peer_ips(peers.subrange(i, peers.len() as int), name) == peer_ips(
            peers.subrange(i + 1, peers.len() as int),
            name,
        ),
{
    assert(peers.subrange(i, peers.len() as int).drop_first() == peers.subrange(
        i + 1,
        peers.len() as int,
    ));
}

proof fn lemma_local_listener_step(listeners: Seq<Listener>, me: Seq<char>, i: int)
    requires
        0 <= i < listeners.len(),
        listeners[i]@.0 != me,
    ensures
        local_listener(listeners.subrange(i, listeners.len() as int), me) == local_listener(
            listeners.subrange(i + 1, listeners.len() as int),
            me,
        ),
{
    assert(listeners.subrange(i, listeners.len() as int).drop_first() == listeners.subrange(
        i + 1,
        listeners.len() as int,
    ));
}

/// The IPs of the peer named `name`, if one is.
pub fn find_peer_ips<'a>(peers: &'a Vec<Peer>, name: &String) -> (r: Option<&'a Vec<IpAddr>>)
    ensures
        r is Some <==> peer_ips(peers@, name@) is Some,
        r is Some ==> peer_ips(peers@, name@) == Some(r->0@),
{
    let mut i: usize = 0;
    assert(peers@.subrange(0, peers@.len() as int) == peers@);
    while i < peers.len()
        invariant
            i <= peers.len(),
            peer_ips(peers@, name@) == peer_ips(peers@.subrange(i as int, peers@.len() as int), name@),
        decreases peers.len() - i,
    {
        if peers[i].name() == *name {
            return Some(&peers[i].ips);
        }
        proof {
            lemma_peer_ips_step(peers@, name@, i as int);
        }
        i += 1;
    }
    None
}

impl Config {
    /// The socket addresses of the listener among `listeners` that names this
    /// node's peer, if one does and that peer is known.
    pub fn local_addrs(&self, listeners: &Vec<Listener>) -> (r: Option<Vec<SocketAddr>>)
        ensures
            r is Some <==> local_addrs(listeners@, self.peers@, self.me@) is Some,
            r is Some ==> local_addrs(listeners@, self.peers@, self.me@) == Some(r->0@),
    {
        let mut i: usize = 0;
        assert(listeners@.subrange(0, listeners@.len() as int) == listeners@);
        while i < listeners.len()
            invariant
                i <= listeners.len(),
                local_listener(listeners@, self.me@) == local_listener(
                    listeners@.subrange(i as int, listeners@.len() as int),
                    self.me@,
                ),
            decreases listeners.len() - i,
        {
            if listeners[i].name() == self.me {
                return listeners[i].addr(self);
            }
            proof {
                lemma_local_listener_step(listeners@, self.me@, i as int);
            }
            i += 1;
        }
        None
    }

    /// Makes `peer` the node's own peer, if the configuration lists it.
    pub fn select_peer(&mut self, peer: String) -> (r: Result<(), ConfigError>)
        ensures
            r is Ok <==> peer_ips(old(self).peers@, peer@) is Some,
            r is Ok ==> final(self).me@ == peer@,
            r is Err ==> final(self).me == old(self).me,
            r is Err ==> r->Err_0 == ConfigError::UnknownPeer,
            final(self).peers == old(self).peers,
            final(self).zones == old(self).zones,
            final(self).listen == old(self).listen,
            final(self).shutdown_wait_ms == old(self).shutdown_wait_ms,
    {
        match find_peer_ips(&self.peers, &peer) {
            Some(_) => {
                self.me = peer;
                Ok(())
            },
            None => Err(ConfigError::UnknownPeer),
        }
    }
}

/// Why a configuration cannot be served.
#[derive(Clone, Copy, Debug, PartialEq, Eq, Structural)]
pub enum ConfigError {
    UnknownPeer,
}

/// Removal is idempotent and addition avoids duplicates: removing an IP, a
/// listener or a backend twice leaves a record as removing it once, after
/// which the record holds no copy of it; adding one twice leaves it as
/// adding it once, and an addition leaves exactly one copy where there was
/// none and the same copies where there were some.
pub proof fn lemma_mutators_idempotent(r: RecordV, ip: IpAddr, l: Listener, a: SocketAddr)
    ensures
        r.with_ip_removed(ip).with_ip_removed(ip) == r.with_ip_removed(ip),
        r.with_listener_removed(l@).with_listener_removed(l@) == r.with_listener_removed(l@),
        r.with_backend_removed(a).with_backend_removed(a) == r.with_backend_removed(a),
        r.with_ip_added(ip).with_ip_added(ip) == r.with_ip_added(ip),
        r.with_listener_added(l).with_listener_added(l) == r.with_listener_added(l),
        r.with_backend_added(a).with_backend_added(a) == r.with_backend_added(a),
        r.record is A ==> count_of(r.with_ip_removed(ip).record->A_addresses, ip) == 0,
        r.record is LB ==> count_of(r.with_listener_removed(l@).record->LB_listeners, l@) == 0,
        r.record is LB ==> count_of(r.with_backend_removed(a).record->LB_backends, a) == 0,
        r.record is A ==> count_of(r.with_ip_added(ip).record->A_addresses, ip) == if holds(
            r.record->A_addresses,
            ip,
        ) {
            count_of(r.record->A_addresses, ip)
        } else {
            1
        },
        r.record is LB ==> count_of(r.with_listener_added(l).record->LB_listeners, l@) == if holds(
            r.record->LB_listeners,
            l@,
        ) {
            count_of(r.record->LB_listeners, l@)
        } else {
            1
        },
        r.record is LB ==> count_of(r.with_backend_added(a).record->LB_backends, a) == if holds(
            r.record->LB_backends,
            a,
        ) {
            count_of(r.record->LB_backends, a)
        } else {
            1
        },
{
    match r.record {
        RecordTypeV::A { addresses, .. } => {
            lemma_remove_all_idempotent(addresses, ip);
            lemma_remove_all_absent(addresses, ip);
            lemma_push_absent(addresses, ip);
        },
        RecordTypeV::LB { backends, listeners, .. } => {
            lemma_remove_all_idempotent(listeners, l@);
            lemma_remove_all_absent(listeners, l@);
            lemma_push_absent(listeners, l);
            lemma_remove_all_idempotent(backends, a);
            lemma_remove_all_absent(backends, a);
            lemma_push_absent(backends, a);
        },
        _ => {},
    }
}

/// Expanding a listener keeps the order of the peer's IPs: the i-th address
/// is the peer's i-th IP with the listener's port.
pub proof fn lemma_expand_in_order(ips: Seq<IpAddr>, port: u16)
    ensures
        expand(ips, port).len() == ips.len(),
        forall|i: int| 0 <= i < ips.len() ==> #[trigger] expand(ips, port)[i] == (SocketAddr { ip: ips[i], port }),
{
}

} // verus!
