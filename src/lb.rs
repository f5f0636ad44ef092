use crate::config::{local_addrs, without_addr, Config};
use crate::net::{remove_all, SocketAddr};
use crate::record_type::{RecordType, RecordTypeV};
use vstd::prelude::*;

verus! {

/// What a load balancer forwards: TCP streams or HTTP requests.
#[derive(Clone, Copy, Debug, PartialEq, Eq, Structural)]
pub enum LBKind {
    TCP,
    HTTP,
}

/// Certificate and key of a TLS listener (reserved; not served).
#[derive(Debug)]
pub struct TLSSettings {
    pub certificate: String,
    pub key: String,
}

impl Clone for TLSSettings {
    fn clone(&self) -> (r: Self)
        ensures
            r == *self,
    {
        TLSSettings { certificate: self.certificate.clone(), key: self.key.clone() }
    }
}

/// `k` is the first of `backends` whose count is the least.
pub open spec fn first_least(count: spec_fn(SocketAddr) -> nat, backends: Seq<SocketAddr>, k: int) -> bool {
    &&& 0 <= k < backends.len()
    &&& forall|j: int| 0 <= j < backends.len() ==> count(backends[k]) <= count(#[trigger] backends[j])
    &&& forall|j: int| 0 <= j < k ==> count(#[trigger] backends[j]) > count(backends[k])
}

/// The in-flight count of each backend of one load balancer task.
#[derive(Debug)]
pub struct BackendCount {
    entries: Vec<(SocketAddr, u64)>,
}

impl BackendCount {
    /// No backend is listed twice.
    pub closed spec fn wf(&self) -> bool {
        forall|i: int, j: int|
            0 <= i < j < self.entries@.len() ==> #[trigger] self.entries@[i].0
                != #[trigger] self.entries@[j].0
    }

    /// The number of flows in flight to `b`; zero for a backend never chosen.
    pub closed spec fn count(&self, b: SocketAddr) -> nat {
        if exists|i: int| 0 <= i < self.entries@.len() && #[trigger] self.entries@[i].0 == b {
            self.entries@[choose|i: int|
                0 <= i < self.entries@.len() && #[trigger] self.entries@[i].0 == b].1 as nat
        } else {
            0
        }
    }

    /// `k` is the first of `backends` with the fewest flows in flight.
    pub open spec fn least_loaded(&self, backends: Seq<SocketAddr>, k: int) -> bool {
        first_least(|b: SocketAddr| self.count(b), backends, k)
    }

    proof fn lemma_count_at(&self, i: int)
        requires
            self.wf(),
            0 <= i < self.entries@.len(),
        ensures
            self.count(self.entries@[i].0) == self.entries@[i].1,
    {
        let b = self.entries@[i].0;
        let k = choose|k: int| 0 <= k < self.entries@.len() && #[trigger] self.entries@[k].0 == b;
        if k != i {
            if k < i {
                assert(self.entries@[k].0 != self.entries@[i].0);
            } else {
                assert(self.entries@[i].0 != self.entries@[k].0);
            }
        }
    }

    pub fn new() -> (r: BackendCount)
        ensures
            r.wf(),
            forall|b: SocketAddr| r.count(b) == 0,
    {
        BackendCount { entries: Vec::new() }
    }

    fn position(&self, b: SocketAddr) -> (r: Option<usize>)
        ensures
            match r {
                Some(i) => i < self.entries@.len() && self.entries@[i as int].0 == b,
                None => forall|i: int| 0 <= i < self.entries@.len() ==> self.entries@[i].0 != b,
            },
    {
        let mut i: usize = 0;
        while i < self.entries.len()
            invariant
                i <= self.entries@.len(),
                forall|j: int| 0 <= j < i ==> self.entries@[j].0 != b,
            decreases self.entries@.len() - i,
        {
            if self.entries[i].0 == b {
                return Some(i);
            }
            i += 1;
        }
        None
    }

    /// The number of flows in flight to `b`.
    pub fn in_flight(&self, b: SocketAddr) -> (r: u64)
        requires
            self.wf(),
        ensures
            r == self.count(b),
    {
        match self.position(b) {
            Some(i) => {
                proof {
                    self.lemma_count_at(i as int);
                }
                self.entries[i].1
            },
            None => 0,
        }
    }

    /// Sets the count of `b` to `c`, leaving the other counts as they are.
    fn set_count(&mut self, b: SocketAddr, c: u64)
        requires
            old(self).wf(),
        ensures
            final(self).wf(),
            final(self).count(b) == c,
            forall|o: SocketAddr| o != b ==> final(self).count(o) == old(self).count(o),
    {
        let ghost before = *self;
        match self.position(b) {
            Some(i) => {
                self.entries.set(i, (b, c));
                proof {
                    self.lemma_count_at(i as int);
                    assert forall|o: SocketAddr| o != b implies self.count(o) == before.count(o) by {
                        if exists|j: int| 0 <= j < before.entries@.len() && #[trigger] before.entries@[j].0 == o {
                            let j = choose|j: int| 0 <= j < before.entries@.len() && #[trigger] before.entries@[j].0 == o;
                            before.lemma_count_at(j);
                            self.lemma_count_at(j);
                        } else {
                            assert forall|j: int| 0 <= j < self.entries@.len() implies self.entries@[j].0 != o by {
                                if j != i {
                                    assert(before.entries@[j].0 != o);
                                }
                            }
                        }
                    }
                }
            },
            None => {
                self.entries.push((b, c));
                proof {
                    self.lemma_count_at(self.entries@.len() - 1);
                    assert forall|o: SocketAddr| o != b implies self.count(o) == before.count(o) by {
                        if exists|j: int| 0 <= j < before.entries@.len() && #[trigger] before.entries@[j].0 == o {
                            let j = choose|j: int| 0 <= j < before.entries@.len() && #[trigger] before.entries@[j].0 == o;
                            before.lemma_count_at(j);
                            self.lemma_count_at(j);
                        } else {
                            assert forall|j: int| 0 <= j < self.entries@.len() implies self.entries@[j].0 != o by {
                                if j < before.entries@.len() {
                                    assert(before.entries@[j].0 != o);
                                }
                            }
                        }
                    }
                }
            },
        }
    }

    /// Releases one flow to `backend`.
    pub fn finished(&mut self, backend: SocketAddr)
        requires
            old(self).wf(),
            old(self).count(backend) > 0,
        ensures
            final(self).wf(),
            final(self).count(backend) == old(self).count(backend) - 1,
            forall|o: SocketAddr| o != backend ==> final(self).count(o) == old(self).count(o),
    {
        let c = self.in_flight(backend);
        self.set_count(backend, c - 1);
    }

    /// Chooses the first of `backends` with the fewest flows in flight and
    /// counts one more flow to it.
    pub fn get_backend(&mut self, backends: Vec<SocketAddr>) -> (r: SocketAddr)
        requires
            old(self).wf(),
            backends@.len() > 0,
            forall|i: int| 0 <= i < backends@.len() ==> old(self).count(#[trigger] backends@[i]) < u64::MAX,
        ensures
            final(self).wf(),
            exists|k: int| old(self).least_loaded(backends@, k) && backends@[k] == r,
            final(self).count(r) == old(self).count(r) + 1,
            forall|o: SocketAddr| o != r ==> final(self).count(o) == old(self).count(o),
    {
        let mut best: usize = 0;
        let mut best_count: u64 = self.in_flight(backends[0]);
        let mut i: usize = 1;
        while i < backends.len()
            invariant
                1 <= i <= backends@.len(),
                self.wf(),
                *self == *old(self),
                best < i,
                best_count == self.count(backends@[best as int]),
                forall|j: int| 0 <= j < i ==> self.count(backends@[best as int]) <= self.count(#[trigger] backends@[j]),
                forall|j: int| 0 <= j < best ==> self.count(#[trigger] backends@[j]) > self.count(backends@[best as int]),
            decreases backends@.len() - i,
        {
            let c = self.in_flight(backends[i]);
            if c < best_count {
                best = i;
                best_count = c;
            }
            i += 1;
        }
        let chosen = backends[best];
        assert(self.least_loaded(backends@, best as int));
        self.set_count(chosen, best_count + 1);
        chosen
    }
}

/// The backend choice of one TCP listener: its working list of backends and
/// the in-flight counts of its connections.
#[derive(Debug)]
pub struct TcpDispatch {
    backends: Vec<SocketAddr>,
    counts: BackendCount,
}

impl TcpDispatch {
    pub closed spec fn working(&self) -> Seq<SocketAddr> {
        self.backends@
    }

    pub closed spec fn count(&self, b: SocketAddr) -> nat {
        self.counts.count(b)
    }

    pub closed spec fn wf(&self) -> bool {
        self.counts.wf()
    }

    pub fn new(backends: Vec<SocketAddr>) -> (r: TcpDispatch)
        ensures
            r.wf(),
            r.working() == backends@,
            forall|b: SocketAddr| r.count(b) == 0,
    {
        TcpDispatch { backends, counts: BackendCount::new() }
    }

    pub fn in_flight(&self, b: SocketAddr) -> (r: u64)
        requires
            self.wf(),
        ensures
            r == self.count(b),
    {
        self.counts.in_flight(b)
    }

    /// The backends still to be tried.
    pub fn backends(&self) -> (r: &Vec<SocketAddr>)
        ensures
            r@ == self.working(),
    {
        &self.backends
    }

    /// Chooses the backend for a new connection, counting it in flight;
    /// `None` when no backend is left to try.
    pub fn select(&mut self) -> (r: Option<SocketAddr>)
        requires
            old(self).wf(),
            forall|i: int|
                0 <= i < old(self).working().len() ==> old(self).count(#[trigger] old(self).working()[i]) < u64::MAX,
        ensures
            final(self).wf(),
            final(self).working() == old(self).working(),
            r is None <==> old(self).working().len() == 0,
            r is None ==> forall|o: SocketAddr| final(self).count(o) == old(self).count(o),
            r is Some ==> exists|k: int|
                first_least(|b: SocketAddr| old(self).count(b), old(self).working(), k) && old(self).working()[k] == r->0,
            r is Some ==> final(self).count(r->0) == old(self).count(r->0) + 1,
            r is Some ==> forall|o: SocketAddr| o != r->0 ==> final(self).count(o) == old(self).count(o),
    {
        if self.backends.len() == 0 {
            return None;
        }
        let list = self.backends.clone();
        assert(list@ =~= self.backends@);
        assert(forall|i: int| 0 <= i < list@.len() ==> self.counts.count(#[trigger] list@[i]) < u64::MAX) by {
            assert(forall|i: int| 0 <= i < list@.len() ==> list@[i] == self.working()[i]);
        }
        Some(self.counts.get_backend(list))
    }

    /// A connection to `backend` failed: its flow is released and the
    /// backend leaves this listener's working list.
    pub fn connect_failed(&mut self, backend: SocketAddr)
        requires
            old(self).wf(),
            old(self).count(backend) > 0,
        ensures
            final(self).wf(),
            final(self).working() == remove_all(old(self).working(), backend),
            final(self).count(backend) == old(self).count(backend) - 1,
            forall|o: SocketAddr| o != backend ==> final(self).count(o) == old(self).count(o),
    {
        self.counts.finished(backend);
        let kept = without_addr(&self.backends, backend);
        self.backends = kept;
    }

    /// A connection to `backend` closed: its flow is released.
    pub fn closed(&mut self, backend: SocketAddr)
        requires
            old(self).wf(),
            old(self).count(backend) > 0,
        ensures
            final(self).wf(),
            final(self).working() == old(self).working(),
            final(self).count(backend) == old(self).count(backend) - 1,
            forall|o: SocketAddr| o != backend ==> final(self).count(o) == old(self).count(o),
    {
        self.counts.finished(backend);
    }
}

/// The `X-Forwarded-For` value of a forwarded request: the bind IP, followed
/// by the value the request came with, if any.
pub fn forwarded_for(bind_ip: &str, existing: Option<&str>) -> (r: String)
    ensures
        r@ == match existing {
            Some(x) => bind_ip@ + seq![','] + x@,
            None => bind_ip@,
        },
{
    let mut value = bind_ip.to_owned();
    match existing {
        Some(x) => {
            value.append(",");
            proof {
                reveal_strlit(",");
            }
            value.append(x);
        },
        None => {},
    }
    value
}

/// Why a load balancer cannot be built or asked.
#[derive(Clone, Copy, Debug, PartialEq, Eq, Structural)]
pub enum LBError {
    NotLB,
}

/// A load balancer task over one LB record.
#[derive(Debug)]
pub struct LB {
    record: RecordType,
}

impl View for LB {
    type V = RecordTypeV;

    closed spec fn view(&self) -> RecordTypeV {
        self.record@
    }
}

impl LB {
    pub fn new(record: RecordType) -> (r: Result<LB, LBError>)
        ensures
            r is Ok <==> record@ is LB,
            r is Ok ==> r->Ok_0@ == record@,
            r is Err ==> r->Err_0 == LBError::NotLB,
    {
        match record {
            RecordType::LB { .. } => Ok(LB { record }),
            _ => Err(LBError::NotLB),
        }
    }

    /// The addresses this node binds for the record: those of its listener
    /// that names this node's peer.
    pub fn listen_addrs(&self, config: &Config) -> (r: Result<Option<Vec<SocketAddr>>, LBError>)
        ensures
            r is Ok <==> self@ is LB,
            r is Ok ==> match r->Ok_0 {
                Some(v) => local_addrs(self@->LB_listeners, config.peers@, config.me@) == Some(v@),
                None => local_addrs(self@->LB_listeners, config.peers@, config.me@) is None,
            },
            r is Err ==> r->Err_0 == LBError::NotLB,
    {
        match &self.record {
            RecordType::LB { listeners, .. } => Ok(config.local_addrs(listeners)),
            _ => Err(LBError::NotLB),
        }
    }

    pub fn backends(&self) -> (r: Result<Vec<SocketAddr>, LBError>)
        ensures
            r is Ok <==> self@ is LB,
            r is Ok ==> r->Ok_0@ == self@->LB_backends,
            r is Err ==> r->Err_0 == LBError::NotLB,
    {
        match &self.record {
            RecordType::LB { backends, .. } => {
                let b = backends.clone();
                assert(b@ =~= backends@);
                Ok(b)
            },
            _ => Err(LBError::NotLB),
        }
    }

    pub fn kind(&self) -> (r: Result<LBKind, LBError>)
        ensures
            r is Ok <==> self@ is LB,
            r is Ok ==> r->Ok_0 == self@->LB_kind,
            r is Err ==> r->Err_0 == LBError::NotLB,
    {
        match &self.record {
            RecordType::LB { kind, .. } => Ok(*kind),
            _ => Err(LBError::NotLB),
        }
    }
}

/// How many events of `events` are `(open, b)`.
pub open spec fn flows(events: Seq<(bool, SocketAddr)>, open: bool, b: SocketAddr) -> nat
    decreases events.len(),
{
    if events.len() == 0 {
        0
    } else {
        flows(events.drop_last(), open, b) + if events.last() == (open, b) {
            1nat
        } else {
            0nat
        }
    }
}

/// `after` is `before` once the flow event `e` has been counted: `(true,
/// b)` is a `get_backend` that chose `b`, `(false, b)` a `finished(b)`.
pub open spec fn counted(before: BackendCount, after: BackendCount, e: (bool, SocketAddr)) -> bool {
    &&& if e.0 {
        after.count(e.1) == before.count(e.1) + 1
    } else {
        after.count(e.1) + 1 == before.count(e.1)
    }
    &&& forall|o: SocketAddr| o != e.1 ==> after.count(o) == before.count(o)
}

/// The counts track the live flows: from counts that are all zero, through
/// any run of `get_backend` and `finished` calls, the count of each backend
/// is the number of flows opened to it less the number closed.
pub proof fn lemma_counts_track_flows(
    states: Seq<BackendCount>,
    events: Seq<(bool, SocketAddr)>,
    b: SocketAddr,
)
    requires
        states.len() == events.len() + 1,
        forall|o: SocketAddr| states[0].count(o) == 0,
        forall|i: int| 0 <= i < events.len() ==> counted(states[i], states[i + 1], #[trigger] events[i]),
    ensures
        states.last().count(b) + flows(events, false, b) == flows(events, true, b),
    decreases events.len(),
{
    if events.len() > 0 {
        let n = events.len() - 1;
        lemma_counts_track_flows(states.drop_last(), events.drop_last(), b);
        assert(counted(states[n], states[n + 1], events[n]));
        assert(states.drop_last().last() == states[n]);
    }
}

} // verus!
