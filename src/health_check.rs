use crate::config::{Config, Record, RecordV, Zone};
use crate::dns_name::DNSName;
use crate::listener::Listener;
use crate::net::{
    count_of, lemma_count_zero_iff_absent, lemma_push_absent, lemma_remove_all_absent, SocketAddr,
};
use crate::record_type::RecordTypeV;
use vstd::prelude::*;

verus! {

/// How a target is probed.
#[derive(Clone, Copy, Debug, Default, PartialEq, Eq, Structural)]
pub enum HealthCheckType {
    #[default]
    TCP,
}

/// Which part of the configuration a probe drives.
#[derive(Clone, Copy, Debug, PartialEq, Eq, Structural)]
pub enum HealthCheckTargetType {
    DNS,
    LBBackend,
    LBFrontend,
}

/// A probe specification: after `failures` consecutive failures the target
/// is taken out; a probe that does not connect within `timeout_ms`
/// milliseconds fails.
#[derive(Clone, Copy, Debug, PartialEq, Eq, Structural)]
pub struct HealthCheck {
    pub failures: u8,
    pub timeout_ms: u64,
    pub typ: HealthCheckType,
}

impl HealthCheck {
    /// A fresh probe of `target` that drives the records named `target_name`.
    pub fn to_action(
        self,
        target: SocketAddr,
        target_type: HealthCheckTargetType,
        target_name: DNSName,
        listener: Option<Listener>,
    ) -> (r: HealthCheckAction)
        ensures
            r == (HealthCheckAction {
                healthcheck: self,
                target,
                target_type,
                target_name,
                listener,
                failure_count: 0,
                last_failure: None,
            }),
    {
        HealthCheckAction {
            healthcheck: self,
            target,
            target_type,
            target_name,
            listener,
            failure_count: 0,
            last_failure: None,
        }
    }
}

/// One stateful probe bound to one target: how many probes in a row have
/// failed, and when the last failure was (in milliseconds).
#[derive(Debug)]
pub struct HealthCheckAction {
    pub healthcheck: HealthCheck,
    pub target: SocketAddr,
    pub target_type: HealthCheckTargetType,
    pub target_name: DNSName,
    pub listener: Option<Listener>,
    pub failure_count: u8,
    pub last_failure: Option<u64>,
}

impl HealthCheckAction {
    /// A record after the target has been put back: listener and IP for a
    /// DNS target, listener for a frontend, address for a backend.
    pub open spec fn added(&self, r: RecordV) -> RecordV {
        if r.name@ != self.target_name@ {
            r
        } else {
            match self.target_type {
                HealthCheckTargetType::DNS => {
                    let r1 = match self.listener {
                        Some(l) => r.with_listener_added(l),
                        None => r,
                    };
                    r1.with_ip_added(self.target.ip)
                },
                HealthCheckTargetType::LBFrontend => match self.listener {
                    Some(l) => r.with_listener_added(l),
                    None => r,
                },
                HealthCheckTargetType::LBBackend => r.with_backend_added(self.target),
            }
        }
    }

    /// A record after the target has been taken out: the IP for a DNS
    /// target, listener and IP for a frontend, address for a backend.
    pub open spec fn removed(&self, r: RecordV) -> RecordV {
        if r.name@ != self.target_name@ {
            r
        } else {
            match self.target_type {
                HealthCheckTargetType::DNS => r.with_ip_removed(self.target.ip),
                HealthCheckTargetType::LBFrontend => {
                    let r1 = match self.listener {
                        Some(l) => r.with_listener_removed(l@),
                        None => r,
                    };
                    r1.with_ip_removed(self.target.ip)
                },
                HealthCheckTargetType::LBBackend => r.with_backend_removed(self.target),
            }
        }
    }

    pub open spec fn updated(&self, r: RecordV, add: bool) -> RecordV {
        if add {
            self.added(r)
        } else {
            self.removed(r)
        }
    }

    /// The records, each put through `updated`.
    pub open spec fn records_updated(&self, records: Seq<RecordV>, add: bool) -> Seq<RecordV> {
        records.map_values(|r: RecordV| self.updated(r, add))
    }

    /// `after` is `before` with every record put through `updated`: with
    /// the target added where `add`, else removed.
    pub open spec fn zones_updated(
        &self,
        before: Seq<(DNSName, Zone)>,
        after: Seq<(DNSName, Zone)>,
        add: bool,
    ) -> bool {
        &&& after.len() == before.len()
        &&& forall|j: int|
            0 <= j < before.len() ==> {
                &&& (#[trigger] after[j]).0 == before[j].0
                &&& after[j].1.soa == before[j].1.soa
                &&& after[j].1.ns@ == before[j].1.ns@
                &&& after[j].1@.records == self.records_updated(before[j].1@.records, add)
            }
    }

    /// Whether a probe outcome makes the action put its target back.
    pub open spec fn adds_on(&self, healthy: bool) -> bool {
        healthy && self.failure_count >= self.healthcheck.failures
    }

    /// Whether a probe outcome makes the action take its target out.
    pub open spec fn removes_on(&self, healthy: bool) -> bool {
        !healthy && self.healthcheck.failures <= next_failure_count(self.failure_count)
    }

    /// The action's state after a probe with outcome `healthy` at time `now`.
    pub open spec fn probed(&self, healthy: bool, now: u64) -> HealthCheckAction {
        if healthy {
            HealthCheckAction { failure_count: 0, last_failure: None, ..*self }
        } else {
            HealthCheckAction {
                failure_count: next_failure_count(self.failure_count),
                last_failure: Some(now),
                ..*self
            }
        }
    }

    /// `after` is `before` once a probe with outcome `healthy` has been
    /// taken.
    pub open spec fn zones_after(
        &self,
        healthy: bool,
        before: Seq<(DNSName, Zone)>,
        after: Seq<(DNSName, Zone)>,
    ) -> bool {
        if self.adds_on(healthy) {
            self.zones_updated(before, after, true)
        } else if self.removes_on(healthy) {
            self.zones_updated(before, after, false)
        } else {
            after == before
        }
    }

    fn update_record(&self, rec: &mut Record, add: bool)
        ensures
            final(rec)@ == self.updated(old(rec)@, add),
    {
        if rec.name == self.target_name {
            if add {
                match self.target_type {
                    HealthCheckTargetType::DNS => {
                        match &self.listener {
                            Some(lis) => rec.add_listener(lis.clone()),
                            None => {},
                        }
                        rec.add_ip(self.target.ip());
                    },
                    HealthCheckTargetType::LBFrontend => {
                        match &self.listener {
                            Some(lis) => rec.add_listener(lis.clone()),
                            None => {},
                        }
                    },
                    HealthCheckTargetType::LBBackend => {
                        rec.add_backend(self.target);
                    },
                }
            } else {
                match self.target_type {
                    HealthCheckTargetType::DNS => {
                        rec.remove_ip(self.target.ip());
                    },
                    HealthCheckTargetType::LBBackend => {
                        rec.remove_backend(self.target);
                    },
                    HealthCheckTargetType::LBFrontend => {
                        match &self.listener {
                            Some(lis) => rec.remove_listener(lis.clone()),
                            None => {},
                        }
                        rec.remove_ip(self.target.ip());
                    },
                }
            }
        }
    }

    fn update_records(&self, records: &mut Vec<Record>, add: bool)
        ensures
            final(records)@.map_values(|r: Record| r@) == self.records_updated(
                old(records)@.map_values(|r: Record| r@),
                add,
            ),
    {
        let ghost before = records@.map_values(|r: Record| r@);
        let mut i: usize = 0;
        while i < records.len()
            invariant
                i <= records.len(),
                records@.len() == before.len(),
                forall|j: int| 0 <= j < i ==> (#[trigger] records@[j])@ == self.updated(before[j], add),
                forall|j: int| i <= j < records@.len() ==> (#[trigger] records@[j])@ == before[j],
            decreases records.len() - i,
        {
            self.update_record(&mut records[i], add);
            i += 1;
        }
        assert(records@.map_values(|r: Record| r@) =~= self.records_updated(before, add));
    }

    fn update_config(&self, config: &mut Config, add: bool)
        ensures
            self.zones_updated(old(config).zones@, final(config).zones@, add),
            final(config).peers == old(config).peers,
            final(config).me == old(config).me,
            final(config).listen == old(config).listen,
            final(config).shutdown_wait_ms == old(config).shutdown_wait_ms,
    {
        let ghost before = config.zones@;
        let mut z: usize = 0;
        while z < config.zones.len()
            invariant
                z <= config.zones.len(),
                config.zones@.len() == before.len(),
                forall|j: int|
                    0 <= j < z ==> {
                        &&& (#[trigger] config.zones@[j]).0 == before[j].0
                        &&& config.zones@[j].1.soa == before[j].1.soa
                        &&& config.zones@[j].1.ns@ == before[j].1.ns@
                        &&& config.zones@[j].1@.records == self.records_updated(
                            before[j].1@.records,
                            add,
                        )
                    },
                forall|j: int| z <= j < config.zones@.len() ==> (#[trigger] config.zones@[j]) == before[j],
                config.peers == old(config).peers,
                config.me == old(config).me,
                config.listen == old(config).listen,
                config.shutdown_wait_ms == old(config).shutdown_wait_ms,
            decreases config.zones.len() - z,
        {
            self.update_records(&mut config.zones[z].1.records, add);
            z += 1;
        }
    }

    /// Puts the target back into every record named `target_name`.
    pub fn add_config(&self, config: &mut Config)
        ensures
            self.zones_updated(old(config).zones@, final(config).zones@, true),
            final(config).peers == old(config).peers,
            final(config).me == old(config).me,
            final(config).listen == old(config).listen,
            final(config).shutdown_wait_ms == old(config).shutdown_wait_ms,
    {
        self.update_config(config, true);
    }

    /// Takes the target out of every record named `target_name`.
    pub fn remove_config(&self, config: &mut Config)
        ensures
            self.zones_updated(old(config).zones@, final(config).zones@, false),
            final(config).peers == old(config).peers,
            final(config).me == old(config).me,
            final(config).listen == old(config).listen,
            final(config).shutdown_wait_ms == old(config).shutdown_wait_ms,
    {
        self.update_config(config, false);
    }

    /// Takes the outcome of one probe made at time `now`: a success after
    /// the target was taken out puts it back, and the failure count starts
    /// again; a failure counts, and takes the target out once the count
    /// reaches the threshold.
    pub fn perform(&mut self, config: &mut Config, healthy: bool, now: u64)
        ensures
            *final(self) == old(self).probed(healthy, now),
            old(self).zones_after(healthy, old(config).zones@, final(config).zones@),
            final(config).peers == old(config).peers,
            final(config).me == old(config).me,
            final(config).listen == old(config).listen,
            final(config).shutdown_wait_ms == old(config).shutdown_wait_ms,
    {
        if healthy {
            if self.failure_count >= self.healthcheck.failures {
                self.add_config(config);
            }
            self.failure_count = 0;
            self.last_failure = None;
        } else {
            let count = self.failure_count.saturating_add(1);
            if self.healthcheck.failures <= count {
                self.remove_config(config);
            }
            self.failure_count = count;
            self.last_failure = Some(now);
        }
    }
}

/// One more failure, held at the largest count.
pub open spec fn next_failure_count(c: u8) -> u8 {
    if c < u8::MAX {
        (c + 1) as u8
    } else {
        c
    }
}

impl HealthCheckAction {
    /// Whether record `r` is of the kind that holds this action's target:
    /// an A record for a DNS target, an LB record for a backend, and an LB
    /// record for a frontend with a listener.
    pub open spec fn holds_target(&self, r: RecordV) -> bool {
        match self.target_type {
            HealthCheckTargetType::DNS => r.record is A,
            HealthCheckTargetType::LBBackend => r.record is LB,
            HealthCheckTargetType::LBFrontend => r.record is LB && self.listener is Some,
        }
    }

    /// How many copies of the target record `r` holds.
    pub open spec fn target_count(&self, r: RecordV) -> nat {
        match self.target_type {
            HealthCheckTargetType::DNS => match r.record {
                RecordTypeV::A { addresses, .. } => count_of(addresses, self.target.ip),
                _ => 0,
            },
            HealthCheckTargetType::LBBackend => match r.record {
                RecordTypeV::LB { backends, .. } => count_of(backends, self.target),
                _ => 0,
            },
            HealthCheckTargetType::LBFrontend => match (r.record, self.listener) {
                (RecordTypeV::LB { listeners, .. }, Some(l)) => count_of(listeners, l@),
                _ => 0,
            },
        }
    }

    /// Same target, same probe: all but the failure count and time.
    pub open spec fn same_target(&self, other: HealthCheckAction) -> bool {
        &&& self.healthcheck == other.healthcheck
        &&& self.target == other.target
        &&& self.target_type == other.target_type
        &&& self.target_name == other.target_name
        &&& self.listener == other.listener
    }

    proof fn lemma_removed_then_added(&self, r: RecordV)
        requires
            r.name@ == self.target_name@,
        ensures
            self.removed(r).name == r.name,
            self.holds_target(self.removed(r)) == self.holds_target(r),
            self.target_count(self.removed(r)) == 0,
            self.holds_target(r) ==> self.target_count(self.added(self.removed(r))) == 1,
    {
        match r.record {
            RecordTypeV::A { addresses, .. } => {
                let a = crate::net::remove_all(addresses, self.target.ip);
                lemma_remove_all_absent(addresses, self.target.ip);
                lemma_count_zero_iff_absent(a, self.target.ip);
                lemma_push_absent(a, self.target.ip);
            },
            RecordTypeV::LB { backends, listeners, .. } => {
                lemma_remove_all_absent(backends, self.target);
                lemma_count_zero_iff_absent(crate::net::remove_all(backends, self.target), self.target);
                lemma_push_absent(crate::net::remove_all(backends, self.target), self.target);
                match self.listener {
                    Some(l) => {
                        lemma_remove_all_absent(listeners, l@);
                        lemma_count_zero_iff_absent(crate::net::remove_all(listeners, l@), l@);
                        lemma_push_absent(crate::net::remove_all(listeners, l@), l);
                    },
                    None => {},
                }
            },
            _ => {},
        }
    }
}

/// `states` and `zones` follow the probe outcomes `probes` through
/// `perform`: each step as its contract states.
pub open spec fn probe_run(
    states: Seq<HealthCheckAction>,
    zones: Seq<Seq<(DNSName, Zone)>>,
    probes: Seq<bool>,
    times: Seq<u64>,
) -> bool {
    &&& states.len() == probes.len() + 1
    &&& zones.len() == probes.len() + 1
    &&& times.len() == probes.len()
    &&& forall|i: int|
        0 <= i < probes.len() ==> {
            &&& states[i + 1] == states[i].probed(#[trigger] probes[i], times[i])
            &&& states[i].zones_after(probes[i], zones[i], zones[i + 1])
        }
}

proof fn lemma_run_keeps_target(
    states: Seq<HealthCheckAction>,
    zones: Seq<Seq<(DNSName, Zone)>>,
    probes: Seq<bool>,
    times: Seq<u64>,
    i: int,
)
    requires
        probe_run(states, zones, probes, times),
        0 <= i <= probes.len(),
        forall|j: int| 0 <= j < i ==> !(#[trigger] probes[j]),
    ensures
        states[i].same_target(states[0]),
        states[i].failure_count >= if i < u8::MAX {
            i
        } else {
            u8::MAX as int
        },
    decreases i,
{
    if i > 0 {
        lemma_run_keeps_target(states, zones, probes, times, i - 1);
        assert(!probes[i - 1]);
        assert(states[i] == states[i - 1].probed(probes[i - 1], times[i - 1]));
    }
}

/// After `failures` consecutive failed probes (and at least one) the target
/// is absent from every record named after it; one successful probe then
/// puts it back, exactly once, into each such record of the target's kind.
pub proof fn lemma_failures_then_success(
    states: Seq<HealthCheckAction>,
    zones: Seq<Seq<(DNSName, Zone)>>,
    probes: Seq<bool>,
    times: Seq<u64>,
)
    requires
        probe_run(states, zones, probes, times),
        probes.len() >= 2,
        probes.len() - 1 >= states[0].healthcheck.failures,
        forall|j: int| 0 <= j < probes.len() - 1 ==> !(#[trigger] probes[j]),
        probes.last(),
    ensures
        ({
            let a = states[0];
            let k = probes.len() - 1;
            &&& forall|z: int, i: int|
                0 <= z < zones[k].len() && 0 <= i < zones[k][z].1@.records.len() && (
                #[trigger] zones[k][z].1@.records[i]).name@ == a.target_name@ ==> a.target_count(
                    zones[k][z].1@.records[i],
                ) == 0
            &&& forall|z: int, i: int|
                0 <= z < zones[k + 1].len() && 0 <= i < zones[k + 1][z].1@.records.len() && (
                #[trigger] zones[k + 1][z].1@.records[i]).name@ == a.target_name@ && a.holds_target(
                    zones[k + 1][z].1@.records[i],
                ) ==> a.target_count(zones[k + 1][z].1@.records[i]) == 1
        }),
{
    let a = states[0];
    let k = probes.len() - 1;
    lemma_run_keeps_target(states, zones, probes, times, k);
    lemma_run_keeps_target(states, zones, probes, times, k - 1);
    let last = states[k - 1];
    let at = states[k];
    assert(!probes[k - 1]);
    assert(last.removes_on(false));
    assert(last.zones_after(probes[k - 1], zones[k - 1], zones[k]));
    assert(last.zones_updated(zones[k - 1], zones[k], false));
    assert(at.adds_on(true));
    assert(at.zones_after(probes[k], zones[k], zones[k + 1]));
    assert(at.zones_updated(zones[k], zones[k + 1], true));
    assert forall|z: int, i: int|
        0 <= z < zones[k].len() && 0 <= i < zones[k][z].1@.records.len() && (
        #[trigger] zones[k][z].1@.records[i]).name@ == a.target_name@ implies a.target_count(
            zones[k][z].1@.records[i],
        ) == 0 by {
        let r0 = zones[k - 1][z].1@.records[i];
        assert(zones[k][z].1@.records[i] == last.removed(r0));
        a.lemma_removed_then_added(r0);
    }
    assert forall|z: int, i: int|
        0 <= z < zones[k + 1].len() && 0 <= i < zones[k + 1][z].1@.records.len() && (
        #[trigger] zones[k + 1][z].1@.records[i]).name@ == a.target_name@ && a.holds_target(
            zones[k + 1][z].1@.records[i],
        ) implies a.target_count(zones[k + 1][z].1@.records[i]) == 1 by {
        let r0 = zones[k - 1][z].1@.records[i];
        assert(zones[k][z].1@.records[i] == last.removed(r0));
        assert(zones[k + 1][z].1@.records[i] == at.added(zones[k][z].1@.records[i]));
        a.lemma_removed_then_added(r0);
    }
}

/// The probes of a node, each driven once per round.
#[derive(Debug)]
pub struct HealthChecker {
    actions: Vec<HealthCheckAction>,
}

impl HealthChecker {
    pub closed spec fn actions(&self) -> Seq<HealthCheckAction> {
        self.actions@
    }

    pub fn new(actions: Vec<HealthCheckAction>) -> (r: HealthChecker)
        ensures
            r.actions() == actions@,
    {
        HealthChecker { actions }
    }

    /// The number of probes.
    pub fn len(&self) -> (r: usize)
        ensures
            r == self.actions().len(),
    {
        self.actions.len()
    }

    /// The address that probe `i` connects to.
    pub fn target(&self, i: usize) -> (r: SocketAddr)
        requires
            i < self.actions().len(),
        ensures
            r == self.actions()[i as int].target,
    {
        self.actions[i].target
    }

    /// The connect timeout of probe `i`, in milliseconds.
    pub fn timeout_ms(&self, i: usize) -> (r: u64)
        requires
            i < self.actions().len(),
        ensures
            r == self.actions()[i as int].healthcheck.timeout_ms,
    {
        self.actions[i].healthcheck.timeout_ms
    }

    /// Takes one round of probe outcomes made at time `now`, `healthy[i]`
    /// for probe `i`, and drives each probe in order.
    pub fn round(&mut self, config: &mut Config, healthy: &Vec<bool>, now: u64)
        requires
            healthy@.len() == old(self).actions().len(),
        ensures
            final(self).actions().len() == old(self).actions().len(),
            forall|i: int|
                0 <= i < healthy@.len() ==> #[trigger] final(self).actions()[i] == old(self).actions()[i].probed(
                    healthy@[i],
                    now,
                ),
            exists|zs: Seq<Seq<(DNSName, Zone)>>|
                {
                    &&& zs.len() == healthy@.len() + 1
                    &&& zs[0] == old(config).zones@
                    &&& zs.last() == final(config).zones@
                    &&& forall|i: int|
                        0 <= i < healthy@.len() ==> #[trigger] old(self).actions()[i].zones_after(
                            healthy@[i],
                            zs[i],
                            zs[i + 1],
                        )
                },
            final(config).peers == old(config).peers,
            final(config).me == old(config).me,
    {
        let ghost before = self.actions@;
        let ghost zs = seq![config.zones@];
        let mut i: usize = 0;
        while i < self.actions.len()
            invariant
                i <= self.actions@.len(),
                self.actions@.len() == before.len(),
                healthy@.len() == before.len(),
                forall|j: int| 0 <= j < i ==> #[trigger] self.actions@[j] == before[j].probed(healthy@[j], now),
                forall|j: int| i <= j < before.len() ==> #[trigger] self.actions@[j] == before[j],
                zs.len() == i + 1,
                zs[0] == old(config).zones@,
                zs.last() == config.zones@,
                forall|j: int| 0 <= j < i ==> #[trigger] before[j].zones_after(healthy@[j], zs[j], zs[j + 1]),
                config.peers == old(config).peers,
                config.me == old(config).me,
            decreases self.actions@.len() - i,
        {
            let ok = healthy[i];
            self.actions[i].perform(config, ok, now);
            proof {
                zs = zs.push(config.zones@);
            }
            i += 1;
        }
        assert(zs.len() == healthy@.len() + 1);
    }
}

} // verus!
