use border::config::{Config, ListenConfig, Record, Zone};
use border::dns_name::DNSName;
use border::health_check::{HealthCheck, HealthCheckTargetType, HealthCheckType, HealthChecker};
use border::lb::LBKind;
use border::listener::Listener;
use border::net::{IpAddr, SocketAddr};
use border::record_type::{RecordType, NS, SOA};

fn v4(a: u8, b: u8, c: u8, d: u8) -> IpAddr {
    IpAddr::V4(u32::from_be_bytes([a, b, c, d]))
}

fn name(s: &str) -> DNSName {
    DNSName::parse(s).unwrap()
}

fn config(records: Vec<Record>) -> Config {
    Config {
        listen: ListenConfig {
            dns: SocketAddr::new(v4(127, 0, 0, 1), 53),
            control: SocketAddr::new(v4(127, 0, 0, 1), 80),
        },
        peers: vec![],
        zones: vec![(
            name("example.com."),
            Zone {
                soa: SOA {
                    domain: name("ns1.example.com."),
                    admin: name("admin.example.com."),
                    minttl: 60,
                    serial: 1,
                    refresh: 1,
                    retry: 1,
                    expire: 1,
                },
                ns: NS { servers: vec![], ttl: 30 },
                records,
            },
        )],
        me: "p1".to_string(),
        shutdown_wait_ms: 0,
    }
}

fn addresses(c: &Config, i: usize) -> Vec<IpAddr> {
    match &c.zones[0].1.records[i].record {
        RecordType::A { addresses, .. } => addresses.clone(),
        _ => panic!("not an A record"),
    }
}

fn lb(c: &Config, i: usize) -> (Vec<SocketAddr>, Vec<Listener>) {
    match &c.zones[0].1.records[i].record {
        RecordType::LB { backends, listeners, .. } => (backends.clone(), listeners.clone()),
        _ => panic!("not an LB record"),
    }
}

fn check(failures: u8) -> HealthCheck {
    HealthCheck { failures, timeout_ms: 500, typ: HealthCheckType::TCP }
}

#[test]
fn health_driven_removal() {
    let target = v4(10, 0, 0, 5);
    let rec = Record {
        name: name("api.example.com."),
        record: RecordType::A { addresses: vec![v4(10, 0, 0, 4), target], ttl: 30, healthcheck: vec![] },
    };
    let mut c = config(vec![rec]);
    let mut action =
        check(3).to_action(SocketAddr::new(target, 80), HealthCheckTargetType::DNS, name("api.example.com."), None);
    action.perform(&mut c, false, 1);
    action.perform(&mut c, false, 2);
    assert!(addresses(&c, 0).contains(&target));
    action.perform(&mut c, false, 3);
    assert_eq!(action.failure_count, 3);
    assert_eq!(action.last_failure, Some(3));
    assert!(!addresses(&c, 0).contains(&target));
    action.perform(&mut c, true, 4);
    assert_eq!(addresses(&c, 0).iter().filter(|ip| **ip == target).count(), 1);
    assert_eq!(action.failure_count, 0);
    assert_eq!(action.last_failure, None);
    action.perform(&mut c, true, 5);
    assert_eq!(addresses(&c, 0).iter().filter(|ip| **ip == target).count(), 1);
}

#[test]
fn success_below_threshold_changes_nothing() {
    let target = v4(10, 0, 0, 5);
    let rec = Record {
        name: name("api.example.com."),
        record: RecordType::A { addresses: vec![v4(10, 0, 0, 4)], ttl: 30, healthcheck: vec![] },
    };
    let mut c = config(vec![rec]);
    let mut action =
        check(2).to_action(SocketAddr::new(target, 80), HealthCheckTargetType::DNS, name("api.example.com."), None);
    action.perform(&mut c, false, 1);
    action.perform(&mut c, true, 2);
    assert_eq!(addresses(&c, 0), vec![v4(10, 0, 0, 4)]);
}

#[test]
fn backend_and_frontend_targets() {
    let backend = SocketAddr::new(v4(10, 0, 2, 1), 8080);
    let rec = Record {
        name: name("lb.example.com."),
        record: RecordType::LB {
            backends: vec![backend],
            kind: LBKind::TCP,
            listeners: vec![Listener::new("p1".to_string(), 80)],
            tls: None,
            healthcheck: vec![],
            ttl: 30,
        },
    };
    let other = Record {
        name: name("other.example.com."),
        record: RecordType::LB {
            backends: vec![backend],
            kind: LBKind::TCP,
            listeners: vec![],
            tls: None,
            healthcheck: vec![],
            ttl: 30,
        },
    };
    let mut c = config(vec![rec, other]);
    let mut be = check(1).to_action(backend, HealthCheckTargetType::LBBackend, name("lb.example.com."), None);
    be.perform(&mut c, false, 1);
    assert!(lb(&c, 0).0.is_empty());
    assert_eq!(lb(&c, 1).0, vec![backend]);
    be.perform(&mut c, true, 2);
    assert_eq!(lb(&c, 0).0, vec![backend]);

    let mut fe = check(1).to_action(
        SocketAddr::new(v4(10, 0, 0, 1), 80),
        HealthCheckTargetType::LBFrontend,
        name("lb.example.com."),
        Some(Listener::new("p1".to_string(), 80)),
    );
    fe.perform(&mut c, false, 3);
    assert!(lb(&c, 0).1.is_empty());
    fe.perform(&mut c, true, 4);
    assert_eq!(lb(&c, 0).1, vec![Listener::new("p1".to_string(), 80)]);
}

#[test]
fn checker_round_drives_each_action() {
    let t1 = v4(10, 0, 0, 5);
    let t2 = v4(10, 0, 0, 6);
    let rec = Record {
        name: name("api.example.com."),
        record: RecordType::A { addresses: vec![t1, t2], ttl: 30, healthcheck: vec![] },
    };
    let mut c = config(vec![rec]);
    let a1 = check(1).to_action(SocketAddr::new(t1, 80), HealthCheckTargetType::DNS, name("api.example.com."), None);
    let a2 = check(1).to_action(SocketAddr::new(t2, 80), HealthCheckTargetType::DNS, name("api.example.com."), None);
    let mut checker = HealthChecker::new(vec![a1, a2]);
    assert_eq!(checker.len(), 2);
    assert_eq!(checker.target(1), SocketAddr::new(t2, 80));
    assert_eq!(checker.timeout_ms(0), 500);
    checker.round(&mut c, &vec![false, true], 10);
    assert_eq!(addresses(&c, 0), vec![t2]);
    checker.round(&mut c, &vec![true, true], 11);
    assert_eq!(addresses(&c, 0), vec![t2, t1]);
}
