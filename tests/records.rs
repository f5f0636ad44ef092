use border::config::{Config, ConfigError, ListenConfig, Peer, Record};
use border::dns_name::{DNSName, DNSNameError};
use border::lb::LBKind;
use border::listener::{Listener, ListenerError};
use border::net::{IpAddr, SocketAddr};
use border::record_type::{default_ttl, RecordType};

fn v4(a: u8, b: u8, c: u8, d: u8) -> IpAddr {
    IpAddr::V4(u32::from_be_bytes([a, b, c, d]))
}

fn a_record(ips: Vec<IpAddr>) -> Record {
    Record {
        name: DNSName::parse("api.example.com.").unwrap(),
        record: RecordType::A { addresses: ips, ttl: 30, healthcheck: vec![] },
    }
}

fn lb_record() -> Record {
    Record {
        name: DNSName::parse("lb.example.com.").unwrap(),
        record: RecordType::LB {
            backends: vec![],
            kind: LBKind::HTTP,
            listeners: vec![],
            tls: None,
            healthcheck: vec![],
            ttl: 30,
        },
    }
}

fn addresses(r: &Record) -> Vec<IpAddr> {
    match &r.record {
        RecordType::A { addresses, .. } => addresses.clone(),
        _ => panic!("not an A record"),
    }
}

fn backends(r: &Record) -> Vec<SocketAddr> {
    match &r.record {
        RecordType::LB { backends, .. } => backends.clone(),
        _ => panic!("not an LB record"),
    }
}

fn listeners(r: &Record) -> Vec<Listener> {
    match &r.record {
        RecordType::LB { listeners, .. } => listeners.clone(),
        _ => panic!("not an LB record"),
    }
}

#[test]
fn add_ip_avoids_duplicates() {
    let mut r = a_record(vec![v4(10, 0, 0, 1)]);
    r.add_ip(v4(10, 0, 0, 5));
    r.add_ip(v4(10, 0, 0, 5));
    assert_eq!(addresses(&r), vec![v4(10, 0, 0, 1), v4(10, 0, 0, 5)]);
}

#[test]
fn remove_ip_is_idempotent() {
    let mut r = a_record(vec![v4(10, 0, 0, 5), v4(10, 0, 0, 1), v4(10, 0, 0, 5)]);
    r.remove_ip(v4(10, 0, 0, 5));
    assert_eq!(addresses(&r), vec![v4(10, 0, 0, 1)]);
    r.remove_ip(v4(10, 0, 0, 5));
    assert_eq!(addresses(&r), vec![v4(10, 0, 0, 1)]);
}

#[test]
fn mutators_ignore_other_variants() {
    let mut r = a_record(vec![v4(10, 0, 0, 1)]);
    r.add_backend(SocketAddr::new(v4(10, 0, 0, 9), 80));
    r.add_listener(Listener::new("p1".to_string(), 80));
    r.remove_listener(Listener::new("p1".to_string(), 80));
    assert_eq!(addresses(&r), vec![v4(10, 0, 0, 1)]);
    let mut lb = lb_record();
    lb.add_ip(v4(10, 0, 0, 1));
    assert!(backends(&lb).is_empty());
    assert!(listeners(&lb).is_empty());
}

#[test]
fn backend_and_listener_mutators() {
    let mut r = lb_record();
    let b = SocketAddr::new(v4(10, 0, 0, 9), 8080);
    r.add_backend(b);
    r.add_backend(b);
    assert_eq!(backends(&r), vec![b]);
    r.remove_backend(b);
    r.remove_backend(b);
    assert!(backends(&r).is_empty());
    r.add_listener(Listener::new("p1".to_string(), 80));
    r.add_listener(Listener::new("p1".to_string(), 80));
    r.add_listener(Listener::new("p1".to_string(), 81));
    assert_eq!(listeners(&r).len(), 2);
    r.remove_listener(Listener::new("p1".to_string(), 80));
    assert_eq!(listeners(&r), vec![Listener::new("p1".to_string(), 81)]);
}

#[test]
fn listener_expansion_keeps_order() {
    let c = Config {
        listen: ListenConfig {
            dns: SocketAddr::new(v4(127, 0, 0, 1), 53),
            control: SocketAddr::new(v4(127, 0, 0, 1), 80),
        },
        peers: vec![
            Peer { ips: vec![v4(10, 0, 0, 9)], control_server: String::new(), key_id: "q".to_string() },
            Peer {
                ips: vec![v4(10, 0, 0, 1), IpAddr::V6(1)],
                control_server: String::new(),
                key_id: "p".to_string(),
            },
        ],
        zones: vec![],
        me: "p".to_string(),
        shutdown_wait_ms: 0,
    };
    let l = Listener::new("p".to_string(), 8443);
    assert_eq!(
        l.addr(&c),
        Some(vec![SocketAddr::new(v4(10, 0, 0, 1), 8443), SocketAddr::new(IpAddr::V6(1), 8443)])
    );
    assert_eq!(Listener::new("nobody".to_string(), 1).addr(&c), None);
}

#[test]
fn select_peer_known_and_unknown() {
    let mut c = Config {
        listen: ListenConfig {
            dns: SocketAddr::new(v4(127, 0, 0, 1), 53),
            control: SocketAddr::new(v4(127, 0, 0, 1), 80),
        },
        peers: vec![Peer { ips: vec![], control_server: String::new(), key_id: "p1".to_string() }],
        zones: vec![],
        me: String::new(),
        shutdown_wait_ms: 0,
    };
    assert_eq!(c.select_peer("p9".to_string()), Err(ConfigError::UnknownPeer));
    assert_eq!(c.me, "");
    assert_eq!(c.select_peer("p1".to_string()), Ok(()));
    assert_eq!(c.me, "p1");
    assert_eq!(c.peers[0].name(), "p1");
}

#[test]
fn listener_text_round_trip() {
    let l = Listener::new("peer-one".to_string(), 8080);
    assert_eq!(l.to_text(), "peer-one:8080");
    assert_eq!(Listener::parse("peer-one:8080"), Ok(l));
    assert_eq!(Listener::new("p".to_string(), 0).to_text(), "p:0");
    assert_eq!(Listener::parse("p:65535").unwrap().port(), 65535);
    assert_eq!(Listener::parse("p:+7").unwrap().port(), 7);
    let split = Listener::parse("a:1:2");
    assert_eq!(split, Err(ListenerError::InvalidPort));
}

#[test]
fn listener_parse_errors() {
    assert_eq!(Listener::parse("peer"), Err(ListenerError::MissingPort));
    assert_eq!(Listener::parse("peer:"), Err(ListenerError::InvalidPort));
    assert_eq!(Listener::parse("peer:65536"), Err(ListenerError::InvalidPort));
    assert_eq!(Listener::parse("peer:-1"), Err(ListenerError::InvalidPort));
    assert_eq!(Listener::parse("peer:8o"), Err(ListenerError::InvalidPort));
    let l = Listener::parse(":53").unwrap();
    assert_eq!(l.name(), "");
    assert_eq!(l.port(), 53);
}

#[test]
fn dns_name_parse_canonicalises() {
    let n = DNSName::parse("WWW.Example.COM.").unwrap();
    assert_eq!(n.as_str(), "www.example.com.");
    assert_eq!(n, DNSName::parse("www.example.com.").unwrap());
    assert_eq!(DNSName::parse("bad name!.com."), Err(DNSNameError::Invalid));
}

#[test]
fn default_ttl_is_thirty() {
    assert_eq!(default_ttl(), 30);
}
