use border::config::{Config, ListenConfig, Peer, Record, Zone};
use border::dns_name::DNSName;
use border::lb::LBKind;
use border::listener::Listener;
use border::net::{IpAddr, SocketAddr};
use border::record_type::{RData, RecordSet, RecordType, RrType, NS, SOA};
use border::serve::{construct_catalog, lb_tasks, CatalogError};

fn v4(a: u8, b: u8, c: u8, d: u8) -> IpAddr {
    IpAddr::V4(u32::from_be_bytes([a, b, c, d]))
}

fn name(s: &str) -> DNSName {
    DNSName::parse(s).unwrap()
}

fn soa(serial: u32, minttl: u32) -> SOA {
    SOA {
        domain: name("ns1.example.com."),
        admin: name("admin.example.com."),
        minttl,
        serial,
        refresh: 3600,
        retry: 600,
        expire: 86400,
    }
}

fn peer(n: &str, ips: Vec<IpAddr>) -> Peer {
    Peer { ips, control_server: format!("http://{}.example.com/", n), key_id: n.to_string() }
}

fn config(records: Vec<Record>, me: &str) -> Config {
    let addr = SocketAddr::new(v4(127, 0, 0, 1), 53);
    Config {
        listen: ListenConfig { dns: addr, control: SocketAddr::new(v4(127, 0, 0, 1), 8080) },
        peers: vec![peer("p1", vec![v4(10, 0, 0, 1)]), peer("p2", vec![v4(10, 0, 0, 2)])],
        zones: vec![(
            name("example.com."),
            Zone {
                soa: soa(7, 60),
                ns: NS { servers: vec![name("ns1.example.com."), name("ns2.example.com.")], ttl: 300 },
                records,
            },
        )],
        me: me.to_string(),
        shutdown_wait_ms: 1000,
    }
}

fn lb_record(owner: &str) -> Record {
    Record {
        name: name(owner),
        record: RecordType::LB {
            backends: vec![SocketAddr::new(v4(192, 168, 0, 10), 8000)],
            kind: LBKind::TCP,
            listeners: vec![Listener::new("p1".to_string(), 80), Listener::new("p2".to_string(), 80)],
            tls: None,
            healthcheck: vec![],
            ttl: 30,
        },
    }
}

fn find<'a>(sets: &'a [RecordSet], owner: &str, t: RrType) -> Vec<&'a RecordSet> {
    sets.iter().filter(|s| s.name.as_str() == owner && s.rr_type == t).collect()
}

#[test]
fn soa_emission() {
    let c = config(vec![], "p1");
    let catalog = construct_catalog(&c).unwrap();
    assert_eq!(catalog.len(), 1);
    assert_eq!(catalog[0].origin.as_str(), "example.com.");
    let soas = find(&catalog[0].record_sets, "example.com.", RrType::SOA);
    assert_eq!(soas.len(), 1);
    assert_eq!(soas[0].serial, 7);
    assert_eq!(soas[0].ttl, 60);
    match &soas[0].rdata[0] {
        RData::SOA(d) => {
            assert_eq!(d.serial, 7);
            assert_eq!(d.refresh, 3600);
            assert_eq!(d.retry, 600);
            assert_eq!(d.expire, 86400);
            assert_eq!(d.minimum, 60);
            assert_eq!(d.mname.as_str(), "ns1.example.com.");
        }
        _ => panic!("expected SOA data"),
    }
}

#[test]
fn ns_emission_one_entry_per_server() {
    let c = config(vec![], "p1");
    let catalog = construct_catalog(&c).unwrap();
    let ns = find(&catalog[0].record_sets, "example.com.", RrType::NS);
    assert_eq!(ns.len(), 1);
    assert_eq!(ns[0].rdata.len(), 2);
    assert_eq!(ns[0].ttl, 300);
}

#[test]
fn static_a_split() {
    let rec = Record {
        name: name("www.example.com."),
        record: RecordType::A {
            addresses: vec![v4(192, 0, 2, 1), IpAddr::V6(0x2001_0db8_0000_0000_0000_0000_0000_0001)],
            ttl: 30,
            healthcheck: vec![],
        },
    };
    let catalog = construct_catalog(&config(vec![rec], "p1")).unwrap();
    let a = find(&catalog[0].record_sets, "www.example.com.", RrType::A);
    let aaaa = find(&catalog[0].record_sets, "www.example.com.", RrType::AAAA);
    assert_eq!(a.len(), 1);
    assert_eq!(aaaa.len(), 1);
    assert_eq!(a[0].ttl, 30);
    assert_eq!(aaaa[0].ttl, 30);
    assert_eq!(a[0].serial, 7);
    assert!(matches!(a[0].rdata.as_slice(), [RData::A(x)] if *x == 0xC000_0201));
    assert!(matches!(aaaa[0].rdata.as_slice(), [RData::AAAA(x)] if *x == 0x2001_0db8_0000_0000_0000_0000_0000_0001));
}

#[test]
fn lb_local_expansion() {
    let catalog = construct_catalog(&config(vec![lb_record("lb.example.com.")], "p1")).unwrap();
    let a = find(&catalog[0].record_sets, "lb.example.com.", RrType::A);
    let aaaa = find(&catalog[0].record_sets, "lb.example.com.", RrType::AAAA);
    assert_eq!(a.len(), 1);
    assert!(matches!(a[0].rdata.as_slice(), [RData::A(x)] if *x == 0x0A00_0001));
    assert!(aaaa.iter().all(|s| s.rdata.is_empty()));
}

#[test]
fn lb_without_local_listener_publishes_nothing() {
    let catalog = construct_catalog(&config(vec![lb_record("lb.example.com.")], "p3")).unwrap();
    assert!(catalog[0].record_sets.iter().all(|s| s.name.as_str() != "lb.example.com."));
    assert_eq!(catalog[0].record_sets.len(), 2);
}

#[test]
fn txt_record_single_entry() {
    let rec = Record {
        name: name("txt.example.com."),
        record: RecordType::TXT { value: vec!["v=spf1".to_string(), "-all".to_string()], ttl: 45 },
    };
    let catalog = construct_catalog(&config(vec![rec], "p1")).unwrap();
    let t = find(&catalog[0].record_sets, "txt.example.com.", RrType::TXT);
    assert_eq!(t.len(), 1);
    assert_eq!(t[0].ttl, 45);
    match t[0].rdata.as_slice() {
        [RData::TXT(v)] => assert_eq!(v, &vec!["v=spf1".to_string(), "-all".to_string()]),
        _ => panic!("expected one TXT record"),
    }
}

#[test]
fn colliding_records_merge_in_order() {
    let a1 = Record {
        name: name("www.example.com."),
        record: RecordType::A { addresses: vec![v4(192, 0, 2, 1)], ttl: 30, healthcheck: vec![] },
    };
    let a2 = Record {
        name: name("WWW.example.com."),
        record: RecordType::A { addresses: vec![v4(192, 0, 2, 2)], ttl: 30, healthcheck: vec![] },
    };
    let catalog = construct_catalog(&config(vec![a1, a2], "p1")).unwrap();
    let a = find(&catalog[0].record_sets, "www.example.com.", RrType::A);
    assert_eq!(a.len(), 1);
    assert!(matches!(a[0].rdata.as_slice(), [RData::A(x), RData::A(y)] if *x == 0xC000_0201 && *y == 0xC000_0202));
    assert_eq!(find(&catalog[0].record_sets, "example.com.", RrType::SOA).len(), 1);
}

#[test]
fn soa_out_of_range_is_rejected() {
    let mut c = config(vec![], "p1");
    c.zones[0].1.soa.expire = u32::MAX;
    assert_eq!(construct_catalog(&c).unwrap_err(), CatalogError::SoaOutOfRange);
}

#[test]
fn lb_tasks_one_per_lb_record() {
    let a = Record {
        name: name("www.example.com."),
        record: RecordType::A { addresses: vec![v4(192, 0, 2, 1)], ttl: 30, healthcheck: vec![] },
    };
    let c = config(vec![lb_record("lb.example.com."), a, lb_record("lb2.example.com.")], "p1");
    let tasks = lb_tasks(&c);
    assert_eq!(tasks.len(), 2);
    assert_eq!(tasks[0].kind().unwrap(), LBKind::TCP);
    let addrs = tasks[0].listen_addrs(&c).unwrap().unwrap();
    assert_eq!(addrs, vec![SocketAddr::new(v4(10, 0, 0, 1), 80)]);
}
