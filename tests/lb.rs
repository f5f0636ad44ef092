use border::lb::{forwarded_for, BackendCount, LBError, LBKind, TcpDispatch, LB};
use border::net::{IpAddr, SocketAddr};
use border::record_type::RecordType;

fn b(n: u8) -> SocketAddr {
    SocketAddr::new(IpAddr::V4(u32::from_be_bytes([10, 0, 1, n])), 8000)
}

#[test]
fn least_in_flight_selection() {
    let mut c = BackendCount::new();
    assert_eq!(c.get_backend(vec![b(1)]), b(1));
    assert_eq!(c.get_backend(vec![b(1)]), b(1));
    assert_eq!(c.get_backend(vec![b(2)]), b(2));
    assert_eq!(c.get_backend(vec![b(3)]), b(3));
    assert_eq!((c.in_flight(b(1)), c.in_flight(b(2)), c.in_flight(b(3))), (2, 1, 1));
    let chosen = c.get_backend(vec![b(1), b(2), b(3)]);
    assert_eq!(chosen, b(2));
    assert_eq!((c.in_flight(b(1)), c.in_flight(b(2)), c.in_flight(b(3))), (2, 2, 1));
    c.finished(b(2));
    assert_eq!((c.in_flight(b(1)), c.in_flight(b(2)), c.in_flight(b(3))), (2, 1, 1));
}

#[test]
fn unseen_backend_counts_as_idle() {
    let mut c = BackendCount::new();
    c.get_backend(vec![b(1)]);
    assert_eq!(c.get_backend(vec![b(1), b(4)]), b(4));
    assert_eq!(c.in_flight(b(4)), 1);
}

#[test]
fn get_and_finished_balance() {
    let mut c = BackendCount::new();
    let list = vec![b(1), b(2)];
    let mut taken = Vec::new();
    for _ in 0..5 {
        taken.push(c.get_backend(list.clone()));
    }
    assert_eq!(c.in_flight(b(1)) + c.in_flight(b(2)), 5);
    assert_eq!(c.in_flight(b(1)), 3);
    for t in taken {
        c.finished(t);
    }
    assert_eq!((c.in_flight(b(1)), c.in_flight(b(2))), (0, 0));
}

#[test]
fn tcp_dispatch_retries_without_failed_backend() {
    let mut d = TcpDispatch::new(vec![b(1), b(2)]);
    let first = d.select().unwrap();
    assert_eq!(first, b(1));
    d.connect_failed(first);
    assert_eq!(d.in_flight(b(1)), 0);
    assert_eq!(d.select(), Some(b(2)));
    assert_eq!(d.select(), Some(b(2)));
    assert_eq!(d.in_flight(b(2)), 2);
    d.closed(b(2));
    assert_eq!(d.in_flight(b(2)), 1);
    d.connect_failed(b(2));
    assert_eq!(d.select(), None);
}

#[test]
fn http_x_forwarded_for() {
    assert_eq!(forwarded_for("10.0.0.1", Some("1.2.3.4")), "10.0.0.1,1.2.3.4");
    assert_eq!(forwarded_for("10.0.0.1", None), "10.0.0.1");
    let mut c = BackendCount::new();
    let chosen = c.get_backend(vec![b(7)]);
    assert_eq!(chosen, b(7));
    assert_eq!(chosen.ip(), IpAddr::V4(0x0A00_0107));
    assert_eq!(chosen.port(), 8000);
}

#[test]
fn lb_new_rejects_other_records() {
    let r = RecordType::TXT { value: vec![], ttl: 30 };
    assert_eq!(LB::new(r).unwrap_err(), LBError::NotLB);
    let lb = LB::new(RecordType::LB {
        backends: vec![b(1), b(2)],
        kind: LBKind::HTTP,
        listeners: vec![],
        tls: None,
        healthcheck: vec![],
        ttl: 30,
    })
    .unwrap();
    assert_eq!(lb.kind().unwrap(), LBKind::HTTP);
    assert_eq!(lb.backends().unwrap(), vec![b(1), b(2)]);
}
