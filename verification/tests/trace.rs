use linewatch::trace::{
    answer, build_icmp_echo, internet_checksum, read_expired, read_reply, trace_budget, ConnectResult,
    PathTrace, Reply, MAX_DURATION, MAX_HOPS,
};

#[test]
fn checksum_has_exact_values() {
    assert_eq!(internet_checksum(&[]), 0xffff);
    assert_eq!(internet_checksum(&[0x12]), !0x1200);
    assert_eq!(
        internet_checksum(&[0x00, 0x01, 0xf2, 0x03, 0xf4, 0xf5, 0xf6, 0xf7]),
        0x220d
    );
}

#[test]
fn echo_request_has_an_exact_form() {
    let pkt = build_icmp_echo(0x1234, 7, b"linewatch");
    assert_eq!(pkt.len(), 17);
    assert_eq!(&pkt[0..2], &[8, 0]);
    assert_eq!(&pkt[4..8], &[0x12, 0x34, 0, 7]);
    assert_eq!(&pkt[8..], b"linewatch");
    // A packet with its checksum in place sums to zero.
    assert_eq!(internet_checksum(&pkt), 0);
}

fn ip_header(words: u8) -> Vec<u8> {
    let mut h = vec![0x40 | words];
    h.resize(words as usize * 4, 0);
    h
}

fn echo_reply(ident: u16, seq: u16) -> Vec<u8> {
    let mut p = ip_header(5);
    p.extend_from_slice(&[0, 0, 0, 0]);
    p.extend_from_slice(&ident.to_be_bytes());
    p.extend_from_slice(&seq.to_be_bytes());
    p
}

fn time_exceeded(ident: u16, seq: u16) -> Vec<u8> {
    let mut p = ip_header(6);
    p.extend_from_slice(&[11, 0, 0, 0, 0, 0, 0, 0]);
    p.extend_from_slice(&ip_header(5));
    p.extend_from_slice(&build_icmp_echo(ident, seq, b""));
    p
}

#[test]
fn replies_are_told_apart() {
    assert_eq!(read_reply(&echo_reply(0xabcd, 3), 0xabcd, 3), Reply::Echo);
    assert_eq!(read_reply(&echo_reply(0xabcd, 3), 0xabcd, 4), Reply::Other);
    assert_eq!(read_reply(&echo_reply(0xabcd, 3), 0xabce, 3), Reply::Other);
    assert_eq!(
        read_reply(&time_exceeded(0xabcd, 3), 0xabcd, 3),
        Reply::TimeExceeded
    );
    assert_eq!(read_reply(&time_exceeded(0xabcd, 3), 0xabcd, 2), Reply::Other);
    let mut unreachable = time_exceeded(0xabcd, 3);
    unreachable[24] = 3;
    assert_eq!(read_reply(&unreachable, 0xabcd, 3), Reply::Other);
}

#[test]
fn replies_stand_for_an_address() {
    let from = |reply| answer(reply, "10.0.0.1".to_owned(), "1.1.1.1");
    assert_eq!(from(Reply::TimeExceeded).as_deref(), Some("10.0.0.1"));
    assert_eq!(from(Reply::Echo).as_deref(), Some("1.1.1.1"));
    assert_eq!(from(Reply::Other), None);
    assert_eq!(from(Reply::Truncated), None);
}

#[test]
fn short_packets_are_no_replies() {
    assert_eq!(read_reply(&[], 1, 1), Reply::Truncated);
    assert_eq!(read_reply(&[0x4f, 0, 0], 1, 1), Reply::Other);
    let mut cut = echo_reply(1, 1);
    cut.truncate(26);
    assert_eq!(read_reply(&cut, 1, 1), Reply::Truncated);
    let mut cut = time_exceeded(1, 1);
    cut.pop();
    assert_eq!(read_reply(&cut, 1, 1), Reply::Other);
}

#[test]
fn any_expired_packet_will_do() {
    assert_eq!(read_expired(&time_exceeded(1, 1)), Reply::TimeExceeded);
    assert_eq!(read_expired(&echo_reply(1, 1)), Reply::Other);
    assert_eq!(read_expired(&[]), Reply::Truncated);
}

#[test]
fn budget_is_the_time_of_all_hops() {
    assert_eq!(trace_budget(3_000_000_000), 90_000_000_000);
    assert_eq!(trace_budget(MAX_DURATION), MAX_DURATION);
}

#[test]
fn trace_ends_at_the_target() {
    let mut t = PathTrace::new("1.1.1.1".to_owned());
    assert_eq!(t.next_ttl(), Some(1));
    t.record(Some("192.168.1.1".to_owned()), Some(5));
    assert_eq!(t.next_ttl(), Some(2));
    t.record(None, None);
    t.record(Some("1.1.1.1".to_owned()), Some(9));
    assert_eq!(t.next_ttl(), None);
    t.record(None, None);
    let hops = t.into_hops();
    assert_eq!(hops.len(), 3);
    assert_eq!(hops[2].ttl, 3);
    assert_eq!(hops[2].addr.as_deref(), Some("1.1.1.1"));
}

#[test]
fn trace_ends_after_the_last_hop() {
    let mut t = PathTrace::new("10.255.255.1".to_owned());
    while t.next_ttl().is_some() {
        t.record_connect(ConnectResult::Failed, None, 7);
    }
    let hops = t.into_hops();
    assert_eq!(hops.len(), MAX_HOPS as usize);
    assert_eq!(hops[29].ttl, 30);
    assert_ne!(hops[29].addr.as_deref(), Some("10.255.255.1"));
    assert_eq!(hops[29].rtt, None);
}

#[test]
fn broken_path_ends_at_the_last_router_that_answered() {
    let mut t = PathTrace::new("10.255.255.1".to_owned());
    t.record(None, None);
    t.record(Some("192.168.1.1".to_owned()), Some(3));
    while t.next_ttl().is_some() {
        t.record(None, None);
    }
    let hops = t.into_hops();
    assert_eq!(hops.len(), 2);
    assert_eq!(hops[0].addr, None);
    assert_eq!(hops[1].ttl, 2);
    assert_eq!(hops[1].addr.as_deref(), Some("192.168.1.1"));
}

#[test]
fn refused_connection_has_reached_the_target() {
    for result in [
        ConnectResult::Connected,
        ConnectResult::Refused,
        ConnectResult::Reset,
    ] {
        let mut t = PathTrace::new("127.0.0.1".to_owned());
        t.record_connect(ConnectResult::Failed, Some("10.0.0.1".to_owned()), 4);
        t.record_connect(result, None, 5);
        assert_eq!(t.next_ttl(), None);
        let hops = t.into_hops();
        assert_eq!(hops[0].addr.as_deref(), Some("10.0.0.1"));
        assert_eq!(hops[0].rtt, Some(4));
        assert_eq!(hops[1].addr.as_deref(), Some("127.0.0.1"));
        assert_eq!(hops[1].rtt, Some(5));
    }
}
