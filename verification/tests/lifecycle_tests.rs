use balance_channel::channel::Channel;
use balance_channel::connection::{Health, BACKOFF_BASE_MS, BACKOFF_CAP_MS};
use balance_channel::endpoint::parse;
use balance_channel::errors::{ChannelError, ConnectError};
use balance_channel::pool::Pool;

fn make_channel(addresses: &[&str]) -> Channel {
    let owned: Vec<String> = addresses.iter().map(|a| a.to_string()).collect();
    Channel::new(&owned)
}

#[test]
fn backoff_doubles_and_caps() {
    let mut pool = Pool::new();
    pool.add_endpoint(parse("a:1").unwrap());
    assert_eq!(pool.conns[0].backoff_ms, BACKOFF_BASE_MS);
    let expected = [2000u64, 4000, 8000, 16000, 30000, 30000, 30000];
    for want in expected {
        pool.report_dial_failure(0, ConnectError::Refused);
        assert_eq!(pool.conns[0].backoff_ms, want);
        assert!(pool.conns[0].backoff_ms <= BACKOFF_CAP_MS);
    }
    // A successful dial resets the schedule.
    pool.report_dial_success(0);
    assert_eq!(pool.conns[0].backoff_ms, BACKOFF_BASE_MS);
    assert_eq!(pool.conns[0].health, Health::Ready);
}

#[test]
fn dial_failure_keeps_reason() {
    let mut pool = Pool::new();
    pool.add_endpoint(parse("a:1").unwrap());
    pool.report_dial_failure(0, ConnectError::Timeout);
    assert_eq!(pool.conns[0].health, Health::Failed(ConnectError::Timeout));
}

#[test]
fn shutdown_closes_every_slot() {
    let mut channel = make_channel(&["a:1", "b:2", "c:3"]);
    channel.pool.report_dial_success(1);
    channel.shutdown();
    for c in channel.pool.conns.iter() {
        assert_eq!(c.health, Health::Closed);
    }
    assert_eq!(channel.pick_connection().unwrap_err(), ChannelError::NoEndpoints);
}

#[test]
fn shutdown_twice_has_no_further_effect() {
    let mut channel = make_channel(&["a:1", "b:2"]);
    channel.pool.report_dial_success(0);
    channel.shutdown();
    let after_first: Vec<(Vec<u8>, Vec<u8>, u16, Health, u64)> = channel
        .pool
        .conns
        .iter()
        .map(|c| (c.endpoint.scheme.clone(), c.endpoint.host.clone(), c.endpoint.port, c.health,
            c.backoff_ms))
        .collect();
    channel.shutdown();
    let after_second: Vec<(Vec<u8>, Vec<u8>, u16, Health, u64)> = channel
        .pool
        .conns
        .iter()
        .map(|c| (c.endpoint.scheme.clone(), c.endpoint.host.clone(), c.endpoint.port, c.health,
            c.backoff_ms))
        .collect();
    assert_eq!(after_first, after_second);
    assert_eq!(channel.balancer.cursor, 0);
}

#[test]
fn dial_result_after_close_is_discarded() {
    let mut channel = make_channel(&["a:1"]);
    channel.shutdown();
    // A dial that was in flight at shutdown reports afterwards; the
    // slot stays closed.
    channel.pool.report_dial_success(0);
    assert_eq!(channel.pool.conns[0].health, Health::Closed);
    channel.pool.report_dial_failure(0, ConnectError::Io);
    assert_eq!(channel.pool.conns[0].health, Health::Closed);
}

#[test]
fn add_and_remove_endpoints_keep_order() {
    let mut pool = Pool::new();
    assert!(pool.add_endpoint(parse("a:1").unwrap()));
    assert!(pool.add_endpoint(parse("b:2").unwrap()));
    assert!(pool.add_endpoint(parse("c:3").unwrap()));
    assert!(!pool.add_endpoint(parse("b:2").unwrap()));
    assert_eq!(pool.len(), 3);

    let b = parse("b:2").unwrap();
    assert!(pool.remove_endpoint(&b));
    assert!(!pool.remove_endpoint(&b));
    assert_eq!(pool.len(), 2);
    assert_eq!(pool.conns[0].endpoint.host, "a".as_bytes().to_vec());
    assert_eq!(pool.conns[1].endpoint.host, "c".as_bytes().to_vec());
}

#[test]
fn snapshot_reflects_health_in_slot_order() {
    let mut pool = Pool::new();
    pool.add_endpoint(parse("a:1").unwrap());
    pool.add_endpoint(parse("b:2").unwrap());
    pool.report_dial_success(1);
    let snap = pool.snapshot();
    assert_eq!(snap, vec![Health::Connecting, Health::Ready]);
}

#[test]
fn snapshot_with_endpoints_pairs_address_and_health() {
    let mut pool = Pool::new();
    pool.add_endpoint(parse("http://a:1").unwrap());
    pool.add_endpoint(parse("http://b:2").unwrap());
    pool.report_dial_success(0);
    let snap = pool.snapshot_with_endpoints();
    assert_eq!(snap.len(), 2);
    assert_eq!(snap[0].0.host, "a".as_bytes().to_vec());
    assert_eq!(snap[0].1, Health::Ready);
    assert_eq!(snap[1].0.host, "b".as_bytes().to_vec());
    assert_eq!(snap[1].1, Health::Connecting);
}
