use balance_channel::channel::{CallOutcome, Channel};
use balance_channel::connection::Health;
use balance_channel::errors::{CallError, ChannelError};

fn make_channel(addresses: &[&str]) -> Channel {
    let owned: Vec<String> = addresses.iter().map(|a| a.to_string()).collect();
    Channel::new(&owned)
}

fn start_all(ch: &mut Channel) {
    let n = ch.pool.len();
    let mut i = 0;
    while i < n {
        ch.pool.report_dial_success(i);
        i += 1;
    }
}

#[test]
fn test_with_balance_channel_several_endpoints() {
    let http_addresses = ["http://[::1]:50052", "http://[::1]:50053", "http://[::1]:50054",
        "http://[::1]:50055", "http://[::1]:50056", "http://[::1]:50057", "http://[::1]:50058"];
    let mut channel = make_channel(&http_addresses);

    // No servers started. We should receive an error.
    let response_result = channel.pick_connection();
    assert!(response_result.is_err());

    // Start servers: every dial completes.
    start_all(&mut channel);

    // Servers started. Every call should succeed with no further errors.
    let mut error_count = 0;
    let mut calls = 0;
    while calls < 20 {
        match channel.pick_connection() {
            Ok(i) => {
                let reply = channel
                    .complete_call(i, CallOutcome::Reply(format!("hello (from {})", i)))
                    .unwrap();
                assert_eq!(reply, format!("hello (from {})", i));
            }
            Err(_) => {
                error_count += 1;
            }
        }
        calls += 1;
    }
    assert_eq!(0, error_count, "Error count should be at 0 once every endpoint is up.");
}

#[test]
fn test_with_balance_channel_one_endpoint() {
    let http_addresses = ["http://[::1]:50051"];
    let mut channel = make_channel(&http_addresses);

    // No server started. We should receive an error.
    let response_result = channel.pick_connection();
    assert!(response_result.is_err());

    // Start the server.
    start_all(&mut channel);

    // Server started. We should receive the response.
    let picked = channel.pick_connection().unwrap();
    let response_result = channel.complete_call(picked, CallOutcome::Reply("hello".to_string()));
    assert!(response_result.is_ok());
}

#[test]
fn empty_endpoint_list_always_no_endpoints() {
    let mut channel = make_channel(&[]);
    for _ in 0..5 {
        assert_eq!(channel.pick_connection().unwrap_err(), ChannelError::NoEndpoints);
    }
}

#[test]
fn round_robin_cycles_through_all_endpoints() {
    let mut channel = make_channel(&["a:1", "b:2", "c:3", "d:4", "e:5"]);
    start_all(&mut channel);
    let mut picks = Vec::new();
    for _ in 0..10 {
        picks.push(channel.pick_connection().unwrap());
    }
    // Starting just after cursor 0: slots 1,2,3,4,0 then repeating.
    assert_eq!(picks, vec![1, 2, 3, 4, 0, 1, 2, 3, 4, 0]);
    // No slot is picked twice before every slot is picked once.
    let mut first_turn = picks[0..5].to_vec();
    first_turn.sort();
    assert_eq!(first_turn, vec![0, 1, 2, 3, 4]);
}

#[test]
fn pick_skips_unready_slots_in_order() {
    let mut channel = make_channel(&["a:1", "b:2", "c:3", "d:4"]);
    channel.pool.report_dial_success(1);
    channel.pool.report_dial_success(3);
    // Slots 0 and 2 are still connecting: only 1 and 3 alternate.
    assert_eq!(channel.pick_connection().unwrap(), 1);
    assert_eq!(channel.pick_connection().unwrap(), 3);
    assert_eq!(channel.pick_connection().unwrap(), 1);
    assert_eq!(channel.pick_connection().unwrap(), 3);
}

#[test]
fn duplicate_addresses_collapse_to_one_slot() {
    let channel = make_channel(&["http://a:1", "http://a:1", "http://b:2"]);
    assert_eq!(channel.pool.len(), 2);
}

#[test]
fn malformed_address_costs_only_its_slot() {
    let channel = make_channel(&["nonsense", "http://a:1", "h:99999"]);
    assert_eq!(channel.pool.len(), 1);
    assert_eq!(channel.pool.conns[0].endpoint.port, 1);
}

#[test]
fn reply_is_returned_verbatim() {
    let mut channel = make_channel(&["a:1"]);
    start_all(&mut channel);
    let i = channel.pick_connection().unwrap();
    let got = channel.complete_call(i, CallOutcome::Reply(vec![9u8, 8, 7])).unwrap();
    assert_eq!(got, vec![9u8, 8, 7]);
    // The slot that served the call is still ready.
    assert_eq!(channel.pool.conns[i].health, Health::Ready);
}

#[test]
fn transport_failure_surfaces_unavailable_and_fails_slot() {
    let mut channel = make_channel(&["a:1", "b:2"]);
    start_all(&mut channel);
    let i = channel.pick_connection().unwrap();
    let r: Result<String, ChannelError> = channel.complete_call(i, CallOutcome::TransportFailure);
    assert_eq!(r.unwrap_err(), ChannelError::Call(CallError::Unavailable));
    assert!(matches!(channel.pool.conns[i].health, Health::Failed(_)));
    // The next pick avoids the failed slot.
    let j = channel.pick_connection().unwrap();
    assert_ne!(i, j);
}

#[test]
fn bad_reply_surfaces_protocol_and_keeps_health() {
    let mut channel = make_channel(&["a:1"]);
    start_all(&mut channel);
    let i = channel.pick_connection().unwrap();
    let r: Result<String, ChannelError> = channel.complete_call(i, CallOutcome::BadReply);
    assert_eq!(r.unwrap_err(), ChannelError::Call(CallError::Protocol));
    assert_eq!(channel.pool.conns[i].health, Health::Ready);
}

#[test]
fn timeout_surfaces_timeout_and_keeps_health() {
    let mut channel = make_channel(&["a:1"]);
    start_all(&mut channel);
    let i = channel.pick_connection().unwrap();
    let r: Result<String, ChannelError> = channel.complete_call(i, CallOutcome::TimedOut);
    assert_eq!(r.unwrap_err(), ChannelError::Call(CallError::Timeout));
    assert_eq!(channel.pool.conns[i].health, Health::Ready);
}

#[test]
fn single_endpoint_recovers_after_failure() {
    // Zero endpoints reachable: every call errs; once the one
    // endpoint comes back, calls succeed again.
    let mut channel = make_channel(&["a:1"]);
    start_all(&mut channel);
    let i = channel.pick_connection().unwrap();
    let _: Result<String, ChannelError> = channel.complete_call(i, CallOutcome::TransportFailure);
    assert_eq!(channel.pick_connection().unwrap_err(), ChannelError::NoEndpoints);
    // Background redial succeeds.
    channel.pool.report_dial_success(i);
    assert_eq!(channel.pick_connection().unwrap(), i);
}

#[test]
fn pick_stays_sound_after_removal() {
    let mut channel = make_channel(&["a:1", "b:2", "c:3"]);
    start_all(&mut channel);
    // Walk the cursor to the last slot, then shrink the pool under it.
    assert_eq!(channel.pick_connection().unwrap(), 1);
    assert_eq!(channel.pick_connection().unwrap(), 2);
    let c = balance_channel::endpoint::parse("c:3").unwrap();
    assert!(channel.pool.remove_endpoint(&c));
    // The cursor wraps over the shorter pool and keeps rotating.
    let i = channel.pick_connection().unwrap();
    let j = channel.pick_connection().unwrap();
    assert!(i < 2 && j < 2);
    assert_ne!(i, j);
}
