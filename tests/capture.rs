use bitfinex_ws::clock::{hour_key, UtcInstant, MAX_UNIX_SECS};
use bitfinex_ws::feed::{
    backoff_delay_ms, format_record, stamp_record, subscription_requests, ConnectionState,
    FeedAction, FeedConnection, FeedEvent,
};
use bitfinex_ws::sharder::{shard_symbols, ShardError};
use bitfinex_ws::supervisor::{
    connections_for, is_success_status, plan_startup, StartupError, CAPTURE_ENDED_EXIT,
    MAX_SHARD_SIZE, STARTUP_FAILED_EXIT,
};
use bitfinex_ws::writer::{build_file_name, LogWriter, Rotation};

fn syms(names: &[&str]) -> Vec<String> {
    names.iter().map(|s| s.to_string()).collect()
}

fn at(secs: u64, nanos: u32) -> UtcInstant {
    UtcInstant::new(secs, nanos).unwrap()
}

const CONF: &str = "{\"event\": \"conf\", \"flags\": 196608}";

fn trades(sym: &str) -> String {
    format!("{{\"event\": \"subscribe\", \"channel\": \"trades\", \"symbol\": \"{}\"}}", sym)
}

fn book(sym: &str) -> String {
    format!(
        "{{\"event\": \"subscribe\", \"channel\": \"book\", \"prec\": \"R0\", \"symbol\": \"{}\", \"len\": 100 }}",
        sym
    )
}

fn open_path(r: &Rotation) -> (u64, bool, String) {
    match r {
        Rotation::Open { bucket, close_previous, path } => (*bucket, *close_previous, path.clone()),
        Rotation::Keep => panic!("expected a rotation"),
    }
}

#[test]
fn shards_cover_the_universe_in_order() {
    let names: Vec<String> = (0..31).map(|i| format!("SYM{}", i)).collect();
    let shards = shard_symbols(&names, 15).unwrap();
    assert_eq!(shards.len(), 3);
    assert_eq!(shards[0].len(), 15);
    assert_eq!(shards[1].len(), 15);
    assert_eq!(shards[2].len(), 1);
    let joined: Vec<String> = shards.concat();
    assert_eq!(joined, names);
}

#[test]
fn shards_of_exact_multiple() {
    let names: Vec<String> = (0..30).map(|i| format!("S{}", i)).collect();
    let shards = shard_symbols(&names, 15).unwrap();
    assert_eq!(shards.len(), 2);
    assert!(shards.iter().all(|s| s.len() == 15));
    let shards = shard_symbols(&names, 1).unwrap();
    assert_eq!(shards.len(), 30);
}

#[test]
fn empty_universe_is_refused() {
    assert_eq!(shard_symbols(&Vec::new(), 15), Err(ShardError::EmptyUniverse));
}

#[test]
fn two_symbols_make_one_connection_with_ordered_subscriptions() {
    let shards = shard_symbols(&syms(&["BTCUSD", "ETHUSD"]), MAX_SHARD_SIZE).unwrap();
    assert_eq!(shards.len(), 1);
    let conns = connections_for(shards);
    assert_eq!(conns.len(), 1);
    let reqs = subscription_requests(conns[0].shard());
    assert_eq!(
        reqs,
        vec![CONF.to_string(), trades("BTCUSD"), book("BTCUSD"), trades("ETHUSD"), book("ETHUSD")]
    );
}

#[test]
fn writer_rotates_across_the_hour() {
    let mut w = LogWriter::new();
    assert_eq!(w.current_bucket(), None);
    let first = w.route_at(&at(1704070799, 0));
    let (b1, close1, p1) = open_path(&first);
    assert!(!close1);
    assert_eq!(p1, "data/bitfinex-ws-2024-01-01_00Z.log");
    let second = w.route_at(&at(1704070801, 0));
    let (b2, close2, p2) = open_path(&second);
    assert!(close2);
    assert_eq!(p2, "data/bitfinex-ws-2024-01-01_01Z.log");
    assert!(b2 > b1);
    assert!(p2 > p1);
    assert_eq!(w.current_bucket(), Some(b2));
}

#[test]
fn records_across_the_hour_land_in_two_files() {
    let mut w = LogWriter::new();
    let mut files: Vec<(String, String)> = Vec::new();
    for (secs, payload) in [(1704070799u64, "{\"e\":1}"), (1704070801u64, "{\"e\":2}")] {
        let t = at(secs, 0);
        if let Rotation::Open { path, .. } = w.route_at(&t) {
            files.push((path, String::new()));
        }
        files.last_mut().unwrap().1.push_str(&stamp_record(&t, payload));
    }
    assert_eq!(files.len(), 2);
    assert_eq!(files[0].1, "2024-01-01T00:59:59Z, {\"e\":1}\n");
    assert_eq!(files[1].1, "2024-01-01T01:00:01Z, {\"e\":2}\n");
    assert!(files.iter().all(|(_, body)| body.lines().count() == 1));
    assert!(files[1].0 > files[0].0);
}

#[test]
fn writer_keeps_the_file_within_the_hour() {
    let mut w = LogWriter::new();
    open_path(&w.route_at(&at(1704067200, 0)));
    assert!(matches!(w.route_at(&at(1704067200 + 1800, 5)), Rotation::Keep));
    assert!(matches!(w.route_at(&at(1704067200 + 3599, 999_999_999)), Rotation::Keep));
    let (_, close, _) = open_path(&w.route_at(&at(1704067200 + 3600, 0)));
    assert!(close);
}

#[test]
fn writer_routes_by_the_clock() {
    let mut w = LogWriter::new();
    let r = w.route().expect("the system clock reads as a UTC instant");
    let (b, close, path) = open_path(&r);
    assert!(!close);
    assert_eq!(w.current_bucket(), Some(b));
    assert!(path.starts_with("data/bitfinex-ws-") && path.ends_with("Z.log"));
}

#[test]
fn file_name_and_hour_key() {
    assert_eq!(build_file_name("2024-01-01_00Z"), "data/bitfinex-ws-2024-01-01_00Z.log");
    assert_eq!(hour_key(1704067200 / 3600), "2024-01-01_00Z");
    assert_eq!(hour_key(1704070801 / 3600), "2024-01-01_01Z");
    assert_eq!(hour_key(0), "1970-01-01_00Z");
}

#[test]
fn instants_are_bounded() {
    assert!(UtcInstant::new(0, 0).is_some());
    assert!(UtcInstant::new(MAX_UNIX_SECS, 999_999_999).is_some());
    assert!(UtcInstant::new(MAX_UNIX_SECS + 1, 0).is_none());
    assert!(UtcInstant::new(5, 1_000_000_000).is_none());
    assert_eq!(at(7201, 0).hour(), 2);
}

#[test]
fn records_are_stamped_lines() {
    assert_eq!(format_record("T", "{\"e\":1}"), "T, {\"e\":1}\n");
    assert_eq!(at(1704070799, 0).stamp(), "2024-01-01T00:59:59Z");
    assert_eq!(at(1704070799, 500_000_000).stamp(), "2024-01-01T00:59:59.500Z");
    assert_eq!(stamp_record(&at(1704070799, 0), "{\"e\":1}"), "2024-01-01T00:59:59Z, {\"e\":1}\n");
}

#[test]
fn many_records_make_as_many_lines() {
    let mut log = String::new();
    for c in 0..4u64 {
        for m in 0..25u64 {
            log.push_str(&stamp_record(&at(1704067200 + c * 100 + m, 0), "[1,\"hb\"]"));
        }
    }
    assert_eq!(log.lines().count(), 100);
    assert!(log.lines().all(|l| l.ends_with(", [1,\"hb\"]")));
}

#[test]
fn backoff_doubles_up_to_the_cap() {
    assert_eq!(backoff_delay_ms(0), 500);
    assert_eq!(backoff_delay_ms(1), 1000);
    assert_eq!(backoff_delay_ms(5), 16000);
    assert_eq!(backoff_delay_ms(6), 30000);
    assert_eq!(backoff_delay_ms(100), 30000);
    assert_eq!(backoff_delay_ms(u32::MAX), 30000);
}

fn subscribed(a: FeedAction) -> Vec<String> {
    match a {
        FeedAction::Subscribe(v) => v,
        other => panic!("expected subscriptions, got {:?}", other),
    }
}

#[test]
fn reconnect_resubscribes_the_same_channels() {
    let t = at(1704070799, 0);
    let mut c = FeedConnection::new(syms(&["BTCUSD", "ETHUSD"]));
    assert_eq!(c.state(), ConnectionState::Connecting);
    assert!(matches!(c.handle_at(FeedEvent::Connected, &t), FeedAction::Wait));
    assert_eq!(c.state(), ConnectionState::Subscribing);
    let before = subscribed(c.handle_at(FeedEvent::Opened, &t));
    assert_eq!(c.state(), ConnectionState::Streaming);
    match c.handle_at(FeedEvent::Text("{\"e\":1}".to_string()), &t) {
        FeedAction::Record(line) => assert_eq!(line, "2024-01-01T00:59:59Z, {\"e\":1}\n"),
        other => panic!("expected a record, got {:?}", other),
    }
    assert!(matches!(c.handle_at(FeedEvent::NonText, &t), FeedAction::Anomaly));
    assert!(matches!(c.handle_at(FeedEvent::Closed, &t), FeedAction::Backoff(500)));
    assert!(matches!(c.state(), ConnectionState::Closed(_)));
    assert!(matches!(c.handle_at(FeedEvent::Text("late".to_string()), &t), FeedAction::Wait));
    assert!(matches!(c.handle_at(FeedEvent::BackoffElapsed, &t), FeedAction::Connect));
    assert_eq!(c.state(), ConnectionState::Reconnecting);
    assert!(matches!(c.handle_at(FeedEvent::Connected, &t), FeedAction::Wait));
    let after = subscribed(c.handle_at(FeedEvent::Opened, &t));
    assert_eq!(before, after);
    assert_eq!(c.failures(), 0);
    assert_eq!(c.shard(), &syms(&["BTCUSD", "ETHUSD"]));
}

#[test]
fn failed_connects_back_off_longer() {
    let t = at(0, 0);
    let mut c = FeedConnection::new(syms(&["BTCUSD"]));
    assert!(matches!(c.handle_at(FeedEvent::ConnectFailed, &t), FeedAction::Backoff(500)));
    assert!(matches!(c.handle_at(FeedEvent::BackoffElapsed, &t), FeedAction::Connect));
    assert!(matches!(c.handle_at(FeedEvent::Error, &t), FeedAction::Backoff(1000)));
    assert!(matches!(c.handle_at(FeedEvent::Error, &t), FeedAction::Wait));
    assert!(matches!(c.handle_at(FeedEvent::BackoffElapsed, &t), FeedAction::Connect));
    assert!(matches!(c.handle_at(FeedEvent::ConnectFailed, &t), FeedAction::Backoff(2000)));
    assert_eq!(c.failures(), 3);
}

#[test]
fn handle_stamps_with_the_clock() {
    let mut c = FeedConnection::new(syms(&["BTCUSD"]));
    assert!(matches!(c.handle(FeedEvent::Connected), Some(FeedAction::Wait)));
    assert!(matches!(c.handle(FeedEvent::Opened), Some(FeedAction::Subscribe(_))));
    match c.handle(FeedEvent::Text("x".to_string())) {
        Some(FeedAction::Record(line)) => assert!(line.ends_with("Z, x\n")),
        other => panic!("expected a record, got {:?}", other),
    }
}

#[test]
fn handle_answers_events_that_need_no_clock() {
    let mut c = FeedConnection::new(syms(&["BTCUSD"]));
    assert!(matches!(c.handle(FeedEvent::ConnectFailed), Some(FeedAction::Backoff(500))));
    assert!(matches!(c.handle(FeedEvent::Closed), Some(FeedAction::Wait)));
    assert!(matches!(c.handle(FeedEvent::BackoffElapsed), Some(FeedAction::Connect)));
    assert!(matches!(c.handle(FeedEvent::Connected), Some(FeedAction::Wait)));
    assert!(matches!(c.handle(FeedEvent::Opened), Some(FeedAction::Subscribe(_))));
    assert!(matches!(c.handle(FeedEvent::NonText), Some(FeedAction::Anomaly)));
    assert!(matches!(c.handle(FeedEvent::Error), Some(FeedAction::Backoff(500))));
    assert!(matches!(c.handle(FeedEvent::Error), Some(FeedAction::Wait)));
}

#[test]
fn startup_refuses_a_failed_fetch() {
    let e = plan_startup(Some(404), None).unwrap_err();
    assert_eq!(e, StartupError::FetchFailed);
    assert_eq!(e.exit_code(), STARTUP_FAILED_EXIT);
    assert_ne!(STARTUP_FAILED_EXIT, 0);
    assert_ne!(STARTUP_FAILED_EXIT, CAPTURE_ENDED_EXIT);
    assert_eq!(plan_startup(None, Some(syms(&["BTCUSD"]))).unwrap_err(), StartupError::FetchFailed);
    assert_eq!(plan_startup(Some(500), Some(syms(&["BTCUSD"]))).unwrap_err(), StartupError::FetchFailed);
}

#[test]
fn startup_refuses_malformed_or_empty_lists() {
    assert_eq!(plan_startup(Some(200), None).unwrap_err(), StartupError::Malformed);
    assert_eq!(plan_startup(Some(204), Some(Vec::new())).unwrap_err(), StartupError::EmptyUniverse);
}

#[test]
fn startup_shards_the_universe() {
    let names: Vec<String> = (0..16).map(|i| format!("P{}", i)).collect();
    let shards = plan_startup(Some(200), Some(names.clone())).unwrap();
    assert_eq!(shards.len(), 2);
    assert_eq!(shards[1], vec!["P15".to_string()]);
    assert!(is_success_status(299));
    assert!(!is_success_status(199));
    assert!(!is_success_status(300));
}
