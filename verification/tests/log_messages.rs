use shoehorn::log::{
    listening, log_destination, log_line, parse_failure, task_end, task_start, traffic, Level,
};
use shoehorn::protocol::{ProxyError, ProxyOutcome};
use shoehorn::runtime::{CounterSnapshot, RuntimeSnapshot};
use shoehorn::transfer::TransferStats;

const TASK: CounterSnapshot = CounterSnapshot { id: 12, active: 3 };
const TRANSFER: TransferStats = TransferStats { client_to_upstream: 10, upstream_to_client: 2000 };

#[test]
fn log_lines_have_time_level_and_message() {
    assert_eq!(log_line(1700000000123, Level::Info, "hello"), "1700000000123 INFO hello\n");
    assert_eq!(log_line(0, Level::Error, ""), "0 ERROR \n");
}

#[test]
fn messages_at_the_start_read_as_they_should() {
    assert_eq!(listening("a:1", "b:2"), "listening on a:1, forwarding via SOCKS5 b:2");
    assert_eq!(log_destination(Some("/tmp/x")), "logging to /tmp/x");
    assert_eq!(log_destination(None), "file logging disabled");
    assert_eq!(parse_failure("/c", "bad"), "failed to parse /c: bad");
    assert_eq!(
        task_start(TASK, "1.2.3.4:5", "h:443"),
        "[task=12] [1.2.3.4:5] task start target=h:443 active_tasks=3"
    );
}

#[test]
fn traffic_is_reported_while_tasks_are_under_way() {
    let s = RuntimeSnapshot { active_tasks: 2, tx_bytes: 5, rx_bytes: 7 };
    assert_eq!(
        traffic(s),
        Some("traffic active_tasks=2 total_tx_bytes=5 total_rx_bytes=7 total_bytes=12".to_string())
    );
    let s = RuntimeSnapshot { active_tasks: 0, tx_bytes: 5, rx_bytes: 7 };
    assert_eq!(traffic(s), None);
}

#[test]
fn end_messages_show_their_facts() {
    let outcome = ProxyOutcome { target: Some("h:443".to_string()), transfer: TRANSFER, error: None };
    let (level, text) = task_end(TASK, "p", &outcome, 1500);
    assert!(level == Level::Info);
    assert_eq!(
        text,
        "[task=12] [p] task end target=h:443 active_tasks=3 elapsed_ms=1500 tx_bytes=10 rx_bytes=2000"
    );
}

#[test]
fn end_messages_show_errors() {
    let outcome = ProxyOutcome {
        target: None,
        transfer: TransferStats::default(),
        error: Some(ProxyError::MalformedRequestLine),
    };
    let (level, text) = task_end(TASK, "p", &outcome, 0);
    assert!(level == Level::Error);
    assert_eq!(
        text,
        "[task=12] [p] task end target=- active_tasks=3 elapsed_ms=0 tx_bytes=0 rx_bytes=0 error=malformed request line"
    );
}

#[test]
fn errors_read_as_they_should() {
    assert_eq!(ProxyError::Io("broken pipe".to_string()).message(), "broken pipe");
    assert_eq!(ProxyError::InvalidChunkSize.message(), "invalid chunk size");
    assert_eq!(ProxyError::EmptyResponse.message(), "empty upstream response");
    let e = ProxyError::SocksConnect { target: "h:1".to_string(), reason: "no".to_string() };
    assert_eq!(e.message(), "SOCKS5 connect to h:1 failed: no");
}
