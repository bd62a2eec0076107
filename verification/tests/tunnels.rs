use shoehorn::runtime::RuntimeStats;
use shoehorn::transfer::{Direction, TransferCounters, TransferStats};
use shoehorn::tunnel::{CopyEvent, CopyState, Tunnel, BUFFER_LEN};

const UP: Direction = Direction::ClientToUpstream;
const DOWN: Direction = Direction::UpstreamToClient;

fn open(ahead: u64) -> Tunnel {
    Tunnel::start(TransferCounters { client_to_upstream: ahead, upstream_to_client: 0 })
}

/// The bytes that one direction is to write.
fn written(t: &Tunnel, direction: Direction) -> Vec<u8> {
    match t.action(direction) {
        CopyState::Writing(bytes) => bytes,
        _ => panic!("nothing is to be written"),
    }
}

#[test]
fn transfers_add_up() {
    let mut a = TransferStats::default();
    a.add(TransferStats { client_to_upstream: 3, upstream_to_client: 4 });
    a.add(TransferStats { client_to_upstream: 10, upstream_to_client: 20 });
    assert_eq!((a.client_to_upstream, a.upstream_to_client), (13, 24));
}

#[test]
fn counters_count_each_direction() {
    let mut c = TransferCounters::default();
    c.count(UP, 5);
    c.count(DOWN, u64::MAX);
    c.count(DOWN, 2);
    let s = c.snapshot();
    assert_eq!((s.client_to_upstream, s.upstream_to_client), (5, 1));
}

#[test]
fn tunnel_counts_what_arrived() {
    let mut stats = RuntimeStats::default();
    let mut t = open(7);
    assert!(matches!(t.action(UP), CopyState::Reading));
    t.step(UP, CopyEvent::Read(vec![1; BUFFER_LEN]), &mut stats);
    assert_eq!(written(&t, UP), vec![1; 16384]);
    assert_eq!(stats.snapshot().tx_bytes, 0);
    t.step(UP, CopyEvent::Done, &mut stats);
    t.step(DOWN, CopyEvent::Read(vec![2; 9]), &mut stats);
    t.step(DOWN, CopyEvent::Done, &mut stats);
    t.step(UP, CopyEvent::Read(Vec::new()), &mut stats);
    assert!(matches!(t.action(UP), CopyState::Closing));
    t.step(UP, CopyEvent::Done, &mut stats);
    assert!(matches!(t.action(UP), CopyState::Closed));
    assert!(matches!(t.action(DOWN), CopyState::Reading));
    t.step(DOWN, CopyEvent::Read(Vec::new()), &mut stats);
    t.step(DOWN, CopyEvent::Done, &mut stats);
    let s = stats.snapshot();
    assert_eq!((s.tx_bytes, s.rx_bytes), (16384, 9));
    let o = t.outcome().unwrap();
    assert_eq!((o.transfer.client_to_upstream, o.transfer.upstream_to_client), (16391, 9));
    assert!(o.error.is_none());
}

#[test]
fn tunnel_is_not_over_before_both_ends_are_done() {
    let mut stats = RuntimeStats::default();
    let mut t = open(0);
    t.step(DOWN, CopyEvent::Read(Vec::new()), &mut stats);
    t.step(DOWN, CopyEvent::Done, &mut stats);
    assert!(t.outcome().is_none());
}

#[test]
fn first_failure_ends_the_tunnel() {
    let mut stats = RuntimeStats::default();
    let mut t = open(0);
    t.step(DOWN, CopyEvent::Read(vec![3; 4]), &mut stats);
    t.step(UP, CopyEvent::Failed("reset".to_string()), &mut stats);
    assert!(matches!(t.action(UP), CopyState::Closed));
    assert!(matches!(t.action(DOWN), CopyState::Closed));
    t.step(DOWN, CopyEvent::Done, &mut stats);
    t.step(DOWN, CopyEvent::Failed("late".to_string()), &mut stats);
    assert_eq!(stats.snapshot().rx_bytes, 0);
    let o = t.outcome().unwrap();
    assert_eq!(o.transfer.upstream_to_client, 0);
    assert_eq!(o.error.unwrap().message(), "reset");
}

#[test]
fn tunnel_carries_bytes_unchanged() {
    let mut stats = RuntimeStats::default();
    let mut t = open(0);
    let input: [&[u8]; 3] = [b"one", b"\x00\xff", b"three"];
    let mut output = Vec::new();
    for bytes in input {
        t.step(UP, CopyEvent::Read(bytes.to_vec()), &mut stats);
        t.step(DOWN, CopyEvent::Read(b"other".to_vec()), &mut stats);
        output.extend(written(&t, UP));
        t.step(UP, CopyEvent::Done, &mut stats);
        assert_eq!(written(&t, DOWN), b"other");
        t.step(DOWN, CopyEvent::Done, &mut stats);
    }
    assert_eq!(output, b"one\x00\xffthree");
    assert_eq!(stats.snapshot().tx_bytes, 10);
    assert_eq!(stats.snapshot().rx_bytes, 15);
}

#[test]
fn bytes_that_are_no_answer_are_not_taken() {
    let mut stats = RuntimeStats::default();
    let mut t = open(0);
    t.step(UP, CopyEvent::Read(vec![1, 2]), &mut stats);
    t.step(UP, CopyEvent::Read(vec![3]), &mut stats);
    assert_eq!(written(&t, UP), [1, 2]);
    t.step(DOWN, CopyEvent::Done, &mut stats);
    assert!(matches!(t.action(DOWN), CopyState::Reading));
    assert_eq!(stats.snapshot().rx_bytes, 0);
}
