use std::collections::VecDeque;

use shoehorn::body::{parse_chunk_size, BodyCopy, BodyState};
use shoehorn::header::BodyFraming;
use shoehorn::protocol::{Action, ConnectOutcome, Event, Peer, ProxyError, ProxyOutcome};
use shoehorn::runtime::RuntimeStats;
use shoehorn::session::Session;
use shoehorn::transfer::{Direction, TransferStats};
use shoehorn::tunnel::{CopyEvent, Tunnel};

/// Two ends that follow a script, and what happened with them.
struct World {
    client: VecDeque<String>,
    upstream: VecDeque<String>,
    buffered: Vec<u8>,
    /// Fail the action with this position, counted from zero.
    fail_at: Option<usize>,
    seen: Vec<String>,
    to_client: String,
    to_upstream: String,
}

fn world(client: &[&str], upstream: &[&str]) -> World {
    World {
        client: client.iter().map(|s| s.to_string()).collect(),
        upstream: upstream.iter().map(|s| s.to_string()).collect(),
        buffered: Vec::new(),
        fail_at: None,
        seen: Vec::new(),
        to_client: String::new(),
        to_upstream: String::new(),
    }
}

impl World {
    fn perform(&mut self, action: Action) -> Event {
        let failed = self.fail_at == Some(self.seen.len());
        let (shown, event) = match action {
            Action::ReadLine { from: Peer::Client } => {
                let line = if failed { String::new() } else { self.client.pop_front().unwrap_or_default() };
                ("read client".to_string(), Event::Line(line))
            }
            Action::ReadLine { from: Peer::Upstream } => {
                let line = if failed { String::new() } else { self.upstream.pop_front().unwrap_or_default() };
                ("read upstream".to_string(), Event::Line(line))
            }
            Action::Write { to: Peer::Client, text } => {
                self.to_client.push_str(&text);
                ("write client".to_string(), Event::Done)
            }
            Action::Write { to: Peer::Upstream, text } => {
                self.to_upstream.push_str(&text);
                ("write upstream".to_string(), Event::Done)
            }
            Action::WriteBytes { bytes } => {
                (format!("bytes {:?}", bytes), Event::Done)
            }
            Action::Copy { from, to, limit } => {
                let from = if from == Peer::Client { "client" } else { "upstream" };
                let sink = if to == Peer::Client { &mut self.to_client } else { &mut self.to_upstream };
                sink.push_str(&format!("<{:?}>", limit));
                (format!("copy {} {:?}", from, limit), Event::Done)
            }
            Action::Announce { target } => (format!("announce {}", target), Event::Done),
            Action::TakeBuffered => ("buffered".to_string(), Event::Buffered(self.buffered.clone())),
            Action::Reach { target } => (format!("reach {}", target), Event::Done),
            Action::Dial { host, port } => (format!("dial {} {}", host, port), Event::Done),
            Action::ShutdownUpstream => ("shutdown".to_string(), Event::Done),
            Action::OpenTunnel { counters } => {
                let s = counters.snapshot();
                let outcome = ConnectOutcome {
                    transfer: TransferStats {
                        client_to_upstream: s.client_to_upstream + 100,
                        upstream_to_client: s.upstream_to_client + 200,
                    },
                    error: None,
                };
                ("tunnel".to_string(), Event::TunnelClosed(outcome))
            }
            Action::Stop => panic!("nothing is left to be done"),
        };
        self.seen.push(shown);
        if failed {
            Event::Failed("scripted failure".to_string())
        } else {
            event
        }
    }
}

fn serve(world: &mut World, stats: &mut RuntimeStats) -> ProxyOutcome {
    let mut session = Session::start();
    loop {
        let action = session.action();
        if matches!(action, Action::Stop) {
            return session.outcome().unwrap();
        }
        let event = world.perform(action);
        assert!(session.accepts(&event));
        session = session.next(event, stats);
    }
}

fn run(world: &mut World) -> ProxyOutcome {
    serve(world, &mut RuntimeStats::default())
}

fn error_of(outcome: &ProxyOutcome) -> Option<String> {
    outcome.error.as_ref().map(|e| e.message())
}

#[test]
fn client_that_says_nothing_is_served_nothing() {
    let mut w = world(&[], &[]);
    let o = run(&mut w);
    assert_eq!(w.seen, ["read client"]);
    assert!(o.target.is_none());
    assert!(o.error.is_none());
    assert_eq!(o.transfer.client_to_upstream, 0);
}

#[test]
fn get_request_is_passed_on() {
    let mut w = world(
        &[
            "GET http://example.com:8080/a HTTP/1.1\r\n",
            "Host: example.com\r\n",
            "Proxy-Connection: close\r\n",
            "\r\n",
        ],
        &["HTTP/1.1 200 OK\r\n", "Content-Length: 5\r\n", "Connection: close\r\n", "\r\n"],
    );
    let o = run(&mut w);
    assert_eq!(
        w.to_upstream,
        "GET /a HTTP/1.1\r\nHost: example.com\r\nConnection: close\r\n\r\n"
    );
    assert_eq!(
        w.to_client,
        "HTTP/1.1 200 OK\r\nContent-Length: 5\r\n\r\n<Some(5)>"
    );
    assert_eq!(
        w.seen,
        [
            "read client",
            "read client",
            "read client",
            "read client",
            "announce http://example.com:8080/a",
            "dial example.com 8080",
            "write upstream",
            "shutdown",
            "read upstream",
            "write client",
            "read upstream",
            "read upstream",
            "read upstream",
            "write client",
            "copy upstream Some(5)",
        ]
    );
    assert_eq!(o.target, Some("http://example.com:8080/a".to_string()));
    assert_eq!(error_of(&o), None);
}

#[test]
fn connection_is_kept_for_the_next_request() {
    let mut w = world(
        &[
            "GET http://a/1 HTTP/1.1\r\n",
            "\r\n",
            "HEAD http://b/2 HTTP/1.1\r\n",
            "\r\n",
            "GET http://c/3 HTTP/1.1\r\n",
            "\r\n",
        ],
        &[
            "HTTP/1.1 204 No Content\r\n",
            "\r\n",
            "HTTP/1.1 200 OK\r\n",
            "\r\n",
            "HTTP/1.1 200 OK\r\n",
            "\r\n",
        ],
    );
    let o = run(&mut w);
    // The third response has no extent of its own, so it ends the connection.
    let announced = w.seen.iter().filter(|s| s.starts_with("announce")).count();
    let dialed: Vec<&String> = w.seen.iter().filter(|s| s.starts_with("dial")).collect();
    assert_eq!(announced, 1);
    assert_eq!(dialed, ["dial a 80", "dial b 80", "dial c 80"]);
    assert_eq!(w.seen.last().unwrap(), "copy upstream None");
    assert_eq!(o.target, Some("http://a/1".to_string()));
    assert_eq!(error_of(&o), None);
}

#[test]
fn chunked_bodies_are_passed_on_both_ways() {
    let mut w = world(
        &[
            "POST http://a/ HTTP/1.1\r\n",
            "Transfer-Encoding: chunked\r\n",
            "Content-Length: 3\r\n",
            "\r\n",
            "a;x=y\r\n",
            "0\r\n",
            "\r\n",
        ],
        &[
            "HTTP/1.1 200 OK\r\n",
            "Transfer-Encoding: chunked\r\n",
            "\r\n",
            "FF\r\n",
            "1\r\n",
            "0\r\n",
            "X-Trailer: 1\r\n",
            "\r\n",
        ],
    );
    let o = run(&mut w);
    assert_eq!(
        w.to_upstream,
        "POST / HTTP/1.1\r\nTransfer-Encoding: chunked\r\nContent-Length: 3\r\nConnection: close\r\n\r\na;x=y\r\n<Some(12)>0\r\n\r\n"
    );
    assert_eq!(
        w.to_client,
        "HTTP/1.1 200 OK\r\nTransfer-Encoding: chunked\r\n\r\nFF\r\n<Some(257)>1\r\n<Some(3)>0\r\nX-Trailer: 1\r\n\r\n"
    );
    assert_eq!(error_of(&o), None);
    // The response says where it ends, so another request was looked for.
    assert_eq!(w.seen.last().unwrap(), "read client");
}

#[test]
fn request_body_of_known_length_is_passed_on() {
    let mut w = world(
        &["PUT http://a/ HTTP/1.1\r\n", "Content-Length: 0\r\n", "\r\n"],
        &["HTTP/1.1 304 Not Modified\r\n", "\r\n"],
    );
    run(&mut w);
    assert!(w.seen.contains(&"copy client Some(0)".to_string()));
}

#[test]
fn tunnel_is_opened_and_owns_the_connection() {
    let mut w = world(
        &["connect h:443 HTTP/1.1\r\n", "Host: h\r\n", "\r\n", "GET http://x/ HTTP/1.1\r\n", "\r\n"],
        &[],
    );
    w.buffered = vec![1, 2, 3];
    let mut stats = RuntimeStats::default();
    let o = serve(&mut w, &mut stats);
    assert_eq!(
        w.seen,
        [
            "read client",
            "read client",
            "read client",
            "announce h:443",
            "buffered",
            "reach h:443",
            "write client",
            "bytes [1, 2, 3]",
            "tunnel",
        ]
    );
    assert_eq!(w.to_client, "HTTP/1.1 200 Connection Established\r\n\r\n");
    assert_eq!(stats.snapshot().tx_bytes, 3);
    assert_eq!((o.transfer.client_to_upstream, o.transfer.upstream_to_client), (103, 200));
    assert_eq!(o.target, Some("h:443".to_string()));
    assert_eq!(error_of(&o), None);
}

#[test]
fn totals_grow_by_what_was_transferred() {
    let mut stats = RuntimeStats::default();
    stats.add_tx_bytes(1000);
    stats.add_rx_bytes(2000);
    let mut session = Session::start();
    let events = vec![
        Event::Line("CONNECT h:443 HTTP/1.1\r\n".to_string()),
        Event::Line("\r\n".to_string()),
        Event::Done,
        Event::Buffered(vec![1, 2, 3]),
        Event::Done,
        Event::Done,
        Event::Done,
    ];
    for event in events {
        session = session.next(event, &mut stats);
    }
    let mut tunnel = match session.action() {
        Action::OpenTunnel { counters } => Tunnel::start(counters),
        _ => panic!("the tunnel is not open"),
    };
    let up = Direction::ClientToUpstream;
    let down = Direction::UpstreamToClient;
    tunnel.step(up, CopyEvent::Read(vec![4; 10]), &mut stats);
    tunnel.step(up, CopyEvent::Done, &mut stats);
    tunnel.step(down, CopyEvent::Read(vec![5; 20]), &mut stats);
    tunnel.step(down, CopyEvent::Done, &mut stats);
    tunnel.step(up, CopyEvent::Read(vec![6; 30]), &mut stats);
    tunnel.step(up, CopyEvent::Failed("reset".to_string()), &mut stats);
    session = session.next(Event::TunnelClosed(tunnel.outcome().unwrap()), &mut stats);
    let o = session.outcome().unwrap();
    assert_eq!((o.transfer.client_to_upstream, o.transfer.upstream_to_client), (13, 20));
    assert_eq!((stats.snapshot().tx_bytes, stats.snapshot().rx_bytes), (1013, 2020));
    assert_eq!(error_of(&o), Some("reset".to_string()));
}

#[test]
fn tunnel_without_early_bytes_sends_none() {
    let mut w = world(&["CONNECT h:443 HTTP/1.1\r\n", "\r\n"], &[]);
    let mut stats = RuntimeStats::default();
    let o = serve(&mut w, &mut stats);
    assert_eq!(&w.seen[5..], ["write client", "tunnel"]);
    assert_eq!(stats.snapshot().tx_bytes, 0);
    assert_eq!(o.transfer.client_to_upstream, 100);
}

#[test]
fn unreachable_target_is_answered_with_bad_gateway() {
    let mut w = world(&["CONNECT h:443 HTTP/1.1\r\n", "\r\n"], &[]);
    w.fail_at = Some(4);
    let o = run(&mut w);
    assert_eq!(w.seen[4], "reach h:443");
    assert_eq!(w.to_client, "HTTP/1.1 502 Bad Gateway\r\n\r\n");
    assert_eq!(
        error_of(&o),
        Some("SOCKS5 connect to h:443 failed: scripted failure".to_string())
    );
    assert_eq!(o.transfer.client_to_upstream, 0);
}

#[test]
fn failures_end_a_tunnel_that_is_not_open_yet() {
    // Reading the request line and the blank line, answering, and sending on
    // what the client sent ahead.
    for at in [0, 1, 5, 6] {
        let mut w = world(&["CONNECT h:443 HTTP/1.1\r\n", "\r\n"], &[]);
        w.buffered = vec![9];
        w.fail_at = Some(at);
        let o = run(&mut w);
        assert_eq!(error_of(&o), Some("scripted failure".to_string()), "{}", at);
        assert_eq!(w.seen.len(), at + 1);
        assert_eq!(o.transfer.client_to_upstream, 0);
    }
}

#[test]
fn failures_end_an_exchange() {
    // Everything from connecting to passing on the response.
    for at in 4..12 {
        let mut w = world(
            &["POST http://a/ HTTP/1.1\r\n", "Content-Length: 1\r\n", "\r\n"],
            &["HTTP/1.1 200 OK\r\n", "\r\n"],
        );
        w.fail_at = Some(at);
        let o = run(&mut w);
        assert_eq!(error_of(&o), Some("scripted failure".to_string()), "{}", at);
        assert_eq!(w.seen.len(), at + 1);
        assert_eq!(o.target, Some("http://a/".to_string()));
    }
}

#[test]
fn broken_exchange_has_sent_nothing_else() {
    let client = ["GET http://a/b HTTP/1.1\r\n", "Te: x\r\n", "A: 1\r\n", "\r\n"];
    let upstream = ["HTTP/1.1 200 OK\r\n", "Keep-Alive: 5\r\n", "B: 2\r\n", "\r\n"];
    let head = "GET /b HTTP/1.1\r\nA: 1\r\nConnection: close\r\n\r\n";
    let mut whole = world(&client, &upstream);
    run(&mut whole);
    assert_eq!(whole.to_upstream, head);
    assert_eq!(whole.to_client, "HTTP/1.1 200 OK\r\nB: 2\r\n\r\n<None>");
    let status_sent = whole.seen.iter().position(|s| s == "write client").unwrap() + 1;
    for fail_at in status_sent..status_sent + 3 {
        let mut w = world(&client, &upstream);
        w.fail_at = Some(fail_at);
        let o = run(&mut w);
        assert_eq!(error_of(&o), Some("scripted failure".to_string()));
        assert_eq!(w.to_upstream, head);
        assert_eq!(w.to_client, "HTTP/1.1 200 OK\r\n");
    }
}

#[test]
fn malformed_request_ends_the_connection() {
    let mut w = world(&["nonsense\r\n"], &[]);
    let o = run(&mut w);
    assert_eq!(error_of(&o), Some("malformed request line".to_string()));
    assert!(o.target.is_none());
}

#[test]
fn empty_response_is_an_error() {
    let mut w = world(&["GET http://a/ HTTP/1.1\r\n", "\r\n"], &[]);
    let o = run(&mut w);
    assert_eq!(error_of(&o), Some("empty upstream response".to_string()));
}

#[test]
fn invalid_chunk_size_is_an_error_after_the_line_was_passed_on() {
    let mut w = world(
        &["GET http://a/ HTTP/1.1\r\n", "\r\n"],
        &["HTTP/1.1 200 OK\r\n", "Transfer-Encoding: chunked\r\n", "\r\n", "zz\r\n"],
    );
    let o = run(&mut w);
    assert_eq!(error_of(&o), Some("invalid chunk size".to_string()));
    assert!(w.to_client.ends_with("\r\n\r\nzz\r\n"));
}

#[test]
fn chunk_sizes_are_hexadecimal() {
    assert_eq!(parse_chunk_size("1a\r\n"), Some(26));
    assert_eq!(parse_chunk_size(" FF ; name=value\r\n"), Some(255));
    assert_eq!(parse_chunk_size("0"), Some(0));
    assert_eq!(parse_chunk_size(""), None);
    assert_eq!(parse_chunk_size(";x"), None);
    assert_eq!(parse_chunk_size("0x1"), None);
    assert_eq!(parse_chunk_size("ffffffffffffffff"), Some(u64::MAX));
    assert_eq!(parse_chunk_size("10000000000000000"), None);
}

#[test]
fn chunks_take_precedence_over_a_length() {
    let f = BodyFraming { content_length: Some(3), chunked: true };
    let b = BodyCopy::start(Peer::Client, Peer::Upstream, f);
    assert!(matches!(b.state, BodyState::Size));
    let f = BodyFraming { content_length: None, chunked: false };
    let b = BodyCopy::start(Peer::Client, Peer::Upstream, f);
    assert!(matches!(b.state, BodyState::Complete));
}

#[test]
fn oversized_chunks_are_not_accepted() {
    let f = BodyFraming { content_length: None, chunked: true };
    for (size, accepted) in [("fffffffffffffffd", true), ("fffffffffffffffe", false), ("x", true)] {
        let b = BodyCopy::start(Peer::Client, Peer::Upstream, f);
        let b = b.next(Event::Line(format!("{}\r\n", size)));
        assert_eq!(b.accepts(&Event::Done), accepted, "{}", size);
        assert!(b.accepts(&Event::Failed("x".to_string())));
        if size == "fffffffffffffffd" {
            match b.next(Event::Done).action() {
                Action::Copy { limit, .. } => assert_eq!(limit, Some(u64::MAX)),
                _ => panic!("a chunk is to be copied"),
            }
        }
    }
}

#[test]
fn what_is_no_answer_changes_nothing() {
    let f = BodyFraming { content_length: Some(4), chunked: false };
    let b = BodyCopy::start(Peer::Client, Peer::Upstream, f);
    let b = b.next(Event::Line("stray\r\n".to_string()));
    assert!(matches!(b.state, BodyState::Fixed(4)));
    let b = b.next(Event::Failed("gone".to_string()));
    assert!(matches!(b.action(), Action::Stop));
    match b.next(Event::Done).state {
        BodyState::Broken(ProxyError::Io(reason)) => assert_eq!(reason, "gone"),
        _ => panic!("the body is broken"),
    }
}
