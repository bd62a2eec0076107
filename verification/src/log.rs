//! What is logged.

use crate::number::{decimal, push_decimal};
use crate::protocol::{error_text, ProxyOutcome, ProxyOutcomeModel};
use crate::runtime::{CounterSnapshot, RuntimeSnapshot};
use vstd::prelude::*;
use vstd::string::StringExecFns;

verus! {

/// How grave a message is.
#[derive(Clone, Copy, PartialEq, Eq, Structural)]
pub enum Level {
    Info,
    Error,
}

/// How a level reads.
pub open spec fn level_text(level: Level) -> Seq<char> {
    match level {
        Level::Info => "INFO"@,
        Level::Error => "ERROR"@,
    }
}

/// One line of the log: the time in milliseconds, the level and the message.
pub open spec fn line_text(millis: nat, level: Level, message: Seq<char>) -> Seq<char> {
    decimal(millis) + " "@ + level_text(level) + " "@ + message + "\n"@
}

/// Writes one line of the log.
pub fn log_line(millis: u128, level: Level, message: &str) -> (r: String)
    ensures
        r@ == line_text(millis as nat, level, message@),
{
    let mut r = String::new();
    push_decimal(&mut r, millis);
    r.append(" ");
    match level {
        Level::Info => r.append("INFO"),
        Level::Error => r.append("ERROR"),
    }
    r.append(" ");
    r.append(message);
    r.append("\n");
    assert(r@ =~= line_text(millis as nat, level, message@));
    r
}

/// The report on a configuration file that makes no sense.
pub open spec fn failure_text(path: Seq<char>, error: Seq<char>) -> Seq<char> {
    "failed to parse "@ + path + ": "@ + error
}

/// How a configuration file that makes no sense is reported.
pub fn parse_failure(path: &str, error: &str) -> (r: String)
    ensures
        r@ == "failed to parse "@ + path@ + ": "@ + error@,
        r@ == failure_text(path@, error@),
{
    let mut r = "failed to parse ".to_owned();
    r.append(path);
    r.append(": ");
    r.append(error);
    r
}

/// The message that the proxy accepts clients, given its address and that of the
/// SOCKS5 server.
pub open spec fn listening_text(listen_addr: Seq<char>, socks_addr: Seq<char>) -> Seq<char> {
    "listening on "@ + listen_addr + ", forwarding via SOCKS5 "@ + socks_addr
}

/// The message that the proxy accepts clients.
pub fn listening(listen_addr: &str, socks_addr: &str) -> (r: String)
    ensures
        r@ == "listening on "@ + listen_addr@ + ", forwarding via SOCKS5 "@ + socks_addr@,
        r@ == listening_text(listen_addr@, socks_addr@),
{
    let mut r = "listening on ".to_owned();
    r.append(listen_addr);
    r.append(", forwarding via SOCKS5 ");
    r.append(socks_addr);
    r
}

/// Where else the log goes.
pub open spec fn destination_text(path: Option<Seq<char>>) -> Seq<char> {
    match path {
        Some(path) => "logging to "@ + path,
        None => "file logging disabled"@,
    }
}

/// The message that tells where else the log goes.
pub fn log_destination(path: Option<&str>) -> (r: String)
    ensures
        r@ == match path {
            Some(path) => "logging to "@ + path@,
            None => "file logging disabled"@,
        },
        r@ == destination_text(
            match path {
                Some(path) => Some(path@),
                None => None,
            },
        ),
{
    match path {
        Some(path) => {
            let mut r = "logging to ".to_owned();
            r.append(path);
            r
        },
        None => "file logging disabled".to_owned(),
    }
}

/// The seconds from one message about the traffic to the next.
pub const TRAFFIC_INTERVAL_SECS: u64 = 300;

/// The message about the traffic so far. There is one while tasks are under
/// way.
pub open spec fn traffic_text(s: RuntimeSnapshot) -> Option<Seq<char>> {
    if s.active_tasks > 0 {
        Some(
            "traffic"@ + " active_tasks="@ + decimal(s.active_tasks as nat) + " total_tx_bytes="@
                + decimal(s.tx_bytes as nat) + " total_rx_bytes="@ + decimal(s.rx_bytes as nat)
                + " total_bytes="@ + decimal((s.tx_bytes + s.rx_bytes) as nat),
        )
    } else {
        None
    }
}

/// Writes the message about the traffic so far.
pub fn traffic(s: RuntimeSnapshot) -> (r: Option<String>)
    requires
        s.active_tasks > 0 ==> s.tx_bytes + s.rx_bytes <= u64::MAX,
    ensures
        match r {
            Some(text) => traffic_text(s) == Some(text@),
            None => traffic_text(s) is None,
        },
{
    if s.active_tasks == 0 {
        return None;
    }
    let mut r = "traffic".to_owned();
    r.append(" active_tasks=");
    push_decimal(&mut r, s.active_tasks as u128);
    r.append(" total_tx_bytes=");
    push_decimal(&mut r, s.tx_bytes as u128);
    r.append(" total_rx_bytes=");
    push_decimal(&mut r, s.rx_bytes as u128);
    r.append(" total_bytes=");
    push_decimal(&mut r, (s.tx_bytes + s.rx_bytes) as u128);
    Some(r)
}

/// The beginning of a message about a task.
pub open spec fn task_prefix(id: usize, peer: Seq<char>) -> Seq<char> {
    "[task="@ + decimal(id as nat) + "] ["@ + peer + "]"@
}

/// The message at the start of a task.
pub open spec fn start_text(task: CounterSnapshot, peer: Seq<char>, target: Seq<char>) -> Seq<
    char,
> {
    task_prefix(task.id, peer) + " task start"@ + " target="@ + target + " active_tasks="@
        + decimal(task.active as nat)
}

/// The target that the message at the end of a task names.
pub open spec fn shown_target(target: Option<Seq<char>>) -> Seq<char> {
    match target {
        Some(target) => target,
        None => "-"@,
    }
}

/// The message at the end of a task, but for the error.
pub open spec fn summary_text(
    task: CounterSnapshot,
    peer: Seq<char>,
    outcome: ProxyOutcomeModel,
    elapsed_ms: nat,
) -> Seq<char> {
    task_prefix(task.id, peer) + " task end"@ + " target="@ + shown_target(outcome.target)
        + " active_tasks="@ + decimal(task.active as nat) + " elapsed_ms="@ + decimal(elapsed_ms)
        + " tx_bytes="@ + decimal(outcome.transfer.client_to_upstream as nat) + " rx_bytes="@
        + decimal(outcome.transfer.upstream_to_client as nat)
}

/// The message at the end of a task.
pub open spec fn end_text(
    task: CounterSnapshot,
    peer: Seq<char>,
    outcome: ProxyOutcomeModel,
    elapsed_ms: nat,
) -> Seq<char> {
    let summary = summary_text(task, peer, outcome, elapsed_ms);
    match outcome.error {
        None => summary,
        Some(error) => summary + " error="@ + error_text(error),
    }
}

/// The level of the message at the end of a task.
pub open spec fn end_level(outcome: ProxyOutcomeModel) -> Level {
    match outcome.error {
        None => Level::Info,
        Some(_) => Level::Error,
    }
}

/// Begins a message about a task.
fn task_message(id: usize, peer: &str) -> (r: String)
    ensures
        r@ == task_prefix(id, peer@),
{
    let mut r = "[task=".to_owned();
    push_decimal(&mut r, id as u128);
    r.append("] [");
    r.append(peer);
    r.append("]");
    r
}

/// Writes the message at the start of a task.
pub fn task_start(task: CounterSnapshot, peer: &str, target: &str) -> (r: String)
    ensures
        r@ == start_text(task, peer@, target@),
{
    let mut r = task_message(task.id, peer);
    r.append(" task start");
    r.append(" target=");
    r.append(target);
    r.append(" active_tasks=");
    push_decimal(&mut r, task.active as u128);
    r
}

/// Writes the message at the end of a task, and tells its level: a task that
/// ended with an error is logged as one.
pub fn task_end(
    task: CounterSnapshot,
    peer: &str,
    outcome: &ProxyOutcome,
    elapsed_ms: u128,
) -> (r: (Level, String))
    ensures
        r.0 == if outcome.error is None {
            Level::Info
        } else {
            Level::Error
        },
        r.0 == end_level(outcome@),
        r.1@ == end_text(task, peer@, outcome@, elapsed_ms as nat),
{
    let mut r = task_message(task.id, peer);
    r.append(" task end");
    r.append(" target=");
    match &outcome.target {
        Some(target) => r.append(target.as_str()),
        None => r.append("-"),
    }
    r.append(" active_tasks=");
    push_decimal(&mut r, task.active as u128);
    r.append(" elapsed_ms=");
    push_decimal(&mut r, elapsed_ms);
    r.append(" tx_bytes=");
    push_decimal(&mut r, outcome.transfer.client_to_upstream as u128);
    r.append(" rx_bytes=");
    push_decimal(&mut r, outcome.transfer.upstream_to_client as u128);
    match &outcome.error {
        None => (Level::Info, r),
        Some(error) => {
            r.append(" error=");
            r.append(error.message().as_str());
            (Level::Error, r)
        },
    }
}

// ---------------------------------------------------------------------------
// Laws
// ---------------------------------------------------------------------------

/// The text holds the label, directly followed by the value.
pub open spec fn shows(text: Seq<char>, label: Seq<char>, value: Seq<char>) -> bool {
    exists|before: Seq<char>, after: Seq<char>|
        text == #[trigger] (before + label + value + after)
}

/// A text that ends with a label and a value shows them, also if a space in
/// front of the label is taken for a part of it.
proof fn lemma_shows_at_end(
    before: Seq<char>,
    spaced: Seq<char>,
    label: Seq<char>,
    value: Seq<char>,
)
    requires
        spaced == seq![' '] + label,
    ensures
        shows(before + spaced + value, label, value),
{
    let b = before + seq![' '];
    assert(before + spaced + value =~= b + label + value + Seq::empty());
}

/// What a text shows, it shows with two more pieces behind it.
proof fn lemma_still_shows(
    text: Seq<char>,
    label: Seq<char>,
    value: Seq<char>,
    x: Seq<char>,
    y: Seq<char>,
)
    requires
        shows(text, label, value),
    ensures
        shows(text + x + y, label, value),
{
    let (b, a) = choose|before: Seq<char>, after: Seq<char>|
        text == #[trigger] (before + label + value + after);
    assert(text + x + y =~= b + label + value + (a + x + y));
}

/// The messages at the start and at the end of a task show its target and the
/// number of tasks under way; the one at the end also shows the time that the
/// task took and the bytes that it sent and received.
pub proof fn law_lifecycle_messages_show_their_facts(
    task: CounterSnapshot,
    peer: Seq<char>,
    target: Seq<char>,
    outcome: ProxyOutcomeModel,
    elapsed_ms: nat,
)
    ensures
        shows(start_text(task, peer, target), "target="@, target),
        shows(start_text(task, peer, target), "active_tasks="@, decimal(task.active as nat)),
        shows(
            end_text(task, peer, outcome, elapsed_ms),
            "target="@,
            shown_target(outcome.target),
        ),
        shows(
            end_text(task, peer, outcome, elapsed_ms),
            "active_tasks="@,
            decimal(task.active as nat),
        ),
        shows(end_text(task, peer, outcome, elapsed_ms), "elapsed_ms="@, decimal(elapsed_ms)),
        shows(
            end_text(task, peer, outcome, elapsed_ms),
            "tx_bytes="@,
            decimal(outcome.transfer.client_to_upstream as nat),
        ),
        shows(
            end_text(task, peer, outcome, elapsed_ms),
            "rx_bytes="@,
            decimal(outcome.transfer.upstream_to_client as nat),
        ),
{
    let space = seq![' '];
    assert(" target="@ =~= space + "target="@) by {
        reveal_strlit(" target=");
        reveal_strlit("target=");
    }
    assert(" active_tasks="@ =~= space + "active_tasks="@) by {
        reveal_strlit(" active_tasks=");
        reveal_strlit("active_tasks=");
    }
    assert(" elapsed_ms="@ =~= space + "elapsed_ms="@) by {
        reveal_strlit(" elapsed_ms=");
        reveal_strlit("elapsed_ms=");
    }
    assert(" tx_bytes="@ =~= space + "tx_bytes="@) by {
        reveal_strlit(" tx_bytes=");
        reveal_strlit("tx_bytes=");
    }
    assert(" rx_bytes="@ =~= space + "rx_bytes="@) by {
        reveal_strlit(" rx_bytes=");
        reveal_strlit("rx_bytes=");
    }
    let active = decimal(task.active as nat);

    let p0 = task_prefix(task.id, peer) + " task start"@;
    let p1 = p0 + " target="@ + target;
    lemma_shows_at_end(p0, " target="@, "target="@, target);
    lemma_still_shows(p1, "target="@, target, " active_tasks="@, active);
    lemma_shows_at_end(p1, " active_tasks="@, "active_tasks="@, active);

    let shown = shown_target(outcome.target);
    let elapsed = decimal(elapsed_ms);
    let tx = decimal(outcome.transfer.client_to_upstream as nat);
    let rx = decimal(outcome.transfer.upstream_to_client as nat);
    let q0 = task_prefix(task.id, peer) + " task end"@;
    let q1 = q0 + " target="@ + shown;
    let q2 = q1 + " active_tasks="@ + active;
    let q3 = q2 + " elapsed_ms="@ + elapsed;
    let q4 = q3 + " tx_bytes="@ + tx;
    let q5 = q4 + " rx_bytes="@ + rx;
    assert(q5 == summary_text(task, peer, outcome, elapsed_ms));
    lemma_shows_at_end(q0, " target="@, "target="@, shown);
    lemma_still_shows(q1, "target="@, shown, " active_tasks="@, active);
    lemma_still_shows(q2, "target="@, shown, " elapsed_ms="@, elapsed);
    lemma_still_shows(q3, "target="@, shown, " tx_bytes="@, tx);
    lemma_still_shows(q4, "target="@, shown, " rx_bytes="@, rx);
    lemma_shows_at_end(q1, " active_tasks="@, "active_tasks="@, active);
    lemma_still_shows(q2, "active_tasks="@, active, " elapsed_ms="@, elapsed);
    lemma_still_shows(q3, "active_tasks="@, active, " tx_bytes="@, tx);
    lemma_still_shows(q4, "active_tasks="@, active, " rx_bytes="@, rx);
    lemma_shows_at_end(q2, " elapsed_ms="@, "elapsed_ms="@, elapsed);
    lemma_still_shows(q3, "elapsed_ms="@, elapsed, " tx_bytes="@, tx);
    lemma_still_shows(q4, "elapsed_ms="@, elapsed, " rx_bytes="@, rx);
    lemma_shows_at_end(q3, " tx_bytes="@, "tx_bytes="@, tx);
    lemma_still_shows(q4, "tx_bytes="@, tx, " rx_bytes="@, rx);
    lemma_shows_at_end(q4, " rx_bytes="@, "rx_bytes="@, rx);
    match outcome.error {
        None => {},
        Some(error) => {
            let text = error_text(error);
            lemma_still_shows(q5, "target="@, shown, " error="@, text);
            lemma_still_shows(q5, "active_tasks="@, active, " error="@, text);
            lemma_still_shows(q5, "elapsed_ms="@, elapsed, " error="@, text);
            lemma_still_shows(q5, "tx_bytes="@, tx, " error="@, text);
            lemma_still_shows(q5, "rx_bytes="@, rx, " error="@, text);
        },
    }
}

} // verus!
