//! What the lines of the log read like, in full.

use crate::log::{
    destination_text, end_level, end_text, failure_text, line_text, listening_text, shown_target,
    start_text, summary_text, task_prefix, traffic_text, Level, TRAFFIC_INTERVAL_SECS,
};
use crate::number::decimal;
use crate::protocol::{error_text, ErrorModel, ProxyOutcomeModel};
use crate::runtime::{CounterSnapshot, RuntimeSnapshot};
use crate::transfer::TransferStats;
use vstd::prelude::*;

verus! {

/// A line of the log holds the time, the level and the message, with a space
/// between them and a line feed at the end.
pub proof fn law_log_lines_in_full(millis: nat, message: Seq<char>)
    ensures
        line_text(millis, Level::Info, message) == decimal(millis) + (" INFO "@ + (message + seq![
            '\n',
        ])),
        line_text(millis, Level::Error, message) == decimal(millis) + (" ERROR "@ + (message
            + seq!['\n'])),
{
    reveal_strlit(" ");
    reveal_strlit("\n");
    reveal_strlit("INFO");
    reveal_strlit("ERROR");
    reveal_strlit(" INFO ");
    reveal_strlit(" ERROR ");
    assert(" INFO "@ =~= " "@ + "INFO"@ + " "@);
    assert(" ERROR "@ =~= " "@ + "ERROR"@ + " "@);
    assert("\n"@ =~= seq!['\n']);
    assert(line_text(millis, Level::Info, message) =~= decimal(millis) + (" INFO "@ + (message
        + seq!['\n'])));
    assert(line_text(millis, Level::Error, message) =~= decimal(millis) + (" ERROR "@ + (message
        + seq!['\n'])));
}

/// The message at the start of a task in full.
pub proof fn law_start_message_in_full(
    id: usize,
    active: usize,
    peer: Seq<char>,
    target: Seq<char>,
)
    ensures
        start_text(CounterSnapshot { id, active }, peer, target) == "[task="@ + (decimal(
            id as nat,
        ) + ("] ["@ + (peer + ("] task start target="@ + (target + (" active_tasks="@ + decimal(
            active as nat,
        ))))))),
{
    reveal_strlit("]");
    reveal_strlit(" task start");
    reveal_strlit(" target=");
    reveal_strlit("] task start target=");
    assert("] task start target="@ =~= "]"@ + " task start"@ + " target="@);
    assert(start_text(CounterSnapshot { id, active }, peer, target) =~= "[task="@ + (decimal(
        id as nat,
    ) + ("] ["@ + (peer + ("] task start target="@ + (target + (" active_tasks="@ + decimal(
        active as nat,
    ))))))));
}

/// What stands behind the target in the message at the end of a task.
pub open spec fn end_figures(active: usize, elapsed_ms: nat, tx: u64, rx: u64) -> Seq<char> {
    " active_tasks="@ + (decimal(active as nat) + (" elapsed_ms="@ + (decimal(elapsed_ms) + (
    " tx_bytes="@ + (decimal(tx as nat) + (" rx_bytes="@ + decimal(rx as nat)))))))
}

/// The message at the end of a task in full: a task without a target is shown
/// with a dash, and one that failed with its error.
pub proof fn law_end_message_in_full(
    id: usize,
    active: usize,
    peer: Seq<char>,
    target: Seq<char>,
    tx: u64,
    rx: u64,
    error: ErrorModel,
    elapsed_ms: nat,
)
    ensures
        ({
            let task = CounterSnapshot { id, active };
            let transfer = TransferStats { client_to_upstream: tx, upstream_to_client: rx };
            let front = end_front(id, peer);
            let back = end_figures(active, elapsed_ms, tx, rx);
            &&& end_text(
                task,
                peer,
                ProxyOutcomeModel { target: Some(target), transfer, error: None },
                elapsed_ms,
            ) == front + (target + back)
            &&& end_text(
                task,
                peer,
                ProxyOutcomeModel { target: None, transfer, error: None },
                elapsed_ms,
            ) == front + ("-"@ + back)
            &&& end_text(
                task,
                peer,
                ProxyOutcomeModel { target: Some(target), transfer, error: Some(error) },
                elapsed_ms,
            ) == front + (target + (back + (" error="@ + error_text(error))))
            &&& end_text(
                task,
                peer,
                ProxyOutcomeModel { target: None, transfer, error: Some(error) },
                elapsed_ms,
            ) == front + ("-"@ + (back + (" error="@ + error_text(error))))
        }),
{
    let task = CounterSnapshot { id, active };
    let transfer = TransferStats { client_to_upstream: tx, upstream_to_client: rx };
    let back = end_figures(active, elapsed_ms, tx, rx);
    let failed = " error="@ + error_text(error);
    let named = ProxyOutcomeModel { target: Some(target), transfer, error: None };
    let nameless = ProxyOutcomeModel { target: None, transfer, error: None };
    let front = end_front(id, peer);
    lemma_summary(task, peer, named, elapsed_ms);
    lemma_summary(task, peer, nameless, elapsed_ms);
    lemma_regroup(front, target, back, failed);
    lemma_regroup(front, "-"@, back, failed);
    let summary = summary_text(task, peer, named, elapsed_ms);
    assert(summary + " error="@ + error_text(error) =~= summary + failed);
    let summary = summary_text(task, peer, nameless, elapsed_ms);
    assert(summary + " error="@ + error_text(error) =~= summary + failed);
}

/// What stands in front of the target in the message at the end of a task.
pub open spec fn end_front(id: usize, peer: Seq<char>) -> Seq<char> {
    "[task="@ + (decimal(id as nat) + ("] ["@ + (peer + "] task end target="@)))
}

proof fn lemma_regroup(a: Seq<char>, b: Seq<char>, c: Seq<char>, d: Seq<char>)
    ensures
        (a + (b + c)) + d == a + (b + (c + d)),
{
    assert((a + (b + c)) + d =~= a + (b + (c + d)));
}

proof fn lemma_summary(
    task: CounterSnapshot,
    peer: Seq<char>,
    outcome: ProxyOutcomeModel,
    elapsed_ms: nat,
)
    ensures
        summary_text(task, peer, outcome, elapsed_ms) == end_front(task.id, peer) + (shown_target(
            outcome.target,
        ) + end_figures(
            task.active,
            elapsed_ms,
            outcome.transfer.client_to_upstream,
            outcome.transfer.upstream_to_client,
        )),
{
    let shown = shown_target(outcome.target);
    let front = end_front(task.id, peer);
    let q = task_prefix(task.id, peer) + " task end"@ + " target="@;
    reveal_strlit("]");
    reveal_strlit(" task end");
    reveal_strlit(" target=");
    reveal_strlit("] task end target=");
    assert("] task end target="@ =~= "]"@ + " task end"@ + " target="@);
    assert(q =~= front);
    let a = " active_tasks="@;
    let b = decimal(task.active as nat);
    let c = " elapsed_ms="@;
    let d = decimal(elapsed_ms);
    let e = " tx_bytes="@;
    let f = decimal(outcome.transfer.client_to_upstream as nat);
    let g = " rx_bytes="@;
    let h = decimal(outcome.transfer.upstream_to_client as nat);
    let x = front + shown;
    lemma_regroup_figures(x, a, b, c, d, e, f, g, h);
    assert(x + (a + (b + (c + (d + (e + (f + (g + h))))))) =~= front + (shown + (a + (b + (c + (d
        + (e + (f + (g + h)))))))));
}

proof fn lemma_regroup_figures(
    x: Seq<char>,
    a: Seq<char>,
    b: Seq<char>,
    c: Seq<char>,
    d: Seq<char>,
    e: Seq<char>,
    f: Seq<char>,
    g: Seq<char>,
    h: Seq<char>,
)
    ensures
        x + a + b + c + d + e + f + g + h == x + (a + (b + (c + (d + (e + (f + (g + h))))))),
{
    assert(x + a + b + c + d + e + f + g + h =~= x + (a + (b + (c + (d + (e + (f + (g + h))))))));
}

/// The message about the traffic in full; there is none without a task.
pub proof fn law_traffic_message_in_full(active: usize, tx: u64, rx: u64)
    requires
        active > 0,
    ensures
        traffic_text(
            RuntimeSnapshot { active_tasks: active, tx_bytes: tx, rx_bytes: rx },
        ) == Some(
            "traffic active_tasks="@ + (decimal(active as nat) + (" total_tx_bytes="@ + (decimal(
                tx as nat,
            ) + (" total_rx_bytes="@ + (decimal(rx as nat) + (" total_bytes="@ + decimal(
                (tx + rx) as nat,
            ))))))),
        ),
        traffic_text(RuntimeSnapshot { active_tasks: 0, tx_bytes: tx, rx_bytes: rx }) is None,
{
    reveal_strlit("traffic");
    reveal_strlit(" active_tasks=");
    reveal_strlit("traffic active_tasks=");
    assert("traffic active_tasks="@ =~= "traffic"@ + " active_tasks="@);
    assert(traffic_text(
        RuntimeSnapshot { active_tasks: active, tx_bytes: tx, rx_bytes: rx },
    ).unwrap() =~= "traffic active_tasks="@ + (decimal(active as nat) + (" total_tx_bytes="@ + (
    decimal(tx as nat) + (" total_rx_bytes="@ + (decimal(rx as nat) + (" total_bytes="@ + decimal(
        (tx + rx) as nat,
    ))))))));
}

/// The messages at the start of the proxy in full. The traffic is reported every
/// five minutes.
pub proof fn law_first_messages_in_full(a: Seq<char>, b: Seq<char>)
    ensures
        failure_text(a, b) == "failed to parse "@ + (a + (": "@ + b)),
        listening_text(a, b) == "listening on "@ + (a + (", forwarding via SOCKS5 "@ + b)),
        destination_text(Some(a)) == "logging to "@ + a,
        destination_text(None) == "file logging disabled"@,
        TRAFFIC_INTERVAL_SECS == 5 * 60,
{
    assert(failure_text(a, b) =~= "failed to parse "@ + (a + (": "@ + b)));
    assert(listening_text(a, b) =~= "listening on "@ + (a + (", forwarding via SOCKS5 "@ + b)));
}

/// The end of a task is logged as an error if and only if the task failed.
pub proof fn law_failed_tasks_are_errors(outcome: ProxyOutcomeModel)
    ensures
        end_level(outcome) == Level::Error <==> outcome.error is Some,
        end_level(outcome) == Level::Info <==> outcome.error is None,
{
}

} // verus!
