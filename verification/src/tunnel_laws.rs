//! What holds of an open tunnel and of the counters, event by event.

use crate::protocol::{ConnectOutcomeModel, ErrorModel};
use crate::runtime::{counted, total_bound, RuntimeEvent, RuntimeModel};
use crate::transfer::{no_transfer, Direction, TransferStats};
use crate::tunnel::{BUFFER_LEN, CopyEventModel, CopyStateModel, TunnelModel};
use vstd::arithmetic::div_mod::lemma_small_mod;
use vstd::prelude::*;

verus! {

/// The counters of the whole run count up from zero to one below 2 to the 64th,
/// each for itself; where no tunnel was open, nothing was transferred.
pub proof fn law_counters_count_one_by_one(m: RuntimeModel, n: u64)
    ensures
        total_bound() == u64::MAX + 1,
        no_transfer().client_to_upstream == 0,
        no_transfer().upstream_to_client == 0,
        counted(m, RuntimeEvent::Started) == (RuntimeModel {
            started: m.started + 1,
            active: m.active + 1,
            tx: m.tx,
            rx: m.rx,
        }),
        counted(m, RuntimeEvent::Finished) == (RuntimeModel {
            started: m.started,
            active: m.active - 1,
            tx: m.tx,
            rx: m.rx,
        }),
        counted(m, RuntimeEvent::Sent(n)) == (RuntimeModel {
            started: m.started,
            active: m.active,
            tx: (m.tx + n) % (u64::MAX + 1),
            rx: m.rx,
        }),
        counted(m, RuntimeEvent::Received(n)) == (RuntimeModel {
            started: m.started,
            active: m.active,
            tx: m.tx,
            rx: (m.rx + n) % (u64::MAX + 1),
        }),
{
}

/// A tunnel starts by reading both ways, 16 kilobytes at a time at most, with the
/// counters that it is given.
pub proof fn law_tunnel_starts_by_reading(counters: TransferStats)
    ensures
        TunnelModel::start(counters) == (TunnelModel {
            counters,
            client_to_upstream: CopyStateModel::Reading,
            upstream_to_client: CopyStateModel::Reading,
            error: None,
        }),
        BUFFER_LEN == 16 * 1024,
{
}

/// What comes from the client is written to the upstream server as it came, and
/// is counted when it was written, in the tunnel and over the whole run. The end
/// of the input is passed on by closing, which is not counted. The other
/// direction goes its own way.
pub proof fn law_bytes_from_the_client(t: TunnelModel, bytes: Seq<u8>, stats: RuntimeModel)
    requires
        t.error is None,
        t.client_to_upstream is Reading,
        0 < bytes.len() <= u64::MAX,
    ensures
        ({
            let up = Direction::ClientToUpstream;
            let holding = t.next(up, CopyEventModel::Read(bytes));
            let closing = t.next(up, CopyEventModel::Read(Seq::empty()));
            &&& t.action(up) is Reading
            &&& holding == (TunnelModel {
                client_to_upstream: CopyStateModel::Writing(bytes),
                ..t
            })
            &&& holding.action(up) == CopyStateModel::Writing(bytes)
            &&& t.next_stats(up, CopyEventModel::Read(bytes), stats) == stats
            &&& holding.next(up, CopyEventModel::Done) == (TunnelModel {
                counters: TransferStats {
                    client_to_upstream: ((t.counters.client_to_upstream + bytes.len()) % (u64::MAX
                        + 1)) as u64,
                    upstream_to_client: t.counters.upstream_to_client,
                },
                ..t
            })
            &&& holding.next_stats(up, CopyEventModel::Done, stats) == (RuntimeModel {
                tx: (stats.tx + bytes.len()) % (u64::MAX + 1),
                ..stats
            })
            &&& closing == (TunnelModel { client_to_upstream: CopyStateModel::Closing, ..t })
            &&& closing.action(up) is Closing
            &&& t.next_stats(up, CopyEventModel::Read(Seq::empty()), stats) == stats
            &&& closing.next(up, CopyEventModel::Done) == (TunnelModel {
                client_to_upstream: CopyStateModel::Closed,
                ..t
            })
            &&& closing.next(up, CopyEventModel::Done).action(up) is Closed
            &&& closing.next_stats(up, CopyEventModel::Done, stats) == stats
        }),
{
    let b = (u64::MAX + 1) as nat;
    lemma_small_mod(t.counters.client_to_upstream as nat, b);
    lemma_small_mod(t.counters.upstream_to_client as nat, b);
}

/// The same holds of what comes from the upstream server.
pub proof fn law_bytes_from_the_upstream_server(
    t: TunnelModel,
    bytes: Seq<u8>,
    stats: RuntimeModel,
)
    requires
        t.error is None,
        t.upstream_to_client is Reading,
        0 < bytes.len() <= u64::MAX,
    ensures
        ({
            let down = Direction::UpstreamToClient;
            let holding = t.next(down, CopyEventModel::Read(bytes));
            let closing = t.next(down, CopyEventModel::Read(Seq::empty()));
            &&& t.action(down) is Reading
            &&& holding == (TunnelModel {
                upstream_to_client: CopyStateModel::Writing(bytes),
                ..t
            })
            &&& holding.action(down) == CopyStateModel::Writing(bytes)
            &&& t.next_stats(down, CopyEventModel::Read(bytes), stats) == stats
            &&& holding.next(down, CopyEventModel::Done) == (TunnelModel {
                counters: TransferStats {
                    client_to_upstream: t.counters.client_to_upstream,
                    upstream_to_client: ((t.counters.upstream_to_client + bytes.len()) % (u64::MAX
                        + 1)) as u64,
                },
                ..t
            })
            &&& holding.next_stats(down, CopyEventModel::Done, stats) == (RuntimeModel {
                rx: (stats.rx + bytes.len()) % (u64::MAX + 1),
                ..stats
            })
            &&& closing == (TunnelModel { upstream_to_client: CopyStateModel::Closing, ..t })
            &&& closing.action(down) is Closing
            &&& t.next_stats(down, CopyEventModel::Read(Seq::empty()), stats) == stats
            &&& closing.next(down, CopyEventModel::Done) == (TunnelModel {
                upstream_to_client: CopyStateModel::Closed,
                ..t
            })
            &&& closing.next(down, CopyEventModel::Done).action(down) is Closed
            &&& closing.next_stats(down, CopyEventModel::Done, stats) == stats
        }),
{
    let b = (u64::MAX + 1) as nat;
    lemma_small_mod(t.counters.client_to_upstream as nat, b);
    lemma_small_mod(t.counters.upstream_to_client as nat, b);
}

/// A failure in a direction that is not closed yet is the error of the tunnel; it
/// is not counted. The outcome of a tunnel is what it counted, and its error.
pub proof fn law_failures_and_outcomes(
    t: TunnelModel,
    direction: Direction,
    reason: Seq<char>,
    stats: RuntimeModel,
)
    requires
        t.error is None,
        !(t.action(direction) is Closed),
    ensures
        t.next(direction, CopyEventModel::Failed(reason)) == (TunnelModel {
            error: Some(ErrorModel::Io(reason)),
            ..t
        }),
        t.next_stats(direction, CopyEventModel::Failed(reason), stats) == stats,
        t.next(direction, CopyEventModel::Failed(reason)).outcome() == Some(
            ConnectOutcomeModel { transfer: t.counters, error: Some(ErrorModel::Io(reason)) },
        ),
        t.outcome() is None,
        (TunnelModel {
            client_to_upstream: CopyStateModel::Closed,
            upstream_to_client: CopyStateModel::Closed,
            ..t
        }).outcome() == Some(ConnectOutcomeModel { transfer: t.counters, error: None }),
{
}

/// The event is an answer to what one direction is to do.
pub open spec fn answers_copy(action: CopyStateModel, event: CopyEventModel) -> bool {
    match action {
        CopyStateModel::Reading => event is Read || event is Failed,
        CopyStateModel::Writing(_) => event is Done || event is Failed,
        CopyStateModel::Closing => event is Done || event is Failed,
        CopyStateModel::Closed => false,
    }
}

/// An event that is no answer changes nothing and is not counted.
pub proof fn law_tunnel_takes_answers_only(
    t: TunnelModel,
    direction: Direction,
    event: CopyEventModel,
    stats: RuntimeModel,
)
    requires
        !answers_copy(t.action(direction), event),
    ensures
        t.next(direction, event) == t,
        t.next_stats(direction, event, stats) == stats,
{
    let b = (u64::MAX + 1) as nat;
    lemma_small_mod(t.counters.client_to_upstream as nat, b);
    lemma_small_mod(t.counters.upstream_to_client as nat, b);
}

} // verus!
