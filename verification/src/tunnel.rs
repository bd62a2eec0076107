//! An open tunnel: bytes are carried both ways and counted.

use crate::protocol::{
    error_model, ConnectOutcome, ConnectOutcomeModel, ErrorModel, ProxyError,
};
use crate::runtime::{counted, total_bound, RuntimeEvent, RuntimeModel, RuntimeStats};
use crate::transfer::{carried, Direction, TransferCounters, TransferStats};
use vstd::arithmetic::div_mod::{lemma_add_mod_noop_right, lemma_small_mod};
use vstd::prelude::*;
use vstd::slice::slice_to_vec;

verus! {

/// How many bytes are carried at a time, at most.
pub const BUFFER_LEN: usize = 16384;

/// What one direction of a tunnel is about to do.
pub enum CopyState {
    /// Read the next bytes.
    Reading,
    /// Write the bytes that were read.
    Writing(Vec<u8>),
    /// Tell the receiver that nothing more will come.
    Closing,
    /// Nothing: the direction is closed.
    Closed,
}

/// The model of a `CopyState`.
pub enum CopyStateModel {
    Reading,
    Writing(Seq<u8>),
    Closing,
    Closed,
}

impl View for CopyState {
    type V = CopyStateModel;

    open spec fn view(&self) -> CopyStateModel {
        match self {
            CopyState::Reading => CopyStateModel::Reading,
            CopyState::Writing(bytes) => CopyStateModel::Writing(bytes@),
            CopyState::Closing => CopyStateModel::Closing,
            CopyState::Closed => CopyStateModel::Closed,
        }
    }
}

/// What came of it.
pub enum CopyEvent {
    /// These bytes were read; none stands for the end of the input.
    Read(Vec<u8>),
    /// Writing or closing succeeded.
    Done,
    /// Reading, writing or closing failed, for the reason given.
    Failed(String),
}

/// The model of a `CopyEvent`.
pub enum CopyEventModel {
    Read(Seq<u8>),
    Done,
    Failed(Seq<char>),
}

impl View for CopyEvent {
    type V = CopyEventModel;

    open spec fn view(&self) -> CopyEventModel {
        match self {
            CopyEvent::Read(bytes) => CopyEventModel::Read(bytes@),
            CopyEvent::Done => CopyEventModel::Done,
            CopyEvent::Failed(reason) => CopyEventModel::Failed(reason@),
        }
    }
}

/// One direction after an event that is no failure; one that is no answer
/// changes nothing.
pub open spec fn next_copy(state: CopyStateModel, event: CopyEventModel) -> CopyStateModel {
    match (state, event) {
        (CopyStateModel::Reading, CopyEventModel::Read(bytes)) => if bytes.len() == 0 {
            CopyStateModel::Closing
        } else {
            CopyStateModel::Writing(bytes)
        },
        (CopyStateModel::Writing(_), CopyEventModel::Done) => CopyStateModel::Reading,
        (CopyStateModel::Closing, CopyEventModel::Done) => CopyStateModel::Closed,
        (state, _) => state,
    }
}

/// The bytes that an event shows to have arrived.
pub open spec fn delivered(state: CopyStateModel, event: CopyEventModel) -> Seq<u8> {
    match (state, event) {
        (CopyStateModel::Writing(bytes), CopyEventModel::Done) => bytes,
        _ => Seq::empty(),
    }
}

/// A tunnel between a client and an upstream server.
pub struct Tunnel {
    pub counters: TransferCounters,
    pub client_to_upstream: CopyState,
    pub upstream_to_client: CopyState,
    /// The failure that ended the tunnel.
    pub error: Option<ProxyError>,
}

/// The model of a `Tunnel`.
pub struct TunnelModel {
    pub counters: TransferStats,
    pub client_to_upstream: CopyStateModel,
    pub upstream_to_client: CopyStateModel,
    pub error: Option<ErrorModel>,
}

impl View for Tunnel {
    type V = TunnelModel;

    open spec fn view(&self) -> TunnelModel {
        TunnelModel {
            counters: self.counters@,
            client_to_upstream: self.client_to_upstream@,
            upstream_to_client: self.upstream_to_client@,
            error: error_model(self.error),
        }
    }
}

/// What delivered bytes are to the counters of the whole run.
pub open spec fn runtime_event(direction: Direction, n: u64) -> RuntimeEvent {
    match direction {
        Direction::ClientToUpstream => RuntimeEvent::Sent(n),
        Direction::UpstreamToClient => RuntimeEvent::Received(n),
    }
}

impl TunnelModel {
    /// The beginning: both directions read.
    pub open spec fn start(counters: TransferStats) -> TunnelModel {
        TunnelModel {
            counters,
            client_to_upstream: CopyStateModel::Reading,
            upstream_to_client: CopyStateModel::Reading,
            error: None,
        }
    }

    /// One direction.
    pub open spec fn side(self, direction: Direction) -> CopyStateModel {
        match direction {
            Direction::ClientToUpstream => self.client_to_upstream,
            Direction::UpstreamToClient => self.upstream_to_client,
        }
    }

    /// The tunnel is over: something failed, or both directions are closed.
    pub open spec fn ended(self) -> bool {
        self.error is Some || (self.client_to_upstream is Closed
            && self.upstream_to_client is Closed)
    }

    /// What one direction is to do next: nothing, after a failure of either.
    pub open spec fn action(self, direction: Direction) -> CopyStateModel {
        if self.error is Some {
            CopyStateModel::Closed
        } else {
            self.side(direction)
        }
    }

    /// The tunnel after an event in one direction. The first failure ends both
    /// directions.
    pub open spec fn next(self, direction: Direction, event: CopyEventModel) -> TunnelModel {
        let side = self.side(direction);
        if self.error is Some || side is Closed {
            self
        } else if event is Failed {
            TunnelModel { error: Some(ErrorModel::Io(event->Failed_0)), ..self }
        } else {
            let counters = carried(
                self.counters,
                direction,
                delivered(side, event).len() as u64,
            );
            match direction {
                Direction::ClientToUpstream => TunnelModel {
                    counters,
                    client_to_upstream: next_copy(side, event),
                    ..self
                },
                Direction::UpstreamToClient => TunnelModel {
                    counters,
                    upstream_to_client: next_copy(side, event),
                    ..self
                },
            }
        }
    }

    /// The counters of the whole run after an event.
    pub open spec fn next_stats(
        self,
        direction: Direction,
        event: CopyEventModel,
        stats: RuntimeModel,
    ) -> RuntimeModel {
        if self.error is None && self.side(direction) is Writing && event is Done {
            let bytes = delivered(self.side(direction), event);
            counted(stats, runtime_event(direction, bytes.len() as u64))
        } else {
            stats
        }
    }

    /// How the tunnel ended, if it did.
    pub open spec fn outcome(self) -> Option<ConnectOutcomeModel> {
        if self.ended() {
            Some(ConnectOutcomeModel { transfer: self.counters, error: self.error })
        } else {
            None
        }
    }
}

impl Tunnel {
    /// Opens a tunnel whose counters go on from `counters`.
    pub fn start(counters: TransferCounters) -> (r: Tunnel)
        ensures
            r@ == TunnelModel::start(counters@),
    {
        Tunnel {
            counters,
            client_to_upstream: CopyState::Reading,
            upstream_to_client: CopyState::Reading,
            error: None,
        }
    }

    /// One direction.
    fn side(&self, direction: Direction) -> (r: &CopyState)
        ensures
            r@ == self@.side(direction),
    {
        match direction {
            Direction::ClientToUpstream => &self.client_to_upstream,
            Direction::UpstreamToClient => &self.upstream_to_client,
        }
    }

    /// Replaces the state of one direction.
    fn set_side(&mut self, direction: Direction, state: CopyState)
        ensures
            final(self)@ == (match direction {
                Direction::ClientToUpstream => TunnelModel {
                    client_to_upstream: state@,
                    ..old(self)@
                },
                Direction::UpstreamToClient => TunnelModel {
                    upstream_to_client: state@,
                    ..old(self)@
                },
            }),
    {
        match direction {
            Direction::ClientToUpstream => {
                self.client_to_upstream = state;
            },
            Direction::UpstreamToClient => {
                self.upstream_to_client = state;
            },
        }
    }

    /// What one direction is to do next.
    pub fn action(&self, direction: Direction) -> (r: CopyState)
        ensures
            r@ == self@.action(direction),
    {
        if self.error.is_some() {
            CopyState::Closed
        } else {
            match self.side(direction) {
                CopyState::Reading => CopyState::Reading,
                CopyState::Writing(bytes) => CopyState::Writing(slice_to_vec(bytes.as_slice())),
                CopyState::Closing => CopyState::Closing,
                CopyState::Closed => CopyState::Closed,
            }
        }
    }

    /// Goes on with what came of the last action in one direction.
    pub fn step(&mut self, direction: Direction, event: CopyEvent, stats: &mut RuntimeStats)
        ensures
            final(self)@ == old(self)@.next(direction, event@),
            final(stats)@ == old(self)@.next_stats(direction, event@, old(stats)@),
    {
        if self.error.is_some() {
            return ;
        }
        let closed = matches!(self.side(direction), CopyState::Closed);
        if closed {
            return ;
        }
        match event {
            CopyEvent::Failed(reason) => {
                self.error = Some(ProxyError::Io(reason));
            },
            CopyEvent::Read(bytes) => {
                let reading = matches!(self.side(direction), CopyState::Reading);
                if reading {
                    if bytes.len() == 0 {
                        self.set_side(direction, CopyState::Closing);
                    } else {
                        self.set_side(direction, CopyState::Writing(bytes));
                    }
                }
            },
            CopyEvent::Done => {
                let written: Option<u64> = match self.side(direction) {
                    CopyState::Writing(bytes) => Some(bytes.len() as u64),
                    _ => None,
                };
                let closing = matches!(self.side(direction), CopyState::Closing);
                if let Some(n) = written {
                    self.counters.count(direction, n);
                    match direction {
                        Direction::ClientToUpstream => {
                            stats.add_tx_bytes(n);
                        },
                        Direction::UpstreamToClient => {
                            stats.add_rx_bytes(n);
                        },
                    }
                    self.set_side(direction, CopyState::Reading);
                } else if closing {
                    self.set_side(direction, CopyState::Closed);
                }
            },
        }
    }

    /// How the tunnel ended, if it did.
    pub fn outcome(self) -> (r: Option<ConnectOutcome>)
        ensures
            match r {
                Some(outcome) => self@.outcome() == Some(outcome@),
                None => self@.outcome() is None,
            },
    {
        let both_closed = matches!(
            (&self.client_to_upstream, &self.upstream_to_client),
            (CopyState::Closed, CopyState::Closed)
        );
        if self.error.is_some() || both_closed {
            Some(ConnectOutcome { transfer: self.counters.snapshot(), error: self.error })
        } else {
            None
        }
    }
}

// ---------------------------------------------------------------------------
// Laws
// ---------------------------------------------------------------------------

/// An event in one direction of a tunnel.
pub struct SideEvent {
    pub direction: Direction,
    pub event: CopyEventModel,
}

/// The tunnel after a sequence of events.
pub open spec fn tunnel_run(t: TunnelModel, events: Seq<SideEvent>) -> TunnelModel
    decreases events.len(),
{
    if events.len() == 0 {
        t
    } else {
        tunnel_run(t.next(events[0].direction, events[0].event), events.drop_first())
    }
}

/// The counters of the whole run after a sequence of events in one tunnel.
pub open spec fn stats_run(
    t: TunnelModel,
    events: Seq<SideEvent>,
    stats: RuntimeModel,
) -> RuntimeModel
    decreases events.len(),
{
    if events.len() == 0 {
        stats
    } else {
        let SideEvent { direction, event } = events[0];
        stats_run(
            t.next(direction, event),
            events.drop_first(),
            t.next_stats(direction, event, stats),
        )
    }
}

/// How many bytes arrived in one direction in the course of a run.
pub open spec fn arrived(t: TunnelModel, events: Seq<SideEvent>, direction: Direction) -> int
    decreases events.len(),
{
    if events.len() == 0 {
        0
    } else {
        let SideEvent { direction: d, event } = events[0];
        arrived(t.next(d, event), events.drop_first(), direction) + if d == direction
            && t.error is None {
            (delivered(t.side(d), event).len() as u64) as int
        } else {
            0
        }
    }
}

/// The counter of one direction.
pub open spec fn counter(c: TransferStats, direction: Direction) -> int {
    match direction {
        Direction::ClientToUpstream => c.client_to_upstream as int,
        Direction::UpstreamToClient => c.upstream_to_client as int,
    }
}

/// The total of one direction over the whole run.
pub open spec fn total(m: RuntimeModel, direction: Direction) -> int {
    match direction {
        Direction::ClientToUpstream => m.tx,
        Direction::UpstreamToClient => m.rx,
    }
}

/// A tunnel counts the bytes that arrived, no more and no less, and so do the
/// counters of the whole run; nothing else in those changes.
pub proof fn law_tunnel_counts_what_arrived(
    t: TunnelModel,
    events: Seq<SideEvent>,
    stats: RuntimeModel,
    direction: Direction,
)
    requires
        0 <= stats.tx < total_bound(),
        0 <= stats.rx < total_bound(),
    ensures
        counter(tunnel_run(t, events).counters, direction) == (counter(t.counters, direction)
            + arrived(t, events, direction)) % total_bound(),
        total(stats_run(t, events, stats), direction) == (total(stats, direction) + arrived(
            t,
            events,
            direction,
        )) % total_bound(),
        stats_run(t, events, stats).started == stats.started,
        stats_run(t, events, stats).active == stats.active,
    decreases events.len(),
{
    if events.len() == 0 {
        lemma_small_mod(counter(t.counters, direction) as nat, total_bound() as nat);
        lemma_small_mod(total(stats, direction) as nat, total_bound() as nat);
    } else {
        let SideEvent { direction: d, event } = events[0];
        let next = t.next(d, event);
        let next_stats = t.next_stats(d, event, stats);
        let rest = events.drop_first();
        let n = if d == direction && t.error is None {
            (delivered(t.side(d), event).len() as u64) as int
        } else {
            0
        };
        let b = total_bound();
        let c = counter(t.counters, direction);
        lemma_small_mod(c as nat, b as nat);
        lemma_small_mod(t.counters.client_to_upstream as nat, b as nat);
        lemma_small_mod(t.counters.upstream_to_client as nat, b as nat);
        lemma_small_mod(total(stats, direction) as nat, b as nat);
        assert(counter(next.counters, direction) == (c + n) % b);
        assert(total(next_stats, direction) == (total(stats, direction) + n) % b);
        assert(0 <= next_stats.tx < b && 0 <= next_stats.rx < b);
        law_tunnel_counts_what_arrived(next, rest, next_stats, direction);
        let later = arrived(next, rest, direction);
        lemma_add_mod_noop_right(later, c + n, b);
        lemma_add_mod_noop_right(later, total(stats, direction) + n, b);
    }
}

/// The first failure ends a tunnel: nothing is done any more in either
/// direction, and the failure is the outcome.
pub proof fn law_first_failure_ends_tunnel(
    t: TunnelModel,
    direction: Direction,
    reason: Seq<char>,
    events: Seq<SideEvent>,
)
    requires
        t.error is None,
        !(t.side(direction) is Closed),
    ensures
        ({
            let failed = t.next(direction, CopyEventModel::Failed(reason));
            &&& tunnel_run(failed, events) == failed
            &&& failed.action(Direction::ClientToUpstream) is Closed
            &&& failed.action(Direction::UpstreamToClient) is Closed
            &&& failed.outcome() == Some(
                ConnectOutcomeModel {
                    transfer: t.counters,
                    error: Some(ErrorModel::Io(reason)),
                },
            )
        }),
{
    lemma_failed_tunnel_stays(t.next(direction, CopyEventModel::Failed(reason)), events);
}

proof fn lemma_failed_tunnel_stays(t: TunnelModel, events: Seq<SideEvent>)
    requires
        t.error is Some,
    ensures
        tunnel_run(t, events) == t,
    decreases events.len(),
{
    if events.len() > 0 {
        lemma_failed_tunnel_stays(t, events.drop_first());
    }
}

/// Without a failure a tunnel is over when both directions are closed, and not
/// before; the end of the input in one direction leaves the other open.
pub proof fn law_tunnel_lasts_until_both_ends_are_done(t: TunnelModel)
    requires
        t.error is None,
    ensures
        t.outcome() is Some <==> t.client_to_upstream is Closed && t.upstream_to_client is Closed,
        t.outcome() is Some ==> t.outcome().unwrap().error is None,
        t.next(Direction::ClientToUpstream, CopyEventModel::Read(Seq::empty())).upstream_to_client
            == t.upstream_to_client,
        t.next(Direction::UpstreamToClient, CopyEventModel::Read(Seq::empty())).client_to_upstream
            == t.client_to_upstream,
{
}

/// The bytes that one direction holds: read, and still to be written.
pub open spec fn held(state: CopyStateModel) -> Seq<u8> {
    match state {
        CopyStateModel::Writing(bytes) => bytes,
        _ => Seq::empty(),
    }
}

/// The bytes that an event shows to have been read.
pub open spec fn taken(state: CopyStateModel, event: CopyEventModel) -> Seq<u8> {
    match (state, event) {
        (CopyStateModel::Reading, CopyEventModel::Read(bytes)) => bytes,
        _ => Seq::empty(),
    }
}

/// The bytes that were read in one direction in the course of a run.
pub open spec fn bytes_read(
    t: TunnelModel,
    events: Seq<SideEvent>,
    direction: Direction,
) -> Seq<u8>
    decreases events.len(),
{
    if events.len() == 0 {
        Seq::empty()
    } else {
        let SideEvent { direction: d, event } = events[0];
        (if d == direction {
            taken(t.action(d), event)
        } else {
            Seq::empty()
        }) + bytes_read(t.next(d, event), events.drop_first(), direction)
    }
}

/// The bytes that arrived in one direction in the course of a run.
pub open spec fn bytes_delivered(
    t: TunnelModel,
    events: Seq<SideEvent>,
    direction: Direction,
) -> Seq<u8>
    decreases events.len(),
{
    if events.len() == 0 {
        Seq::empty()
    } else {
        let SideEvent { direction: d, event } = events[0];
        (if d == direction {
            delivered(t.action(d), event)
        } else {
            Seq::empty()
        }) + bytes_delivered(t.next(d, event), events.drop_first(), direction)
    }
}

/// A tunnel carries bytes unchanged: in each direction, what it held and read is
/// what arrived and what it still holds, in that order. So what arrived at any
/// time is the beginning of what was read, and all of it once nothing is held,
/// as when the direction is closed.
pub proof fn law_tunnel_carries_bytes_unchanged(
    t: TunnelModel,
    events: Seq<SideEvent>,
    direction: Direction,
)
    ensures
        held(t.side(direction)) + bytes_read(t, events, direction) == bytes_delivered(
            t,
            events,
            direction,
        ) + held(tunnel_run(t, events).side(direction)),
        !(t.side(direction) is Writing) ==> bytes_delivered(t, events, direction).is_prefix_of(
            bytes_read(t, events, direction),
        ),
        !(t.side(direction) is Writing) && !(tunnel_run(t, events).side(direction) is Writing)
            ==> bytes_delivered(t, events, direction) == bytes_read(t, events, direction),
    decreases events.len(),
{
    let all_read = bytes_read(t, events, direction);
    let all_delivered = bytes_delivered(t, events, direction);
    let rest = held(tunnel_run(t, events).side(direction));
    if events.len() == 0 {
        assert(held(t.side(direction)) + all_read =~= all_delivered + rest);
    } else {
        let SideEvent { direction: d, event } = events[0];
        let next = t.next(d, event);
        let later = events.drop_first();
        law_tunnel_carries_bytes_unchanged(next, later, direction);
        let now_read = if d == direction {
            taken(t.action(d), event)
        } else {
            Seq::empty()
        };
        let now_delivered = if d == direction {
            delivered(t.action(d), event)
        } else {
            Seq::empty()
        };
        assert(held(t.side(direction)) + now_read =~= now_delivered + held(next.side(direction)));
        let later_read = bytes_read(next, later, direction);
        let later_delivered = bytes_delivered(next, later, direction);
        assert(held(t.side(direction)) + (now_read + later_read) =~= (held(t.side(direction))
            + now_read) + later_read);
        assert((now_delivered + held(next.side(direction))) + later_read =~= now_delivered + (held(
            next.side(direction),
        ) + later_read));
        assert(now_delivered + (later_delivered + rest) =~= (now_delivered + later_delivered)
            + rest);
    }
    if !(t.side(direction) is Writing) {
        assert(all_read =~= all_delivered + rest);
        assert(all_read.subrange(0, all_delivered.len() as int) =~= all_delivered);
    }
}

/// No more bytes than can be counted are held or read at a time.
pub open spec fn reads_fit(t: TunnelModel, events: Seq<SideEvent>) -> bool {
    &&& held(t.client_to_upstream).len() <= u64::MAX
    &&& held(t.upstream_to_client).len() <= u64::MAX
    &&& forall|i: int|
        0 <= i < events.len() ==> (#[trigger] events[i].event matches CopyEventModel::Read(bytes)
            ==> bytes.len() <= u64::MAX)
}

/// What is counted as arrived is the number of the bytes that arrived.
pub proof fn law_every_byte_counts(
    t: TunnelModel,
    events: Seq<SideEvent>,
    direction: Direction,
)
    requires
        reads_fit(t, events),
    ensures
        arrived(t, events, direction) == bytes_delivered(t, events, direction).len(),
    decreases events.len(),
{
    if events.len() > 0 {
        let SideEvent { direction: d, event } = events[0];
        let next = t.next(d, event);
        let later = events.drop_first();
        assert(events[0].event == event);
        assert forall|i: int| 0 <= i < later.len() implies (#[trigger] later[i].event matches
            CopyEventModel::Read(bytes) ==> bytes.len() <= u64::MAX) by {
            assert(later[i] == events[i + 1]);
        }
        law_every_byte_counts(next, later, direction);
    }
}

} // verus!
