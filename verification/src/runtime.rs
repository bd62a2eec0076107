//! Counters over the whole run of the proxy.

use vstd::arithmetic::div_mod::{lemma_add_mod_noop_right, lemma_small_mod};
use vstd::prelude::*;

verus! {

/// What the counters hold: how many tasks were started, how many of them are
/// under way, and how many bytes went out and came in, modulo 2 to the 64th.
pub struct RuntimeModel {
    pub started: int,
    pub active: int,
    pub tx: int,
    pub rx: int,
}

/// What can happen to the counters.
pub enum RuntimeEvent {
    Started,
    Finished,
    Sent(u64),
    Received(u64),
}

/// One past the largest total of bytes.
pub open spec fn total_bound() -> int {
    0x1_0000_0000_0000_0000
}

/// The counters after one event.
pub open spec fn counted(m: RuntimeModel, e: RuntimeEvent) -> RuntimeModel {
    match e {
        RuntimeEvent::Started => RuntimeModel {
            started: m.started + 1,
            active: m.active + 1,
            ..m
        },
        RuntimeEvent::Finished => RuntimeModel { active: m.active - 1, ..m },
        RuntimeEvent::Sent(n) => RuntimeModel { tx: (m.tx + n) % total_bound(), ..m },
        RuntimeEvent::Received(n) => RuntimeModel { rx: (m.rx + n) % total_bound(), ..m },
    }
}

/// The number that the next task is given.
pub open spec fn next_id(m: RuntimeModel) -> int {
    m.started + 1
}

/// What is shown of the counters.
pub open spec fn shown(m: RuntimeModel) -> RuntimeSnapshot {
    RuntimeSnapshot {
        active_tasks: m.active as usize,
        tx_bytes: m.tx as u64,
        rx_bytes: m.rx as u64,
    }
}

/// Counters that are shared by all tasks.
pub struct RuntimeStats {
    next_task_id: usize,
    active_tasks: usize,
    total_tx_bytes: u64,
    total_rx_bytes: u64,
}

impl View for RuntimeStats {
    type V = RuntimeModel;

    closed spec fn view(&self) -> RuntimeModel {
        RuntimeModel {
            started: self.next_task_id as int,
            active: self.active_tasks as int,
            tx: self.total_tx_bytes as int,
            rx: self.total_rx_bytes as int,
        }
    }
}

/// The number of a task and the number of tasks under way.
#[derive(Clone, Copy)]
pub struct CounterSnapshot {
    pub id: usize,
    pub active: usize,
}

/// The counters at one moment.
#[derive(Clone, Copy)]
pub struct RuntimeSnapshot {
    pub active_tasks: usize,
    pub tx_bytes: u64,
    pub rx_bytes: u64,
}

impl Default for RuntimeStats {
    fn default() -> (r: RuntimeStats)
        ensures
            r@ == (RuntimeModel { started: 0, active: 0, tx: 0, rx: 0 }),
    {
        RuntimeStats { next_task_id: 0, active_tasks: 0, total_tx_bytes: 0, total_rx_bytes: 0 }
    }
}

impl RuntimeStats {
    /// Never more tasks are under way than were started.
    #[verifier::type_invariant]
    spec fn well_formed(self) -> bool {
        self.active_tasks <= self.next_task_id
    }

    /// Tells whether a number is left for one more task.
    pub fn can_start(&self) -> (r: bool)
        ensures
            r == (self@.started < usize::MAX),
            self@.active <= self@.started,
    {
        proof {
            use_type_invariant(self);
        }
        self.next_task_id < usize::MAX
    }

    /// Begins a task and gives it its number.
    pub fn start_task(&mut self) -> (r: CounterSnapshot)
        requires
            old(self)@.started < usize::MAX,
        ensures
            final(self)@ == counted(old(self)@, RuntimeEvent::Started),
            r.id == old(self)@.started + 1,
            r.active == old(self)@.active + 1,
            r.id == next_id(old(self)@),
            r.active == final(self)@.active,
    {
        proof {
            use_type_invariant(&*self);
        }
        self.next_task_id = self.next_task_id + 1;
        self.active_tasks = self.active_tasks + 1;
        CounterSnapshot { id: self.next_task_id, active: self.active_tasks }
    }

    /// Ends the task with the number `id`.
    pub fn finish_task(&mut self, id: usize) -> (r: CounterSnapshot)
        requires
            old(self)@.active > 0,
        ensures
            final(self)@ == counted(old(self)@, RuntimeEvent::Finished),
            r.id == id,
            r.active == old(self)@.active - 1,
            r.active == final(self)@.active,
    {
        proof {
            use_type_invariant(&*self);
        }
        self.active_tasks = self.active_tasks - 1;
        CounterSnapshot { id, active: self.active_tasks }
    }

    /// Counts bytes that were sent to an upstream server.
    pub fn add_tx_bytes(&mut self, bytes: u64)
        ensures
            final(self)@ == counted(old(self)@, RuntimeEvent::Sent(bytes)),
    {
        proof {
            use_type_invariant(&*self);
        }
        self.total_tx_bytes = self.total_tx_bytes.wrapping_add(bytes);
    }

    /// Counts bytes that were received from an upstream server.
    pub fn add_rx_bytes(&mut self, bytes: u64)
        ensures
            final(self)@ == counted(old(self)@, RuntimeEvent::Received(bytes)),
    {
        proof {
            use_type_invariant(&*self);
        }
        self.total_rx_bytes = self.total_rx_bytes.wrapping_add(bytes);
    }

    /// Reads the counters.
    pub fn snapshot(&self) -> (r: RuntimeSnapshot)
        ensures
            r.active_tasks == self@.active,
            r.tx_bytes == self@.tx,
            r.rx_bytes == self@.rx,
            r == shown(self@),
            self@.active <= self@.started,
    {
        proof {
            use_type_invariant(self);
        }
        RuntimeSnapshot {
            active_tasks: self.active_tasks,
            tx_bytes: self.total_tx_bytes,
            rx_bytes: self.total_rx_bytes,
        }
    }
}

// ---------------------------------------------------------------------------
// Laws
// ---------------------------------------------------------------------------

/// Whatever the counters hold fits in them: the totals are below 2 to the 64th,
/// and the numbers of tasks are those of an index.
pub proof fn law_counters_are_bounded(stats: RuntimeStats)
    ensures
        0 <= stats@.started <= usize::MAX,
        0 <= stats@.active <= usize::MAX,
        0 <= stats@.tx < total_bound(),
        0 <= stats@.rx < total_bound(),
{
}

/// The counters after a sequence of events.
pub open spec fn replayed(m: RuntimeModel, events: Seq<RuntimeEvent>) -> RuntimeModel
    decreases events.len(),
{
    if events.len() == 0 {
        m
    } else {
        counted(replayed(m, events.drop_last()), events.last())
    }
}

/// The number that the task started by event `i` was given.
pub open spec fn task_id(m: RuntimeModel, events: Seq<RuntimeEvent>, i: int) -> int {
    replayed(m, events.take(i)).started + 1
}

/// How many of the events start a task.
pub open spec fn starts(events: Seq<RuntimeEvent>) -> int
    decreases events.len(),
{
    if events.len() == 0 {
        0
    } else {
        starts(events.drop_last()) + if events.last() is Started {
            1int
        } else {
            0
        }
    }
}

/// How many of the events end a task.
pub open spec fn finishes(events: Seq<RuntimeEvent>) -> int
    decreases events.len(),
{
    if events.len() == 0 {
        0
    } else {
        finishes(events.drop_last()) + if events.last() is Finished {
            1int
        } else {
            0
        }
    }
}

/// How many bytes the events send.
pub open spec fn bytes_sent(events: Seq<RuntimeEvent>) -> int
    decreases events.len(),
{
    if events.len() == 0 {
        0
    } else {
        bytes_sent(events.drop_last()) + match events.last() {
            RuntimeEvent::Sent(n) => n as int,
            _ => 0,
        }
    }
}

/// How many bytes the events receive.
pub open spec fn bytes_received(events: Seq<RuntimeEvent>) -> int
    decreases events.len(),
{
    if events.len() == 0 {
        0
    } else {
        bytes_received(events.drop_last()) + match events.last() {
            RuntimeEvent::Received(n) => n as int,
            _ => 0,
        }
    }
}

/// The number of started tasks never falls.
proof fn lemma_started_grows(m: RuntimeModel, events: Seq<RuntimeEvent>, i: int, j: int)
    requires
        0 <= i <= j <= events.len(),
    ensures
        replayed(m, events.take(i)).started <= replayed(m, events.take(j)).started,
    decreases j - i,
{
    if i < j {
        lemma_started_grows(m, events, i, j - 1);
        assert(events.take(j).drop_last() == events.take(j - 1));
    }
}

/// Each task gets a number that is greater than those of all tasks before it,
/// whatever happens in between.
pub proof fn law_task_ids_strictly_increase(
    m: RuntimeModel,
    events: Seq<RuntimeEvent>,
    i: int,
    j: int,
)
    requires
        0 <= i < j < events.len(),
        events[i] is Started,
        events[j] is Started,
    ensures
        task_id(m, events, i) < task_id(m, events, j),
{
    assert(events.take(i + 1).drop_last() == events.take(i));
    lemma_started_grows(m, events, i + 1, j);
}

/// The tasks under way are those that were started and have not ended, never
/// more than were started, and the totals are the sums of what was counted.
pub proof fn law_counters_are_sums(m: RuntimeModel, events: Seq<RuntimeEvent>)
    requires
        0 <= m.tx < total_bound(),
        0 <= m.rx < total_bound(),
    ensures
        replayed(m, events).started == m.started + starts(events),
        replayed(m, events).active == m.active + starts(events) - finishes(events),
        m.active <= m.started ==> replayed(m, events).active <= replayed(m, events).started,
        replayed(m, events).tx == (m.tx + bytes_sent(events)) % total_bound(),
        replayed(m, events).rx == (m.rx + bytes_received(events)) % total_bound(),
    decreases events.len(),
{
    if events.len() > 0 {
        let init = events.drop_last();
        law_counters_are_sums(m, init);
        match events.last() {
            RuntimeEvent::Sent(n) => {
                lemma_add_mod_noop_right(n as int, m.tx + bytes_sent(init), total_bound());
            },
            RuntimeEvent::Received(n) => {
                lemma_add_mod_noop_right(n as int, m.rx + bytes_received(init), total_bound());
            },
            _ => {},
        }
    } else {
        lemma_small_mod(m.tx as nat, total_bound() as nat);
        lemma_small_mod(m.rx as nat, total_bound() as nat);
    }
}

/// The first task is number one, and each task that is started moves the number
/// of the next one on by one; nothing else does.
pub proof fn law_tasks_are_numbered_from_one(m: RuntimeModel, n: u64)
    ensures
        m.started == 0 ==> next_id(m) == 1,
        next_id(counted(m, RuntimeEvent::Started)) == next_id(m) + 1,
        next_id(counted(m, RuntimeEvent::Finished)) == next_id(m),
        next_id(counted(m, RuntimeEvent::Sent(n))) == next_id(m),
        next_id(counted(m, RuntimeEvent::Received(n))) == next_id(m),
{
}

/// What is shown after any events on fresh counters are the tasks that were
/// started and have not ended, and the bytes that were sent and received.
pub proof fn law_counters_show_what_happened(events: Seq<RuntimeEvent>)
    requires
        0 <= starts(events) - finishes(events) <= usize::MAX,
    ensures
        ({
            let s = shown(
                replayed(RuntimeModel { started: 0, active: 0, tx: 0, rx: 0 }, events),
            );
            &&& s.active_tasks == starts(events) - finishes(events)
            &&& s.tx_bytes == bytes_sent(events) % (u64::MAX + 1)
            &&& s.rx_bytes == bytes_received(events) % (u64::MAX + 1)
        }),
{
    law_counters_are_sums(RuntimeModel { started: 0, active: 0, tx: 0, rx: 0 }, events);
}

} // verus!
