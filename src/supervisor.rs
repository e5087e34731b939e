//! The decisions of one child's supervisor, as a state machine. The caller
//! performs what each step directs (spawn, wait, kill, sleep, record) and
//! reports what happened as the next event. Times are milliseconds of a
//! monotonic clock.

use vstd::prelude::*;
use crate::registry::ControlMsg;

verus! {

/// The shortest time between two spawns of one child.
pub const RESPAWN_FLOOR_MS: u64 = 1000;

/// Where the supervisor stands.
#[derive(Clone, Copy, Debug, PartialEq, Eq, Structural)]
pub enum Phase {
    /// Waiting for the time of the next spawn.
    Starting,
    /// A spawn was asked for and its result is awaited.
    Spawning,
    /// A child runs.
    Running,
    /// The child is disabled: it is never spawned.
    Disabled,
    /// A kill was received: nothing more is spawned.
    Finished,
}

/// What the caller reports to the supervisor.
#[derive(Clone, Copy, Debug, PartialEq, Eq, Structural)]
pub enum Event {
    /// The supervisor is due to act: at its start, or when a sleep ends.
    Tick(u64),
    /// The spawn failed.
    SpawnFailed(u64),
    /// The spawn gave a child with this pid.
    Spawned(u32, u64),
    /// The child exited with this code (-1 when unknown).
    Exited(i32, u64),
    /// A control message arrived.
    Control(ControlMsg, u64),
    /// The child's maximum run time elapsed.
    TimedOut(u64),
}

/// What the registry is to record.
#[derive(Clone, Copy, Debug, PartialEq, Eq, Structural)]
pub enum Record {
    Nothing,
    /// The spawn failed: state `Error` with the spawner's message.
    Failed,
    /// The child runs with this pid.
    Running(u32),
    Exited(i32),
    Stopped,
    Killed,
}

/// What the caller does next.
#[derive(Clone, Copy, Debug, PartialEq, Eq, Structural)]
pub enum Next {
    /// Spawn the child and report `Spawned` or `SpawnFailed`.
    Spawn,
    /// Wait for the child's exit, a control message or, when given, a timer
    /// of this many milliseconds; report the first.
    Wait(Option<u64>),
    /// Sleep this many milliseconds, then report `Tick`; control messages
    /// may be reported meanwhile.
    Sleep(u64),
    /// Go on with what was being awaited.
    Continue,
    /// Spawn nothing; only control messages may come.
    Idle,
    /// Supervision of this child is over.
    Finish,
}

/// One step's directions: a pid to kill, a state to record, what to do next.
#[derive(Clone, Copy, Debug, PartialEq, Eq, Structural)]
pub struct Directive {
    pub kill: Option<u32>,
    pub record: Record,
    pub next: Next,
}

/// The supervisor of one child.
#[derive(Clone, Copy, Debug, PartialEq, Eq, Structural)]
pub struct Supervisor {
    pub enabled: bool,
    /// Maximum run time; none or zero means unlimited.
    pub max_run: Option<u64>,
    /// Cool-down after a natural exit or a maximum-run stop.
    pub next: Option<u64>,
    pub phase: Phase,
    /// How many children were spawned.
    pub generation: u64,
    /// The current or last child's pid, 0 before the first.
    pub pid: u32,
    /// The latest time seen.
    pub clock: u64,
    /// When the last spawn was asked for.
    pub last_spawn: Option<u64>,
    /// The earliest time of the next spawn.
    pub earliest: u64,
}

/// `a + b`, held at the largest value.
pub open spec fn sat_add(a: u64, b: u64) -> u64 {
    if a + b <= u64::MAX { (a + b) as u64 } else { u64::MAX }
}

pub open spec fn max_u64(a: u64, b: u64) -> u64 {
    if a >= b { a } else { b }
}

/// The timer armed for a child: its maximum run time, unless unset or zero.
pub open spec fn timer_of(max_run: Option<u64>) -> Option<u64> {
    match max_run {
        Some(ms) => if ms > 0 { Some(ms) } else { None },
        None => None,
    }
}

/// The maximum-run timer to arm for a child.
pub fn max_run_timer(max_run: Option<u64>) -> (r: Option<u64>)
    ensures
        r == timer_of(max_run),
{
    match max_run {
        Some(ms) => if ms > 0 { Some(ms) } else { None },
        None => None,
    }
}

fn sat_add_exec(a: u64, b: u64) -> (r: u64)
    ensures
        r == sat_add(a, b),
{
    a.saturating_add(b)
}

/// The time at which an event happened, never before a time already seen.
pub open spec fn event_time(e: Event) -> u64 {
    match e {
        Event::Tick(t) => t,
        Event::SpawnFailed(t) => t,
        Event::Spawned(_, t) => t,
        Event::Exited(_, t) => t,
        Event::Control(_, t) => t,
        Event::TimedOut(t) => t,
    }
}

pub open spec fn directive(kill: Option<u32>, record: Record, next: Next) -> Directive {
    Directive { kill, record, next }
}

/// When the next spawn may happen after a generation ends at `now`: after
/// the cool-down, if any, and no sooner than the respawn floor.
pub open spec fn next_spawn_time(s: Supervisor, now: u64, cool_down: u64) -> u64 {
    max_u64(sat_add(now, cool_down), sat_add(s.last_spawn.unwrap_or(0), RESPAWN_FLOOR_MS))
}

/// Ends the running generation at `now`: kill the child where asked, record
/// `rec`, and sleep until the next spawn may happen.
pub open spec fn end_generation(s: Supervisor, now: u64, kill: bool, rec: Record, cool_down: u64) -> (Supervisor, Directive) {
    let at = next_spawn_time(s, now, cool_down);
    (
        Supervisor { phase: Phase::Starting, clock: now, earliest: at, ..s },
        directive(if kill { Some(s.pid) } else { None }, rec, Next::Sleep((at - now) as u64)),
    )
}

/// One step of the supervisor.
pub open spec fn transition(s: Supervisor, e: Event) -> (Supervisor, Directive) {
    let now = max_u64(event_time(e), s.clock);
    let s0 = Supervisor { clock: now, ..s };
    let same = directive(None, Record::Nothing, Next::Continue);
    let cool = s.next.unwrap_or(0);
    match s.phase {
        Phase::Starting => match e {
            Event::Tick(_) => if !s.enabled {
                (Supervisor { phase: Phase::Disabled, ..s0 }, directive(None, Record::Nothing, Next::Idle))
            } else if now >= s.earliest {
                (
                    Supervisor { phase: Phase::Spawning, last_spawn: Some(now), ..s0 },
                    directive(None, Record::Nothing, Next::Spawn),
                )
            } else {
                (s0, directive(None, Record::Nothing, Next::Sleep((s.earliest - now) as u64)))
            },
            Event::Control(ControlMsg::Kill, _) => (
                Supervisor { phase: Phase::Finished, ..s0 },
                directive(None, Record::Killed, Next::Finish),
            ),
            Event::Control(ControlMsg::Restart, _) => {
                let at = max_u64(now, sat_add(s.last_spawn.unwrap_or(0), RESPAWN_FLOOR_MS));
                (Supervisor { earliest: at, ..s0 }, directive(None, Record::Nothing, Next::Sleep((at - now) as u64)))
            },
            _ => (s0, same),
        },
        Phase::Spawning => match e {
            Event::SpawnFailed(_) => (
                Supervisor { phase: Phase::Starting, earliest: sat_add(now, RESPAWN_FLOOR_MS), ..s0 },
                directive(None, Record::Failed, Next::Sleep(RESPAWN_FLOOR_MS)),
            ),
            Event::Spawned(pid, _) => if pid == 0 {
                (
                    Supervisor { phase: Phase::Starting, earliest: sat_add(now, RESPAWN_FLOOR_MS), ..s0 },
                    directive(None, Record::Failed, Next::Sleep(RESPAWN_FLOOR_MS)),
                )
            } else {
                (
                    Supervisor {
                        phase: Phase::Running,
                        pid,
                        generation: if s.generation < u64::MAX { (s.generation + 1) as u64 } else { s.generation },
                        ..s0
                    },
                    directive(None, Record::Running(pid), Next::Wait(timer_of(s.max_run))),
                )
            },
            _ => (s0, same),
        },
        Phase::Running => match e {
            Event::Exited(code, _) => end_generation(s0, now, false, Record::Exited(code), cool),
            Event::TimedOut(_) => end_generation(s0, now, true, Record::Stopped, cool),
            Event::Control(ControlMsg::Restart, _) => end_generation(s0, now, true, Record::Stopped, 0),
            Event::Control(ControlMsg::Kill, _) => (
                Supervisor { phase: Phase::Finished, ..s0 },
                directive(Some(s.pid), Record::Killed, Next::Finish),
            ),
            _ => (s0, same),
        },
        Phase::Disabled => (s0, directive(None, Record::Nothing, Next::Idle)),
        Phase::Finished => (s0, directive(None, Record::Nothing, Next::Finish)),
    }
}

impl Supervisor {
    /// The supervisor of a child before its first spawn.
    pub fn new(enabled: bool, max_run: Option<u64>, next: Option<u64>) -> (r: Supervisor)
        ensures
            r == (Supervisor {
                enabled,
                max_run,
                next,
                phase: Phase::Starting,
                generation: 0,
                pid: 0,
                clock: 0,
                last_spawn: None,
                earliest: 0,
            }),
    {
        Supervisor { enabled, max_run, next, phase: Phase::Starting, generation: 0, pid: 0, clock: 0, last_spawn: None, earliest: 0 }
    }

    fn end_generation(&mut self, now: u64, kill: bool, rec: Record, cool_down: u64) -> (d: Directive)
        requires
            old(self).clock == now,
        ensures
            (*final(self), d) == end_generation(*old(self), now, kill, rec, cool_down),
    {
        let a = sat_add_exec(now, cool_down);
        let last = match self.last_spawn {
            Some(t) => t,
            None => 0,
        };
        let b = sat_add_exec(last, RESPAWN_FLOOR_MS);
        let at = if a >= b { a } else { b };
        self.phase = Phase::Starting;
        self.earliest = at;
        Directive { kill: if kill { Some(self.pid) } else { None }, record: rec, next: Next::Sleep(at - now) }
    }

    /// Takes one event and says what to do.
    pub fn step(&mut self, e: Event) -> (d: Directive)
        ensures
            (*final(self), d) == transition(*old(self), e),
    {
        let t = match e {
            Event::Tick(t) => t,
            Event::SpawnFailed(t) => t,
            Event::Spawned(_, t) => t,
            Event::Exited(_, t) => t,
            Event::Control(_, t) => t,
            Event::TimedOut(t) => t,
        };
        let now = if t >= self.clock { t } else { self.clock };
        self.clock = now;
        let same = Directive { kill: None, record: Record::Nothing, next: Next::Continue };
        let cool = match self.next {
            Some(c) => c,
            None => 0,
        };
        match self.phase {
            Phase::Starting => match e {
                Event::Tick(_) => {
                    if !self.enabled {
                        self.phase = Phase::Disabled;
                        Directive { kill: None, record: Record::Nothing, next: Next::Idle }
                    } else if now >= self.earliest {
                        self.phase = Phase::Spawning;
                        self.last_spawn = Some(now);
                        Directive { kill: None, record: Record::Nothing, next: Next::Spawn }
                    } else {
                        Directive { kill: None, record: Record::Nothing, next: Next::Sleep(self.earliest - now) }
                    }
                },
                Event::Control(ControlMsg::Kill, _) => {
                    self.phase = Phase::Finished;
                    Directive { kill: None, record: Record::Killed, next: Next::Finish }
                },
                Event::Control(ControlMsg::Restart, _) => {
                    let last = match self.last_spawn {
                        Some(t) => t,
                        None => 0,
                    };
                    let floor = sat_add_exec(last, RESPAWN_FLOOR_MS);
                    let at = if now >= floor { now } else { floor };
                    self.earliest = at;
                    Directive { kill: None, record: Record::Nothing, next: Next::Sleep(at - now) }
                },
                _ => same,
            },
            Phase::Spawning => match e {
                Event::SpawnFailed(_) => {
                    self.phase = Phase::Starting;
                    self.earliest = sat_add_exec(now, RESPAWN_FLOOR_MS);
                    Directive { kill: None, record: Record::Failed, next: Next::Sleep(RESPAWN_FLOOR_MS) }
                },
                Event::Spawned(pid, _) => {
                    if pid == 0 {
                        self.phase = Phase::Starting;
                        self.earliest = sat_add_exec(now, RESPAWN_FLOOR_MS);
                        Directive { kill: None, record: Record::Failed, next: Next::Sleep(RESPAWN_FLOOR_MS) }
                    } else {
                        self.phase = Phase::Running;
                        self.pid = pid;
                        if self.generation < u64::MAX {
                            self.generation = self.generation + 1;
                        }
                        Directive { kill: None, record: Record::Running(pid), next: Next::Wait(max_run_timer(self.max_run)) }
                    }
                },
                _ => same,
            },
            Phase::Running => match e {
                Event::Exited(code, _) => self.end_generation(now, false, Record::Exited(code), cool),
                Event::TimedOut(_) => self.end_generation(now, true, Record::Stopped, cool),
                Event::Control(ControlMsg::Restart, _) => self.end_generation(now, true, Record::Stopped, 0),
                Event::Control(ControlMsg::Kill, _) => {
                    self.phase = Phase::Finished;
                    Directive { kill: Some(self.pid), record: Record::Killed, next: Next::Finish }
                },
                _ => same,
            },
            Phase::Disabled => Directive { kill: None, record: Record::Nothing, next: Next::Idle },
            Phase::Finished => Directive { kill: None, record: Record::Nothing, next: Next::Finish },
        }
    }
}


impl Supervisor {
    /// The respawn floor is armed after every spawn, and a running child has
    /// a real pid.
    pub open spec fn wf(self) -> bool {
        &&& (self.phase is Starting ==> (self.last_spawn matches Some(l) ==> self.earliest >= sat_add(l, RESPAWN_FLOOR_MS)))
        &&& (self.phase is Running ==> self.pid > 0 && self.last_spawn is Some)
        &&& (self.phase is Spawning ==> self.last_spawn is Some)
        &&& (self.last_spawn matches Some(l) ==> l <= self.clock)
    }
}

/// The supervisor after a sequence of events.
pub open spec fn run(s: Supervisor, es: Seq<Event>) -> Supervisor
    decreases es.len(),
{
    if es.len() == 0 {
        s
    } else {
        transition(run(s, es.drop_last()), es.last()).0
    }
}

/// The directives given along a sequence of events.
pub open spec fn directives(s: Supervisor, es: Seq<Event>) -> Seq<Directive>
    decreases es.len(),
{
    if es.len() == 0 {
        Seq::empty()
    } else {
        directives(s, es.drop_last()).push(transition(run(s, es.drop_last()), es.last()).1)
    }
}

proof fn lemma_directives_len(s: Supervisor, es: Seq<Event>)
    ensures
        directives(s, es).len() == es.len(),
    decreases es.len(),
{
    if es.len() > 0 {
        lemma_directives_len(s, es.drop_last());
    }
}

/// A new supervisor is well formed.
pub proof fn new_is_wf(enabled: bool, max_run: Option<u64>, next: Option<u64>)
    ensures
        (Supervisor {
            enabled,
            max_run,
            next,
            phase: Phase::Starting,
            generation: 0,
            pid: 0,
            clock: 0,
            last_spawn: None,
            earliest: 0,
        }).wf(),
{
}

/// Every step keeps the supervisor well formed, and a spawn is only asked
/// for at least the respawn floor after the previous one.
pub proof fn respawn_floor(s: Supervisor, e: Event)
    requires
        s.wf(),
    ensures
        transition(s, e).0.wf(),
        transition(s, e).1.next is Spawn ==> transition(s, e).0.last_spawn == Some(transition(s, e).0.clock) && (
        s.last_spawn matches Some(l) ==> transition(s, e).0.clock >= sat_add(l, RESPAWN_FLOOR_MS)),
        transition(s, e).1.record matches Record::Running(p) ==> p > 0,
{
}

/// A supervisor that was killed or is disabled stays so, spawns nothing and
/// records no running child, whatever happens after.
pub proof fn quiet_stays_quiet(s: Supervisor, es: Seq<Event>)
    requires
        s.phase is Finished || s.phase is Disabled,
    ensures
        run(s, es).phase == s.phase,
        forall|i: int| 0 <= i < es.len() ==> !((#[trigger] directives(s, es)[i]).next is Spawn),
        forall|i: int| 0 <= i < es.len() ==> !((#[trigger] directives(s, es)[i]).record is Running),
    decreases es.len(),
{
    if es.len() > 0 {
        quiet_stays_quiet(s, es.drop_last());
        lemma_directives_len(s, es.drop_last());
        let ds = directives(s, es);
        assert forall|i: int| 0 <= i < es.len() implies !((#[trigger] ds[i]).next is Spawn) && !(ds[i].record is Running) by {
            if i < es.len() - 1 {
                assert(ds[i] == directives(s, es.drop_last())[i]);
            }
        }
    }
}

/// After a kill, outside a spawn in progress, the supervisor never again
/// spawns a child nor records one running.
pub proof fn kill_is_final(s: Supervisor, t: u64, es: Seq<Event>)
    requires
        !(s.phase is Spawning),
    ensures
        ({
            let s1 = transition(s, Event::Control(ControlMsg::Kill, t)).0;
            &&& s1.phase is Finished || s1.phase is Disabled
            &&& forall|i: int| 0 <= i < es.len() ==> !((#[trigger] directives(s1, es)[i]).next is Spawn)
            &&& forall|i: int| 0 <= i < es.len() ==> !((#[trigger] directives(s1, es)[i]).record is Running)
        }),
{
    let s1 = transition(s, Event::Control(ControlMsg::Kill, t)).0;
    quiet_stays_quiet(s1, es);
}

/// All events of `es` are restart requests.
pub open spec fn all_restarts(es: Seq<Event>) -> bool {
    forall|i: int| 0 <= i < es.len() ==> (#[trigger] es[i]) matches Event::Control(ControlMsg::Restart, _)
}

/// Any number of restart requests to a running child end its generation
/// once and start no new one by themselves: the next generation starts at
/// the following due tick, once.
pub proof fn restarts_spawn_once(s: Supervisor, es: Seq<Event>)
    requires
        s.phase is Running,
        es.len() > 0,
        all_restarts(es),
    ensures
        run(s, es).phase is Starting,
        run(s, es).generation == s.generation,
        forall|i: int| 0 <= i < es.len() ==> !((#[trigger] directives(s, es)[i]).next is Spawn),
        forall|i: int| 1 <= i < es.len() ==> (#[trigger] directives(s, es)[i]).kill is None,
    decreases es.len(),
{
    if es.len() > 1 {
        assert(all_restarts(es.drop_last())) by {
            assert forall|i: int| 0 <= i < es.drop_last().len() implies (#[trigger] es.drop_last()[i]) matches Event::Control(
                ControlMsg::Restart,
                _,
            ) by {
                assert(es.drop_last()[i] == es[i]);
            }
        }
        restarts_spawn_once(s, es.drop_last());
        lemma_directives_len(s, es.drop_last());
        let ds = directives(s, es);
        assert(es.last() == es[es.len() - 1]);
        assert forall|i: int| 0 <= i < es.len() implies !((#[trigger] ds[i]).next is Spawn) && (i >= 1 ==> ds[i].kill is None) by {
            if i < es.len() - 1 {
                assert(ds[i] == directives(s, es.drop_last())[i]);
            }
        }
    } else {
        assert(es.drop_last().len() == 0);
        assert(es.last() == es[0]);
        assert(run(s, es.drop_last()) == s);
        assert(directives(s, es.drop_last()) == Seq::<Directive>::empty());
        assert(directives(s, es) == Seq::<Directive>::empty().push(transition(s, es[0]).1));
        assert(directives(s, es)[0] == transition(s, es[0]).1);
    }
}

} // verus!
