//! The registry of supervised children: one entry per configured name, kept
//! in insertion order, with the state transitions the supervisors report.

use vstd::prelude::*;
use vstd::string::StringExecFns;
use crate::config::ProcessConfig;

verus! {

/// Where a child stands in its lifecycle.
#[derive(Clone, Debug, PartialEq, Eq)]
pub enum ProcState {
    Ready,
    Running,
    /// A kill or restart was asked for and is being carried out.
    Stopping,
    /// The last spawn failed, with this message.
    Error(String),
    Stopped,
    Killed,
    Exited(i32),
}

impl ProcState {
    /// The states that close a generation and stamp the exit time.
    pub open spec fn is_terminal(self) -> bool {
        self is Stopped || self is Killed || self is Exited || self is Error
    }

    /// Whether this state closes a generation.
    pub fn terminal(&self) -> (r: bool)
        ensures
            r == self.is_terminal(),
    {
        match self {
            ProcState::Stopped | ProcState::Killed | ProcState::Exited(_) | ProcState::Error(_) => true,
            _ => false,
        }
    }

    /// A copy of this state.
    pub fn copied(&self) -> (r: ProcState)
        ensures
            r == *self,
    {
        match self {
            ProcState::Ready => ProcState::Ready,
            ProcState::Running => ProcState::Running,
            ProcState::Stopping => ProcState::Stopping,
            ProcState::Error(m) => ProcState::Error(m.clone()),
            ProcState::Stopped => ProcState::Stopped,
            ProcState::Killed => ProcState::Killed,
            ProcState::Exited(c) => ProcState::Exited(*c),
        }
    }
}

/// What a caller asks a supervisor to do with its child.
#[derive(Clone, Copy, Debug, PartialEq, Eq, Structural)]
pub enum ControlMsg {
    /// Stop the child and supervise it no more.
    Kill,
    /// Stop the child and start it again at once.
    Restart,
}

/// The registry's record of one child. `C` is the handle of the
/// supervisor's control inbox. Times are seconds since the epoch; a file
/// modification time is in nanoseconds since the epoch.
#[derive(Clone, Debug)]
pub struct ProcessEntry<C> {
    /// Position in insertion order, from 1.
    pub index: usize,
    pub state: ProcState,
    pub cmd: ProcessConfig,
    pub cmd_abs_path: Option<String>,
    /// The last child's pid; kept after it ends.
    pub pid: Option<u32>,
    pub control_tx: C,
    pub start_time: Option<i64>,
    pub start_count: u64,
    pub exit_time: Option<i64>,
    /// Modification time of the program file when the child last started.
    pub last_modified: Option<u128>,
}

/// One more, unless the counter is at its end.
pub open spec fn succ(c: u64) -> u64 {
    if c < u64::MAX { (c + 1) as u64 } else { c }
}

/// The later of a clock reading and the latest time already recorded.
pub open spec fn later(now: i64, clock: i64) -> i64 {
    if now > clock { now } else { clock }
}

/// The fields that no transition touches are equal.
pub open spec fn same_identity<C>(a: ProcessEntry<C>, b: ProcessEntry<C>) -> bool {
    &&& b.index == a.index
    &&& b.cmd == a.cmd
    &&& b.cmd_abs_path == a.cmd_abs_path
    &&& b.control_tx == a.control_tx
}

/// `b` is `a` after its child started with `pid` at time `t`, the program
/// file then having modification time `mtime`.
pub open spec fn ran<C>(a: ProcessEntry<C>, b: ProcessEntry<C>, pid: u32, t: i64, mtime: Option<u128>) -> bool {
    &&& same_identity(a, b)
    &&& b.state == ProcState::Running
    &&& b.pid == Some(pid)
    &&& b.start_time == Some(t)
    &&& b.start_count == succ(a.start_count)
    &&& b.exit_time == a.exit_time
    &&& b.last_modified == mtime
}

/// `b` is `a` after moving to state `s` at time `t`: a terminal state stamps
/// the exit time, and an error counts as a start.
pub open spec fn stated<C>(a: ProcessEntry<C>, b: ProcessEntry<C>, s: ProcState, t: i64) -> bool {
    &&& same_identity(a, b)
    &&& b.state == s
    &&& b.pid == a.pid
    &&& b.start_time == a.start_time
    &&& b.start_count == (if s is Error { succ(a.start_count) } else { a.start_count })
    &&& b.exit_time == (if s.is_terminal() { Some(t) } else { a.exit_time })
    &&& b.last_modified == a.last_modified
}

/// The entry's own invariant, for times up to `clock`.
pub open spec fn entry_wf<C>(e: ProcessEntry<C>, clock: i64) -> bool {
    &&& (e.state is Running ==> (e.pid matches Some(p) && p > 0))
    &&& (e.start_time matches Some(t) ==> t <= clock)
    &&& (e.exit_time matches Some(t) ==> t <= clock)
    &&& (e.state.is_terminal() ==> e.exit_time is Some)
    &&& (e.state.is_terminal() ==> (e.start_time matches Some(s) ==> s <= e.exit_time->0))
}

/// A snapshot of one entry, as the control plane shows it.
#[derive(Clone, Debug)]
pub struct ProcessOut {
    pub name: String,
    pub index: usize,
    pub cmd_abs: String,
    pub state: ProcState,
    /// The last pid, 0 when there was none.
    pub pid: u32,
    pub start_time: Option<i64>,
    pub start_count: u64,
    pub exit_time: Option<i64>,
    /// MiB, 0 when unlimited.
    pub memory_limit: u32,
    /// Filled in by the caller, which can see the running processes.
    pub memory_used: String,
    pub web_address: String,
    pub sandbox: bool,
    pub mtime: Option<u128>,
    /// Filled in by the caller, which can see the running processes.
    pub child_pids: Vec<u32>,
}

/// All supervised children, by name, in insertion order.
pub struct Registry<C> {
    start: i64,
    clock: i64,
    names: Vec<String>,
    entries: Vec<ProcessEntry<C>>,
}

impl<C> Registry<C> {
    /// The names, in insertion order.
    pub closed spec fn name_seq(&self) -> Seq<Seq<char>> {
        self.names@.map_values(|s: String| s@)
    }

    /// The entries, in insertion order.
    pub closed spec fn entry_seq(&self) -> Seq<ProcessEntry<C>> {
        self.entries@
    }

    /// The latest time recorded so far.
    pub closed spec fn latest(&self) -> i64 {
        self.clock
    }

    /// When the registry was made.
    pub closed spec fn started(&self) -> i64 {
        self.start
    }

    pub open spec fn len(&self) -> nat {
        self.name_seq().len()
    }

    /// The position of `name`, when it is registered.
    pub open spec fn has(&self, name: Seq<char>) -> bool {
        exists|i: int| 0 <= i < self.len() && self.name_seq()[i] == name
    }

    /// The position of a registered `name`.
    pub open spec fn pos(&self, name: Seq<char>) -> int {
        choose|i: int| 0 <= i < self.len() && self.name_seq()[i] == name
    }

    /// The entry of a registered `name`.
    pub open spec fn entry(&self, name: Seq<char>) -> ProcessEntry<C> {
        self.entry_seq()[self.pos(name)]
    }

    /// Names are unique, entries are numbered in insertion order, and each
    /// entry keeps its own invariant.
    pub closed spec fn wf(&self) -> bool {
        &&& self.names@.len() == self.entries@.len()
        &&& self.start <= self.clock
        &&& forall|i: int, j: int|
            0 <= i < j < self.names@.len() ==> (#[trigger] self.names@[i])@ != (#[trigger] self.names@[j])@
        &&& forall|i: int| 0 <= i < self.entries@.len() ==> (#[trigger] self.entries@[i]).index == i + 1
        &&& forall|i: int| 0 <= i < self.entries@.len() ==> entry_wf(#[trigger] self.entries@[i], self.clock)
    }

    /// The registry's public shape, which `wf` implies.
    pub proof fn lemma_wf(&self)
        requires
            self.wf(),
        ensures
            self.entry_seq().len() == self.len(),
            forall|i: int, j: int|
                0 <= i < j < self.len() ==> (#[trigger] self.name_seq()[i]) != (#[trigger] self.name_seq()[j]),
            forall|i: int| 0 <= i < self.len() ==> (#[trigger] self.entry_seq()[i]).index == i + 1,
            forall|i: int| 0 <= i < self.len() ==> entry_wf(#[trigger] self.entry_seq()[i], self.latest()),
            self.started() <= self.latest(),
    {
        assert forall|i: int, j: int| 0 <= i < j < self.len() implies (#[trigger] self.name_seq()[i]) != (
        #[trigger] self.name_seq()[j]) by {
            assert(self.name_seq()[i] == self.names@[i]@);
            assert(self.name_seq()[j] == self.names@[j]@);
        }
    }

    /// An empty registry made at time `now`.
    pub fn new(now: i64) -> (r: Self)
        ensures
            r.wf(),
            r.len() == 0,
            r.started() == now,
            r.latest() == now,
    {
        Registry { start: now, clock: now, names: Vec::new(), entries: Vec::new() }
    }

    /// When the registry was made, in seconds since the epoch.
    pub fn start_time(&self) -> (r: i64)
        ensures
            r == self.started(),
    {
        self.start
    }

    /// The number of registered children.
    pub fn count(&self) -> (r: usize)
        requires
            self.wf(),
        ensures
            r == self.len(),
    {
        self.names.len()
    }

    /// The position of `name`.
    fn locate(&self, name: &str) -> (r: Option<usize>)
        requires
            self.wf(),
        ensures
            r matches Some(i) ==> i < self.len() && self.name_seq()[i as int] == name@ && self.pos(name@) == i,
            r is None ==> !self.has(name@),
    {
        proof {
            self.lemma_wf();
        }
        let mut i: usize = 0;
        while i < self.names.len()
            invariant
                self.wf(),
                i <= self.names@.len(),
                forall|k: int| 0 <= k < i ==> self.name_seq()[k] != name@,
            decreases self.names.len() - i,
        {
            if crate::text::same_text(self.names[i].as_str(), name) {
                assert(self.name_seq()[i as int] == name@);
                proof {
                    self.lemma_wf();
                    let p = self.pos(name@);
                    assert(0 <= p < self.len() && self.name_seq()[p] == name@);
                    if p != i {
                        if p < i {
                            assert(self.name_seq()[p] != self.name_seq()[i as int]);
                        } else {
                            assert(self.name_seq()[i as int] != self.name_seq()[p]);
                        }
                    }
                }
                return Some(i);
            }
            i = i + 1;
        }
        None
    }

    /// The entry of `name`, if it is registered.
    pub fn find(&self, name: &str) -> (r: Option<&ProcessEntry<C>>)
        requires
            self.wf(),
        ensures
            r is Some == self.has(name@),
            r matches Some(e) ==> *e == self.entry(name@),
    {
        match self.locate(name) {
            Some(i) => Some(&self.entries[i]),
            None => None,
        }
    }

    /// The control inbox of `name`, if it is registered.
    pub fn get_control(&self, name: &str) -> (r: Option<&C>)
        requires
            self.wf(),
        ensures
            r is Some == self.has(name@),
            r matches Some(c) ==> *c == self.entry(name@).control_tx,
    {
        match self.locate(name) {
            Some(i) => Some(&self.entries[i].control_tx),
            None => None,
        }
    }

    /// The registered names, in insertion order.
    pub fn names(&self) -> (r: Vec<String>)
        requires
            self.wf(),
        ensures
            r@.map_values(|s: String| s@) == self.name_seq(),
    {
        let r = crate::text::copy_strings(&self.names);
        r
    }
}


impl<C> Registry<C> {
    /// Every entry but the one at `i` is as it was, and names are kept.
    pub open spec fn only_changed(&self, old: &Self, i: int) -> bool {
        &&& self.name_seq() == old.name_seq()
        &&& self.started() == old.started()
        &&& self.entry_seq().len() == old.entry_seq().len()
        &&& forall|k: int| 0 <= k < self.entry_seq().len() && k != i ==> self.entry_seq()[k] == old.entry_seq()[k]
    }

    /// Records a clock reading and returns the time to stamp: never earlier
    /// than a time already recorded.
    fn tick(&mut self, now: i64) -> (t: i64)
        ensures
            t == later(now, old(self).clock),
            final(self).clock == t,
            final(self).start == old(self).start,
            final(self).names == old(self).names,
            final(self).entries == old(self).entries,
    {
        if now > self.clock {
            self.clock = now;
        }
        self.clock
    }

    /// Registers a child under `name`. A new name gets a fresh entry in state
    /// `Ready`, numbered after the others, with the program's absolute path
    /// and its modification time; for a known name only the control inbox is
    /// replaced.
    pub fn register_process(&mut self, name: &str, cmd: ProcessConfig, abs_path: Option<String>, mtime: Option<u128>, tx: C)
        requires
            old(self).wf(),
            old(self).len() < usize::MAX,
        ensures
            final(self).wf(),
            final(self).started() == old(self).started(),
            final(self).latest() == old(self).latest(),
            old(self).has(name@) ==> final(self).only_changed(old(self), old(self).pos(name@)) && ({
                let (a, b) = (old(self).entry(name@), final(self).entry(name@));
                &&& b.control_tx == tx
                &&& b.index == a.index && b.state == a.state && b.cmd == a.cmd && b.cmd_abs_path == a.cmd_abs_path
                &&& b.pid == a.pid && b.start_time == a.start_time && b.start_count == a.start_count
                &&& b.exit_time == a.exit_time && b.last_modified == a.last_modified
            }),
            !old(self).has(name@) ==> {
                &&& final(self).name_seq() == old(self).name_seq().push(name@)
                &&& final(self).entry_seq().len() == old(self).entry_seq().len() + 1
                &&& forall|k: int| 0 <= k < old(self).len() ==> final(self).entry_seq()[k] == old(self).entry_seq()[k]
                &&& final(self).entry(name@) == (ProcessEntry {
                    index: (old(self).len() + 1) as usize,
                    state: ProcState::Ready,
                    cmd: cmd,
                    cmd_abs_path: abs_path,
                    pid: None,
                    control_tx: tx,
                    start_time: None,
                    start_count: 0,
                    exit_time: None,
                    last_modified: mtime,
                })
            },
    {
        proof {
            self.lemma_wf();
        }
        match self.locate(name) {
            Some(i) => {
                let mut e = self.entries.remove(i);
                e.control_tx = tx;
                self.entries.insert(i, e);
                proof {
                    assert(self.names@.map_values(|s: String| s@) == old(self).name_seq());
                    assert(self.pos(name@) == i);
                }
            },
            None => {
                let n = self.entries.len();
                let e = ProcessEntry {
                    index: n + 1,
                    state: ProcState::Ready,
                    cmd: cmd,
                    cmd_abs_path: abs_path,
                    pid: None,
                    control_tx: tx,
                    start_time: None,
                    start_count: 0,
                    exit_time: None,
                    last_modified: mtime,
                };
                self.names.push(String::from_str(name));
                self.entries.push(e);
                proof {
                    assert(self.name_seq() =~= old(self).name_seq().push(name@));
                    assert(self.name_seq()[n as int] == name@);
                    assert forall|i: int, j: int| 0 <= i < j < self.names@.len() implies (#[trigger] self.names@[i])@ != (
                    #[trigger] self.names@[j])@ by {
                        if j == n {
                            assert(old(self).name_seq()[i] == self.names@[i]@);
                        }
                    }
                    let p = self.pos(name@);
                    if p != n {
                        assert(old(self).name_seq()[p] == name@);
                    }
                }
            },
        }
    }

    /// Moves `name` to `state` at clock reading `now`. A terminal state stamps
    /// the exit time; an error also counts as a start. `Running` is entered
    /// through `set_running` only.
    pub fn set_state(&mut self, name: &str, state: ProcState, now: i64)
        requires
            old(self).wf(),
            old(self).has(name@),
            !(state is Running),
        ensures
            final(self).wf(),
            final(self).only_changed(old(self), old(self).pos(name@)),
            final(self).latest() == later(now, old(self).latest()),
            stated(old(self).entry(name@), final(self).entry(name@), state, final(self).latest()),
            state.is_terminal() ==> (final(self).entry(name@).exit_time matches Some(x) && (final(self).entry(
                name@,
            ).start_time matches Some(s) ==> s <= x)),
    {
        let t = self.tick(now);
        let i = self.locate(name).unwrap();
        let mut e = self.entries.remove(i);
        let ghost a = e;
        let term = state.terminal();
        let err = matches!(state, ProcState::Error(_));
        e.state = state;
        if term {
            e.exit_time = Some(t);
        }
        if err && e.start_count < u64::MAX {
            e.start_count = e.start_count + 1;
        }
        self.entries.insert(i, e);
        proof {
            assert(stated(a, e, e.state, t));
            assert(self.pos(name@) == i);
            assert forall|k: int| 0 <= k < self.entries@.len() implies entry_wf(#[trigger] self.entries@[k], self.clock) by {
                if k != i {
                    assert(entry_wf(old(self).entries@[k], old(self).clock));
                }
            }
        }
    }

    /// Marks `name` running with child `pid` at clock reading `now`; `mtime`
    /// is the program file's modification time read at that moment.
    pub fn set_running(&mut self, name: &str, pid: u32, now: i64, mtime: Option<u128>)
        requires
            old(self).wf(),
            old(self).has(name@),
            pid > 0,
        ensures
            final(self).wf(),
            final(self).only_changed(old(self), old(self).pos(name@)),
            final(self).latest() == later(now, old(self).latest()),
            ran(old(self).entry(name@), final(self).entry(name@), pid, final(self).latest(), mtime),
    {
        let t = self.tick(now);
        let i = self.locate(name).unwrap();
        let mut e = self.entries.remove(i);
        e.state = ProcState::Running;
        e.pid = Some(pid);
        e.start_time = Some(t);
        if e.start_count < u64::MAX {
            e.start_count = e.start_count + 1;
        }
        e.last_modified = mtime;
        self.entries.insert(i, e);
        proof {
            assert(self.pos(name@) == i);
            assert forall|k: int| 0 <= k < self.entries@.len() implies entry_wf(#[trigger] self.entries@[k], self.clock) by {
                if k != i {
                    assert(entry_wf(old(self).entries@[k], old(self).clock));
                }
            }
        }
    }
}


/// `o` shows entry `e` registered under `name` as the control plane lists it.
pub open spec fn shows<C>(o: ProcessOut, name: Seq<char>, e: ProcessEntry<C>) -> bool {
    &&& o.name@ == name
    &&& o.index == e.index
    &&& o.cmd_abs@ == (match e.cmd_abs_path {
        Some(p) => p@,
        None => Seq::empty(),
    })
    &&& o.state == e.state
    &&& o.pid == (match e.pid {
        Some(p) => p,
        None => 0,
    })
    &&& o.start_time == e.start_time
    &&& o.start_count == e.start_count
    &&& o.exit_time == e.exit_time
    &&& o.memory_limit == (match e.cmd.memory_limit {
        Some(m) => m,
        None => 0,
    })
    &&& o.memory_used@.len() == 0
    &&& o.web_address@ == e.cmd.web_address@
    &&& o.sandbox == (e.cmd.sandbox@.len() > 0)
    &&& o.mtime == e.last_modified
    &&& o.child_pids@.len() == 0
}

/// The watcher restarts a running, enabled child with a known program path
/// whose program file now has a readable modification time other than the
/// one seen when the child started.
pub open spec fn restart_due<C>(e: ProcessEntry<C>, current: Option<u128>) -> bool {
    &&& e.cmd.enable
    &&& e.state is Running
    &&& e.cmd_abs_path is Some
    &&& current is Some
    &&& current != e.last_modified
}

/// The watcher runs for an interval of at least one second.
pub open spec fn watch_active(interval_ms: u64) -> bool {
    interval_ms >= 1000
}

/// Whether the file-change watcher runs for this interval, in milliseconds.
pub fn watch_enabled(interval_ms: u64) -> (r: bool)
    ensures
        r == watch_active(interval_ms),
{
    interval_ms >= 1000
}

impl<C> Registry<C> {
    /// A snapshot of every entry, in insertion order.
    pub fn list(&self) -> (r: Vec<ProcessOut>)
        requires
            self.wf(),
        ensures
            r@.len() == self.len(),
            forall|i: int| 0 <= i < r@.len() ==> shows(#[trigger] r@[i], self.name_seq()[i], self.entry_seq()[i]),
            forall|i: int| 0 <= i < r@.len() ==> (#[trigger] r@[i]).index == i + 1,
    {
        proof {
            self.lemma_wf();
        }
        let mut out: Vec<ProcessOut> = Vec::new();
        let mut i: usize = 0;
        while i < self.entries.len()
            invariant
                self.wf(),
                i <= self.entries@.len(),
                out@.len() == i,
                forall|k: int| 0 <= k < i ==> shows(#[trigger] out@[k], self.name_seq()[k], self.entry_seq()[k]),
                forall|k: int| 0 <= k < i ==> (#[trigger] out@[k]).index == k + 1,
            decreases self.entries.len() - i,
        {
            let e = &self.entries[i];
            let cmd_abs = match &e.cmd_abs_path {
                Some(p) => p.clone(),
                None => String::new(),
            };
            let pid = match e.pid {
                Some(p) => p,
                None => 0,
            };
            let memory_limit = match e.cmd.memory_limit {
                Some(m) => m,
                None => 0,
            };
            let o = ProcessOut {
                name: self.names[i].clone(),
                index: e.index,
                cmd_abs,
                state: e.state.copied(),
                pid,
                start_time: e.start_time,
                start_count: e.start_count,
                exit_time: e.exit_time,
                memory_limit,
                memory_used: String::new(),
                web_address: e.cmd.web_address.clone(),
                sandbox: e.cmd.sandbox.len() > 0,
                mtime: e.last_modified,
                child_pids: Vec::new(),
            };
            proof {
                assert(self.name_seq()[i as int] == self.names@[i as int]@);
            }
            out.push(o);
            i = i + 1;
        }
        out
    }

    /// One watcher step for `name`, given the current modification time of
    /// its program file (None when unreadable): the control inbox to which a
    /// restart should be sent, if one is due.
    pub fn watch_one(&self, name: &str, current: Option<u128>) -> (r: Option<&C>)
        requires
            self.wf(),
        ensures
            r is Some == (self.has(name@) && restart_due(self.entry(name@), current)),
            r matches Some(c) ==> *c == self.entry(name@).control_tx,
    {
        match self.locate(name) {
            Some(i) => {
                let e = &self.entries[i];
                let changed = match (current, e.last_modified) {
                    (Some(now), Some(before)) => now != before,
                    (Some(_), None) => true,
                    (None, _) => false,
                };
                let due = e.cmd.enable && matches!(e.state, ProcState::Running) && e.cmd_abs_path.is_some() && changed;
                if due {
                    Some(&e.control_tx)
                } else {
                    None
                }
            },
            None => None,
        }
    }
}

/// One recorded change to an entry, as the supervisors make them.
pub enum EntryOp {
    /// A `set_running`.
    Run,
    /// A `set_state` to this state.
    State(ProcState),
}

/// `b` follows from `a` by `op`, at some pid, time and modification time.
pub open spec fn follows<C>(a: ProcessEntry<C>, op: EntryOp, b: ProcessEntry<C>) -> bool {
    match op {
        EntryOp::Run => exists|pid: u32, t: i64, m: Option<u128>| #[trigger] ran(a, b, pid, t, m),
        EntryOp::State(s) => exists|t: i64| #[trigger] stated(a, b, s, t),
    }
}

/// How many of `ops` count as starts: every run and every error.
pub open spec fn starts(ops: Seq<EntryOp>) -> nat
    decreases ops.len(),
{
    if ops.len() == 0 {
        0
    } else {
        starts(ops.drop_last()) + match ops.last() {
            EntryOp::Run => 1nat,
            EntryOp::State(s) => if s is Error { 1nat } else { 0nat },
        }
    }
}

/// Over a history of changes, the start counter grows by exactly the number
/// of runs plus the number of errors, as long as it stays within range.
pub proof fn start_count_law<C>(h: Seq<ProcessEntry<C>>, ops: Seq<EntryOp>)
    requires
        h.len() == ops.len() + 1,
        forall|i: int| 0 <= i < ops.len() ==> follows(h[i], #[trigger] ops[i], h[i + 1]),
        h[0].start_count + starts(ops) <= u64::MAX,
    ensures
        h.last().start_count == h[0].start_count + starts(ops),
    decreases ops.len(),
{
    if ops.len() > 0 {
        let n = ops.len() - 1;
        assert(starts(ops.drop_last()) <= starts(ops));
        start_count_law(h.drop_last(), ops.drop_last());
        assert(follows(h[n], ops[n], h[n + 1]));
        match ops[n] {
            EntryOp::Run => {
                let (pid, t, m) = choose|pid: u32, t: i64, m: Option<u128>| #[trigger] ran(h[n], h[n + 1], pid, t, m);
            },
            EntryOp::State(s) => {
                let t = choose|t: i64| #[trigger] stated(h[n], h[n + 1], s, t);
            },
        }
    }
}

/// Every running entry of a well-formed registry has a real pid.
pub proof fn running_has_pid<C>(r: Registry<C>, name: Seq<char>)
    requires
        r.wf(),
        r.has(name),
        r.entry(name).state is Running,
    ensures
        r.entry(name).pid matches Some(p) && p > 0,
{
    r.lemma_wf();
}

/// A program file whose modification time is read at the moment the child
/// starts gives the watcher no reason to restart it while it stays so.
pub proof fn start_time_mtime_is_baseline<C>(a: ProcessEntry<C>, b: ProcessEntry<C>, pid: u32, t: i64, m: Option<u128>)
    requires
        ran(a, b, pid, t, m),
    ensures
        !restart_due(b, m),
{
}

/// The watcher keeps no state of its own: whether it was off before, a sweep
/// decides for each entry from the entry and the file's time alone, and an
/// interval under a second turns it off.
pub proof fn watcher_has_no_memory<C>(r1: Registry<C>, r2: Registry<C>, name: Seq<char>, current: Option<u128>, off: u64)
    requires
        r1.wf(),
        r2.wf(),
        r1.name_seq() == r2.name_seq(),
        r1.entry_seq() == r2.entry_seq(),
        off < 1000,
    ensures
        r1.has(name) == r2.has(name),
        r1.has(name) ==> restart_due(r1.entry(name), current) == restart_due(r2.entry(name), current),
        !watch_active(off),
{
}

} // verus!
