use procd::config::ProcessConfig;
use procd::registry::{ControlMsg, ProcState, Registry};
use procd::supervisor::{max_run_timer, Directive, Event, Next, Phase, Record, Supervisor};

fn d(kill: Option<u32>, record: Record, next: Next) -> Directive {
    Directive { kill, record, next }
}

#[test]
fn true_exits_and_respawns_after_a_second() {
    let mut s = Supervisor::new(true, None, None);
    assert_eq!(s.step(Event::Tick(0)), d(None, Record::Nothing, Next::Spawn));
    assert_eq!(s.step(Event::Spawned(100, 5)), d(None, Record::Running(100), Next::Wait(None)));
    assert_eq!(s.step(Event::Exited(0, 20)), d(None, Record::Exited(0), Next::Sleep(980)));
    assert_eq!(s.step(Event::Tick(990)), d(None, Record::Nothing, Next::Sleep(10)));
    assert_eq!(s.step(Event::Tick(1000)), d(None, Record::Nothing, Next::Spawn));
    assert_eq!(s.step(Event::Spawned(101, 1003)), d(None, Record::Running(101), Next::Wait(None)));
    assert_eq!(s.generation, 2);
}

#[test]
fn max_run_stops_and_restarts() {
    let mut s = Supervisor::new(true, Some(1000), None);
    s.step(Event::Tick(0));
    assert_eq!(s.step(Event::Spawned(7, 2)), d(None, Record::Running(7), Next::Wait(Some(1000))));
    assert_eq!(s.step(Event::TimedOut(1002)), d(Some(7), Record::Stopped, Next::Sleep(0)));
    assert_eq!(s.step(Event::Tick(1002)), d(None, Record::Nothing, Next::Spawn));
    assert_eq!(s.step(Event::Spawned(8, 1004)), d(None, Record::Running(8), Next::Wait(Some(1000))));
}

#[test]
fn next_delays_after_exit_but_not_after_restart() {
    let mut s = Supervisor::new(true, None, Some(5000));
    s.step(Event::Tick(0));
    s.step(Event::Spawned(7, 1));
    assert_eq!(s.step(Event::Exited(3, 2000)), d(None, Record::Exited(3), Next::Sleep(5000)));
    s.step(Event::Tick(7000));
    s.step(Event::Spawned(8, 7001));
    assert_eq!(s.step(Event::Control(ControlMsg::Restart, 9000)), d(Some(8), Record::Stopped, Next::Sleep(0)));
}

#[test]
fn restart_during_cool_down_skips_next() {
    let mut s = Supervisor::new(true, None, Some(60000));
    s.step(Event::Tick(0));
    s.step(Event::Spawned(7, 1));
    assert_eq!(s.step(Event::Exited(0, 3000)), d(None, Record::Exited(0), Next::Sleep(60000)));
    assert_eq!(s.step(Event::Control(ControlMsg::Restart, 4000)), d(None, Record::Nothing, Next::Sleep(0)));
    assert_eq!(s.step(Event::Tick(4000)), d(None, Record::Nothing, Next::Spawn));
}

#[test]
fn kill_ends_supervision() {
    let mut s = Supervisor::new(true, None, None);
    s.step(Event::Tick(0));
    s.step(Event::Spawned(55, 1));
    assert_eq!(s.step(Event::Control(ControlMsg::Kill, 100)), d(Some(55), Record::Killed, Next::Finish));
    assert_eq!(s.phase, Phase::Finished);
    assert_eq!(s.step(Event::Tick(5000)), d(None, Record::Nothing, Next::Finish));
    assert_eq!(s.step(Event::Control(ControlMsg::Restart, 6000)), d(None, Record::Nothing, Next::Finish));
    assert_eq!(s.step(Event::Spawned(56, 7000)), d(None, Record::Nothing, Next::Finish));
}

#[test]
fn repeated_restarts_spawn_once() {
    let mut s = Supervisor::new(true, None, None);
    s.step(Event::Tick(0));
    s.step(Event::Spawned(9, 1));
    assert_eq!(s.step(Event::Control(ControlMsg::Restart, 2000)), d(Some(9), Record::Stopped, Next::Sleep(0)));
    assert_eq!(s.step(Event::Control(ControlMsg::Restart, 2000)), d(None, Record::Nothing, Next::Sleep(0)));
    assert_eq!(s.step(Event::Control(ControlMsg::Restart, 2001)), d(None, Record::Nothing, Next::Sleep(0)));
    assert_eq!(s.generation, 1);
    assert_eq!(s.step(Event::Tick(2001)), d(None, Record::Nothing, Next::Spawn));
    assert_eq!(s.step(Event::Tick(2002)), d(None, Record::Nothing, Next::Continue));
    s.step(Event::Spawned(10, 2003));
    assert_eq!(s.generation, 2);
}

#[test]
fn spawn_failure_waits_a_second() {
    let mut s = Supervisor::new(true, None, None);
    s.step(Event::Tick(10));
    assert_eq!(s.step(Event::SpawnFailed(12)), d(None, Record::Failed, Next::Sleep(1000)));
    assert_eq!(s.step(Event::Tick(500)), d(None, Record::Nothing, Next::Sleep(512)));
    assert_eq!(s.step(Event::Tick(1012)), d(None, Record::Nothing, Next::Spawn));
}

#[test]
fn disabled_child_never_spawns() {
    let mut s = Supervisor::new(false, None, None);
    assert_eq!(s.step(Event::Tick(0)), d(None, Record::Nothing, Next::Idle));
    assert_eq!(s.step(Event::Tick(5000)), d(None, Record::Nothing, Next::Idle));
    assert_eq!(s.step(Event::Control(ControlMsg::Kill, 6000)), d(None, Record::Nothing, Next::Idle));
    assert_eq!(s.step(Event::Control(ControlMsg::Restart, 7000)), d(None, Record::Nothing, Next::Idle));
    assert_eq!(s.phase, Phase::Disabled);
}

#[test]
fn zero_max_run_arms_no_timer() {
    assert_eq!(max_run_timer(Some(0)), None);
    assert_eq!(max_run_timer(None), None);
    assert_eq!(max_run_timer(Some(1500)), Some(1500));
    let mut s = Supervisor::new(true, Some(0), None);
    s.step(Event::Tick(0));
    assert_eq!(s.step(Event::Spawned(3, 1)), d(None, Record::Running(3), Next::Wait(None)));
}

#[test]
fn quick_exit_counts_two_starts_by_two_and_a_half_seconds() {
    let cfg = ProcessConfig {
        name: "svc".to_string(),
        cmd: "/bin/true".to_string(),
        args: vec![],
        envs: vec![],
        home: String::new(),
        redirect_output: false,
        output_dir: String::new(),
        max_run: None,
        next: None,
        memory_limit: None,
        web_address: String::new(),
        enable: true,
        use_sandbox: String::new(),
        sandbox: vec![],
    };
    let mut reg: Registry<()> = Registry::new(0);
    reg.register_process("svc", cfg, None, None, ());
    let mut s = Supervisor::new(true, None, None);
    let mut spawns = vec![];
    let mut t: u64 = 0;
    let mut ev = Event::Tick(0);
    let mut pid = 100;
    while t <= 2500 {
        let dir = s.step(ev);
        match dir.record {
            Record::Running(p) => reg.set_running("svc", p, (t / 1000) as i64, None),
            Record::Exited(c) => reg.set_state("svc", ProcState::Exited(c), (t / 1000) as i64),
            _ => {}
        }
        ev = match dir.next {
            Next::Spawn => {
                spawns.push(t);
                pid += 1;
                Event::Spawned(pid, t)
            }
            Next::Wait(_) => {
                t += 5;
                Event::Exited(0, t)
            }
            Next::Sleep(ms) => {
                t += ms;
                Event::Tick(t)
            }
            other => panic!("unexpected {:?}", other),
        };
    }
    assert_eq!(spawns, vec![0, 1000, 2000]);
    assert!(reg.find("svc").unwrap().start_count >= 2);
    assert_eq!(reg.find("svc").unwrap().state, ProcState::Exited(0));
}
