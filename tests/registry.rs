use procd::config::ProcessConfig;
use procd::registry::{watch_enabled, ProcState, Registry};

fn s(x: &str) -> String {
    x.to_string()
}

fn process(name: &str, cmd: &str) -> ProcessConfig {
    ProcessConfig {
        name: s(name),
        cmd: s(cmd),
        args: vec![],
        envs: vec![],
        home: s(""),
        redirect_output: false,
        output_dir: s(""),
        max_run: None,
        next: None,
        memory_limit: Some(16),
        web_address: s("http://{HOST}:9000"),
        enable: true,
        use_sandbox: s(""),
        sandbox: vec![],
    }
}

fn registry_with(names: &[&str]) -> Registry<u32> {
    let mut r: Registry<u32> = Registry::new(100);
    for (i, n) in names.iter().enumerate() {
        r.register_process(n, process(n, "/usr/local/bin/app"), Some(s("/usr/local/bin/app")), Some(7), i as u32);
    }
    r
}

#[test]
fn new_entries_are_ready_and_numbered() {
    let r = registry_with(&["b", "a", "c"]);
    assert_eq!(r.count(), 3);
    let e = r.find("a").unwrap();
    assert_eq!(e.index, 2);
    assert_eq!(e.state, ProcState::Ready);
    assert_eq!(e.start_count, 0);
    assert_eq!(e.pid, None);
    assert_eq!(e.last_modified, Some(7));
    assert!(r.find("zz").is_none());
    assert_eq!(r.start_time(), 100);
}

#[test]
fn register_again_only_replaces_the_inbox() {
    let mut r = registry_with(&["a"]);
    r.set_running("a", 42, 110, Some(7));
    r.register_process("a", process("a", "/other"), None, None, 99);
    let e = r.find("a").unwrap();
    assert_eq!(*r.get_control("a").unwrap(), 99);
    assert_eq!(e.cmd.cmd, "/usr/local/bin/app");
    assert_eq!(e.state, ProcState::Running);
    assert_eq!(e.start_count, 1);
    assert_eq!(r.count(), 1);
    assert!(r.get_control("b").is_none());
}

#[test]
fn list_follows_insertion_order() {
    let r = registry_with(&["zeta", "alpha", "mid"]);
    let l = r.list();
    let names: Vec<String> = l.iter().map(|o| o.name.clone()).collect();
    assert_eq!(names, vec![s("zeta"), s("alpha"), s("mid")]);
    let idx: Vec<usize> = l.iter().map(|o| o.index).collect();
    assert_eq!(idx, vec![1, 2, 3]);
    assert_eq!(l[0].pid, 0);
    assert_eq!(l[0].memory_limit, 16);
    assert_eq!(l[0].cmd_abs, "/usr/local/bin/app");
    assert!(!l[0].sandbox);
    assert_eq!(r.names(), vec![s("zeta"), s("alpha"), s("mid")]);
}

#[test]
fn start_count_counts_runs_and_errors() {
    let mut r = registry_with(&["svc"]);
    r.set_running("svc", 10, 101, None);
    r.set_state("svc", ProcState::Exited(0), 102);
    r.set_state("svc", ProcState::Error(s("no such file")), 103);
    r.set_state("svc", ProcState::Stopping, 104);
    r.set_running("svc", 11, 105, None);
    assert_eq!(r.find("svc").unwrap().start_count, 3);
}

#[test]
fn terminal_states_stamp_exit_after_start() {
    let mut r = registry_with(&["svc"]);
    r.set_running("svc", 10, 500, None);
    r.set_state("svc", ProcState::Stopped, 400);
    let e = r.find("svc").unwrap();
    assert_eq!(e.start_time, Some(500));
    assert_eq!(e.exit_time, Some(500));
    r.set_state("svc", ProcState::Stopping, 600);
    assert_eq!(r.find("svc").unwrap().exit_time, Some(500));
    r.set_state("svc", ProcState::Killed, 700);
    let e = r.find("svc").unwrap();
    assert_eq!(e.exit_time, Some(700));
    assert!(e.exit_time.unwrap() >= e.start_time.unwrap());
}

#[test]
fn killed_entry_keeps_last_pid() {
    let mut r = registry_with(&["svc"]);
    r.set_running("svc", 4321, 101, None);
    r.set_state("svc", ProcState::Stopping, 102);
    r.set_state("svc", ProcState::Killed, 102);
    let e = r.find("svc").unwrap();
    assert_eq!(e.state, ProcState::Killed);
    assert_eq!(e.pid, Some(4321));
    assert_eq!(r.list()[0].pid, 4321);
}

#[test]
fn watcher_restarts_once_on_changed_binary() {
    let mut r = registry_with(&["svc"]);
    r.set_running("svc", 10, 101, Some(1000));
    assert!(r.watch_one("svc", Some(1000)).is_none());
    assert_eq!(r.watch_one("svc", Some(2000)), Some(&0));
    r.set_state("svc", ProcState::Stopped, 102);
    assert!(r.watch_one("svc", Some(2000)).is_none());
    r.set_running("svc", 11, 103, Some(2000));
    assert_eq!(r.find("svc").unwrap().last_modified, Some(2000));
    assert!(r.watch_one("svc", Some(2000)).is_none());
}

#[test]
fn watcher_skips_unreadable_and_disabled() {
    let mut r: Registry<u32> = Registry::new(0);
    let mut off = process("off", "/bin/app");
    off.enable = false;
    r.register_process("off", off, Some(s("/bin/app")), Some(1), 1);
    r.register_process("nopath", process("nopath", "app"), None, Some(1), 2);
    r.register_process("on", process("on", "/bin/app"), Some(s("/bin/app")), Some(1), 3);
    r.set_running("off", 5, 1, Some(1));
    r.set_running("nopath", 6, 1, Some(1));
    r.set_running("on", 7, 1, Some(1));
    assert!(r.watch_one("off", Some(2)).is_none());
    assert!(r.watch_one("nopath", Some(2)).is_none());
    assert!(r.watch_one("on", None).is_none());
    assert!(r.watch_one("missing", Some(2)).is_none());
    assert_eq!(r.watch_one("on", Some(2)), Some(&3));
}

#[test]
fn mtime_taken_at_start_is_no_change() {
    let mut r = registry_with(&["svc"]);
    r.set_running("svc", 10, 101, Some(555));
    assert!(r.watch_one("svc", Some(555)).is_none());
}

#[test]
fn watcher_interval_below_a_second_is_off() {
    assert!(!watch_enabled(0));
    assert!(!watch_enabled(999));
    assert!(watch_enabled(1000));
    assert!(watch_enabled(2000));
}

#[test]
fn state_helpers() {
    assert!(ProcState::Stopped.terminal());
    assert!(ProcState::Error(s("x")).terminal());
    assert!(ProcState::Exited(1).terminal());
    assert!(ProcState::Killed.terminal());
    assert!(!ProcState::Running.terminal());
    assert!(!ProcState::Stopping.terminal());
    assert!(!ProcState::Ready.terminal());
    assert_eq!(ProcState::Error(s("m")).copied(), ProcState::Error(s("m")));
}
