use procd::command::{kill_target, memory_limit_bytes};
use procd::config::{default_true, join_path, AuthConfig, Config, HttpConfig, ProcessConfig, SandboxConfig};

fn s(x: &str) -> String {
    x.to_string()
}

fn process(name: &str, cmd: &str) -> ProcessConfig {
    ProcessConfig {
        name: s(name),
        cmd: s(cmd),
        args: vec![],
        envs: vec![],
        home: s(""),
        redirect_output: false,
        output_dir: s(""),
        max_run: None,
        next: None,
        memory_limit: None,
        web_address: s(""),
        enable: true,
        use_sandbox: s(""),
        sandbox: vec![],
    }
}

fn config(processes: Vec<ProcessConfig>) -> Config {
    Config {
        http: HttpConfig { addr: s("127.0.0.1:8080") },
        process: processes,
        sandbox: vec![],
        home: s("/srv"),
        log_dir: s(""),
        auth: AuthConfig { username: s(""), password: s("") },
        envs: vec![s("A=1")],
        restart_delay: None,
        enable_sandbox: true,
    }
}

#[test]
fn auth_check_matches_both_fields() {
    let a = AuthConfig { username: s("admin"), password: s("secret") };
    assert!(a.check("admin", "secret"));
    assert!(!a.check("admin", "Secret"));
    assert!(!a.check("root", "secret"));
    assert!(!a.check("", ""));
}

#[test]
fn default_flag_is_on() {
    assert!(default_true());
}

#[test]
fn paths_join_like_a_path_push() {
    assert_eq!(join_path("logs", "svc"), "logs/svc");
    assert_eq!(join_path("logs/", "svc"), "logs/svc");
    assert_eq!(join_path("", "svc"), "svc");
    assert_eq!(join_path("logs", "/abs"), "/abs");
}

#[test]
fn init_fills_defaults() {
    let mut pc = process("svc", "/bin/true");
    pc.envs = vec![s("B=2")];
    let mut other = process("web", "/bin/true");
    other.home = s("/opt/web");
    other.output_dir = s("/var/out");
    let mut c = config(vec![pc, other]);
    c.check_and_init();
    assert_eq!(c.log_dir, "logs");
    assert_eq!(c.process[0].envs, vec![s("A=1"), s("B=2")]);
    assert_eq!(c.process[0].output_dir, "logs/svc");
    assert_eq!(c.process[0].home, "/srv");
    assert_eq!(c.process[1].home, "/opt/web");
    assert_eq!(c.process[1].output_dir, "/var/out");
    assert_eq!(c.process[1].envs, vec![s("A=1")]);
}

#[test]
fn init_chooses_sandbox() {
    let mut named = process("a", "/bin/true");
    named.use_sandbox = s("jail");
    let mut none = process("b", "/bin/true");
    none.use_sandbox = s("no");
    let any = process("c", "/bin/true");
    let mut missing = process("d", "/bin/true");
    missing.use_sandbox = s("other");
    let mut c = config(vec![named, none, any, missing]);
    c.sandbox = vec![
        SandboxConfig { name: s("off"), cmd: vec![s("/usr/bin/off")], enable: false },
        SandboxConfig { name: s("first"), cmd: vec![s("/usr/bin/first"), s("-q")], enable: true },
        SandboxConfig { name: s("jail"), cmd: vec![s("/usr/bin/jail"), s("--home"), s("{Process-Home}")], enable: true },
    ];
    c.check_and_init();
    assert_eq!(c.process[0].sandbox.len(), 3);
    assert_eq!(c.process[0].sandbox[1..], [s("--home"), s("{Process-Home}")]);
    assert!(c.process[1].sandbox.is_empty());
    assert_eq!(c.process[2].sandbox.len(), 2);
    assert_eq!(c.process[2].sandbox[1], "-q");
    assert!(c.process[3].sandbox.is_empty());
}

#[test]
fn sandbox_switch_off_clears_every_prefix() {
    let mut pc = process("a", "/bin/true");
    pc.sandbox = vec![s("/usr/bin/jail")];
    let mut c = config(vec![pc]);
    c.enable_sandbox = false;
    c.check_and_init();
    assert!(c.process[0].sandbox.is_empty());
}

#[test]
fn sandbox_template_resolves_its_program() {
    let t = SandboxConfig { name: s("sh"), cmd: vec![s("sh"), s("-c")], enable: true };
    let cmd = t.get_cmd();
    assert_eq!(cmd.len(), 2);
    assert!(cmd[0].starts_with('/'));
    assert!(cmd[0].ends_with("sh"));
    assert_eq!(cmd[1], "-c");
    let empty = SandboxConfig { name: s("x"), cmd: vec![], enable: true };
    assert!(empty.get_cmd().is_empty());
}

#[test]
fn sandbox_template_takes_the_found_program() {
    let t = SandboxConfig { name: s("j"), cmd: vec![s("jail"), s("-q"), s("--")], enable: true };
    assert_eq!(t.with_program(Some(s("/usr/bin/jail"))), vec![s("/usr/bin/jail"), s("-q"), s("--")]);
    assert_eq!(t.with_program(None), vec![s("jail"), s("-q"), s("--")]);
}

#[test]
fn command_plan_substitutes_home() {
    let mut pc = process("svc", "/usr/local/bin/app");
    pc.home = s("/srv/app");
    pc.sandbox = vec![s("/usr/bin/jail"), s("--chdir={Process-Home}")];
    pc.args = vec![s("--data"), s("{Process-Home}/data")];
    pc.envs = vec![s("KEY=VALUE=X"), s("NOEQ"), s("EMPTY=")];
    let plan = pc.get_cmd("/cwd");
    assert_eq!(
        plan.argv,
        vec![s("/usr/bin/jail"), s("--chdir=/srv/app"), s("/usr/local/bin/app"), s("--data"), s("/srv/app/data")]
    );
    assert_eq!(plan.envs, vec![(s("KEY"), s("VALUE=X")), (s("EMPTY"), s("")), (s("NO_COLOR"), s("1"))]);
    assert_eq!(plan.cwd, None);
}

#[test]
fn command_plan_sets_home_without_placeholder() {
    let mut pc = process("svc", "/bin/sleep");
    pc.home = s("/srv/app");
    pc.args = vec![s("10")];
    let plan = pc.get_cmd("/cwd");
    assert_eq!(plan.argv, vec![s("/bin/sleep"), s("10")]);
    assert_eq!(plan.cwd, Some(s("/srv/app")));
    let mut bare = process("svc", "/bin/echo");
    bare.args = vec![s("{Process-Home}")];
    let plan = bare.get_cmd("/cwd");
    assert_eq!(plan.argv, vec![s("/bin/echo"), s("/cwd")]);
    assert_eq!(plan.cwd, None);
}

#[test]
fn empty_sandbox_is_no_sandbox() {
    let mut pc = process("svc", "/bin/sleep");
    pc.args = vec![s("10")];
    let plan = pc.get_cmd("/");
    assert_eq!(plan.argv, vec![s("/bin/sleep"), s("10")]);
}

#[test]
fn memory_limit_zero_or_unset_means_none() {
    assert_eq!(memory_limit_bytes(None), None);
    assert_eq!(memory_limit_bytes(Some(0)), None);
    assert_eq!(memory_limit_bytes(Some(2)), Some(2 * 1024 * 1024));
    let mut pc = process("svc", "/bin/true");
    pc.memory_limit = Some(0);
    assert_eq!(pc.get_cmd("/").memory_limit, None);
    pc.memory_limit = Some(64);
    assert_eq!(pc.get_cmd("/").memory_limit, Some(64 * 1048576));
}

#[test]
fn kill_targets_the_group() {
    assert_eq!(kill_target(0), None);
    assert_eq!(kill_target(1234), Some(-1234));
    assert_eq!(kill_target(u32::MAX), None);
}
