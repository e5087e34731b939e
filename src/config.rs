//! Supervisor configuration and its normalisation.

use vstd::prelude::*;
use vstd::string::StringExecFns;
use crate::text::{copy_strings, same_text};

verus! {

/// Address the HTTP control plane binds to.
#[derive(Clone, Debug)]
pub struct HttpConfig {
    pub addr: String,
}

/// HTTP Basic credentials; an empty user name disables authentication.
#[derive(Clone, Debug)]
pub struct AuthConfig {
    pub username: String,
    pub password: String,
}

impl AuthConfig {
    /// Whether the given user name and password match the configured ones.
    pub fn check(&self, name: &str, psw: &str) -> (r: bool)
        ensures
            r == (self.username@ == name@ && self.password@ == psw@),
    {
        same_text(self.username.as_str(), name) && same_text(self.password.as_str(), psw)
    }
}

/// Default for flags that are on unless configured otherwise.
pub fn default_true() -> (r: bool)
    ensures
        r,
{
    true
}


/// A named sandbox command template, such as a jailer with its options.
#[derive(Clone, Debug)]
pub struct SandboxConfig {
    pub name: String,
    pub cmd: Vec<String>,
    pub enable: bool,
}

/// Relies on which::which: looks `name` up as an executable, through `PATH`
/// when it has no separator. What it finds depends on the file system and the
/// environment, so nothing is claimed of the path.
#[verifier::external_body]
fn which_path(name: &str) -> (r: Option<String>) {
    which::which(name).ok().map(|p| p.to_string_lossy().into_owned())
}

impl SandboxConfig {
    /// The template's command with its first token replaced by `found`, the
    /// program's resolved path, when there is one.
    pub fn with_program(&self, found: Option<String>) -> (r: Vec<String>)
        requires
            self.cmd@.len() > 0,
        ensures
            r@.len() == self.cmd@.len(),
            r@[0] == (match found {
                Some(p) => p,
                None => self.cmd@[0],
            }),
            r@.subrange(1, r@.len() as int) == self.cmd@.subrange(1, self.cmd@.len() as int),
    {
        let mut cmd = copy_strings(&self.cmd);
        let first = match found {
            Some(p) => p,
            None => self.cmd[0].clone(),
        };
        cmd.set(0, first);
        assert(cmd@.subrange(1, cmd@.len() as int) =~= self.cmd@.subrange(1, self.cmd@.len() as int));
        cmd
    }

    /// The template's command with its first token resolved through `PATH`
    /// where it can be found; the other tokens are kept as they are.
    pub fn get_cmd(&self) -> (r: Vec<String>)
        ensures
            r@.len() == self.cmd@.len(),
            r@.len() > 0 ==> r@.subrange(1, r@.len() as int) == self.cmd@.subrange(1, self.cmd@.len() as int),
    {
        if self.cmd.len() == 0 {
            return Vec::new();
        }
        self.with_program(which_path(self.cmd[0].as_str()))
    }
}

/// The configuration of one supervised child. Durations are in milliseconds.
#[derive(Clone, Debug)]
pub struct ProcessConfig {
    pub name: String,
    pub cmd: String,
    pub args: Vec<String>,
    pub envs: Vec<String>,
    pub home: String,
    pub redirect_output: bool,
    pub output_dir: String,
    pub max_run: Option<u64>,
    pub next: Option<u64>,
    pub memory_limit: Option<u32>,
    pub web_address: String,
    pub enable: bool,
    pub use_sandbox: String,
    pub sandbox: Vec<String>,
}

impl ProcessConfig {
    /// The absolute path of the program, where `PATH` lookup finds it.
    pub fn cmd_abs_path(&self) -> (r: Option<String>) {
        which_path(self.cmd.as_str())
    }
}


/// Joins a file name onto a directory as a path push does: an absolute name
/// replaces the directory, and one separator stands between the two.
pub open spec fn joined(dir: Seq<char>, name: Seq<char>) -> Seq<char> {
    if name.len() > 0 && name[0] == '/' {
        name
    } else if dir.len() == 0 {
        name
    } else if dir[dir.len() - 1] == '/' {
        dir + name
    } else {
        dir + seq!['/'] + name
    }
}

/// Appends `name` to the directory `dir` as a path.
pub fn join_path(dir: &str, name: &str) -> (r: String)
    ensures
        r@ == joined(dir@, name@),
{
    let sep = "/";
    proof {
        reveal_strlit("/");
    }
    if name.unicode_len() > 0 && name.get_char(0) == '/' {
        return String::from_str(name);
    }
    let n = dir.unicode_len();
    if n == 0 {
        return String::from_str(name);
    }
    let mut r = String::from_str(dir);
    if dir.get_char(n - 1) != '/' {
        r.append(sep);
    }
    r.append(name);
    r
}

/// A sandbox template that a child asking for `wanted` may use: an enabled
/// one of that name, or any enabled one when no name is asked for.
pub open spec fn sandbox_fits(c: SandboxConfig, wanted: Seq<char>) -> bool {
    c.enable && (c.name@ == wanted || wanted.len() == 0)
}

/// `j` is the first template in `s` that fits `wanted`.
pub open spec fn is_first_fit(s: Seq<SandboxConfig>, wanted: Seq<char>, j: int) -> bool {
    0 <= j < s.len() && sandbox_fits(s[j], wanted) && forall|k: int| 0 <= k < j ==> !sandbox_fits(#[trigger] s[k], wanted)
}

/// `cmd` is the command of template `c`, its first token possibly resolved.
pub open spec fn resolved_from(cmd: Seq<String>, c: SandboxConfig) -> bool {
    cmd.len() == c.cmd@.len() && (cmd.len() > 0 ==> cmd.subrange(1, cmd.len() as int) == c.cmd@.subrange(1, c.cmd@.len() as int))
}

/// The first template that fits `wanted`, if any.
fn find_sandbox(s: &Vec<SandboxConfig>, wanted: &str) -> (r: Option<usize>)
    ensures
        r matches Some(j) ==> is_first_fit(s@, wanted@, j as int),
        r is None ==> forall|k: int| 0 <= k < s@.len() ==> !sandbox_fits(#[trigger] s@[k], wanted@),
{
    let empty = wanted.unicode_len() == 0;
    let mut i: usize = 0;
    while i < s.len()
        invariant
            i <= s@.len(),
            empty == (wanted@.len() == 0),
            forall|k: int| 0 <= k < i ==> !sandbox_fits(#[trigger] s@[k], wanted@),
        decreases s.len() - i,
    {
        if s[i].enable && (empty || same_text(s[i].name.as_str(), wanted)) {
            return Some(i);
        }
        i = i + 1;
    }
    None
}

/// `r` is `pc` completed with the global settings: global environment first,
/// output directory and home defaulted, sandbox cleared or chosen.
pub open spec fn normalized_from(
    r: ProcessConfig,
    pc: ProcessConfig,
    envs: Seq<String>,
    log_dir: Seq<char>,
    home: Seq<char>,
    enable_sandbox: bool,
    sboxes: Seq<SandboxConfig>,
) -> bool {
    &&& r.name == pc.name
    &&& r.cmd == pc.cmd
    &&& r.args == pc.args
    &&& r.envs@ == envs + pc.envs@
    &&& r.home@ == (if pc.home@.len() == 0 { home } else { pc.home@ })
    &&& r.redirect_output == pc.redirect_output
    &&& r.output_dir@ == (if pc.output_dir@.len() == 0 { joined(log_dir, pc.name@) } else { pc.output_dir@ })
    &&& r.max_run == pc.max_run
    &&& r.next == pc.next
    &&& r.memory_limit == pc.memory_limit
    &&& r.web_address == pc.web_address
    &&& r.enable == pc.enable
    &&& r.use_sandbox == pc.use_sandbox
    &&& if !enable_sandbox || pc.use_sandbox@ == seq!['n', 'o'] {
        r.sandbox@.len() == 0
    } else if pc.sandbox@.len() > 0 {
        r.sandbox == pc.sandbox
    } else if exists|j: int| is_first_fit(sboxes, pc.use_sandbox@, j) {
        exists|j: int| is_first_fit(sboxes, pc.use_sandbox@, j) && resolved_from(r.sandbox@, sboxes[j])
    } else {
        r.sandbox == pc.sandbox
    }
}

/// Completes one child's configuration from the global settings.
fn normalize_process(
    pc: ProcessConfig,
    envs: &Vec<String>,
    log_dir: &String,
    home: &String,
    enable_sandbox: bool,
    sboxes: &Vec<SandboxConfig>,
) -> (r: ProcessConfig)
    ensures
        normalized_from(r, pc, envs@, log_dir@, home@, enable_sandbox, sboxes@),
{
    let ghost old_pc = pc;
    let mut pc = pc;
    let mut merged = copy_strings(envs);
    let mut own = Vec::new();
    std::mem::swap(&mut own, &mut pc.envs);
    merged.append(&mut own);
    pc.envs = merged;
    if pc.output_dir.unicode_len() == 0 {
        pc.output_dir = join_path(log_dir.as_str(), pc.name.as_str());
    }
    if pc.home.unicode_len() == 0 {
        pc.home = home.clone();
    }
    proof {
        reveal_strlit("no");
        assert("no"@ =~= seq!['n', 'o']);
    }
    if !enable_sandbox || same_text(pc.use_sandbox.as_str(), "no") {
        pc.sandbox = Vec::new();
    } else if pc.sandbox.len() == 0 {
        match find_sandbox(sboxes, pc.use_sandbox.as_str()) {
            Some(j) => {
                pc.sandbox = sboxes[j].get_cmd();
                assert(is_first_fit(sboxes@, pc.use_sandbox@, j as int));
            },
            None => {},
        }
    }
    pc
}

/// The whole supervisor configuration. Durations are in milliseconds.
#[derive(Clone, Debug)]
pub struct Config {
    pub http: HttpConfig,
    pub process: Vec<ProcessConfig>,
    pub sandbox: Vec<SandboxConfig>,
    pub home: String,
    pub log_dir: String,
    pub auth: AuthConfig,
    pub envs: Vec<String>,
    pub restart_delay: Option<u64>,
    pub enable_sandbox: bool,
}

impl Config {
    /// Fills in the defaults: `logs` as log directory, and each child
    /// completed with the global environment, directories and sandbox.
    pub fn check_and_init(&mut self)
        ensures
            final(self).log_dir@ == (if old(self).log_dir@.len() == 0 { seq!['l', 'o', 'g', 's'] } else { old(self).log_dir@ }),
            final(self).process@.len() == old(self).process@.len(),
            forall|i: int| 0 <= i < old(self).process@.len() ==> normalized_from(
                #[trigger] final(self).process@[i],
                old(self).process@[i],
                old(self).envs@,
                final(self).log_dir@,
                old(self).home@,
                old(self).enable_sandbox,
                old(self).sandbox@,
            ),
            final(self).http == old(self).http,
            final(self).sandbox == old(self).sandbox,
            final(self).home == old(self).home,
            final(self).auth == old(self).auth,
            final(self).envs == old(self).envs,
            final(self).restart_delay == old(self).restart_delay,
            final(self).enable_sandbox == old(self).enable_sandbox,
    {
        if self.log_dir.unicode_len() == 0 {
            proof {
                reveal_strlit("logs");
            }
            self.log_dir = String::from_str("logs");
            assert(self.log_dir@ =~= seq!['l', 'o', 'g', 's']);
        }
        let mut todo = Vec::new();
        std::mem::swap(&mut todo, &mut self.process);
        let total = todo.len();
        let ghost orig = todo@;
        let mut done: Vec<ProcessConfig> = Vec::new();
        let mut i: usize = 0;
        while todo.len() > 0
            invariant
                todo@ == orig.subrange(i as int, orig.len() as int),
                i <= orig.len(),
                orig.len() == total,
                done@.len() == i,
                forall|k: int| 0 <= k < i ==> normalized_from(
                    #[trigger] done@[k],
                    orig[k],
                    self.envs@,
                    self.log_dir@,
                    self.home@,
                    self.enable_sandbox,
                    self.sandbox@,
                ),
            decreases todo.len(),
        {
            let pc = todo.remove(0);
            let r = normalize_process(pc, &self.envs, &self.log_dir, &self.home, self.enable_sandbox, &self.sandbox);
            done.push(r);
            i = i + 1;
        }
        self.process = done;
    }
}

} // verus!
