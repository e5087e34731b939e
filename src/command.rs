//! How a child's configuration becomes a command line, an environment, a
//! working directory and resource limits.

use vstd::prelude::*;
use vstd::string::StrSliceExecFns;
use vstd::string::StringExecFns;
use crate::config::ProcessConfig;
use crate::text::{contains, replace_all, replaced};

verus! {

/// The views of a list of strings.
pub open spec fn views(v: Seq<String>) -> Seq<Seq<char>> {
    v.map_values(|s: String| s@)
}

/// The placeholder that stands for the child's working directory.
pub open spec fn home_token() -> Seq<char> {
    seq!['{', 'P', 'r', 'o', 'c', 'e', 's', 's', '-', 'H', 'o', 'm', 'e', '}']
}

/// The command line before substitution: sandbox prefix, program, arguments.
pub open spec fn raw_argv(pc: ProcessConfig) -> Seq<Seq<char>> {
    views(pc.sandbox@) + seq![pc.cmd@] + views(pc.args@)
}

/// The directory that stands for the placeholder: the child's home, or the
/// supervisor's own working directory when the home is empty.
pub open spec fn app_home(pc: ProcessConfig, current_dir: Seq<char>) -> Seq<char> {
    if pc.home@.len() == 0 { current_dir } else { pc.home@ }
}

/// Some token of the raw command line holds the placeholder.
pub open spec fn has_home_token(pc: ProcessConfig) -> bool {
    exists|i: int| 0 <= i < raw_argv(pc).len() && contains(#[trigger] raw_argv(pc)[i], home_token())
}

/// `s` split at its first `c`, when it holds one.
pub open spec fn split_first(s: Seq<char>, c: char) -> Option<(Seq<char>, Seq<char>)>
    decreases s.len(),
{
    if s.len() == 0 {
        None
    } else if s[0] == c {
        Some((Seq::empty(), s.drop_first()))
    } else {
        match split_first(s.drop_first(), c) {
            Some(p) => Some((seq![s[0]] + p.0, p.1)),
            None => None,
        }
    }
}

/// The `KEY=VALUE` entries of `v` as pairs, in order; an entry without `=`
/// is left out.
pub open spec fn env_pairs(v: Seq<Seq<char>>) -> Seq<(Seq<char>, Seq<char>)>
    decreases v.len(),
{
    if v.len() == 0 {
        Seq::empty()
    } else {
        match split_first(v.last(), '=') {
            Some(p) => env_pairs(v.drop_last()).push(p),
            None => env_pairs(v.drop_last()),
        }
    }
}

/// The pair that turns colour off in the child's output.
pub open spec fn no_color() -> (Seq<char>, Seq<char>) {
    (seq!['N', 'O', '_', 'C', 'O', 'L', 'O', 'R'], seq!['1'])
}

/// What the spawner runs for one child.
#[derive(Clone, Debug)]
pub struct CommandPlan {
    /// Program first, then its arguments.
    pub argv: Vec<String>,
    /// Variables set on top of the inherited environment, in order; a later
    /// one overrides an earlier one of the same name.
    pub envs: Vec<(String, String)>,
    /// Working directory to switch to, if any.
    pub cwd: Option<String>,
    /// Address-space limit in bytes, if any.
    pub memory_limit: Option<u64>,
}

proof fn lemma_split_first_at(s: Seq<char>, c: char, i: int)
    requires
        0 <= i < s.len(),
        s[i] == c,
        forall|k: int| 0 <= k < i ==> s[k] != c,
    ensures
        split_first(s, c) == Some((s.subrange(0, i), s.subrange(i + 1, s.len() as int))),
    decreases i,
{
    if i > 0 {
        let t = s.drop_first();
        lemma_split_first_at(t, c, i - 1);
        assert(seq![s[0]] + t.subrange(0, i - 1) =~= s.subrange(0, i));
        assert(t.subrange(i, t.len() as int) =~= s.subrange(i + 1, s.len() as int));
    } else {
        assert(s.subrange(0, 0) =~= Seq::<char>::empty());
        assert(s.drop_first() =~= s.subrange(1, s.len() as int));
    }
}

proof fn lemma_split_first_none(s: Seq<char>, c: char)
    requires
        forall|k: int| 0 <= k < s.len() ==> s[k] != c,
    ensures
        split_first(s, c) is None,
    decreases s.len(),
{
    if s.len() > 0 {
        lemma_split_first_none(s.drop_first(), c);
    }
}

/// Splits `s` at its first `c`.
pub fn split_once_char(s: &str, c: char) -> (r: Option<(String, String)>)
    ensures
        match r {
            Some(p) => split_first(s@, c) == Some((p.0@, p.1@)),
            None => split_first(s@, c) is None,
        },
{
    let n = s.unicode_len();
    let mut i: usize = 0;
    while i < n
        invariant
            n == s@.len(),
            i <= n,
            forall|k: int| 0 <= k < i ==> s@[k] != c,
        decreases n - i,
    {
        if s.get_char(i) == c {
            proof {
                lemma_split_first_at(s@, c, i as int);
            }
            let a = String::from_str(s.substring_char(0, i));
            let b = String::from_str(s.substring_char(i + 1, n));
            return Some((a, b));
        }
        i = i + 1;
    }
    proof {
        lemma_split_first_none(s@, c);
    }
    None
}

/// The address-space limit in bytes for a memory limit in MiB: none when the
/// limit is unset or zero.
pub open spec fn limit_bytes(limit: Option<u32>) -> Option<u64> {
    match limit {
        Some(n) => if n > 0 { Some((n * 1048576) as u64) } else { None },
        None => None,
    }
}

/// The address-space limit for a memory limit in MiB.
pub fn memory_limit_bytes(limit: Option<u32>) -> (r: Option<u64>)
    ensures
        r == limit_bytes(limit),
        r matches Some(b) ==> b == limit->0 as int * 1048576 && b > 0,
{
    match limit {
        Some(n) => {
            if n > 0 {
                Some(n as u64 * 1048576)
            } else {
                None
            }
        },
        None => None,
    }
}

/// The signal target that stops a child and its descendants: the process
/// group that the child leads, as a negative number. None for pid 0, which
/// stands for no child, and for a pid outside the platform's range.
pub fn kill_target(pid: u32) -> (r: Option<i32>)
    ensures
        r == (if pid == 0 || pid > i32::MAX { None::<i32> } else { Some(-(pid as int) as i32) }),
{
    if pid == 0 || pid > 0x7fff_ffff {
        None
    } else {
        Some(-(pid as i32))
    }
}

/// Appends each string of `v` to `out` with `token` replaced by `home`;
/// says whether any of them held the token.
fn substitute_each(v: &Vec<String>, token: &str, home: &str, out: &mut Vec<String>) -> (r: bool)
    requires
        token@.len() > 0,
    ensures
        final(out)@.len() == old(out)@.len() + v@.len(),
        forall|i: int| 0 <= i < old(out)@.len() ==> final(out)@[i] == old(out)@[i],
        forall|i: int| 0 <= i < v@.len() ==> (#[trigger] final(out)@[old(out)@.len() + i])@ == replaced(v@[i]@, token@, home@),
        r == exists|k: int| 0 <= k < v@.len() && contains(#[trigger] v@[k]@, token@),
{
    let ghost start = out@;
    let mut found = false;
    let mut i: usize = 0;
    while i < v.len()
        invariant
            token@.len() > 0,
            i <= v@.len(),
            out@.len() == start.len() + i,
            forall|k: int| 0 <= k < start.len() ==> out@[k] == start[k],
            forall|k: int| 0 <= k < i ==> (#[trigger] out@[start.len() + k])@ == replaced(v@[k]@, token@, home@),
            found == exists|k: int| 0 <= k < i && contains(#[trigger] v@[k]@, token@),
        decreases v.len() - i,
    {
        let (s, hit) = replace_all(v[i].as_str(), token, home);
        out.push(s);
        found = found || hit;
        i = i + 1;
    }
    found
}

impl ProcessConfig {
    /// The command line with placeholders substituted, and whether any
    /// placeholder was found.
    fn argv(&self, home: &str) -> (r: (Vec<String>, bool))
        ensures
            r.0@.len() == raw_argv(*self).len(),
            forall|i: int| 0 <= i < r.0@.len() ==> (#[trigger] r.0@[i])@ == replaced(raw_argv(*self)[i], home_token(), home@),
            r.1 == has_home_token(*self),
    {
        let token = "{Process-Home}";
        proof {
            reveal_strlit("{Process-Home}");
            assert(token@ =~= home_token());
        }
        let mut out: Vec<String> = Vec::new();
        let a = substitute_each(&self.sandbox, token, home, &mut out);
        let ghost o1 = out@;
        let (c, b) = replace_all(self.cmd.as_str(), token, home);
        out.push(c);
        let ghost o2 = out@;
        let d = substitute_each(&self.args, token, home, &mut out);
        let ghost raw = raw_argv(*self);
        let ghost ns: int = self.sandbox@.len() as int;
        assert forall|i: int| 0 <= i < out@.len() implies (#[trigger] out@[i])@ == replaced(raw[i], home_token(), home@) by {
            if i < ns {
                assert(raw[i] == self.sandbox@[i]@);
                assert(o1[0 + i]@ == replaced(self.sandbox@[i]@, home_token(), home@));
                assert(out@[i] == o2[i]);
            } else if i == ns {
                assert(raw[i] == self.cmd@);
                assert(out@[i] == o2[i]);
            } else {
                assert(raw[i] == self.args@[i - ns - 1]@);
                assert(out@[o2.len() + (i - ns - 1)]@ == replaced(self.args@[i - ns - 1]@, home_token(), home@));
            }
        }
        let found = a || b || d;
        proof {
            if found {
                if a {
                    let k = choose|k: int| 0 <= k < self.sandbox@.len() && contains(#[trigger] self.sandbox@[k]@, home_token());
                    assert(raw[k] == self.sandbox@[k]@);
                } else if b {
                    assert(raw[ns] == self.cmd@);
                } else {
                    let k = choose|k: int| 0 <= k < self.args@.len() && contains(#[trigger] self.args@[k]@, home_token());
                    assert(raw[ns + 1 + k] == self.args@[k]@);
                }
            } else {
                assert forall|i: int| 0 <= i < raw.len() implies !contains(#[trigger] raw[i], home_token()) by {
                    if i < ns {
                        assert(raw[i] == self.sandbox@[i]@);
                    } else if i == ns {
                        assert(raw[i] == self.cmd@);
                    } else {
                        assert(raw[i] == self.args@[i - ns - 1]@);
                    }
                }
            }
        }
        (out, found)
    }

    /// The environment pairs of this child's `KEY=VALUE` entries.
    fn env_list(&self) -> (r: Vec<(String, String)>)
        ensures
            r@.len() == env_pairs(views(self.envs@)).len(),
            forall|i: int| 0 <= i < r@.len() ==> (#[trigger] r@[i]).0@ == env_pairs(views(self.envs@))[i].0
                && r@[i].1@ == env_pairs(views(self.envs@))[i].1,
    {
        let mut out: Vec<(String, String)> = Vec::new();
        let mut i: usize = 0;
        while i < self.envs.len()
            invariant
                i <= self.envs@.len(),
                out@.len() == env_pairs(views(self.envs@.subrange(0, i as int))).len(),
                forall|k: int| 0 <= k < out@.len() ==> (#[trigger] out@[k]).0@ == env_pairs(views(self.envs@.subrange(0, i as int)))[k].0
                    && out@[k].1@ == env_pairs(views(self.envs@.subrange(0, i as int)))[k].1,
            decreases self.envs.len() - i,
        {
            let ghost pre = views(self.envs@.subrange(0, i as int));
            let ghost next = views(self.envs@.subrange(0, i + 1));
            assert(next.drop_last() =~= pre);
            assert(next.last() == self.envs@[i as int]@);
            match split_once_char(self.envs[i].as_str(), '=') {
                Some(p) => {
                    out.push(p);
                },
                None => {},
            }
            i = i + 1;
        }
        assert(self.envs@.subrange(0, self.envs@.len() as int) =~= self.envs@);
        out
    }

    /// What the spawner runs for this child, given the supervisor's own
    /// working directory.
    pub fn get_cmd(&self, current_dir: &str) -> (r: CommandPlan)
        ensures
            r.argv@.len() == raw_argv(*self).len(),
            forall|i: int| 0 <= i < r.argv@.len() ==> (#[trigger] r.argv@[i])@ == replaced(
                raw_argv(*self)[i],
                home_token(),
                app_home(*self, current_dir@),
            ),
            r.envs@.len() == env_pairs(views(self.envs@)).len() + 1,
            forall|i: int| 0 <= i < r.envs@.len() - 1 ==> (#[trigger] r.envs@[i]).0@ == env_pairs(views(self.envs@))[i].0
                && r.envs@[i].1@ == env_pairs(views(self.envs@))[i].1,
            r.envs@.last().0@ == no_color().0,
            r.envs@.last().1@ == no_color().1,
            r.cwd == (if !has_home_token(*self) && self.home@.len() > 0 { Some(self.home) } else { None }),
            r.memory_limit == limit_bytes(self.memory_limit),
    {
        let home: &str = if self.home.unicode_len() == 0 { current_dir } else { self.home.as_str() };
        let (argv, replaced_any) = self.argv(home);
        let mut envs = self.env_list();
        proof {
            reveal_strlit("NO_COLOR");
            reveal_strlit("1");
        }
        let k = String::from_str("NO_COLOR");
        let v = String::from_str("1");
        assert(k@ =~= no_color().0);
        assert(v@ =~= no_color().1);
        envs.push((k, v));
        let cwd = if !replaced_any && self.home.unicode_len() > 0 { Some(self.home.clone()) } else { None };
        CommandPlan { argv, envs, cwd, memory_limit: memory_limit_bytes(self.memory_limit) }
    }
}

/// With no sandbox prefix the command line is the program and its arguments.
pub proof fn empty_sandbox_runs_program(pc: ProcessConfig)
    requires
        pc.sandbox@.len() == 0,
    ensures
        raw_argv(pc) == seq![pc.cmd@] + views(pc.args@),
{
    assert(views(pc.sandbox@) =~= Seq::<Seq<char>>::empty());
    assert(raw_argv(pc) =~= seq![pc.cmd@] + views(pc.args@));
}

} // verus!
