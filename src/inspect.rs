//! Helpers of the process listing that the control plane serves.

use vstd::prelude::*;
use vstd::string::StringExecFns;
use crate::command::{split_first, split_once_char};
use crate::text::{replace_all, replaced};

verus! {

/// The host name of a `Host` header: what stands before the first colon.
pub open spec fn host_name_of(host: Seq<char>) -> Seq<char> {
    match split_first(host, ':') {
        Some(p) => p.0,
        None => host,
    }
}

/// The host name of a `Host` header, without its port.
pub fn host_name(host: &str) -> (r: String)
    ensures
        r@ == host_name_of(host@),
{
    match split_once_char(host, ':') {
        Some(p) => p.0,
        None => String::from_str(host),
    }
}

/// The placeholder of a display address that stands for the host name.
pub open spec fn host_token() -> Seq<char> {
    seq!['{', 'H', 'O', 'S', 'T', '}']
}

/// A child's display address with the placeholder replaced by `hostname`.
pub fn fill_web_address(addr: &str, hostname: &str) -> (r: String)
    ensures
        r@ == replaced(addr@, host_token(), hostname@),
{
    let token = "{HOST}";
    proof {
        reveal_strlit("{HOST}");
        assert(token@ =~= host_token());
    }
    replace_all(addr, token, hostname).0
}


/// One process of the system's process table, as the listing needs it.
#[derive(Clone, Copy, Debug, PartialEq, Eq, Structural)]
pub struct ProcInfo {
    pub pid: u32,
    pub parent: Option<u32>,
    /// Resident memory in bytes.
    pub memory: u64,
    /// It still exists and is a process rather than a thread.
    pub live: bool,
}

/// The live processes whose parent is `root` or one of those marked in
/// `prev`.
pub open spec fn grow(procs: Seq<ProcInfo>, root: u32, prev: Seq<bool>) -> Seq<bool> {
    Seq::new(
        procs.len(),
        |i: int|
            procs[i].live && (procs[i].parent == Some(root) || exists|j: int|
                0 <= j < procs.len() && prev[j] && procs[i].parent == Some(procs[j].pid)),
    )
}

/// The processes that descend from `root` in at most `k + 1` generations
/// through live processes.
pub open spec fn generations(procs: Seq<ProcInfo>, root: u32, k: nat) -> Seq<bool>
    decreases k,
{
    if k == 0 {
        grow(procs, root, Seq::new(procs.len(), |i: int| false))
    } else {
        grow(procs, root, generations(procs, root, (k - 1) as nat))
    }
}

/// Process `i` descends from `root` through live processes.
pub open spec fn descendant(procs: Seq<ProcInfo>, root: u32, i: int) -> bool {
    0 <= i < procs.len() && exists|k: nat| #[trigger] generations(procs, root, k)[i]
}

/// The pids of the descendants among the first `n` processes, in order.
pub open spec fn tree_pids(procs: Seq<ProcInfo>, root: u32, n: int) -> Seq<u32>
    decreases n,
{
    if n <= 0 {
        Seq::empty()
    } else if descendant(procs, root, n - 1) {
        tree_pids(procs, root, n - 1).push(procs[n - 1].pid)
    } else {
        tree_pids(procs, root, n - 1)
    }
}

/// The memory of the descendants among the first `n` processes.
pub open spec fn tree_memory(procs: Seq<ProcInfo>, root: u32, n: int) -> nat
    decreases n,
{
    if n <= 0 {
        0
    } else if descendant(procs, root, n - 1) {
        tree_memory(procs, root, n - 1) + procs[n - 1].memory as nat
    } else {
        tree_memory(procs, root, n - 1)
    }
}

/// `x`, held at the largest `u64`.
pub open spec fn clamp(x: nat) -> u64 {
    if x <= u64::MAX { x as u64 } else { u64::MAX }
}

/// How many entries of `s` are false.
pub open spec fn falses(s: Seq<bool>) -> nat
    decreases s.len(),
{
    if s.len() == 0 {
        0
    } else {
        falses(s.drop_last()) + if s.last() { 0nat } else { 1nat }
    }
}

proof fn lemma_falses_shrink(a: Seq<bool>, b: Seq<bool>)
    requires
        a.len() == b.len(),
        forall|i: int| 0 <= i < a.len() && a[i] ==> b[i],
    ensures
        falses(b) <= falses(a),
        a != b ==> falses(b) < falses(a),
    decreases a.len(),
{
    if a.len() > 0 {
        assert forall|i: int| 0 <= i < a.drop_last().len() && a.drop_last()[i] implies b.drop_last()[i] by {
            assert(a.drop_last()[i] == a[i]);
            assert(b.drop_last()[i] == b[i]);
        }
        lemma_falses_shrink(a.drop_last(), b.drop_last());
        if a != b && a.drop_last() == b.drop_last() && a.last() == b.last() {
            assert forall|i: int| 0 <= i < a.len() implies a[i] == b[i] by {
                if i < a.len() - 1 {
                    assert(a.drop_last()[i] == b.drop_last()[i]);
                }
            }
            assert(a =~= b);
        }
        if a != b && a.drop_last() != b.drop_last() {
            assert(falses(b.drop_last()) < falses(a.drop_last()));
        }
    } else {
        assert(a =~= b);
    }
}

proof fn lemma_grow_mono(procs: Seq<ProcInfo>, root: u32, a: Seq<bool>, b: Seq<bool>)
    requires
        a.len() == procs.len(),
        b.len() == procs.len(),
        forall|i: int| 0 <= i < procs.len() && a[i] ==> b[i],
    ensures
        forall|i: int| 0 <= i < procs.len() && grow(procs, root, a)[i] ==> grow(procs, root, b)[i],
{
    assert forall|i: int| 0 <= i < procs.len() && grow(procs, root, a)[i] implies grow(procs, root, b)[i] by {
        if procs[i].parent != Some(root) {
            let j = choose|j: int| 0 <= j < procs.len() && a[j] && procs[i].parent == Some(procs[j].pid);
            assert(b[j]);
        }
    }
}

proof fn lemma_generations_len(procs: Seq<ProcInfo>, root: u32, k: nat)
    ensures
        generations(procs, root, k).len() == procs.len(),
{
}

proof fn lemma_generations_step(procs: Seq<ProcInfo>, root: u32, k: nat)
    ensures
        forall|i: int| 0 <= i < procs.len() && generations(procs, root, k)[i] ==> generations(procs, root, k + 1)[i],
    decreases k,
{
    if k == 0 {
        lemma_grow_mono(procs, root, Seq::new(procs.len(), |i: int| false), generations(procs, root, 0));
    } else {
        lemma_generations_step(procs, root, (k - 1) as nat);
        lemma_grow_mono(procs, root, generations(procs, root, (k - 1) as nat), generations(procs, root, k));
    }
}

proof fn lemma_generations_mono(procs: Seq<ProcInfo>, root: u32, i: int, k: nat, m: nat)
    requires
        0 <= i < procs.len(),
        generations(procs, root, k)[i],
        m >= k,
    ensures
        generations(procs, root, m)[i],
    decreases m - k,
{
    if m > k {
        lemma_generations_mono(procs, root, i, k, (m - 1) as nat);
        lemma_generations_step(procs, root, (m - 1) as nat);
    }
}

proof fn lemma_generations_stable(procs: Seq<ProcInfo>, root: u32, k: nat, m: nat)
    requires
        generations(procs, root, k + 1) == generations(procs, root, k),
        m >= k,
    ensures
        generations(procs, root, m) == generations(procs, root, k),
    decreases m - k,
{
    if m > k {
        lemma_generations_stable(procs, root, k, (m - 1) as nat);
        assert(generations(procs, root, m) == grow(procs, root, generations(procs, root, (m - 1) as nat)));
    }
}

/// Whether some process marked in `seen` has pid `p`.
fn seen_has(procs: &Vec<ProcInfo>, seen: &Vec<bool>, p: u32) -> (r: bool)
    requires
        seen@.len() == procs@.len(),
    ensures
        r == exists|j: int| 0 <= j < procs@.len() && seen@[j] && procs@[j].pid == p,
{
    let mut j: usize = 0;
    while j < procs.len()
        invariant
            seen@.len() == procs@.len(),
            j <= procs@.len(),
            forall|k: int| 0 <= k < j ==> !(seen@[k] && procs@[k].pid == p),
        decreases procs.len() - j,
    {
        if seen[j] && procs[j].pid == p {
            return true;
        }
        j = j + 1;
    }
    false
}

/// The live descendants of process `root` in a process table: their pids,
/// in table order, and their memory in all, held at the largest `u64`.
pub fn child_tree(procs: &Vec<ProcInfo>, root: u32) -> (r: (Vec<u32>, u64))
    ensures
        r.0@ == tree_pids(procs@, root, procs@.len() as int),
        r.1 == clamp(tree_memory(procs@, root, procs@.len() as int)),
{
    let n = procs.len();
    let mut seen: Vec<bool> = Vec::new();
    let mut i: usize = 0;
    while i < n
        invariant
            n == procs@.len(),
            i <= n,
            seen@.len() == i,
            forall|k: int| 0 <= k < i ==> seen@[k] == generations(procs@, root, 0)[k],
        decreases n - i,
    {
        let p = procs[i];
        seen.push(p.live && p.parent == Some(root));
        i = i + 1;
        assert(generations(procs@, root, 0)[i - 1] == (p.live && p.parent == Some(root)));
    }
    let ghost mut level: nat = 0;
    loop
        invariant
            n == procs@.len(),
            seen@.len() == n,
            forall|k: int| 0 <= k < n ==> seen@[k] == generations(procs@, root, level)[k],
        decreases falses(seen@),
    {
        let mut next: Vec<bool> = Vec::new();
        let mut changed = false;
        let mut i: usize = 0;
        while i < n
            invariant
                n == procs@.len(),
                seen@.len() == n,
                forall|k: int| 0 <= k < n ==> seen@[k] == generations(procs@, root, level)[k],
                i <= n,
                next@.len() == i,
                forall|k: int| 0 <= k < i ==> next@[k] == generations(procs@, root, level + 1)[k],
                changed == exists|k: int| 0 <= k < i && next@[k] != seen@[k],
            decreases n - i,
        {
            let p = procs[i];
            let hit = p.live && match p.parent {
                Some(q) => q == root || seen_has(procs, &seen, q),
                None => false,
            };
            proof {
                lemma_generations_len(procs@, root, level);
                assert(seen@ =~= generations(procs@, root, level));
                assert(generations(procs@, root, level + 1) == grow(procs@, root, generations(procs@, root, level)));
            }
            if hit != seen[i] {
                changed = true;
            }
            next.push(hit);
            i = i + 1;
        }
        proof {
            lemma_generations_step(procs@, root, level);
            lemma_falses_shrink(seen@, next@);
        }
        if !changed {
            proof {
                assert(next@ =~= seen@);
                lemma_generations_len(procs@, root, level);
                lemma_generations_len(procs@, root, level + 1);
                assert forall|k: int| 0 <= k < n implies generations(procs@, root, level + 1)[k] == generations(procs@, root, level)[k] by {
                    assert(next@[k] == seen@[k]);
                }
                assert(generations(procs@, root, level + 1) =~= generations(procs@, root, level));
                assert forall|k: int| 0 <= k < n implies #[trigger] descendant(procs@, root, k) == seen@[k] by {
                    if descendant(procs@, root, k) {
                        let m = choose|m: nat| #[trigger] generations(procs@, root, m)[k];
                        if m >= level {
                            lemma_generations_stable(procs@, root, level, m);
                        } else {
                            lemma_generations_mono(procs@, root, k, m, level);
                        }
                    }
                    if seen@[k] {
                        assert(generations(procs@, root, level)[k]);
                    }
                }
            }
            let mut pids: Vec<u32> = Vec::new();
            let mut total: u64 = 0;
            let mut i: usize = 0;
            while i < n
                invariant
                    n == procs@.len(),
                    seen@.len() == n,
                    forall|k: int| 0 <= k < n ==> #[trigger] descendant(procs@, root, k) == seen@[k],
                    i <= n,
                    pids@ == tree_pids(procs@, root, i as int),
                    total == clamp(tree_memory(procs@, root, i as int)),
                decreases n - i,
            {
                if seen[i] {
                    pids.push(procs[i].pid);
                    total = total.saturating_add(procs[i].memory);
                }
                i = i + 1;
            }
            return (pids, total);
        }
        seen = next;
        proof {
            level = level + 1;
        }
    }
}

} // verus!
