//! Project configuration and dependency-ordered startup.
//!
//! A configuration declares a set of [`ProcessDef`]s, an optional session
//! name and proxy settings. [`ProjectConfig::startup_order`] sorts the
//! processes into groups by their `depends_on` edges: a process starts in
//! the first group after all of its dependencies have started, and the
//! processes of one group are independent of each other.

use vstd::prelude::*;
use crate::error::ConfigError;
use crate::text::{insert_sorted, strictly_sorted};

verus! {

broadcast use vstd::string::group_string_axioms;

/// The session used when neither the command line nor the configuration
/// names one.
pub const DEFAULT_SESSION: &'static str = "default";

/// One process of a configuration.
pub struct ProcessDef {
    pub cmd: String,
    pub cwd: Option<String>,
    pub env: Vec<(String, String)>,
    pub ready: Option<String>,
    pub depends_on: Vec<String>,
    pub port: Option<u16>,
    pub autorestart: Option<String>,
    pub max_restarts: Option<u32>,
    pub restart_delay: Option<u64>,
    pub watch: Option<Vec<String>>,
    pub watch_ignore: Option<Vec<String>>,
}

/// A project configuration: its processes, keyed by name.
pub struct ProjectConfig {
    pub session: Option<String>,
    pub processes: Vec<(String, ProcessDef)>,
    pub proxy: Option<bool>,
    pub proxy_port: Option<u16>,
}

/// The name of the `i`-th process.
pub open spec fn proc_name(c: &ProjectConfig, i: int) -> Seq<char> {
    c.processes@[i].0@
}

/// The names that the `i`-th process depends on.
pub open spec fn proc_deps(c: &ProjectConfig, i: int) -> Seq<Seq<char>> {
    c.processes@[i].1.depends_on.deep_view()
}

/// Whether `s` names a process of the configuration.
pub open spec fn is_process(c: &ProjectConfig, s: Seq<char>) -> bool {
    exists|i: int| 0 <= i < c.processes@.len() && proc_name(c, i) == s
}

/// No two processes share a name (the configuration is a map by name).
pub open spec fn names_distinct(c: &ProjectConfig) -> bool {
    forall|i: int, j: int|
        0 <= i < c.processes@.len() && 0 <= j < c.processes@.len() && i != j ==> proc_name(c, i)
            != proc_name(c, j)
}

/// Some process depends on a name that is not a process.
pub open spec fn has_unknown_dep(c: &ProjectConfig) -> bool {
    exists|i: int, j: int|
        0 <= i < c.processes@.len() && 0 <= j < proc_deps(c, i).len() && !is_process(
            c,
            #[trigger] proc_deps(c, i)[j],
        )
}

/// `s` stands in one of the first `k` groups.
pub open spec fn in_groups_before(groups: Seq<Seq<Seq<char>>>, k: int, s: Seq<char>) -> bool {
    exists|g: int| 0 <= g < k && #[trigger] groups[g].contains(s)
}

/// The `i`-th process is not in the first `k` groups, and all of its
/// dependencies are.
pub open spec fn ready_at(c: &ProjectConfig, groups: Seq<Seq<Seq<char>>>, k: int, i: int) -> bool {
    &&& !in_groups_before(groups, k, proc_name(c, i))
    &&& forall|j: int|
        0 <= j < proc_deps(c, i).len() ==> in_groups_before(
            groups,
            k,
            #[trigger] proc_deps(c, i)[j],
        )
}

/// The first `n` groups of the startup order: group `k` holds, in
/// ascending order, exactly the processes that are not in an earlier
/// group and whose dependencies all are.
pub open spec fn is_startup_prefix(c: &ProjectConfig, groups: Seq<Seq<Seq<char>>>) -> bool {
    &&& forall|k: int|
        0 <= k < groups.len() ==> #[trigger] groups[k].len() > 0 && strictly_sorted(groups[k])
    &&& forall|k: int, s: Seq<char>|
        0 <= k < groups.len() && #[trigger] groups[k].contains(s) ==> is_process(c, s)
    &&& forall|k: int, i: int|
        0 <= k < groups.len() && 0 <= i < c.processes@.len() ==> (#[trigger] groups[k].contains(
            proc_name(c, i),
        ) <==> #[trigger] ready_at(c, groups, k, i))
}

/// The complete startup order: a startup prefix that places every process.
pub open spec fn is_startup_order(c: &ProjectConfig, groups: Seq<Seq<Seq<char>>>) -> bool {
    &&& is_startup_prefix(c, groups)
    &&& forall|i: int|
        0 <= i < c.processes@.len() ==> in_groups_before(
            groups,
            groups.len() as int,
            #[trigger] proc_name(c, i),
        )
}

/// What a startup order promises: every name stands in exactly one
/// group, there are groups exactly when there are processes, and each
/// process starts as early as its dependencies let it: in the first
/// group when it has none, else in the group right after the latest
/// group of its dependencies.
pub proof fn lemma_startup_order_laws(c: &ProjectConfig, groups: Seq<Seq<Seq<char>>>)
    requires
        is_startup_order(c, groups),
    ensures
        forall|g1: int, g2: int, s: Seq<char>|
            0 <= g1 < groups.len() && 0 <= g2 < groups.len() && #[trigger] groups[g1].contains(s)
                && #[trigger] groups[g2].contains(s) ==> g1 == g2,
        groups.len() == 0 <==> c.processes@.len() == 0,
        forall|i: int, g: int|
            0 <= i < c.processes@.len() && 0 <= g < groups.len() && #[trigger] groups[g].contains(
                #[trigger] proc_name(c, i),
            ) ==> {
                &&& (g == 0 <==> proc_deps(c, i).len() == 0)
                &&& forall|j: int|
                    0 <= j < proc_deps(c, i).len() ==> in_groups_before(groups, g, #[trigger] proc_deps(c, i)[j])
                &&& g > 0 ==> exists|j: int|
                    0 <= j < proc_deps(c, i).len() && groups[g - 1].contains(#[trigger] proc_deps(c, i)[j])
            },
{
    assert forall|g1: int, g2: int, s: Seq<char>|
        0 <= g1 < groups.len() && 0 <= g2 < groups.len() && #[trigger] groups[g1].contains(s)
            && #[trigger] groups[g2].contains(s) implies g1 == g2 by {
        let i = choose|i: int| 0 <= i < c.processes@.len() && proc_name(c, i) == s;
        assert(ready_at(c, groups, g1, i));
        assert(ready_at(c, groups, g2, i));
        if g1 < g2 {
            assert(in_groups_before(groups, g2, s));
        } else if g2 < g1 {
            assert(in_groups_before(groups, g1, s));
        }
    }
    if c.processes@.len() == 0 && groups.len() > 0 {
        let s = groups[0][0];
        assert(groups[0].contains(s));
    }
    if groups.len() == 0 && c.processes@.len() > 0 {
        assert(in_groups_before(groups, 0, proc_name(c, 0)));
    }
    assert forall|i: int, g: int|
        0 <= i < c.processes@.len() && 0 <= g < groups.len() && #[trigger] groups[g].contains(
            #[trigger] proc_name(c, i),
        ) implies {
            &&& (g == 0 <==> proc_deps(c, i).len() == 0)
            &&& forall|j: int|
                0 <= j < proc_deps(c, i).len() ==> in_groups_before(groups, g, #[trigger] proc_deps(c, i)[j])
            &&& g > 0 ==> exists|j: int|
                0 <= j < proc_deps(c, i).len() && groups[g - 1].contains(#[trigger] proc_deps(c, i)[j])
        } by {
        let n = proc_name(c, i);
        assert(ready_at(c, groups, g, i));
        if proc_deps(c, i).len() == 0 {
            assert(ready_at(c, groups, 0, i));
            assert(groups[0].contains(n));
        }
        if g == 0 && proc_deps(c, i).len() > 0 {
            assert(in_groups_before(groups, 0, proc_deps(c, i)[0]));
        }
        if g > 0 {
            // the process is in no group before `g`, nor in group `g - 1`
            assert(!in_groups_before(groups, g - 1, n)) by {
                if in_groups_before(groups, g - 1, n) {
                    let h = choose|h: int| 0 <= h < g - 1 && #[trigger] groups[h].contains(n);
                    assert(in_groups_before(groups, g, n));
                }
            }
            if groups[g - 1].contains(n) {
                assert(in_groups_before(groups, g, n));
            }
            assert(!ready_at(c, groups, g - 1, i));
            let j = choose|j: int|
                0 <= j < proc_deps(c, i).len() && !in_groups_before(groups, g - 1, #[trigger] proc_deps(c, i)[j]);
            let d = proc_deps(c, i)[j];
            assert(in_groups_before(groups, g, d));
            let h = choose|h: int| 0 <= h < g && #[trigger] groups[h].contains(d);
            if h < g - 1 {
                assert(in_groups_before(groups, g - 1, d));
            }
            assert(groups[g - 1].contains(d));
        }
    }
}

/// A nonempty set of processes each of which depends on a process of the
/// set: the processes of a dependency cycle and those that wait on it.
pub open spec fn is_blocked_set(c: &ProjectConfig, s: Set<int>) -> bool {
    &&& exists|i: int| s.contains(i)
    &&& forall|i: int| s.contains(i) ==> 0 <= i < c.processes@.len()
    &&& forall|i: int|
        #[trigger] s.contains(i) ==> exists|j: int, k: int|
            0 <= j < proc_deps(c, i).len() && #[trigger] s.contains(k) && proc_name(c, k) == #[trigger] proc_deps(
                c,
                i,
            )[j]
}

/// The dependency graph has a cycle.
pub open spec fn has_dependency_cycle(c: &ProjectConfig) -> bool {
    exists|s: Set<int>| is_blocked_set(c, s)
}

/// Number of `true` entries.
pub open spec fn count_true(s: Seq<bool>) -> nat
    decreases s.len(),
{
    if s.len() == 0 {
        0
    } else {
        count_true(s.drop_last()) + if s.last() {
            1nat
        } else {
            0nat
        }
    }
}

proof fn lemma_count_true_bound(s: Seq<bool>)
    ensures
        count_true(s) <= s.len(),
        count_true(s) == s.len() ==> forall|i: int| 0 <= i < s.len() ==> s[i],
    decreases s.len(),
{
    if s.len() > 0 {
        lemma_count_true_bound(s.drop_last());
        if count_true(s) == s.len() {
            assert forall|i: int| 0 <= i < s.len() implies s[i] by {
                if i < s.len() - 1 {
                    assert(s.drop_last()[i] == s[i]);
                }
            }
        }
    }
}

proof fn lemma_count_true_set(s: Seq<bool>, i: int)
    requires
        0 <= i < s.len(),
        !s[i],
    ensures
        count_true(s.update(i, true)) == count_true(s) + 1,
    decreases s.len(),
{
    if i < s.len() - 1 {
        assert(s.update(i, true).drop_last() =~= s.drop_last().update(i, true));
        lemma_count_true_set(s.drop_last(), i);
    } else {
        assert(s.update(i, true).drop_last() =~= s.drop_last());
    }
}

/// The processes that a startup order places no later than group `k`
/// all come after their dependencies: no blocked set exists.
pub proof fn lemma_startup_order_has_no_cycle(c: &ProjectConfig, groups: Seq<Seq<Seq<char>>>)
    requires
        names_distinct(c),
        is_startup_order(c, groups),
    ensures
        !has_dependency_cycle(c),
{
    assert forall|s: Set<int>| !is_blocked_set(c, s) by {
        if is_blocked_set(c, s) {
            // the member of `s` placed in the earliest group
            let i0 = choose|i: int| s.contains(i);
            let g0 = choose|g: int|
                0 <= g < groups.len() && #[trigger] groups[g].contains(proc_name(c, i0));
            lemma_min_group(c, groups, s, g0, i0);
        }
    }
}

/// A set with a member placed in group `g` is not blocked: descending
/// through dependencies inside the set would reach earlier and earlier
/// groups.
proof fn lemma_min_group(
    c: &ProjectConfig,
    groups: Seq<Seq<Seq<char>>>,
    s: Set<int>,
    g: int,
    i: int,
)
    requires
        names_distinct(c),
        is_startup_order(c, groups),
        s.contains(i),
        0 <= i < c.processes@.len(),
        0 <= g < groups.len(),
        groups[g].contains(proc_name(c, i)),
    ensures
        !is_blocked_set(c, s),
    decreases g,
{
    if !is_blocked_set(c, s) {
        return;
    }
    assert(ready_at(c, groups, g, i));
    let (j, k) = choose|j: int, k: int|
        0 <= j < proc_deps(c, i).len() && #[trigger] s.contains(k) && proc_name(c, k) == #[trigger] proc_deps(
            c,
            i,
        )[j];
    assert(in_groups_before(groups, g, proc_deps(c, i)[j]));
    let g2 = choose|g2: int| 0 <= g2 < g && #[trigger] groups[g2].contains(proc_deps(c, i)[j]);
    lemma_min_group(c, groups, s, g2, k);
}

/// Index of the process named `name`, if any.
fn find_process(c: &ProjectConfig, name: &String) -> (r: Option<usize>)
    ensures
        match r {
            Some(k) => k < c.processes@.len() && proc_name(c, k as int) == name@,
            None => !is_process(c, name@),
        },
{
    let mut k: usize = 0;
    while k < c.processes.len()
        invariant
            k <= c.processes@.len(),
            forall|m: int| 0 <= m < k ==> proc_name(c, m) != name@,
        decreases c.processes.len() - k,
    {
        if c.processes[k].0 == *name {
            return Some(k);
        }
        k = k + 1;
    }
    None
}

/// `idx` resolves the dependencies of the `a`-th process: its `j`-th entry
/// is the index of the process that the `j`-th dependency names.
pub open spec fn resolves(c: &ProjectConfig, idx: Seq<usize>, a: int) -> bool {
    &&& idx.len() == proc_deps(c, a).len()
    &&& forall|j: int|
        0 <= j < idx.len() ==> #[trigger] idx[j] < c.processes@.len() && proc_name(
            c,
            idx[j] as int,
        ) == proc_deps(c, a)[j]
}

/// `placed` marks exactly the processes that stand in the first `k`
/// groups.
pub open spec fn marks_placed(
    c: &ProjectConfig,
    placed: Seq<bool>,
    gv: Seq<Seq<Seq<char>>>,
    k: int,
) -> bool {
    &&& placed.len() == c.processes@.len()
    &&& forall|b: int|
        0 <= b < placed.len() ==> (#[trigger] placed[b] <==> in_groups_before(
            gv,
            k,
            proc_name(c, b),
        ))
}

/// Indices of the processes that the dependencies of the `a`-th process
/// name, or the first dependency that names no process.
fn resolve_deps(c: &ProjectConfig, a: usize) -> (r: Result<Vec<usize>, usize>)
    requires
        a < c.processes@.len(),
    ensures
        match r {
            Ok(row) => resolves(c, row@, a as int),
            Err(j) => j < proc_deps(c, a as int).len() && !is_process(
                c,
                proc_deps(c, a as int)[j as int],
            ),
        },
{
    let deps = &c.processes[a].1.depends_on;
    let mut row: Vec<usize> = Vec::new();
    let mut j: usize = 0;
    while j < deps.len()
        invariant
            a < c.processes@.len(),
            deps == &c.processes@[a as int].1.depends_on,
            j <= deps@.len(),
            row@.len() == j,
            forall|b: int|
                0 <= b < j ==> #[trigger] row@[b] < c.processes@.len() && proc_name(
                    c,
                    row@[b] as int,
                ) == proc_deps(c, a as int)[b],
        decreases deps.len() - j,
    {
        match find_process(c, &deps[j]) {
            Some(k) => {
                row.push(k);
            },
            None => {
                return Err(j);
            },
        }
        j = j + 1;
    }
    Ok(row)
}

/// Whether all the processes of `row` are marked in `placed`.
fn all_marked(row: &Vec<usize>, placed: &Vec<bool>) -> (r: bool)
    requires
        forall|j: int| 0 <= j < row@.len() ==> #[trigger] row@[j] < placed@.len(),
    ensures
        r == forall|j: int| 0 <= j < row@.len() ==> placed@[#[trigger] row@[j] as int],
{
    let mut j: usize = 0;
    while j < row.len()
        invariant
            j <= row@.len(),
            forall|jj: int| 0 <= jj < row@.len() ==> #[trigger] row@[jj] < placed@.len(),
            forall|jj: int| 0 <= jj < j ==> placed@[#[trigger] row@[jj] as int],
        decreases row.len() - j,
    {
        if !placed[row[j]] {
            return false;
        }
        j = j + 1;
    }
    true
}

/// The processes ready after the first `k` groups: all of them, in
/// ascending order; each one is marked in `placed`.
fn next_group(
    c: &ProjectConfig,
    dep_idx: &Vec<Vec<usize>>,
    placed: &mut Vec<bool>,
    Ghost(gv): Ghost<Seq<Seq<Seq<char>>>>,
) -> (ready: Vec<String>)
    requires
        names_distinct(c),
        dep_idx@.len() == c.processes@.len(),
        forall|a: int| 0 <= a < c.processes@.len() ==> resolves(c, #[trigger] dep_idx@[a]@, a),
        marks_placed(c, old(placed)@, gv, gv.len() as int),
    ensures
        strictly_sorted(ready.deep_view()),
        forall|s: Seq<char>| #[trigger]
            ready.deep_view().contains(s) <==> exists|b: int|
                0 <= b < c.processes@.len() && ready_at(c, gv, gv.len() as int, b) && proc_name(
                    c,
                    b,
                ) == s,
        final(placed)@.len() == c.processes@.len(),
        forall|b: int|
            0 <= b < c.processes@.len() ==> (#[trigger] final(placed)@[b] <==> (old(placed)@[b]
                || ready_at(c, gv, gv.len() as int, b))),
        count_true(final(placed)@) == count_true(old(placed)@) + ready.deep_view().len(),
{
    let n = c.processes.len();
    let ghost kk = gv.len() as int;
    let snapshot = placed.clone();
    let mut ready: Vec<String> = Vec::new();
    let mut a: usize = 0;
    while a < n
        invariant
            n == c.processes@.len(),
            names_distinct(c),
            dep_idx@.len() == n,
            forall|b: int| 0 <= b < n ==> resolves(c, #[trigger] dep_idx@[b]@, b),
            snapshot@ == old(placed)@,
            marks_placed(c, snapshot@, gv, kk),
            kk == gv.len(),
            placed@.len() == n,
            a <= n,
            strictly_sorted(ready.deep_view()),
            forall|s: Seq<char>| #[trigger]
                ready.deep_view().contains(s) <==> exists|b: int|
                    0 <= b < a && ready_at(c, gv, kk, b) && proc_name(c, b) == s,
            forall|b: int|
                0 <= b < n ==> (#[trigger] placed@[b] <==> (snapshot@[b] || (b < a && ready_at(
                    c,
                    gv,
                    kk,
                    b,
                )))),
            count_true(placed@) == count_true(snapshot@) + ready.deep_view().len(),
        decreases n - a,
    {
        let ghost av = a as int;
        let is_ready = !snapshot[a] && all_marked(&dep_idx[a], &snapshot);
        proof {
            let row = dep_idx@[av]@;
            assert(resolves(c, row, av));
            assert(snapshot@[av] <==> in_groups_before(gv, kk, proc_name(c, av)));
            if forall|j: int| 0 <= j < row.len() ==> snapshot@[#[trigger] row[j] as int] {
                assert forall|j: int| 0 <= j < proc_deps(c, av).len() implies in_groups_before(
                    gv,
                    kk,
                    #[trigger] proc_deps(c, av)[j],
                ) by {
                    assert(snapshot@[row[j] as int]);
                }
            }
            if forall|j: int|
                0 <= j < proc_deps(c, av).len() ==> in_groups_before(
                    gv,
                    kk,
                    #[trigger] proc_deps(c, av)[j],
                ) {
                assert forall|j: int| 0 <= j < row.len() implies snapshot@[#[trigger] row[j] as int] by {
                    assert(in_groups_before(gv, kk, proc_deps(c, av)[j]));
                }
            }
            assert(is_ready <==> ready_at(c, gv, kk, av));
        }
        if is_ready {
            proof {
                assert(!ready.deep_view().contains(proc_name(c, av))) by {
                    if ready.deep_view().contains(proc_name(c, av)) {
                        let b = choose|b: int|
                            0 <= b < a && ready_at(c, gv, kk, b) && proc_name(c, b) == proc_name(
                                c,
                                av,
                            );
                    }
                }
                assert(!placed@[av]);
                lemma_count_true_set(placed@, av);
            }
            let ghost old_ready = ready.deep_view();
            insert_sorted(&mut ready, c.processes[a].0.clone());
            placed.set(a, true);
            proof {
                assert forall|s: Seq<char>| #[trigger]
                    ready.deep_view().contains(s) <==> exists|b: int|
                        0 <= b < a + 1 && ready_at(c, gv, kk, b) && proc_name(c, b) == s by {
                    if ready.deep_view().contains(s) && s != proc_name(c, av) {
                        assert(old_ready.contains(s));
                    }
                    if exists|b: int| 0 <= b < a + 1 && ready_at(c, gv, kk, b) && proc_name(c, b) == s {
                        let b = choose|b: int|
                            0 <= b < a + 1 && ready_at(c, gv, kk, b) && proc_name(c, b) == s;
                        if b < a {
                            assert(old_ready.contains(s));
                        }
                    }
                }
            }
        } else {
            proof {
                assert forall|s: Seq<char>| #[trigger]
                    ready.deep_view().contains(s) <==> exists|b: int|
                        0 <= b < a + 1 && ready_at(c, gv, kk, b) && proc_name(c, b) == s by {
                    if exists|b: int| 0 <= b < a + 1 && ready_at(c, gv, kk, b) && proc_name(c, b) == s {
                        let b = choose|b: int|
                            0 <= b < a + 1 && ready_at(c, gv, kk, b) && proc_name(c, b) == s;
                        assert(b < a);
                    }
                }
            }
        }
        a = a + 1;
    }
    ready
}

impl ProjectConfig {
    /// Computes the startup order by topologically sorting processes.
    ///
    /// Returns groups of process names; processes within a group are
    /// independent and can start concurrently. Fails with `UnknownDep` when
    /// a process depends on a name that is not a process, and otherwise
    /// with `CycleDetected` exactly when the dependencies form a cycle.
    pub fn startup_order(&self) -> (r: Result<Vec<Vec<String>>, ConfigError>)
        requires
            names_distinct(self),
        ensures
            match r {
                Ok(groups) => !has_unknown_dep(self) && is_startup_order(self, groups.deep_view()),
                Err(ConfigError::UnknownDep { from, to }) => exists|i: int, j: int|
                    0 <= i < self.processes@.len() && 0 <= j < proc_deps(self, i).len()
                        && proc_name(self, i) == from@ && proc_deps(self, i)[j] == to@
                        && !is_process(self, to@),
                Err(ConfigError::CycleDetected) => !has_unknown_dep(self) && has_dependency_cycle(
                    self,
                ),
                Err(_) => false,
            },
            (r matches Err(ConfigError::UnknownDep { .. })) <==> has_unknown_dep(self),
    {
        let n = self.processes.len();
        // Resolve every dependency to the index of the process it names.
        let mut dep_idx: Vec<Vec<usize>> = Vec::new();
        let mut i: usize = 0;
        while i < n
            invariant
                n == self.processes@.len(),
                i <= n,
                dep_idx@.len() == i,
                forall|a: int| 0 <= a < i ==> resolves(self, #[trigger] dep_idx@[a]@, a),
            decreases n - i,
        {
            match resolve_deps(self, i) {
                Ok(row) => {
                    dep_idx.push(row);
                },
                Err(j) => {
                    let ghost ii = i as int;
                    let ghost jj = j as int;
                    assert(proc_deps(self, ii)[jj] == self.processes@[ii].1.depends_on@[jj]@);
                    assert(has_unknown_dep(self));
                    return Err(
                        ConfigError::UnknownDep {
                            from: self.processes[i].0.clone(),
                            to: self.processes[i].1.depends_on[j].clone(),
                        },
                    );
                },
            }
            i = i + 1;
        }
        assert(!has_unknown_dep(self)) by {
            assert forall|a: int, j: int|
                0 <= a < n && 0 <= j < proc_deps(self, a).len() implies is_process(
                self,
                #[trigger] proc_deps(self, a)[j],
            ) by {
                assert(resolves(self, dep_idx@[a]@, a));
                assert(dep_idx@[a]@[j] < n);
            }
        }
        // Place processes round by round: a round takes every unplaced
        // process whose dependencies were all placed in earlier rounds.
        let mut placed: Vec<bool> = Vec::new();
        let mut m: usize = 0;
        while m < n
            invariant
                m <= n,
                placed@.len() == m,
                forall|a: int| 0 <= a < m ==> !placed@[a],
            decreases n - m,
        {
            placed.push(false);
            m = m + 1;
        }
        let mut groups: Vec<Vec<String>> = Vec::new();
        let ghost mut placed_count: nat = 0;
        proof {
            lemma_count_all_false(placed@);
            assert(marks_placed(self, placed@, groups.deep_view(), 0));
        }
        loop
            invariant
                n == self.processes@.len(),
                names_distinct(self),
                !has_unknown_dep(self),
                dep_idx@.len() == n,
                forall|a: int| 0 <= a < n ==> resolves(self, #[trigger] dep_idx@[a]@, a),
                is_startup_prefix(self, groups.deep_view()),
                marks_placed(self, placed@, groups.deep_view(), groups.deep_view().len() as int),
                placed_count == count_true(placed@),
            decreases n - placed_count,
        {
            let ghost gv = groups.deep_view();
            let ghost kk = gv.len() as int;
            let ghost before = placed@;
            proof {
                lemma_count_true_bound(placed@);
            }
            let ready = next_group(self, &dep_idx, &mut placed, Ghost(gv));
            if ready.len() == 0 {
                proof {
                    assert(placed@ =~= before) by {
                        assert forall|b: int| 0 <= b < n implies placed@[b] == before[b] by {
                            if placed@[b] && !before[b] {
                                assert(ready.deep_view().contains(proc_name(self, b)));
                            }
                        }
                    }
                }
                if all_true(&placed) {
                    proof {
                        assert forall|b: int| 0 <= b < n implies in_groups_before(
                            gv,
                            kk,
                            #[trigger] proc_name(self, b),
                        ) by {
                            assert(placed@[b]);
                        }
                    }
                    return Ok(groups);
                } else {
                    proof {
                        assert forall|b: int| 0 <= b < n implies !ready_at(self, gv, kk, b) by {
                            if ready_at(self, gv, kk, b) {
                                assert(ready.deep_view().contains(proc_name(self, b)));
                            }
                        }
                        lemma_blocked_rest(self, &dep_idx, placed@, gv);
                    }
                    return Err(ConfigError::CycleDetected);
                }
            }
            let ghost rv = ready.deep_view();
            groups.push(ready);
            proof {
                let nv = groups.deep_view();
                assert(nv =~= gv.push(rv));
                lemma_push_group(self, gv, rv);
                assert forall|b: int| 0 <= b < n implies (#[trigger] placed@[b] <==> in_groups_before(
                    nv,
                    nv.len() as int,
                    proc_name(self, b),
                )) by {
                    lemma_in_groups_push(gv, rv, proc_name(self, b));
                    if rv.contains(proc_name(self, b)) {
                        let b2 = choose|b2: int|
                            0 <= b2 < n && ready_at(self, gv, kk, b2) && proc_name(self, b2)
                                == proc_name(self, b);
                        assert(b2 == b);
                    }
                }
                lemma_count_true_bound(placed@);
                placed_count = placed_count + rv.len();
            }
        }
    }
}

/// When no process is ready and some are unplaced, the unplaced ones form
/// a blocked set.
proof fn lemma_blocked_rest(
    c: &ProjectConfig,
    dep_idx: &Vec<Vec<usize>>,
    placed: Seq<bool>,
    gv: Seq<Seq<Seq<char>>>,
)
    requires
        dep_idx@.len() == c.processes@.len(),
        forall|a: int| 0 <= a < c.processes@.len() ==> resolves(c, #[trigger] dep_idx@[a]@, a),
        marks_placed(c, placed, gv, gv.len() as int),
        forall|b: int| 0 <= b < c.processes@.len() ==> !ready_at(c, gv, gv.len() as int, b),
        exists|b: int| 0 <= b < placed.len() && !placed[b],
    ensures
        has_dependency_cycle(c),
{
    let n = c.processes@.len();
    let kk = gv.len() as int;
    let s = Set::new(|b: int| 0 <= b < n && !placed[b]);
    let w = choose|b: int| 0 <= b < placed.len() && !placed[b];
    assert(s.contains(w));
    assert forall|b: int| #[trigger] s.contains(b) implies exists|j: int, k: int|
        0 <= j < proc_deps(c, b).len() && #[trigger] s.contains(k) && proc_name(c, k)
            == #[trigger] proc_deps(c, b)[j] by {
        assert(!ready_at(c, gv, kk, b));
        assert(!in_groups_before(gv, kk, proc_name(c, b)));
        let j = choose|j: int|
            0 <= j < proc_deps(c, b).len() && !in_groups_before(
                gv,
                kk,
                #[trigger] proc_deps(c, b)[j],
            );
        assert(resolves(c, dep_idx@[b]@, b));
        let k = dep_idx@[b]@[j] as int;
        assert(proc_name(c, k) == proc_deps(c, b)[j]);
        assert(!placed[k]);
        assert(s.contains(k));
    }
    assert(is_blocked_set(c, s));
}

proof fn lemma_count_all_false(s: Seq<bool>)
    requires
        forall|i: int| 0 <= i < s.len() ==> !s[i],
    ensures
        count_true(s) == 0,
    decreases s.len(),
{
    if s.len() > 0 {
        lemma_count_all_false(s.drop_last());
    }
}

proof fn lemma_in_groups_push(gv: Seq<Seq<Seq<char>>>, rv: Seq<Seq<char>>, s: Seq<char>)
    ensures
        in_groups_before(gv.push(rv), (gv.len() + 1) as int, s) <==> (in_groups_before(
            gv,
            gv.len() as int,
            s,
        ) || rv.contains(s)),
        forall|k: int|
            0 <= k <= gv.len() ==> (in_groups_before(gv.push(rv), k, s) <==> in_groups_before(
                gv,
                k,
                s,
            )),
{
    let nv = gv.push(rv);
    if in_groups_before(nv, (gv.len() + 1) as int, s) {
        let g = choose|g: int| 0 <= g < gv.len() + 1 && #[trigger] nv[g].contains(s);
        if g < gv.len() {
            assert(gv[g].contains(s));
        }
    }
    if in_groups_before(gv, gv.len() as int, s) {
        let g = choose|g: int| 0 <= g < gv.len() && #[trigger] gv[g].contains(s);
        assert(nv[g].contains(s));
    }
    if rv.contains(s) {
        assert(nv[gv.len() as int].contains(s));
    }
    assert forall|k: int| 0 <= k <= gv.len() implies (in_groups_before(nv, k, s)
        <==> in_groups_before(gv, k, s)) by {
        if in_groups_before(nv, k, s) {
            let g = choose|g: int| 0 <= g < k && #[trigger] nv[g].contains(s);
            assert(gv[g].contains(s));
        }
        if in_groups_before(gv, k, s) {
            let g = choose|g: int| 0 <= g < k && #[trigger] gv[g].contains(s);
            assert(nv[g].contains(s));
        }
    }
}

proof fn lemma_push_group(c: &ProjectConfig, gv: Seq<Seq<Seq<char>>>, rv: Seq<Seq<char>>)
    requires
        is_startup_prefix(c, gv),
        rv.len() > 0,
        strictly_sorted(rv),
        forall|s: Seq<char>| #[trigger]
            rv.contains(s) <==> exists|b: int|
                0 <= b < c.processes@.len() && ready_at(c, gv, gv.len() as int, b) && proc_name(
                    c,
                    b,
                ) == s,
        names_distinct(c),
    ensures
        is_startup_prefix(c, gv.push(rv)),
{
    let nv = gv.push(rv);
    assert forall|k: int, i: int| 0 <= k < gv.len() && 0 <= i < c.processes@.len() implies (
    ready_at(c, nv, k, i) <==> ready_at(c, gv, k, i)) by {
        lemma_in_groups_push(gv, rv, proc_name(c, i));
        assert forall|j: int| 0 <= j < proc_deps(c, i).len() implies (in_groups_before(
            nv,
            k,
            #[trigger] proc_deps(c, i)[j],
        ) <==> in_groups_before(gv, k, proc_deps(c, i)[j])) by {
            lemma_in_groups_push(gv, rv, proc_deps(c, i)[j]);
        }
    }
    assert forall|i: int| 0 <= i < c.processes@.len() implies (ready_at(
        c,
        nv,
        gv.len() as int,
        i,
    ) <==> ready_at(c, gv, gv.len() as int, i)) by {
        lemma_in_groups_push(gv, rv, proc_name(c, i));
        assert forall|j: int| 0 <= j < proc_deps(c, i).len() implies (in_groups_before(
            nv,
            gv.len() as int,
            #[trigger] proc_deps(c, i)[j],
        ) <==> in_groups_before(gv, gv.len() as int, proc_deps(c, i)[j])) by {
            lemma_in_groups_push(gv, rv, proc_deps(c, i)[j]);
        }
    }
    assert forall|k: int, s: Seq<char>| 0 <= k < nv.len() && #[trigger] nv[k].contains(
        s,
    ) implies is_process(c, s) by {
        if k == gv.len() {
            let b = choose|b: int|
                0 <= b < c.processes@.len() && ready_at(c, gv, gv.len() as int, b) && proc_name(
                    c,
                    b,
                ) == s;
        } else {
            assert(gv[k].contains(s));
        }
    }
    assert forall|k: int, i: int| 0 <= k < nv.len() && 0 <= i < c.processes@.len() implies (
    #[trigger] nv[k].contains(proc_name(c, i)) <==> #[trigger] ready_at(c, nv, k, i)) by {
        if k == gv.len() {
            if rv.contains(proc_name(c, i)) {
                let b = choose|b: int|
                    0 <= b < c.processes@.len() && ready_at(c, gv, gv.len() as int, b) && proc_name(
                        c,
                        b,
                    ) == proc_name(c, i);
                assert(b == i);
            }
        } else {
            assert(nv[k] == gv[k]);
        }
    }
    assert forall|k: int| 0 <= k < nv.len() implies #[trigger] nv[k].len() > 0 && strictly_sorted(
        nv[k],
    ) by {
        if k < gv.len() {
            assert(nv[k] == gv[k]);
        }
    }
}

/// Whether every entry is `true`.
fn all_true(v: &Vec<bool>) -> (r: bool)
    ensures
        r == (forall|i: int| 0 <= i < v@.len() ==> v@[i]),
{
    let mut i: usize = 0;
    while i < v.len()
        invariant
            i <= v@.len(),
            forall|k: int| 0 <= k < i ==> v@[k],
        decreases v.len() - i,
    {
        if !v[i] {
            return false;
        }
        i = i + 1;
    }
    true
}

/// The session to use: the one given on the command line, else the one
/// the configuration names, else [`DEFAULT_SESSION`].
pub fn resolve_session<'a>(cli_session: Option<&'a str>, config_session: Option<&'a str>) -> (r:
    &'a str)
    ensures
        r@ == match cli_session {
            Some(s) => s@,
            None => match config_session {
                Some(s) => s@,
                None => DEFAULT_SESSION@,
            },
        },
{
    match cli_session {
        Some(s) => s,
        None => match config_session {
            Some(s) => s,
            None => DEFAULT_SESSION,
        },
    }
}

/// The name of a configuration file.
pub const CONFIG_FILE_NAME: &'static str = "agent-procs.yaml";

/// The directory above `dir`, as `PathBuf::pop` leaves it: everything
/// before the last `/` (the root for a top-level directory, the empty path
/// for a bare name); none for the root and the empty path.
pub open spec fn parent_of(dir: Seq<char>) -> Option<Seq<char>> {
    if dir.len() == 0 || dir == "/"@ {
        None
    } else {
        match crate::text::last_index_of(dir, '/') {
            None => Some(Seq::empty()),
            Some(i) => if i == 0 { Some("/"@) } else { Some(dir.subrange(0, i)) },
        }
    }
}

/// The parent of a directory.
pub fn parent_dir(dir: &str) -> (r: Option<String>)
    ensures
        match parent_of(dir@) {
            Some(p) => r matches Some(x) && x@ == p,
            None => r is None,
        },
{
    let cs = crate::text::chars_of(dir);
    if cs.len() == 0 || crate::text::str_eq(dir, "/") {
        return None;
    }
    proof {
        crate::text::lemma_last_index_of(dir@, '/');
        assert(cs@.subrange(0, cs@.len() as int) =~= cs@);
    }
    match crate::text::rfind_char(cs.as_slice(), cs.len(), '/') {
        None => Some(String::new()),
        Some(i) => {
            if i == 0 {
                Some("/".to_string())
            } else {
                Some(crate::text::substring(dir, 0, i))
            }
        },
    }
}

/// The `k`-th directory walked up from `start` (`start` itself for 0).
pub open spec fn ancestor(start: Seq<char>, k: nat) -> Option<Seq<char>>
    decreases k,
{
    if k == 0 {
        Some(start)
    } else {
        match ancestor(start, (k - 1) as nat) {
            Some(d) => parent_of(d),
            None => None,
        }
    }
}

/// `is_file` answered `answer` for some path whose text is `p`.
pub open spec fn is_file_answered<F: Fn(&str) -> bool>(is_file: F, p: Seq<char>, answer: bool) -> bool {
    exists|s: &str| s@ == p && #[trigger] is_file.ensures((s,), answer)
}

/// Once the walk up from `start` has ended, it stays ended.
pub proof fn lemma_ancestor_none_stays(start: Seq<char>, j: nat, k: nat)
    requires
        j <= k,
        ancestor(start, j) is None,
    ensures
        ancestor(start, k) is None,
    decreases k - j,
{
    if j < k {
        lemma_ancestor_none_stays(start, j, (k - 1) as nat);
    }
}

/// Each step up shortens the path.
proof fn lemma_parent_shorter(dir: Seq<char>)
    ensures
        parent_of(dir) matches Some(p) ==> p.len() < dir.len(),
{
    if dir.len() > 0 && dir != "/"@ {
        crate::text::lemma_last_index_of(dir, '/');
        if let Some(i) = crate::text::last_index_of(dir, '/') {
            if i == 0 {
                reveal_strlit("/");
                if dir.len() == 1 {
                    assert(dir =~= "/"@);
                }
            }
        }
    }
}

/// The `k`-th directory up from `start` is at most `start.len() - k`
/// long.
proof fn lemma_ancestor_len(start: Seq<char>, k: nat)
    ensures
        ancestor(start, k) matches Some(d) ==> d.len() + k <= start.len(),
    decreases k,
{
    if k > 0 {
        lemma_ancestor_len(start, (k - 1) as nat);
        if let Some(d) = ancestor(start, (k - 1) as nat) {
            lemma_parent_shorter(d);
        }
    }
}

/// The walk up from `start` ends within `start.len() + 1` steps (a
/// relative path at the empty path, an absolute one at the root), so a
/// search that may take that many steps walks every directory up.
pub proof fn lemma_walk_ends(start: Seq<char>, k: nat)
    requires
        k > start.len(),
    ensures
        ancestor(start, k) is None,
{
    let n = start.len();
    lemma_ancestor_len(start, n);
    if let Some(d) = ancestor(start, n) {
        assert(d.len() == 0);
    }
    assert(ancestor(start, (n + 1) as nat) is None);
    lemma_ancestor_none_stays(start, (n + 1) as nat, k);
}

/// Looks for a configuration file from `start` upwards: the first
/// directory (walking up with [`parent_dir`]) in which `is_file` finds an
/// `agent-procs.yaml` gives the result; `None` once the walk ends. The
/// walk stops after `max_depth` directories; allowed more steps than
/// `start` has characters, it walks every directory up to the top.
pub fn discover_config<F: Fn(&str) -> bool>(start: &str, is_file: F, max_depth: usize) -> (r: Option<String>)
    requires
        forall|p: &str| #[trigger] is_file.requires((p,)),
    ensures
        match r {
            Some(path) => exists|k: nat, d: Seq<char>| k < max_depth && ancestor(start@, k) == Some(d)
                && path@ == crate::paths::path_join(d, CONFIG_FILE_NAME@)
                && is_file_answered(is_file, path@, true)
                && (forall|j: nat| j < k ==> match #[trigger] ancestor(start@, j) {
                    Some(dj) => is_file_answered(is_file, crate::paths::path_join(dj, CONFIG_FILE_NAME@), false),
                    None => true,
                }),
            None => forall|j: nat| j < max_depth ==> match #[trigger] ancestor(start@, j) {
                Some(dj) => is_file_answered(is_file, crate::paths::path_join(dj, CONFIG_FILE_NAME@), false),
                None => true,
            },
        },
        r is None && max_depth > start@.len() ==> forall|j: nat| match #[trigger] ancestor(start@, j) {
            Some(dj) => is_file_answered(is_file, crate::paths::path_join(dj, CONFIG_FILE_NAME@), false),
            None => true,
        },
{
    let mut dir = start.to_string();
    let mut k: usize = 0;
    while k < max_depth
        invariant
            k <= max_depth,
            forall|p: &str| #[trigger] is_file.requires((p,)),
            ancestor(start@, k as nat) == Some(dir@),
            forall|j: nat| j < k ==> match #[trigger] ancestor(start@, j) {
                Some(dj) => is_file_answered(is_file, crate::paths::path_join(dj, CONFIG_FILE_NAME@), false),
                None => true,
            },
        decreases max_depth - k,
    {
        let candidate = crate::paths::join_path(dir.as_str(), CONFIG_FILE_NAME);
        let found = is_file(candidate.as_str());
        if found {
            assert(is_file_answered(is_file, candidate@, true));
            return Some(candidate);
        }
        assert(is_file_answered(is_file, candidate@, false));
        match parent_dir(dir.as_str()) {
            Some(p) => {
                dir = p;
            },
            None => {
                proof {
                    assert forall|j: nat| j < max_depth implies match #[trigger] ancestor(start@, j) {
                        Some(dj) => is_file_answered(is_file, crate::paths::path_join(dj, CONFIG_FILE_NAME@), false),
                        None => true,
                    } by {
                        if j > k {
                            lemma_ancestor_none_stays(start@, (k + 1) as nat, j);
                        }
                    }
                }
                proof {
                    lemma_walk_covers(start@, max_depth as nat);
                }
                return None;
            },
        }
        k = k + 1;
    }
    proof {
        lemma_walk_covers(start@, max_depth as nat);
    }
    None
}

/// Past `start.len()` steps there is no directory left, so what holds of
/// the first `max_depth` of them holds of all.
proof fn lemma_walk_covers(start: Seq<char>, max_depth: nat)
    ensures
        max_depth > start.len() ==> forall|j: nat| j >= max_depth ==> #[trigger] ancestor(start, j) is None,
{
    if max_depth > start.len() {
        assert forall|j: nat| j >= max_depth implies #[trigger] ancestor(start, j) is None by {
            lemma_walk_ends(start, j);
        }
    }
}

} // verus!
