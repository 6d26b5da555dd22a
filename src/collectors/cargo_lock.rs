//! The Cargo collector: resolves the packages that the workspace members depend on
//! at run time, directly or transitively, in a resolved workspace snapshot.
use crate::collectors::{dedup_seq, push_unique};
use crate::models::{identities, CollectorDependency, IdentityView, ProjectLanguage};
use vstd::prelude::*;

verus! {

/// The kind of a dependency edge.
#[derive(Debug, Clone, Copy, PartialEq, Eq, Structural)]
pub enum DependencyKind {
    Normal,
    Development,
    Build,
    Unknown,
}

/// One package of the resolved snapshot.
#[derive(Debug)]
pub struct ResolvedPackage {
    pub id: String,
    pub name: String,
    pub version: String,
}

/// An edge of the resolved graph: the id of the package depended on, and the kinds
/// of dependency that the edge stands for.
#[derive(Debug)]
pub struct NodeDependency {
    pub pkg: String,
    pub kinds: Vec<DependencyKind>,
}

/// A node of the resolved graph: a package id and its outgoing edges.
#[derive(Debug)]
pub struct ResolvedNode {
    pub id: String,
    pub deps: Vec<NodeDependency>,
}

/// A resolved workspace snapshot: every package of the resolved graph, the ids of the
/// workspace's own members, and the graph's nodes.
#[derive(Debug)]
pub struct WorkspaceMetadata {
    pub packages: Vec<ResolvedPackage>,
    pub workspace_members: Vec<String>,
    pub nodes: Vec<ResolvedNode>,
}

/// A dependency of this kind is needed at run time: normal ones always, development
/// ones only of a workspace member (cargo builds no other package's), build ones never.
pub open spec fn kind_counts(kind: DependencyKind, from_member: bool) -> bool {
    kind == DependencyKind::Normal || kind == DependencyKind::Unknown || (kind
        == DependencyKind::Development && from_member)
}

/// Some kind of the edge is needed at run time.
pub open spec fn edge_counts(dep: NodeDependency, from_member: bool) -> bool {
    exists|k: int| 0 <= k < dep.kinds.len() && kind_counts(#[trigger] dep.kinds[k], from_member)
}

/// Edge `d` of node `a` leads from package `i` to package `j` and is needed at run time.
pub open spec fn node_edge(m: WorkspaceMetadata, i: int, a: int, d: int, j: int) -> bool {
    &&& 0 <= i < m.packages.len()
    &&& 0 <= j < m.packages.len()
    &&& 0 <= a < m.nodes.len()
    &&& m.nodes[a].id@ == m.packages[i].id@
    &&& 0 <= d < m.nodes[a].deps.len()
    &&& m.nodes[a].deps[d].pkg@ == m.packages[j].id@
    &&& edge_counts(m.nodes[a].deps[d], is_member(m, i))
}

/// Package `i` depends on package `j` at run time, by an edge of the resolved graph.
pub open spec fn runtime_edge(m: WorkspaceMetadata, i: int, j: int) -> bool {
    exists|a: int, d: int| #[trigger] node_edge(m, i, a, d, j)
}

/// Package `i` is a member of the workspace.
pub open spec fn is_member(m: WorkspaceMetadata, i: int) -> bool {
    &&& 0 <= i < m.packages.len()
    &&& exists|w: int|
        0 <= w < m.workspace_members.len() && #[trigger] m.workspace_members[w]@
            == m.packages[i].id@
}

/// Package `j` is reached from a workspace member by a path of at most `k + 1`
/// run-time edges.
pub open spec fn reached_within(m: WorkspaceMetadata, k: nat, j: int) -> bool
    decreases k,
{
    if k == 0 {
        exists|i: int| is_member(m, i) && #[trigger] runtime_edge(m, i, j)
    } else {
        reached_within(m, (k - 1) as nat, j) || exists|i: int|
            reached_within(m, (k - 1) as nat, i) && #[trigger] runtime_edge(m, i, j)
    }
}

/// Package `j` is a run-time dependency of the workspace, direct or transitive.
pub open spec fn runtime_reachable(m: WorkspaceMetadata, j: int) -> bool {
    exists|k: nat| reached_within(m, k, j)
}

pub open spec fn package_identity(p: ResolvedPackage) -> IdentityView {
    (ProjectLanguage::Rust, p.name@, p.version@)
}

/// The identities of the run-time reachable packages among the first `n`, in order.
pub open spec fn reachable_prefix(m: WorkspaceMetadata, n: int) -> Seq<IdentityView>
    decreases n,
{
    if n <= 0 {
        Seq::empty()
    } else if runtime_reachable(m, n - 1) {
        reachable_prefix(m, n - 1).push(package_identity(m.packages[n - 1]))
    } else {
        reachable_prefix(m, n - 1)
    }
}

/// What the Cargo collector reports for a snapshot: each distinct identity of a
/// run-time reachable package, once, in package order.
pub open spec fn cargo_dependencies(m: WorkspaceMetadata) -> Seq<IdentityView> {
    dedup_seq(reachable_prefix(m, m.packages.len() as int))
}

fn edge_counts_exec(dep: &NodeDependency, from_member: bool) -> (r: bool)
    ensures
        r == edge_counts(*dep, from_member),
{
    let mut k: usize = 0;
    while k < dep.kinds.len()
        invariant
            k <= dep.kinds.len(),
            forall|q: int| 0 <= q < k ==> !kind_counts(#[trigger] dep.kinds[q], from_member),
        decreases dep.kinds.len() - k,
    {
        let kind = dep.kinds[k];
        if kind == DependencyKind::Normal || kind == DependencyKind::Unknown || (kind
            == DependencyKind::Development && from_member) {
            return true;
        }
        k += 1;
    }
    false
}

/// Appends the indices of the packages whose id is `id`.
fn push_packages_with_id(m: &WorkspaceMetadata, id: &String, out: &mut Vec<usize>)
    ensures
        final(out).len() >= old(out).len(),
        forall|k: int| 0 <= k < old(out).len() ==> final(out)[k] == old(out)[k],
        forall|k: int|
            old(out).len() <= k < final(out).len() ==> (#[trigger] final(out)[k]) < m.packages.len()
                && m.packages[final(out)[k] as int].id@ == id@,
        forall|j: int| 0 <= j < m.packages.len() && m.packages[j].id@ == id@ ==> final(out)@.contains(j as usize),
{
    let ghost start = out@;
    let mut j: usize = 0;
    while j < m.packages.len()
        invariant
            j <= m.packages.len(),
            out.len() >= start.len(),
            forall|k: int| 0 <= k < start.len() ==> out[k] == start[k],
            forall|k: int|
                start.len() <= k < out.len() ==> (#[trigger] out[k]) < m.packages.len()
                    && m.packages[out[k] as int].id@ == id@,
            forall|t: int| 0 <= t < j && m.packages[t].id@ == id@ ==> out@.contains(t as usize),
        decreases m.packages.len() - j,
    {
        let ghost before = out@;
        if m.packages[j].id == *id {
            out.push(j);
        }
        proof {
            assert forall|t: int| 0 <= t < j + 1 && m.packages[t].id@ == id@ implies out@.contains(t as usize) by {
                if t < j {
                    let k = choose|k: int| 0 <= k < before.len() && before[k] == t as usize;
                    assert(out@[k] == t as usize);
                } else {
                    assert(out@[out.len() - 1] == j);
                }
            }
        }
        j += 1;
    }
}

/// The indices of the packages that package `i` depends on at run time.
fn runtime_targets(m: &WorkspaceMetadata, i: usize) -> (r: Vec<usize>)
    requires
        i < m.packages.len(),
    ensures
        forall|k: int| 0 <= k < r.len() ==> runtime_edge(*m, i as int, #[trigger] r[k] as int),
        forall|j: int| runtime_edge(*m, i as int, j) ==> r@.contains(j as usize),
{
    let member = is_member_exec(m, i);
    let mut out: Vec<usize> = Vec::new();
    let mut a: usize = 0;
    while a < m.nodes.len()
        invariant
            a <= m.nodes.len(),
            i < m.packages.len(),
            member == is_member(*m, i as int),
            forall|k: int| 0 <= k < out.len() ==> runtime_edge(*m, i as int, #[trigger] out[k] as int),
            forall|a2: int, d: int, j: int|
                0 <= a2 < a && #[trigger] node_edge(*m, i as int, a2, d, j) ==> out@.contains(j as usize),
        decreases m.nodes.len() - a,
    {
        if m.nodes[a].id == m.packages[i].id {
            let node = &m.nodes[a];
            let mut d: usize = 0;
            while d < node.deps.len()
                invariant
                    d <= node.deps.len(),
                    a < m.nodes.len(),
                    i < m.packages.len(),
                    *node == m.nodes[a as int],
                    node.id@ == m.packages[i as int].id@,
                    member == is_member(*m, i as int),
                    forall|k: int| 0 <= k < out.len() ==> runtime_edge(*m, i as int, #[trigger] out[k] as int),
                    forall|a2: int, d2: int, j: int|
                        0 <= a2 < a && #[trigger] node_edge(*m, i as int, a2, d2, j) ==> out@.contains(j as usize),
                    forall|d2: int, j: int|
                        0 <= d2 < d && #[trigger] node_edge(*m, i as int, a as int, d2, j) ==> out@.contains(j as usize),
                decreases node.deps.len() - d,
            {
                if edge_counts_exec(&node.deps[d], member) {
                    let ghost before = out@;
                    push_packages_with_id(m, &node.deps[d].pkg, &mut out);
                    proof {
                        assert forall|k: int| 0 <= k < out.len() implies runtime_edge(*m, i as int, #[trigger] out[k] as int) by {
                            if k < before.len() {
                                assert(out[k] == before[k]);
                            } else {
                                assert(node_edge(*m, i as int, a as int, d as int, out[k] as int));
                            }
                        }
                        assert forall|a2: int, d2: int, j: int|
                            0 <= a2 < a && #[trigger] node_edge(*m, i as int, a2, d2, j) implies out@.contains(j as usize) by {
                            let k = choose|k: int| 0 <= k < before.len() && before[k] == j as usize;
                            assert(out@[k] == j as usize);
                        }
                        assert forall|d2: int, j: int|
                            0 <= d2 < d + 1 && #[trigger] node_edge(*m, i as int, a as int, d2, j) implies out@.contains(j as usize) by {
                            if d2 < d {
                                let k = choose|k: int| 0 <= k < before.len() && before[k] == j as usize;
                                assert(out@[k] == j as usize);
                            }
                        }
                    }
                }
                d += 1;
            }
        }
        a += 1;
    }
    proof {
        assert forall|j: int| runtime_edge(*m, i as int, j) implies out@.contains(j as usize) by {
            let (a2, d2) = choose|a2: int, d2: int| #[trigger] node_edge(*m, i as int, a2, d2, j);
        }
    }
    out
}

fn is_member_exec(m: &WorkspaceMetadata, i: usize) -> (r: bool)
    requires
        i < m.packages.len(),
    ensures
        r == is_member(*m, i as int),
{
    let mut w: usize = 0;
    while w < m.workspace_members.len()
        invariant
            w <= m.workspace_members.len(),
            i < m.packages.len(),
            forall|v: int| 0 <= v < w ==> #[trigger] m.workspace_members[v]@ != m.packages[i as int].id@,
        decreases m.workspace_members.len() - w,
    {
        if m.workspace_members[w] == m.packages[i].id {
            return true;
        }
        w += 1;
    }
    false
}

/// Every package that a marked package reaches by one run-time edge is marked.
pub open spec fn closed_under_edges(m: WorkspaceMetadata, marked: Seq<bool>) -> bool {
    forall|i: int, t: int| #[trigger] runtime_edge(m, i, t) && marked[i] ==> marked[t]
}

proof fn lemma_closed_marks_reached(m: WorkspaceMetadata, marked: Seq<bool>, k: nat, j: int)
    requires
        marked.len() == m.packages.len(),
        closed_under_edges(m, marked),
        forall|t: int| reached_within(m, 0, t) ==> marked[t],
        reached_within(m, k, j),
    ensures
        marked[j],
    decreases k,
{
    if k > 0 {
        if reached_within(m, (k - 1) as nat, j) {
            lemma_closed_marks_reached(m, marked, (k - 1) as nat, j);
        } else {
            let i = choose|i: int| reached_within(m, (k - 1) as nat, i) && #[trigger] runtime_edge(m, i, j);
            lemma_closed_marks_reached(m, marked, (k - 1) as nat, i);
        }
    }
}

proof fn lemma_edge_extends_reach(m: WorkspaceMetadata, i: int, t: int)
    requires
        runtime_reachable(m, i),
        runtime_edge(m, i, t),
    ensures
        runtime_reachable(m, t),
{
    let k = choose|k: nat| reached_within(m, k, i);
    assert(reached_within(m, k + 1, t));
}

/// For each package, whether it is a run-time dependency of the workspace.
fn runtime_closure(m: &WorkspaceMetadata) -> (marked: Vec<bool>)
    ensures
        marked.len() == m.packages.len(),
        forall|j: int| 0 <= j < m.packages.len() ==> marked[j] == runtime_reachable(*m, j),
{
    let n = m.packages.len();
    let mut targets: Vec<Vec<usize>> = Vec::new();
    let mut i: usize = 0;
    while i < n
        invariant
            i <= n,
            n == m.packages.len(),
            targets.len() == i,
            forall|a: int, k: int| 0 <= a < i && 0 <= k < targets[a].len() ==> runtime_edge(*m, a, #[trigger] targets[a][k] as int),
            forall|a: int, t: int| 0 <= a < i && #[trigger] runtime_edge(*m, a, t) ==> targets[a]@.contains(t as usize),
        decreases n - i,
    {
        let ts = runtime_targets(m, i);
        targets.push(ts);
        i += 1;
    }
    let mut marked: Vec<bool> = Vec::new();
    let mut z: usize = 0;
    while z < n
        invariant
            z <= n,
            marked.len() == z,
            forall|j: int| 0 <= j < z ==> !marked[j],
        decreases n - z,
    {
        marked.push(false);
        z += 1;
    }
    let ghost mut seen: Set<int> = Set::empty();
    // Mark the direct run-time dependencies of the members.
    let mut i: usize = 0;
    while i < n
        invariant
            i <= n,
            n == m.packages.len(),
            targets.len() == n,
            marked.len() == n,
            forall|a: int, k: int| 0 <= a < n && 0 <= k < targets[a].len() ==> runtime_edge(*m, a, #[trigger] targets[a][k] as int),
            forall|a: int, t: int| 0 <= a < n && #[trigger] runtime_edge(*m, a, t) ==> targets[a]@.contains(t as usize),
            forall|j: int| 0 <= j < n && marked[j] ==> runtime_reachable(*m, j),
            forall|a: int, t: int| 0 <= a < i && is_member(*m, a) && #[trigger] runtime_edge(*m, a, t) ==> marked[t],
            seen.finite(),
            forall|j: int| seen.contains(j) <==> 0 <= j < n && marked[j],
        decreases n - i,
    {
        if is_member_exec(m, i) {
            let ts = &targets[i];
            let mut q: usize = 0;
            while q < ts.len()
                invariant
                    q <= ts.len(),
                    i < n,
                    n == m.packages.len(),
                    targets.len() == n,
                    *ts == targets[i as int],
                    is_member(*m, i as int),
                    marked.len() == n,
                    forall|a: int, k: int| 0 <= a < n && 0 <= k < targets[a].len() ==> runtime_edge(*m, a, #[trigger] targets[a][k] as int),
                    forall|j: int| 0 <= j < n && marked[j] ==> runtime_reachable(*m, j),
                    forall|a: int, t: int| 0 <= a < i && is_member(*m, a) && #[trigger] runtime_edge(*m, a, t) ==> marked[t],
                    forall|k: int| 0 <= k < q ==> marked[#[trigger] ts[k] as int],
                    seen.finite(),
                    forall|j: int| seen.contains(j) <==> 0 <= j < n && marked[j],
                decreases ts.len() - q,
            {
                let t = ts[q];
                assert(runtime_edge(*m, i as int, targets[i as int][q as int] as int));
                if !marked[t] {
                    proof {
                        assert(reached_within(*m, 0, t as int));
                        assert(runtime_reachable(*m, t as int));
                        seen = seen.insert(t as int);
                    }
                    marked[t] = true;
                }
                q += 1;
            }
            assert forall|t: int| #[trigger] runtime_edge(*m, i as int, t) implies marked[t] by {
                assert(targets[i as int]@.contains(t as usize));
                let k = choose|k: int| 0 <= k < ts.len() && ts@[k] == t as usize;
                assert(marked[ts[k] as int]);
            }
        }
        i += 1;
    }
    // Propagate along run-time edges until nothing changes.
    loop
        invariant
            n == m.packages.len(),
            targets.len() == n,
            marked.len() == n,
            forall|a: int, k: int| 0 <= a < n && 0 <= k < targets[a].len() ==> runtime_edge(*m, a, #[trigger] targets[a][k] as int),
            forall|a: int, t: int| 0 <= a < n && #[trigger] runtime_edge(*m, a, t) ==> targets[a]@.contains(t as usize),
            forall|j: int| 0 <= j < n && marked[j] ==> runtime_reachable(*m, j),
            forall|t: int| reached_within(*m, 0, t) ==> marked[t],
            seen.finite(),
            forall|j: int| seen.contains(j) <==> 0 <= j < n && marked[j],
        decreases n - seen.len(),
    {
        proof {
            vstd::set_lib::lemma_int_range(0, n as int);
            assert(seen.subset_of(vstd::set_lib::set_int_range(0, n as int)));
            vstd::set_lib::lemma_len_subset(seen, vstd::set_lib::set_int_range(0, n as int));
        }
        let ghost start = marked@;
        let ghost start_len = seen.len();
        let mut changed = false;
        let mut i: usize = 0;
        while i < n
            invariant
                i <= n,
                n == m.packages.len(),
                targets.len() == n,
                marked.len() == n,
                forall|a: int, k: int| 0 <= a < n && 0 <= k < targets[a].len() ==> runtime_edge(*m, a, #[trigger] targets[a][k] as int),
                forall|a: int, t: int| 0 <= a < n && #[trigger] runtime_edge(*m, a, t) ==> targets[a]@.contains(t as usize),
                forall|j: int| 0 <= j < n && marked[j] ==> runtime_reachable(*m, j),
                forall|t: int| reached_within(*m, 0, t) ==> marked[t],
                seen.finite(),
                forall|j: int| seen.contains(j) <==> 0 <= j < n && marked[j],
                seen.len() >= start_len,
                changed ==> seen.len() > start_len,
                !changed ==> marked@ == start,
                !changed ==> forall|a: int, t: int| 0 <= a < i && marked[a] && #[trigger] runtime_edge(*m, a, t) ==> marked[t],
            decreases n - i,
        {
            if marked[i] {
                let ts = &targets[i];
                let mut q: usize = 0;
                while q < ts.len()
                    invariant
                        q <= ts.len(),
                        i < n,
                        n == m.packages.len(),
                        targets.len() == n,
                        *ts == targets[i as int],
                        marked.len() == n,
                        marked[i as int],
                        forall|a: int, k: int| 0 <= a < n && 0 <= k < targets[a].len() ==> runtime_edge(*m, a, #[trigger] targets[a][k] as int),
                        forall|j: int| 0 <= j < n && marked[j] ==> runtime_reachable(*m, j),
                        forall|t: int| reached_within(*m, 0, t) ==> marked[t],
                        seen.finite(),
                        forall|j: int| seen.contains(j) <==> 0 <= j < n && marked[j],
                        seen.len() >= start_len,
                        changed ==> seen.len() > start_len,
                        !changed ==> marked@ == start,
                        !changed ==> forall|a: int, t: int| 0 <= a < i && marked[a] && #[trigger] runtime_edge(*m, a, t) ==> marked[t],
                        forall|k: int| 0 <= k < q ==> marked[#[trigger] ts[k] as int],
                    decreases ts.len() - q,
                {
                    let t = ts[q];
                    assert(runtime_edge(*m, i as int, targets[i as int][q as int] as int));
                    if !marked[t] {
                        proof {
                            lemma_edge_extends_reach(*m, i as int, t as int);
                            seen = seen.insert(t as int);
                        }
                        marked[t] = true;
                        changed = true;
                    }
                    q += 1;
                }
                assert forall|t: int| #[trigger] runtime_edge(*m, i as int, t) implies marked[t] by {
                    assert(targets[i as int]@.contains(t as usize));
                    let k = choose|k: int| 0 <= k < ts.len() && ts@[k] == t as usize;
                    assert(marked[ts[k] as int]);
                }
            }
            i += 1;
        }
        proof {
            assert(seen.subset_of(vstd::set_lib::set_int_range(0, n as int)));
            vstd::set_lib::lemma_len_subset(seen, vstd::set_lib::set_int_range(0, n as int));
        }
        if !changed {
            assert(closed_under_edges(*m, marked@));
            assert forall|j: int| 0 <= j < n implies marked[j] == runtime_reachable(*m, j) by {
                if runtime_reachable(*m, j) {
                    let k = choose|k: nat| reached_within(*m, k, j);
                    lemma_closed_marks_reached(*m, marked@, k, j);
                }
            }
            return marked;
        }
    }
}

/// The Rust dependencies of a workspace: one entry per distinct `(name, version)` of the
/// packages that a member reaches by run-time edges, directly or transitively, in package
/// order. Edges of the resolved graph are followed where they are needed at run time:
/// build-time edges never, development edges only out of a workspace member.
pub fn collect_dependencies(metadata: &WorkspaceMetadata) -> (r: Vec<CollectorDependency>)
    ensures
        identities(r@) == cargo_dependencies(*metadata),
{
    let marked = runtime_closure(metadata);
    let mut out: Vec<CollectorDependency> = Vec::new();
    let mut j: usize = 0;
    assert(identities(out@) =~= Seq::empty());
    while j < metadata.packages.len()
        invariant
            j <= metadata.packages.len(),
            marked.len() == metadata.packages.len(),
            forall|t: int| 0 <= t < metadata.packages.len() ==> marked[t] == runtime_reachable(*metadata, t),
            identities(out@) == dedup_seq(reachable_prefix(*metadata, j as int)),
        decreases metadata.packages.len() - j,
    {
        if marked[j] {
            let pkg = &metadata.packages[j];
            let dep = CollectorDependency::new(pkg.name.clone(), pkg.version.clone(), ProjectLanguage::Rust);
            push_unique(&mut out, dep);
            assert(reachable_prefix(*metadata, j + 1).drop_last() =~= reachable_prefix(*metadata, j as int));
        }
        j += 1;
    }
    out
}

/// A package whose identity no run-time reachable package shares (in particular one
/// that is reached only through build-time edges) is not among the collected
/// dependencies.
pub proof fn law_build_only_packages_excluded(m: WorkspaceMetadata, j: int)
    requires
        0 <= j < m.packages.len(),
        forall|i: int|
            0 <= i < m.packages.len() && runtime_reachable(m, i) ==> package_identity(m.packages[i])
                != package_identity(m.packages[j]),
    ensures
        !cargo_dependencies(m).contains(package_identity(m.packages[j])),
{
    crate::collectors::lemma_dedup_seq(reachable_prefix(m, m.packages.len() as int));
    lemma_reachable_prefix_members(m, m.packages.len() as int);
    let x = package_identity(m.packages[j]);
    if cargo_dependencies(m).contains(x) {
        assert(reachable_prefix(m, m.packages.len() as int).contains(x));
        let i = choose|i: int|
            0 <= i < m.packages.len() && runtime_reachable(m, i) && package_identity(m.packages[i]) == x;
        assert(false);
    }
}

/// The identities listed by `reachable_prefix` are those of run-time reachable packages.
pub proof fn lemma_reachable_prefix_members(m: WorkspaceMetadata, n: int)
    requires
        n <= m.packages.len(),
    ensures
        forall|x: IdentityView|
            reachable_prefix(m, n).contains(x) <==> exists|i: int|
                0 <= i < n && runtime_reachable(m, i) && package_identity(m.packages[i]) == x,
    decreases n,
{
    if n > 0 {
        lemma_reachable_prefix_members(m, n - 1);
        let prev = reachable_prefix(m, n - 1);
        assert forall|x: IdentityView|
            reachable_prefix(m, n).contains(x) <==> exists|i: int|
                0 <= i < n && runtime_reachable(m, i) && package_identity(m.packages[i]) == x by {
            if runtime_reachable(m, n - 1) {
                let cur = prev.push(package_identity(m.packages[n - 1]));
                if cur.contains(x) {
                    let k = choose|k: int| 0 <= k < cur.len() && cur[k] == x;
                    if k < prev.len() {
                        assert(prev[k] == x);
                    }
                }
                if prev.contains(x) {
                    let k = choose|k: int| 0 <= k < prev.len() && prev[k] == x;
                    assert(cur[k] == x);
                }
                if package_identity(m.packages[n - 1]) == x {
                    assert(cur[prev.len() as int] == x);
                }
            }
        }
    }
}

} // verus!
