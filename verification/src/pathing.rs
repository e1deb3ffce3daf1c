//! Shortest-path search over the map's exits.
//!
//! A breadth-first search over the cardinal exits of each tile. The
//! search returns a concrete path when one exists and reports, with
//! proof, that no path exists otherwise.

use vstd::prelude::*;

use crate::map::GameMap;

verus! {

/// Whether `p` is a walk over the map: non-empty, starting on the
/// grid, and following one allowed step after another.
pub open spec fn valid_path(m: GameMap, p: Seq<usize>) -> bool {
    &&& p.len() >= 1
    &&& 0 <= p[0] < m.count()
    &&& forall|i: int| 0 <= i < p.len() - 1 ==> m.step_ok(#[trigger] p[i] as int, p[i + 1] as int)
}

/// Whether `p` is a walk from `s` to `g`.
pub open spec fn is_path(m: GameMap, s: int, g: int, p: Seq<usize>) -> bool {
    valid_path(m, p) && p[0] == s && p.last() == g
}

/// Whether some walk leads from `s` to `g`.
pub open spec fn reachable(m: GameMap, s: int, g: int) -> bool {
    exists|p: Seq<usize>| is_path(m, s, g, p)
}

/// A set of tiles that contains a walk's first tile and is closed
/// under allowed steps contains its last tile too.
proof fn lemma_closed_set_holds_path(m: GameMap, visited: Seq<bool>, p: Seq<usize>)
    requires
        m.wf(),
        visited.len() == m.count(),
        valid_path(m, p),
        visited[p[0] as int],
        forall|a: int, b: int|
            0 <= a < m.count() && visited[a] && #[trigger] m.step_ok(a, b) ==> visited[b],
    ensures
        visited[p.last() as int],
    decreases p.len(),
{
    if p.len() > 1 {
        let q = p.subrange(1, p.len() as int);
        assert(m.step_ok(p[0] as int, p[1] as int));
        assert(forall|i: int|
            0 <= i < q.len() - 1 ==> m.step_ok(#[trigger] q[i] as int, q[i + 1] as int) == m.step_ok(
                p[i + 1] as int,
                p[i + 2] as int,
            ));
        lemma_closed_set_holds_path(m, visited, q);
        assert(q.last() == p.last());
    }
}

/// A duplicate-free sequence whose elements all lie below `count`
/// cannot be longer than `count`.
proof fn lemma_bounded_unique_len(s: Seq<usize>, count: int)
    requires
        s.no_duplicates(),
        0 <= count,
        forall|i: int| 0 <= i < s.len() ==> (#[trigger] s[i]) < count,
    ensures
        s.len() <= count,
{
    let f = |u: usize| u as int;
    assert(vstd::relations::injective(f)) by {
        assert(forall|x: usize, y: usize| #[trigger] f(x) == #[trigger] f(y) ==> x == y);
    }
    s.lemma_no_duplicates_injective(f);
    let si = s.map_values(f);
    si.unique_seq_to_set();
    assert(si.to_set().subset_of(vstd::set_lib::set_int_range(0, count))) by {
        assert forall|v: int| si.to_set().contains(v) implies 0 <= v < count by {
            let i = choose|i: int| 0 <= i < si.len() && si[i] == v;
            assert(s[i] < count);
        }
    }
    vstd::set_lib::lemma_int_range(0, count);
    vstd::set_lib::lemma_len_subset(si.to_set(), vstd::set_lib::set_int_range(0, count));
}

/// At the moment a breadth-first search dequeues a node, no walk
/// from the start can undercut the recorded distances: any walk
/// either ends on a visited node whose recorded distance is at most
/// the walk's step count, or its step count already exceeds the
/// distance at the queue's head.
proof fn lemma_bfs_lower_bound(
    m: GameMap,
    visitedv: Seq<bool>,
    distv: Seq<usize>,
    queuev: Seq<usize>,
    head: int,
    start: usize,
    q: Seq<usize>,
)
    requires
        m.wf(),
        visitedv.len() == m.count(),
        distv.len() == m.count(),
        0 <= head < queuev.len(),
        forall|i: int| 0 <= i < queuev.len() ==> (#[trigger] queuev[i]) < m.count(),
        forall|i: int| 0 <= i < queuev.len() ==> visitedv[#[trigger] queuev[i] as int],
        forall|v: int|
            0 <= v < m.count() && visitedv[v] ==> exists|i: int|
                0 <= i < queuev.len() && #[trigger] queuev[i] == v,
        forall|i: int, j: int|
            0 <= i <= j < queuev.len() ==> distv[#[trigger] queuev[i] as int] <= distv[
                #[trigger] queuev[j] as int
            ],
        forall|i: int, b: int|
            0 <= i < head && #[trigger] m.step_ok(queuev[i] as int, b) ==> visitedv[b] && distv[b]
                <= distv[queuev[i] as int] + 1,
        start < m.count(),
        visitedv[start as int],
        distv[start as int] == 0,
        queuev[0] == start,
        valid_path(m, q),
        q[0] == start,
    ensures
        (visitedv[q.last() as int] && distv[q.last() as int] <= q.len() - 1) || (q.len() - 1
            >= distv[queuev[head] as int] + 1),
    decreases q.len(),
{
    if q.len() > 1 {
        let q2 = q.drop_last();
        assert(valid_path(m, q2)) by {
            assert(forall|i: int|
                0 <= i < q2.len() - 1 ==> m.step_ok(#[trigger] q2[i] as int, q2[i + 1] as int));
        }
        lemma_bfs_lower_bound(m, visitedv, distv, queuev, head, start, q2);
        let u = q2.last();
        let v = q.last();
        assert(m.step_ok(u as int, v as int)) by {
            assert(m.step_ok(q[q.len() - 2] as int, q[q.len() - 1] as int));
        }
        if visitedv[u as int] && distv[u as int] <= q2.len() - 1 {
            let iu = choose|i: int| 0 <= i < queuev.len() && #[trigger] queuev[i] == u;
            if iu < head {
                assert(visitedv[v as int] && distv[v as int] <= distv[queuev[iu] as int] + 1);
            } else {
                assert(distv[queuev[head] as int] <= distv[queuev[iu] as int]);
            }
        }
    }
}

/// Searches for a path of unit-cost cardinal steps from `start` to
/// `goal`. Returns a shortest walk from `start` to `goal` when one
/// exists — no walk between the two is shorter — and `None` exactly
/// when no walk exists.
pub fn find_path(m: &GameMap, start: usize, goal: usize) -> (r: Option<Vec<usize>>)
    requires
        m.wf(),
        start < m.count(),
        goal < m.count(),
    ensures
        match r {
            Some(p) => is_path(*m, start as int, goal as int, p@) && (forall|q: Seq<usize>|
                is_path(*m, start as int, goal as int, q) ==> q.len() >= p@.len()),
            None => !reachable(*m, start as int, goal as int),
        },
{
    broadcast use vstd::seq_lib::lemma_seq_contains_after_push;

    let count = m.tiles.len();
    proof {
        m.lemma_count_bound();
    }
    let mut visited: Vec<bool> = Vec::new();
    let mut parent: Vec<usize> = Vec::new();
    let mut dist: Vec<usize> = Vec::new();
    let mut i: usize = 0;
    while i < count
        invariant
            i <= count,
            visited@.len() == i,
            parent@.len() == i,
            dist@.len() == i,
            forall|j: int| 0 <= j < i ==> !visited@[j],
            forall|j: int| 0 <= j < i ==> dist@[j] == 0,
        decreases count - i,
    {
        visited.push(false);
        parent.push(0);
        dist.push(0);
        i = i + 1;
    }
    let mut queue: Vec<usize> = Vec::new();
    visited.set(start, true);
    queue.push(start);
    proof {
        assert(queue@[0] == start);
        assert forall|v: int| 0 <= v < count && visited@[v] implies exists|i2: int|
            0 <= i2 < queue@.len() && #[trigger] queue@[i2] == v by {
            assert(v == start);
            assert(queue@[0] == v);
        }
    }
    let mut head: usize = 0;
    let mut found = false;
    while head < queue.len() && !found
        invariant
            m.wf(),
            count == m.count(),
            count < 0x1000000,
            start < count,
            goal < count,
            visited@.len() == count,
            parent@.len() == count,
            dist@.len() == count,
            head <= queue@.len(),
            queue@.len() <= count,
            queue@.no_duplicates(),
            forall|i2: int| 0 <= i2 < queue@.len() ==> (#[trigger] queue@[i2]) < count,
            forall|i2: int| 0 <= i2 < queue@.len() ==> visited@[#[trigger] queue@[i2] as int],
            forall|v: int|
                0 <= v < count && visited@[v] ==> exists|i2: int|
                    0 <= i2 < queue@.len() && #[trigger] queue@[i2] == v,
            visited@[start as int],
            queue@.len() >= 1,
            queue@[0] == start,
            dist@[start as int] == 0,
            forall|v: int|
                0 <= v < count && visited@[v] && v != start ==> ((#[trigger] parent@[v]) < count
                    && visited@[parent@[v] as int] && m.step_ok(parent@[v] as int, v)
                    && dist@[v] == dist@[parent@[v] as int] + 1),
            forall|i2: int| 0 <= i2 < queue@.len() ==> dist@[#[trigger] queue@[i2] as int] <= i2,
            !found ==> forall|i2: int| 0 <= i2 < head ==> (#[trigger] queue@[i2]) != goal,
            found ==> visited@[goal as int],
            forall|i2: int, b: int|
                0 <= i2 < head && queue@[i2] != goal && #[trigger] m.step_ok(
                    queue@[i2] as int,
                    b,
                ) ==> visited@[b] && dist@[b] <= dist@[queue@[i2] as int] + 1,
            forall|i2: int, j2: int|
                0 <= i2 <= j2 < queue@.len() ==> dist@[#[trigger] queue@[i2] as int] <= dist@[
                    #[trigger] queue@[j2] as int
                ],
            head < queue@.len() ==> forall|i2: int|
                0 <= i2 < queue@.len() ==> dist@[#[trigger] queue@[i2] as int] <= dist@[queue@[
                    head as int
                ] as int] + 1,
            found ==> forall|q: Seq<usize>|
                is_path(*m, start as int, goal as int, q) ==> q.len() >= dist@[goal as int] + 1,
        decreases count - head,
    {
        let cur = queue[head];
        if cur == goal {
            proof {
                assert forall|i2: int, b: int|
                    0 <= i2 < head && #[trigger] m.step_ok(queue@[i2] as int, b) implies visited@[b]
                    && dist@[b] <= dist@[queue@[i2] as int] + 1 by {
                    assert(queue@[i2] != goal);
                }
                assert forall|q: Seq<usize>|
                    is_path(*m, start as int, goal as int, q) implies q.len() >= dist@[
                    goal as int
                ] + 1 by {
                    lemma_bfs_lower_bound(*m, visited@, dist@, queue@, head as int, start, q);
                }
            }
            found = true;
        } else {
            let exits = m.get_available_exits(cur);
            let mut k: usize = 0;
            while k < exits.len()
                invariant
                    m.wf(),
                    count == m.count(),
                    count < 0x1000000,
                    start < count,
                    goal < count,
                    cur < count,
                    head < queue@.len(),
                    queue@[head as int] == cur,
                    k <= exits@.len(),
                    forall|j: int|
                        0 <= j < exits@.len() ==> m.step_ok(cur as int, #[trigger] exits@[j] as int),
                    forall|b: int| m.step_ok(cur as int, b) ==> exits@.contains(b as usize),
                    forall|j: int|
                        0 <= j < k ==> visited@[#[trigger] exits@[j] as int] && dist@[exits@[j] as int]
                            <= dist@[cur as int] + 1,
                    visited@.len() == count,
                    parent@.len() == count,
                    dist@.len() == count,
                    queue@.len() <= count,
                    queue@.no_duplicates(),
                    forall|i2: int| 0 <= i2 < queue@.len() ==> (#[trigger] queue@[i2]) < count,
                    forall|i2: int|
                        0 <= i2 < queue@.len() ==> visited@[#[trigger] queue@[i2] as int],
                    forall|v: int|
                        0 <= v < count && visited@[v] ==> exists|i2: int|
                            0 <= i2 < queue@.len() && #[trigger] queue@[i2] == v,
                    visited@[start as int],
                    queue@.len() >= 1,
                    queue@[0] == start,
                    dist@[start as int] == 0,
                    forall|v: int|
                        0 <= v < count && visited@[v] && v != start ==> ((#[trigger] parent@[v])
                            < count && visited@[parent@[v] as int] && m.step_ok(
                            parent@[v] as int,
                            v,
                        ) && dist@[v] == dist@[parent@[v] as int] + 1),
                    forall|i2: int|
                        0 <= i2 < queue@.len() ==> dist@[#[trigger] queue@[i2] as int] <= i2,
                    !found ==> forall|i2: int| 0 <= i2 < head ==> (#[trigger] queue@[i2]) != goal,
                    found ==> visited@[goal as int],
                    forall|i2: int, b: int|
                        0 <= i2 < head && queue@[i2] != goal && #[trigger] m.step_ok(
                            queue@[i2] as int,
                            b,
                        ) ==> visited@[b] && dist@[b] <= dist@[queue@[i2] as int] + 1,
                    forall|i2: int, j2: int|
                        0 <= i2 <= j2 < queue@.len() ==> dist@[#[trigger] queue@[i2] as int]
                            <= dist@[#[trigger] queue@[j2] as int],
                    forall|i2: int|
                        0 <= i2 < queue@.len() ==> dist@[#[trigger] queue@[i2] as int] <= dist@[
                            cur as int
                        ] + 1,
                decreases exits@.len() - k,
            {
                let d = exits[k];
                if !visited[d] {
                    let ghost old_queue = queue@;
                    visited.set(d, true);
                    parent.set(d, cur);
                    let dc = dist[cur];
                    dist.set(d, dc + 1);
                    queue.push(d);
                    proof {
                        assert(forall|i2: int|
                            0 <= i2 < old_queue.len() ==> #[trigger] queue@[i2] == old_queue[i2]);
                        assert(queue@.no_duplicates()) by {
                            assert(forall|i2: int|
                                0 <= i2 < old_queue.len() ==> (#[trigger] old_queue[i2]) != d);
                        }
                        lemma_bounded_unique_len(queue@, count as int);
                        assert forall|v: int| 0 <= v < count && visited@[v] implies exists|i2: int|
                            0 <= i2 < queue@.len() && #[trigger] queue@[i2] == v by {
                            if v == d {
                                assert(queue@[queue@.len() - 1] == d);
                            } else {
                                let i3 = choose|i3: int|
                                    0 <= i3 < old_queue.len() && #[trigger] old_queue[i3] == v;
                                assert(queue@[i3] == v);
                            }
                        }
                        assert(dist@[queue@[head as int] as int] <= head);
                        assert forall|i2: int, j2: int|
                            0 <= i2 <= j2 < queue@.len() implies dist@[#[trigger] queue@[i2] as int]
                            <= dist@[#[trigger] queue@[j2] as int] by {
                            if j2 == queue@.len() - 1 {
                                if i2 < j2 {
                                    assert(old_queue[i2] != d);
                                    assert(dist@[queue@[i2] as int] <= dist@[cur as int] + 1);
                                }
                            } else {
                                assert(old_queue[i2] != d && old_queue[j2] != d);
                            }
                        }
                    }
                }
                k = k + 1;
            }
            proof {
                assert forall|b: int| m.step_ok(cur as int, b) implies visited@[b] by {
                    let j = choose|j: int| 0 <= j < exits@.len() && exits@[j] == b as usize;
                    assert(visited@[exits@[j] as int]);
                }
            }
        }
        head = head + 1;
    }
    if !found {
        proof {
            if reachable(*m, start as int, goal as int) {
                let p = choose|p: Seq<usize>| is_path(*m, start as int, goal as int, p);
                assert forall|a: int, b: int|
                    0 <= a < m.count() && visited@[a] && #[trigger] m.step_ok(a, b) implies
                    visited@[b] by {
                    let i2 = choose|i2: int|
                        0 <= i2 < queue@.len() && #[trigger] queue@[i2] == a;
                    assert(queue@[i2] != goal);
                }
                lemma_closed_set_holds_path(*m, visited@, p);
                let i2 = choose|i2: int| 0 <= i2 < queue@.len() && #[trigger] queue@[i2] == goal;
                assert(queue@[i2] != goal);
            }
        }
        return None;
    }
    let mut rev: Vec<usize> = Vec::new();
    let mut cur = goal;
    rev.push(cur);
    while cur != start
        invariant
            m.wf(),
            count == m.count(),
            start < count,
            goal < count,
            cur < count,
            visited@.len() == count,
            parent@.len() == count,
            dist@.len() == count,
            visited@[cur as int],
            visited@[start as int],
            dist@[start as int] == 0,
            forall|v: int|
                0 <= v < count && visited@[v] && v != start ==> ((#[trigger] parent@[v]) < count
                    && visited@[parent@[v] as int] && m.step_ok(parent@[v] as int, v)
                    && dist@[v] == dist@[parent@[v] as int] + 1),
            rev@.len() >= 1,
            rev@[0] == goal,
            rev@.last() == cur,
            rev@.len() + dist@[cur as int] == dist@[goal as int] + 1,
            forall|q: Seq<usize>|
                is_path(*m, start as int, goal as int, q) ==> q.len() >= dist@[goal as int] + 1,
            forall|i2: int|
                0 <= i2 < rev@.len() - 1 ==> m.step_ok(
                    #[trigger] rev@[i2 + 1] as int,
                    rev@[i2] as int,
                ),
            forall|i2: int| 0 <= i2 < rev@.len() ==> (#[trigger] rev@[i2]) < count,
        decreases dist@[cur as int],
    {
        let p = parent[cur];
        rev.push(p);
        cur = p;
    }
    let mut path: Vec<usize> = Vec::new();
    let mut k = rev.len();
    while k > 0
        invariant
            m.wf(),
            count == m.count(),
            rev@.len() >= 1,
            rev@[0] == goal,
            rev@.last() == start,
            forall|i2: int|
                0 <= i2 < rev@.len() - 1 ==> m.step_ok(
                    #[trigger] rev@[i2 + 1] as int,
                    rev@[i2] as int,
                ),
            forall|i2: int| 0 <= i2 < rev@.len() ==> (#[trigger] rev@[i2]) < count,
            k <= rev@.len(),
            path@.len() == rev@.len() - k,
            rev@.len() == dist@[goal as int] + 1,
            forall|q: Seq<usize>|
                is_path(*m, start as int, goal as int, q) ==> q.len() >= dist@[goal as int] + 1,
            forall|i2: int|
                0 <= i2 < path@.len() ==> #[trigger] path@[i2] == rev@[rev@.len() - 1 - i2],
        decreases k,
    {
        k = k - 1;
        path.push(rev[k]);
    }
    proof {
        assert(path@.len() == dist@[goal as int] + 1);
        assert(path@[0] == start);
        assert(path@.last() == goal);
        assert forall|i2: int| 0 <= i2 < path@.len() - 1 implies m.step_ok(
            #[trigger] path@[i2] as int,
            path@[i2 + 1] as int,
        ) by {
            let l = rev@.len() as int;
            assert(path@[i2] == rev@[l - 1 - i2]);
            assert(path@[i2 + 1] == rev@[l - 1 - (i2 + 1)]);
            assert(m.step_ok(rev@[(l - 2 - i2) + 1] as int, rev@[l - 2 - i2] as int));
        }
    }
    Some(path)
}

} // verus!
