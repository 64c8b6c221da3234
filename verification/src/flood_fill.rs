//! Uniform-cost flood fill: the number of steps from a set of source tiles to
//! every tile that a walker can reach.

use vstd::prelude::*;
use crate::map::{index_of, on_grid, point_at, MapSpec, NUM_TILES};
use crate::utils::Point;

verus! {

/// The distance of a tile that the fill did not reach.
pub const UNREACHABLE: u32 = 0xffff_ffff;

/// Whether a walker starting on one of `sources` can stand on tile `t` after
/// at most `n` steps.
pub open spec fn reach_within(map: MapSpec, sources: Seq<usize>, t: usize, n: nat) -> bool
    decreases n,
{
    ||| sources.contains(t)
    ||| n > 0 && exists|u: usize| #[trigger]
        map.is_exit(u as int, t as int) && reach_within(map, sources, u, (n - 1) as nat)
}

/// Whether `d` is the least number of steps that brings a walker to `t`.
pub open spec fn shortest(map: MapSpec, sources: Seq<usize>, t: usize, d: nat) -> bool {
    &&& reach_within(map, sources, t, d)
    &&& d > 0 ==> !reach_within(map, sources, t, (d - 1) as nat)
}

/// The longest walk that a fill of depth `max_depth` follows: a tile that
/// takes `max_depth` steps or more counts as unreachable.
pub open spec fn depth_cap(max_depth: u32) -> nat {
    if max_depth == 0 {
        0
    } else {
        (max_depth - 1) as nat
    }
}

/// More steps never reach less.
pub proof fn lemma_reach_monotone(map: MapSpec, sources: Seq<usize>, t: usize, n: nat, m: nat)
    requires
        reach_within(map, sources, t, n),
        n <= m,
    ensures
        reach_within(map, sources, t, m),
    decreases n,
{
    if !sources.contains(t) {
        let u = choose|u: usize| #[trigger]
            map.is_exit(u as int, t as int) && reach_within(map, sources, u, (n - 1) as nat);
        lemma_reach_monotone(map, sources, u, (n - 1) as nat, (m - 1) as nat);
    }
}

/// One more step from a tile reached within `n` steps.
pub proof fn lemma_reach_step(map: MapSpec, sources: Seq<usize>, u: usize, t: usize, n: nat)
    requires
        reach_within(map, sources, u, n),
        map.is_exit(u as int, t as int),
    ensures
        reach_within(map, sources, t, n + 1),
{
}

/// Once a step more reaches nothing new, no number of steps does.
pub proof fn lemma_reach_saturated(map: MapSpec, sources: Seq<usize>, t: usize, d: nat, n: nat)
    requires
        forall|x: usize| reach_within(map, sources, x, d + 1) ==> reach_within(map, sources, x, d),
        reach_within(map, sources, t, n),
    ensures
        reach_within(map, sources, t, d),
    decreases n,
{
    if n <= d {
        lemma_reach_monotone(map, sources, t, n, d);
    } else if !sources.contains(t) {
        let u = choose|u: usize| #[trigger]
            map.is_exit(u as int, t as int) && reach_within(map, sources, u, (n - 1) as nat);
        lemma_reach_saturated(map, sources, u, d, (n - 1) as nat);
        lemma_reach_step(map, sources, u, t, d);
    }
}

/// How many steps along rows and columns lie between `a` and `b`.
pub open spec fn taxicab(a: Point, b: Point) -> nat {
    (vstd::math::abs(a.x - b.x) + vstd::math::abs(a.y - b.y)) as nat
}

/// One step changes the rows and columns to any point by one at most.
pub proof fn lemma_step_taxicab(from: Point, u: int, t: int)
    requires
        crate::map::edge_neighbours(u, t),
    ensures
        taxicab(from, point_at(t)) <= taxicab(from, point_at(u)) + 1,
{
    let pu = point_at(u);
    let pt = point_at(t);
    assert(pt.x == pu.x && (pt.y == pu.y + 1 || pt.y == pu.y - 1) || pt.y == pu.y && (pt.x == pu.x + 1 || pt.x
        == pu.x - 1));
}

/// No walk is shorter than the rows and columns between its ends.
pub proof fn lemma_reach_at_least_taxicab(map: MapSpec, from: Point, t: usize, n: nat)
    requires
        on_grid(from),
        t < NUM_TILES,
        reach_within(map, seq![index_of(from) as usize], t, n),
    ensures
        taxicab(from, point_at(t as int)) <= n,
    decreases n,
{
    let sources = seq![index_of(from) as usize];
    if sources.contains(t) {
        let i = choose|i: int| 0 <= i < sources.len() && sources[i] == t;
        assert(t == index_of(from));
    } else {
        let u = choose|u: usize| #[trigger]
            map.is_exit(u as int, t as int) && reach_within(map, sources, u, (n - 1) as nat);
        lemma_reach_at_least_taxicab(map, from, u, (n - 1) as nat);
        lemma_step_taxicab(from, u as int, t as int);
    }
}

/// Turning more tiles into floor takes no tile out of reach.
pub proof fn lemma_reach_more_floor(before: MapSpec, after: MapSpec, sources: Seq<usize>, t: usize, n: nat)
    requires
        reach_within(before, sources, t, n),
        forall|idx: int| before.is_floor(idx) ==> #[trigger] after.is_floor(idx),
    ensures
        reach_within(after, sources, t, n),
    decreases n,
{
    if !sources.contains(t) {
        let u = choose|u: usize| #[trigger]
            before.is_exit(u as int, t as int) && reach_within(before, sources, u, (n - 1) as nat);
        lemma_reach_more_floor(before, after, sources, u, (n - 1) as nat);
        assert(after.is_exit(u as int, t as int));
    }
}

/// Every tile that a walker can reach is floor, or a source.
pub proof fn lemma_reached_is_floor(map: MapSpec, sources: Seq<usize>, t: usize, n: nat)
    requires
        reach_within(map, sources, t, n),
    ensures
        sources.contains(t) || map.is_floor(t as int),
{
}

/// Whether each entry of `steps` is the least number of steps from `sources`
/// to its tile over `map`, or `UNREACHABLE` where `depth_cap(max_depth)`
/// steps do not suffice.
pub open spec fn measured(steps: Seq<u32>, map: MapSpec, sources: Seq<usize>, max_depth: u32) -> bool {
    &&& steps.len() == NUM_TILES
    &&& forall|t: usize|
        t < NUM_TILES ==> {
            let d = #[trigger] steps[t as int];
            if d == UNREACHABLE {
                !reach_within(map, sources, t, depth_cap(max_depth))
            } else {
                d <= depth_cap(max_depth) && shortest(map, sources, t, d as nat)
            }
        }
}

/// The step counts from `sources` over `map`.
pub open spec fn distances(map: MapSpec, sources: Seq<usize>, max_depth: u32) -> Seq<u32> {
    choose|steps: Seq<u32>| measured(steps, map, sources, max_depth)
}

/// Step counts are what they are: two fields that measure the same map
/// from the same sources agree on every tile.
pub proof fn lemma_distances_unique(steps: Seq<u32>, map: MapSpec, sources: Seq<usize>, max_depth: u32)
    requires
        measured(steps, map, sources, max_depth),
    ensures
        steps == distances(map, sources, max_depth),
{
    let other = distances(map, sources, max_depth);
    assert(measured(other, map, sources, max_depth));
    assert forall|i: int| 0 <= i < NUM_TILES implies steps[i] == other[i] by {
        let t = i as usize;
        let a = steps[t as int];
        let b = other[t as int];
        let cap = depth_cap(max_depth);
        if a != UNREACHABLE && b != UNREACHABLE {
            if a < b {
                lemma_reach_monotone(map, sources, t, a as nat, (b - 1) as nat);
            } else if b < a {
                lemma_reach_monotone(map, sources, t, b as nat, (a - 1) as nat);
            }
        } else if a != UNREACHABLE {
            lemma_reach_monotone(map, sources, t, a as nat, cap);
        } else if b != UNREACHABLE {
            lemma_reach_monotone(map, sources, t, b as nat, cap);
        }
    }
    assert(steps =~= other);
}

/// Whether `idx` is the reached tile with the most steps, the last such
/// tile in index order where several tie.
pub open spec fn is_farthest(steps: Seq<u32>, idx: int) -> bool {
    &&& 0 <= idx < steps.len()
    &&& steps[idx] != UNREACHABLE
    &&& forall|t: int| 0 <= t < steps.len() && #[trigger] steps[t] != UNREACHABLE ==> steps[t] <= steps[idx]
    &&& forall|t: int| 0 <= t < steps.len() && #[trigger] steps[t] == steps[idx] ==> t <= idx
}

/// The reached tile that lies farthest from the sources; `None` where no
/// tile is reached.
pub open spec fn farthest_tile(steps: Seq<u32>) -> Option<usize> {
    if exists|idx: int| is_farthest(steps, idx) {
        Some((choose|idx: int| is_farthest(steps, idx)) as usize)
    } else {
        None
    }
}

/// Whether `to` is the exit of `from` with the fewest steps, the first such
/// exit in the order west, east, north, south where several tie.
pub open spec fn is_lowest_exit(steps: Seq<u32>, map: MapSpec, from: int, to: usize) -> bool {
    let exits = map.exits(from);
    exists|i: int|
        {
            &&& 0 <= i < exits.len()
            &&& #[trigger] exits[i] == to
            &&& forall|j: int| 0 <= j < exits.len() ==> steps[to as int] <= steps[exits[j] as int]
            &&& forall|j: int| 0 <= j < i ==> steps[to as int] < steps[exits[j] as int]
        }
}

/// The exit of `from` to step onto on the way to the sources; `None` where
/// `from` has no exit.
pub open spec fn lowest_exit(steps: Seq<u32>, map: MapSpec, from: int) -> Option<usize> {
    if map.exits(from).len() == 0 {
        None
    } else {
        Some(choose|to: usize| is_lowest_exit(steps, map, from, to))
    }
}

/// A tile has one lowest exit at most.
pub proof fn lemma_lowest_exit_unique(steps: Seq<u32>, map: MapSpec, from: int, to: usize)
    requires
        is_lowest_exit(steps, map, from, to),
    ensures
        lowest_exit(steps, map, from) == Some(to),
{
    let exits = map.exits(from);
    let other = choose|o: usize| is_lowest_exit(steps, map, from, o);
    let i = choose|i: int|
        {
            &&& 0 <= i < exits.len()
            &&& #[trigger] exits[i] == to
            &&& forall|j: int| 0 <= j < exits.len() ==> steps[to as int] <= steps[exits[j] as int]
            &&& forall|j: int| 0 <= j < i ==> steps[to as int] < steps[exits[j] as int]
        };
    let k = choose|k: int|
        {
            &&& 0 <= k < exits.len()
            &&& #[trigger] exits[k] == other
            &&& forall|j: int| 0 <= j < exits.len() ==> steps[other as int] <= steps[exits[j] as int]
            &&& forall|j: int| 0 <= j < k ==> steps[other as int] < steps[exits[j] as int]
        };
    if i < k {
        assert(steps[other as int] < steps[exits[i] as int]);
        assert(steps[to as int] <= steps[exits[k] as int]);
    } else if k < i {
        assert(steps[to as int] < steps[exits[k] as int]);
        assert(steps[other as int] <= steps[exits[i] as int]);
    }
}

/// Step counts from a set of sources, one per tile.
#[derive(Clone, Debug)]
pub struct DistanceField {
    pub steps: Vec<u32>,
}

impl DistanceField {
    pub open spec fn wf(&self) -> bool {
        self.steps@.len() == NUM_TILES
    }

    /// Whether the fill reached tile `t`.
    pub open spec fn reached(&self, t: int) -> bool {
        0 <= t < self.steps@.len() && self.steps@[t] != UNREACHABLE
    }

    /// Whether the field holds the step counts from `sources` over `map`.
    pub open spec fn measures(&self, map: MapSpec, sources: Seq<usize>, max_depth: u32) -> bool {
        measured(self.steps@, map, sources, max_depth)
    }

    /// Fills `map` from `sources`, following walks of up to
    /// `depth_cap(max_depth)` steps.
    pub fn new(sources: &Vec<usize>, map: &MapSpec, max_depth: u32) -> (field: DistanceField)
        requires
            map.wf(),
            forall|i: int| 0 <= i < sources@.len() ==> sources@[i] < NUM_TILES,
        ensures
            field.measures(*map, sources@, max_depth),
            field.steps@ == distances(*map, sources@, max_depth),
    {
        let cap: u32 = if max_depth == 0 { 0 } else { max_depth - 1 };
        let mut steps: Vec<u32> = vec![UNREACHABLE; NUM_TILES];
        let mut frontier: Vec<usize> = Vec::new();
        let mut i: usize = 0;
        while i < sources.len()
            invariant
                i <= sources@.len(),
                steps@.len() == NUM_TILES,
                forall|k: int| 0 <= k < sources@.len() ==> sources@[k] < NUM_TILES,
                forall|k: int| 0 <= k < frontier@.len() ==> frontier@[k] < NUM_TILES,
                forall|t: usize|
                    t < NUM_TILES ==> (#[trigger] steps@[t as int] == 0 || steps@[t as int]
                        == UNREACHABLE),
                forall|t: usize|
                    t < NUM_TILES ==> (#[trigger] steps@[t as int] == 0 <==> sources@.subrange(
                        0,
                        i as int,
                    ).contains(t)),
                forall|t: usize|
                    t < NUM_TILES ==> (#[trigger] steps@[t as int] == 0 <==> frontier@.contains(t)),
            decreases sources@.len() - i,
        {
            let s = sources[i];
            let ghost seen = sources@.subrange(0, i as int);
            let ghost old_frontier = frontier@;
            if steps[s] == UNREACHABLE {
                steps[s] = 0;
                frontier.push(s);
                assert(frontier@[old_frontier.len() as int] == s);
            }
            proof {
                let now = sources@.subrange(0, i + 1);
                assert(now[i as int] == s);
                assert forall|t: usize| t < NUM_TILES implies (#[trigger] steps@[t as int] == 0
                    <==> now.contains(t)) by {
                    if now.contains(t) {
                        let k = choose|k: int| 0 <= k < now.len() && now[k] == t;
                        if k < i {
                            assert(seen[k] == t);
                        }
                    }
                    if seen.contains(t) {
                        let k = choose|k: int| 0 <= k < seen.len() && seen[k] == t;
                        assert(now[k] == t);
                    }
                }
                assert forall|t: usize| t < NUM_TILES implies (#[trigger] steps@[t as int] == 0
                    <==> frontier@.contains(t)) by {
                    if old_frontier.contains(t) {
                        let k = choose|k: int| 0 <= k < old_frontier.len() && old_frontier[k] == t;
                        assert(frontier@[k] == t);
                    }
                    if frontier@.contains(t) {
                        let k = choose|k: int| 0 <= k < frontier@.len() && frontier@[k] == t;
                        if k < old_frontier.len() {
                            assert(old_frontier[k] == t);
                        }
                    }
                }
            }
            i = i + 1;
        }
        assert(sources@.subrange(0, i as int) == sources@);
        let mut depth: u32 = 0;
        while frontier.len() > 0 && depth < cap
            invariant
                map.wf(),
                cap == depth_cap(max_depth),
                depth <= cap,
                steps@.len() == NUM_TILES,
                forall|k: int| 0 <= k < frontier@.len() ==> frontier@[k] < NUM_TILES,
                forall|t: usize|
                    t < NUM_TILES && #[trigger] steps@[t as int] != UNREACHABLE ==> steps@[t as int]
                        <= depth && shortest(*map, sources@, t, steps@[t as int] as nat),
                forall|t: usize|
                    t < NUM_TILES && reach_within(*map, sources@, t, depth as nat)
                        ==> #[trigger] steps@[t as int] != UNREACHABLE,
                forall|t: usize|
                    t < NUM_TILES ==> (#[trigger] steps@[t as int] == depth <==> frontier@.contains(
                        t,
                    )),
            decreases cap - depth,
        {
            let ghost before = steps@;
            let mut next: Vec<usize> = Vec::new();
            let mut k: usize = 0;
            while k < frontier.len()
                invariant
                    map.wf(),
                    depth < cap < UNREACHABLE,
                    k <= frontier@.len(),
                    fill_level(*map, sources@, before, steps@, frontier@, next@, depth),
                    forall|j: int, v: usize|
                        0 <= j < k && #[trigger] map.is_exit(frontier@[j] as int, v as int)
                            ==> steps@[v as int] != UNREACHABLE,
                decreases frontier@.len() - k,
            {
                let u = frontier[k];
                let exits = map.get_available_exits(u);
                let mut e: usize = 0;
                proof {
                    assert forall|x: int| 0 <= x < exits@.len() implies #[trigger] exits@[x]
                        < NUM_TILES by {
                        assert(exits@.contains(exits@[x]));
                    }
                }
                while e < exits.len()
                    invariant
                        map.wf(),
                        depth < cap < UNREACHABLE,
                        k < frontier@.len(),
                        u == frontier@[k as int],
                        e <= exits@.len(),
                        forall|to: usize| exits@.contains(to) <==> map.is_exit(u as int, to as int),
                        fill_level(*map, sources@, before, steps@, frontier@, next@, depth),
                        forall|j: int, v: usize|
                            0 <= j < k && #[trigger] map.is_exit(frontier@[j] as int, v as int)
                                ==> steps@[v as int] != UNREACHABLE,
                        forall|x: int| 0 <= x < exits@.len() ==> #[trigger] exits@[x] < NUM_TILES,
                        forall|x: int|
                            0 <= x < e ==> steps@[#[trigger] exits@[x] as int] != UNREACHABLE,
                    decreases exits@.len() - e,
                {
                    let v = exits[e];
                    assert(exits@.contains(v));
                    if steps[v] == UNREACHABLE {
                        let ghost old_next = next@;
                        steps[v] = depth + 1;
                        next.push(v);
                        proof {
                            assert(before[v as int] == UNREACHABLE);
                            assert(frontier@.contains(u));
                            assert(before[u as int] == depth);
                            lemma_reach_step(*map, sources@, u, v, depth as nat);
                            assert(next@[old_next.len() as int] == v);
                            assert forall|t: usize| t < NUM_TILES implies (#[trigger] steps@[t as int]
                                == depth + 1 <==> next@.contains(t)) by {
                                if old_next.contains(t) {
                                    let x = choose|x: int| 0 <= x < old_next.len() && old_next[x] == t;
                                    assert(next@[x] == t);
                                }
                                if next@.contains(t) {
                                    let x = choose|x: int| 0 <= x < next@.len() && next@[x] == t;
                                    if x < old_next.len() {
                                        assert(old_next[x] == t);
                                    }
                                }
                            }
                        }
                    }
                    e = e + 1;
                }
                proof {
                    assert forall|v: usize| #[trigger]
                        map.is_exit(u as int, v as int) implies steps@[v as int] != UNREACHABLE by {
                        assert(exits@.contains(v));
                        let x = choose|x: int| 0 <= x < exits@.len() && exits@[x] == v;
                        assert(steps@[exits@[x] as int] != UNREACHABLE);
                    }
                }
                k = k + 1;
            }
            proof {
                assert forall|t: usize|
                    t < NUM_TILES && reach_within(
                        *map,
                        sources@,
                        t,
                        (depth + 1) as nat,
                    ) implies #[trigger] steps@[t as int] != UNREACHABLE by {
                    if !sources@.contains(t) {
                        let u = choose|u: usize| #[trigger]
                            map.is_exit(u as int, t as int) && reach_within(
                                *map,
                                sources@,
                                u,
                                depth as nat,
                            );
                        assert(before[u as int] != UNREACHABLE);
                        if before[u as int] == depth {
                            assert(frontier@.contains(u));
                            let j = choose|j: int| 0 <= j < frontier@.len() && frontier@[j] == u;
                            assert(map.is_exit(frontier@[j] as int, t as int));
                        } else {
                            lemma_reach_monotone(
                                *map,
                                sources@,
                                u,
                                before[u as int] as nat,
                                (depth - 1) as nat,
                            );
                            lemma_reach_step(*map, sources@, u, t, (depth - 1) as nat);
                            assert(before[t as int] != UNREACHABLE);
                        }
                    } else {
                        assert(reach_within(*map, sources@, t, depth as nat));
                        assert(before[t as int] != UNREACHABLE);
                    }
                }
            }
            frontier = next;
            depth = depth + 1;
        }
        proof {
            if depth < cap {
                assert forall|x: usize|
                    reach_within(*map, sources@, x, (depth + 1) as nat) implies reach_within(
                    *map,
                    sources@,
                    x,
                    depth as nat,
                ) by {
                    if !sources@.contains(x) {
                        let u = choose|u: usize| #[trigger]
                            map.is_exit(u as int, x as int) && reach_within(
                                *map,
                                sources@,
                                u,
                                depth as nat,
                            );
                        assert(steps@[u as int] != UNREACHABLE);
                        assert(!frontier@.contains(u));
                        lemma_reach_monotone(
                            *map,
                            sources@,
                            u,
                            steps@[u as int] as nat,
                            (depth - 1) as nat,
                        );
                        lemma_reach_step(*map, sources@, u, x, (depth - 1) as nat);
                    }
                }
                assert forall|t: usize|
                    t < NUM_TILES && #[trigger] steps@[t as int] == UNREACHABLE implies !reach_within(
                    *map,
                    sources@,
                    t,
                    cap as nat,
                ) by {
                    if reach_within(*map, sources@, t, cap as nat) {
                        lemma_reach_saturated(*map, sources@, t, depth as nat, cap as nat);
                    }
                }
            }
        }
        let field = DistanceField { steps };
        proof {
            lemma_distances_unique(field.steps@, *map, sources@, max_depth);
        }
        field
    }

    /// The reached tile that lies farthest from the sources; `None` where
    /// the fill reached no tile at all.
    pub fn farthest(&self) -> (r: Option<usize>)
        ensures
            r == farthest_tile(self.steps@),
            match r {
                Some(idx) => is_farthest(self.steps@, idx as int),
                None => forall|t: int| !self.reached(t),
            },
    {
        let mut best: Option<usize> = None;
        let mut i: usize = 0;
        while i < self.steps.len()
            invariant
                i <= self.steps@.len(),
                match best {
                    Some(idx) => {
                        &&& idx < i
                        &&& self.reached(idx as int)
                        &&& forall|t: int|
                            0 <= t < i && self.reached(t) ==> #[trigger] self.steps@[t]
                                <= self.steps@[idx as int]
                        &&& forall|t: int|
                            0 <= t < i && self.reached(t) && #[trigger] self.steps@[t]
                                == self.steps@[idx as int] ==> t <= idx
                    },
                    None => forall|t: int| 0 <= t < i ==> !self.reached(t),
                },
            decreases self.steps@.len() - i,
        {
            let d = self.steps[i];
            if d != UNREACHABLE {
                match best {
                    Some(idx) => {
                        if d >= self.steps[idx] {
                            best = Some(i);
                        }
                    },
                    None => {
                        best = Some(i);
                    },
                }
            }
            i = i + 1;
        }
        proof {
            match best {
                Some(idx) => {
                    assert(is_farthest(self.steps@, idx as int));
                    let c = choose|c: int| is_farthest(self.steps@, c);
                    assert(self.reached(c) && self.reached(idx as int));
                    assert(self.steps@[c] <= self.steps@[idx as int]);
                    assert(self.steps@[idx as int] <= self.steps@[c]);
                },
                None => {
                    assert forall|c: int| !is_farthest(self.steps@, c) by {
                        if is_farthest(self.steps@, c) {
                            assert(self.reached(c));
                        }
                    }
                },
            }
        }
        best
    }

    /// The neighbour of `position` to step onto on the way to the sources;
    /// `None` where `position` has no exit.
    pub fn find_lowest_exit(&self, position: usize, map: &MapSpec) -> (r: Option<usize>)
        requires
            self.wf(),
            map.wf(),
            position < NUM_TILES,
        ensures
            r == lowest_exit(self.steps@, *map, position as int),
            match r {
                Some(to) => is_lowest_exit(self.steps@, *map, position as int, to),
                None => map.exits(position as int).len() == 0,
            },
    {
        let exits = map.get_available_exits(position);
        if exits.len() == 0 {
            return None;
        }
        proof {
            assert forall|x: int| 0 <= x < exits@.len() implies #[trigger] exits@[x] < NUM_TILES by {
                assert(exits@.contains(exits@[x]));
            }
        }
        let mut best: usize = 0;
        let mut j: usize = 1;
        while j < exits.len()
            invariant
                self.wf(),
                1 <= j <= exits@.len(),
                best < j,
                forall|x: int| 0 <= x < exits@.len() ==> #[trigger] exits@[x] < NUM_TILES,
                forall|x: int|
                    0 <= x < j ==> self.steps@[exits@[best as int] as int] <= self.steps@[#[trigger] exits@[x] as int],
                forall|x: int|
                    0 <= x < best ==> self.steps@[exits@[best as int] as int] < self.steps@[#[trigger] exits@[x] as int],
            decreases exits@.len() - j,
        {
            if self.steps[exits[j]] < self.steps[exits[best]] {
                best = j;
            }
            j = j + 1;
        }
        proof {
            let to = exits@[best as int];
            assert(is_lowest_exit(self.steps@, *map, position as int, to));
            lemma_lowest_exit_unique(self.steps@, *map, position as int, to);
        }
        Some(exits[best])
    }
}

/// What holds while the fill works through the tiles that lie `depth` steps
/// from the sources: `before` is the field when the level began, `frontier`
/// the tiles of this level and `next` those found one step further.
pub open spec fn fill_level(
    map: MapSpec,
    sources: Seq<usize>,
    before: Seq<u32>,
    steps: Seq<u32>,
    frontier: Seq<usize>,
    next: Seq<usize>,
    depth: u32,
) -> bool {
    &&& before.len() == NUM_TILES
    &&& steps.len() == NUM_TILES
    &&& forall|k: int| 0 <= k < frontier.len() ==> frontier[k] < NUM_TILES
    &&& forall|k: int| 0 <= k < next.len() ==> next[k] < NUM_TILES
    &&& forall|t: usize|
        t < NUM_TILES && #[trigger] before[t as int] != UNREACHABLE ==> steps[t as int] == before[t as int]
            && before[t as int] <= depth && shortest(map, sources, t, before[t as int] as nat)
    &&& forall|t: usize|
        t < NUM_TILES && before[t as int] == UNREACHABLE && #[trigger] steps[t as int] != UNREACHABLE
            ==> steps[t as int] == depth + 1 && shortest(map, sources, t, (depth + 1) as nat)
    &&& forall|t: usize|
        t < NUM_TILES && reach_within(map, sources, t, depth as nat) ==> #[trigger] before[t as int]
            != UNREACHABLE
    &&& forall|t: usize| t < NUM_TILES ==> (#[trigger] before[t as int] == depth <==> frontier.contains(t))
    &&& forall|t: usize| t < NUM_TILES ==> (#[trigger] steps[t as int] == depth + 1 <==> next.contains(t))
}

} // verus!
