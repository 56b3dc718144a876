//! The agent store and the four stages of a tick: neighbour scan, steering
//! blend, integration and border wrap.

use crate::boid::{lemma_influence_takes_neighbor, Boid, Influence};
use crate::settings::Settings;
use crate::vector::{Point, Vec2};
use crate::world::WorldBounds;
use vstd::prelude::*;

verus! {

/// Whether agent `j` is a neighbour of agent `i`: another agent that lies
/// strictly closer than the vision distance. The relation is symmetric.
pub open spec fn are_neighbors(boids: Seq<Boid>, i: int, j: int, vision: i32) -> bool {
    i != j && boids[i].position.within(boids[j].position, vision)
}

/// What the neighbours of agent `i` among the first `upto` agents contribute
/// to it.
pub open spec fn influence_upto(boids: Seq<Boid>, i: int, vision: i32, upto: int) -> Influence
    decreases upto,
{
    if upto <= 0 {
        Influence::none()
    } else {
        let before = influence_upto(boids, i, vision, upto - 1);
        if are_neighbors(boids, i, upto - 1, vision) {
            before.plus(Influence::of_neighbor(boids[i], boids[upto - 1]))
        } else {
            before
        }
    }
}

/// What all the neighbours of agent `i` contribute to it.
pub open spec fn influence_on(boids: Seq<Boid>, i: int, vision: i32) -> Influence {
    influence_upto(boids, i, vision, boids.len() as int)
}

/// The flock after the neighbour scan: every agent holds the influence of
/// exactly its neighbours, whatever its scratch space held before.
pub open spec fn scanned(boids: Seq<Boid>, vision: i32) -> Seq<Boid> {
    Seq::new(boids.len(), |i: int| boids[i].with_influence(influence_on(boids, i, vision)))
}

/// The flock after the steering blend.
pub open spec fn steered(boids: Seq<Boid>, settings: Settings, elapsed: i32) -> Seq<Boid> {
    Seq::new(boids.len(), |i: int| boids[i].steered(settings, elapsed))
}

/// The flock after integration and border wrap.
pub open spec fn moved(
    boids: Seq<Boid>,
    settings: Settings,
    elapsed: i32,
    bounds: WorldBounds,
) -> Seq<Boid> {
    Seq::new(boids.len(), |i: int| boids[i].moved(settings, elapsed, bounds))
}

/// The flock with every position wrapped into the world.
pub open spec fn wrapped(boids: Seq<Boid>, bounds: WorldBounds) -> Seq<Boid> {
    Seq::new(
        boids.len(),
        |i: int|
            Boid {
                position: bounds.wrapped_point(
                    boids[i].position.x as int,
                    boids[i].position.y as int,
                ),
                ..boids[i]
            },
    )
}

/// The flock one tick later. A paused simulation stands still; otherwise the
/// scan, the blend and the integration with its wrap follow one another.
pub open spec fn ticked(
    boids: Seq<Boid>,
    settings: Settings,
    elapsed: i32,
    bounds: WorldBounds,
) -> Seq<Boid> {
    if settings.paused {
        boids
    } else {
        moved(
            steered(scanned(boids, settings.vision_distance), settings, elapsed),
            settings,
            elapsed,
            bounds,
        )
    }
}

/// How far the scan has come for agent `a` when the pair loop stands at
/// `(i, j)`: the number of leading agents whose influence on `a` is in.
spec fn scan_progress(a: int, i: int, j: int, n: int) -> int {
    if a < i {
        n
    } else if a == i {
        j
    } else if a < j {
        i + 1
    } else {
        i
    }
}

/// The state of agent `a` in the middle of a scan that started from `start`.
spec fn scan_holds(
    now: Seq<Boid>,
    start: Seq<Boid>,
    a: int,
    vision: i32,
    i: int,
    j: int,
) -> bool {
    &&& now[a].position == start[a].position
    &&& now[a].velocity == start[a].velocity
    &&& now[a].well_formed()
    &&& now[a].influence() == influence_upto(
        start,
        a,
        vision,
        scan_progress(a, i, j, start.len() as int),
    )
}

/// The neighbour relation does not depend on which of the two agents asks.
pub proof fn lemma_neighbors_symmetric(boids: Seq<Boid>, i: int, j: int, vision: i32)
    ensures
        are_neighbors(boids, i, j, vision) == are_neighbors(boids, j, i, vision),
{
    let p = boids[i].position;
    let q = boids[j].position;
    assert((p.x - q.x) * (p.x - q.x) == (q.x - p.x) * (q.x - p.x)) by (nonlinear_arith);
    assert((p.y - q.y) * (p.y - q.y) == (q.y - p.y) * (q.y - p.y)) by (nonlinear_arith);
}

/// What the scan gathers for an agent is bounded, so the scratch space holds
/// it without loss.
pub proof fn lemma_influence_bounded(boids: Seq<Boid>, i: int, vision: i32, upto: int)
    requires
        0 <= upto,
    ensures
        influence_upto(boids, i, vision, upto).bounded(),
        influence_upto(boids, i, vision, upto).count <= upto,
    decreases upto,
{
    if upto > 0 {
        lemma_influence_bounded(boids, i, vision, upto - 1);
        lemma_influence_takes_neighbor(
            influence_upto(boids, i, vision, upto - 1),
            boids[i],
            boids[upto - 1],
        );
    }
}

/// The agent store: an ordered collection of agents. An agent keeps its index
/// for as long as the flock lives.
#[derive(Clone, Debug)]
pub struct Flock {
    pub boids: Vec<Boid>,
}

impl View for Flock {
    type V = Seq<Boid>;

    open spec fn view(&self) -> Seq<Boid> {
        self.boids@
    }
}

impl Flock {
    /// An empty flock.
    pub fn new() -> (flock: Flock)
        ensures
            flock@ == Seq::<Boid>::empty(),
    {
        Flock { boids: Vec::new() }
    }

    /// The number of agents.
    pub fn len(&self) -> (count: usize)
        ensures
            count == self@.len(),
    {
        self.boids.len()
    }

    /// Adds an agent at the end.
    pub fn push(&mut self, boid: Boid)
        ensures
            final(self)@ == old(self)@.push(boid),
    {
        self.boids.push(boid);
    }

    /// The agent at `index`, if there is one.
    pub fn get(&self, index: usize) -> (found: Option<Boid>)
        ensures
            found == if index < self@.len() {
                Some(self@[index as int])
            } else {
                None
            },
    {
        if index < self.boids.len() {
            Some(self.boids[index])
        } else {
            None
        }
    }

    /// The position of the agent at `index`, if there is one.
    pub fn position(&self, index: usize) -> (found: Option<Point>)
        ensures
            found == if index < self@.len() {
                Some(self@[index as int].position)
            } else {
                None
            },
    {
        if index < self.boids.len() {
            Some(self.boids[index].position)
        } else {
            None
        }
    }

    /// The velocity of the agent at `index`, if there is one.
    pub fn velocity(&self, index: usize) -> (found: Option<Vec2>)
        ensures
            found == if index < self@.len() {
                Some(self@[index as int].velocity)
            } else {
                None
            },
    {
        if index < self.boids.len() {
            Some(self.boids[index].velocity)
        } else {
            None
        }
    }

    /// Neighbour scan. Looks at every unordered pair of distinct agents once;
    /// where the two are closer than `vision_distance`, each takes the other
    /// into account. Whatever the scratch space held before is discarded.
    pub fn neighbor_scan(&mut self, vision_distance: i32)
        ensures
            final(self)@ == scanned(old(self)@, vision_distance),
            forall|a: int| 0 <= a < final(self)@.len() ==> (#[trigger] final(self)@[a]).well_formed(),
    {
        let ghost start = self@;
        let n: usize = self.boids.len();
        let mut k: usize = 0;
        while k < n
            invariant
                self.boids.len() == n,
                start.len() == n,
                k <= n,
                forall|a: int| 0 <= a < k ==> (#[trigger] self.boids@[a]) == start[a].cleared(),
                forall|a: int| k <= a < n ==> (#[trigger] self.boids@[a]) == start[a],
            decreases n - k,
        {
            let mut boid: Boid = self.boids[k];
            boid.reset();
            self.boids[k] = boid;
            k += 1;
        }
        assert forall|a: int| 0 <= a < n implies #[trigger] scan_holds(
            self@,
            start,
            a,
            vision_distance,
            0,
            0,
        ) by {
        }
        let mut i: usize = 0;
        while i < n
            invariant
                self.boids.len() == n,
                start.len() == n,
                i <= n,
                forall|a: int|
                    0 <= a < n ==> #[trigger] scan_holds(
                        self@,
                        start,
                        a,
                        vision_distance,
                        i as int,
                        i as int,
                    ),
            decreases n - i,
        {
            let ghost outer = self@;
            assert forall|a: int| 0 <= a < n implies #[trigger] scan_holds(
                self@,
                start,
                a,
                vision_distance,
                i as int,
                i + 1,
            ) by {
                assert(scan_holds(outer, start, a, vision_distance, i as int, i as int));
            }
            let mut j: usize = i + 1;
            while j < n
                invariant
                    self.boids.len() == n,
                    start.len() == n,
                    i < j <= n,
                    forall|a: int|
                        0 <= a < n ==> #[trigger] scan_holds(
                            self@,
                            start,
                            a,
                            vision_distance,
                            i as int,
                            j as int,
                        ),
                decreases n - j,
            {
                let ghost before = self@;
                let first: Boid = self.boids[i];
                let second: Boid = self.boids[j];
                assert(scan_holds(before, start, i as int, vision_distance, i as int, j as int));
                assert(scan_holds(before, start, j as int, vision_distance, i as int, j as int));
                proof {
                    lemma_neighbors_symmetric(start, i as int, j as int, vision_distance);
                    lemma_influence_bounded(start, i as int, vision_distance, j as int);
                    lemma_influence_bounded(start, j as int, vision_distance, i as int);
                }
                if first.position.is_within(&second.position, vision_distance) {
                    let mut first_now: Boid = first;
                    first_now.absorb(&second);
                    let mut second_now: Boid = second;
                    second_now.absorb(&first);
                    self.boids[i] = first_now;
                    self.boids[j] = second_now;
                }
                assert forall|a: int| 0 <= a < n implies #[trigger] scan_holds(
                    self@,
                    start,
                    a,
                    vision_distance,
                    i as int,
                    j + 1,
                ) by {
                    assert(scan_holds(before, start, a, vision_distance, i as int, j as int));
                }
                j += 1;
            }
            let ghost inner = self@;
            assert forall|a: int| 0 <= a < n implies #[trigger] scan_holds(
                self@,
                start,
                a,
                vision_distance,
                i + 1,
                i + 1,
            ) by {
                assert(scan_holds(inner, start, a, vision_distance, i as int, n as int));
            }
            i += 1;
        }
        assert forall|a: int| 0 <= a < n implies (#[trigger] self@[a]) == scanned(
            start,
            vision_distance,
        )[a] && self@[a].well_formed() by {
            assert(scan_holds(self@, start, a, vision_distance, n as int, n as int));
        }
    }

    /// Steering blend. Every agent turns its velocity toward the targets that
    /// its scratch space describes, which is then cleared.
    pub fn steering_blend(&mut self, settings: &Settings, elapsed: i32)
        requires
            forall|a: int| 0 <= a < old(self)@.len() ==> (#[trigger] old(self)@[a]).well_formed(),
        ensures
            final(self)@ == steered(old(self)@, *settings, elapsed),
    {
        let ghost start = self@;
        let n: usize = self.boids.len();
        let mut k: usize = 0;
        while k < n
            invariant
                self.boids.len() == n,
                start.len() == n,
                k <= n,
                forall|a: int| 0 <= a < n ==> (#[trigger] start[a]).well_formed(),
                forall|a: int|
                    0 <= a < k ==> (#[trigger] self.boids@[a]) == start[a].steered(*settings, elapsed),
                forall|a: int| k <= a < n ==> (#[trigger] self.boids@[a]) == start[a],
            decreases n - k,
        {
            let mut boid: Boid = self.boids[k];
            boid.steer(settings, elapsed);
            self.boids[k] = boid;
            k += 1;
        }
    }

    /// Integration and border wrap. Every agent moves along its velocity by
    /// the distance that the speed covers in `elapsed` seconds and is then
    /// wrapped into the world.
    pub fn integrate(&mut self, settings: &Settings, elapsed: i32, bounds: &WorldBounds)
        ensures
            final(self)@ == moved(old(self)@, *settings, elapsed, *bounds),
    {
        let ghost start = self@;
        let n: usize = self.boids.len();
        let mut k: usize = 0;
        while k < n
            invariant
                self.boids.len() == n,
                start.len() == n,
                k <= n,
                forall|a: int|
                    0 <= a < k ==> (#[trigger] self.boids@[a]) == start[a].moved(
                        *settings,
                        elapsed,
                        *bounds,
                    ),
                forall|a: int| k <= a < n ==> (#[trigger] self.boids@[a]) == start[a],
            decreases n - k,
        {
            let mut boid: Boid = self.boids[k];
            boid.advance(settings, elapsed, bounds);
            self.boids[k] = boid;
            k += 1;
        }
    }

    /// Border wrap alone: wraps every position into the world and changes
    /// nothing else.
    pub fn wrap_borders(&mut self, bounds: &WorldBounds)
        ensures
            final(self)@ == wrapped(old(self)@, *bounds),
    {
        let ghost start = self@;
        let n: usize = self.boids.len();
        let mut k: usize = 0;
        while k < n
            invariant
                self.boids.len() == n,
                start.len() == n,
                k <= n,
                forall|a: int| 0 <= a < k ==> (#[trigger] self.boids@[a]) == wrapped(start, *bounds)[a],
                forall|a: int| k <= a < n ==> (#[trigger] self.boids@[a]) == start[a],
            decreases n - k,
        {
            let mut boid: Boid = self.boids[k];
            boid.position = bounds.wrap(boid.position.x as i64, boid.position.y as i64);
            self.boids[k] = boid;
            k += 1;
        }
    }

    /// Advances the simulation by one step of `elapsed` seconds. While the
    /// settings say `paused`, nothing changes. The number of agents never
    /// changes.
    pub fn tick(&mut self, settings: &Settings, elapsed: i32, bounds: &WorldBounds)
        ensures
            final(self)@ == ticked(old(self)@, *settings, elapsed, *bounds),
            final(self)@.len() == old(self)@.len(),
            settings.paused ==> final(self)@ == old(self)@,
    {
        if settings.paused {
            return ;
        }
        self.neighbor_scan(settings.vision_distance);
        self.steering_blend(settings, elapsed);
        self.integrate(settings, elapsed, bounds);
    }
}

} // verus!
