//! Light paths: when one ends, how its colour is put together, and how
//! many bounces it takes.
//!
//! A path is described here by what happens to its ray at each surface, a
//! sequence of [`Bounce`]s. Computing a bounce is numeric work; what follows
//! from it is not.

use vstd::prelude::*;

verus! {

/// What the scene and the surface material make of one ray.
#[derive(Clone, Copy, Debug, PartialEq, Eq, Structural)]
pub enum Bounce {
    /// The ray meets nothing within reach.
    Miss,
    /// The ray meets a surface whose material swallows it.
    Absorbed,
    /// The ray meets a light: the material answers with an emissive ray.
    Emitted,
    /// The material scatters the ray on. `faint` tells that every channel of
    /// the colour carried into the bounce times the scattered colour lies
    /// below the cutoff.
    Scattered { faint: bool },
}

impl Bounce {
    /// The bounce that the findings about one ray amount to. `hit` tells
    /// that the ray met a surface, `scattered` that the surface's material
    /// answered with a ray, `emissive` that this ray is flagged as emitted
    /// light, `faint` that the colour carried on is below the cutoff. A
    /// light counts as a light however faint.
    pub fn observe(hit: bool, scattered: bool, emissive: bool, faint: bool) -> (bounce: Bounce)
        ensures
            bounce == (if !hit {
                Bounce::Miss
            } else if !scattered {
                Bounce::Absorbed
            } else if emissive {
                Bounce::Emitted
            } else {
                Bounce::Scattered { faint }
            }),
    {
        if !hit {
            Bounce::Miss
        } else if !scattered {
            Bounce::Absorbed
        } else if emissive {
            Bounce::Emitted
        } else {
            Bounce::Scattered { faint }
        }
    }
}

/// Why a path came to its end, which decides what it contributes.
#[derive(Clone, Copy, Debug, PartialEq, Eq, Structural)]
pub enum Ending {
    /// The bound on the path's length was used up: black.
    Exhausted,
    /// The last ray left the scene: the environment along that ray.
    Escaped,
    /// A material swallowed the ray: black.
    Absorbed,
    /// The path reached a light: the emitted colour.
    Emitted,
    /// The colour carried had become too faint to follow further: that
    /// faint colour itself.
    Faded,
}

impl Ending {
    /// Endings that contribute no light at all.
    pub open spec fn black(self) -> bool {
        self is Exhausted || self is Absorbed
    }

    pub fn is_black(self) -> (dark: bool)
        ensures
            dark == self.black(),
    {
        match self {
            Ending::Exhausted => true,
            Ending::Absorbed => true,
            _ => false,
        }
    }
}

/// How the colour of a path is put together: what its ending contributes,
/// multiplied by the attenuation of each bounce that carried the path on.
#[derive(Clone, Copy, Debug, PartialEq, Eq, Structural)]
pub struct Radiance {
    pub attenuations: i32,
    pub ending: Ending,
}

impl View for Radiance {
    type V = (int, Ending);

    open spec fn view(&self) -> (int, Ending) {
        (self.attenuations as int, self.ending)
    }
}

/// The ending that `bounce` brings about, if any. Under `cutoff` a faint
/// scatter ends the path; without it only a miss, an absorption or a light
/// does.
pub open spec fn verdict(bounce: Bounce, cutoff: bool) -> Option<Ending> {
    match bounce {
        Bounce::Miss => Some(Ending::Escaped),
        Bounce::Absorbed => Some(Ending::Absorbed),
        Bounce::Emitted => Some(Ending::Emitted),
        Bounce::Scattered { faint } => if cutoff && faint {
            Some(Ending::Faded)
        } else {
            None
        },
    }
}

/// The colour of a path that may take `depth` bounces and meets `events` in
/// turn. With no depth left the path is black. A miss yields the
/// environment, an absorption black, a light its own colour, unscaled. A
/// scattered ray whose colour has become faint ends the path with that
/// colour; any other scattered ray attenuates what the rest of the path
/// yields at one depth less. A path that outlives `events` meets nothing
/// more.
pub open spec fn radiance(events: Seq<Bounce>, depth: int) -> (int, Ending)
    decreases events.len(),
{
    if depth <= 0 {
        (0, Ending::Exhausted)
    } else if events.len() == 0 {
        (0, Ending::Escaped)
    } else {
        match verdict(events[0], true) {
            Some(ending) => (0, ending),
            None => {
                let rest = radiance(events.drop_first(), depth - 1);
                (rest.0 + 1, rest.1)
            },
        }
    }
}

/// The number of rays that a path of at most `depth` bounces sends into the
/// scene when it meets `events` in turn and is followed for as long as it
/// is scattered, however faint. The ray that misses, is absorbed or reaches
/// a light is counted; with no depth left there is none to count.
pub open spec fn bounce_count(events: Seq<Bounce>, depth: int) -> int
    decreases events.len(),
{
    if depth <= 0 {
        0
    } else if events.len() == 0 {
        1
    } else if events[0] is Scattered {
        1 + bounce_count(events.drop_first(), depth - 1)
    } else {
        1
    }
}

/// The number of rays that the colour path sends into the scene: one for
/// each bounce that carried it on, and one for the bounce that ended it,
/// if a bounce did.
pub open spec fn rays_cast(events: Seq<Bounce>, depth: int) -> int {
    let light = radiance(events, depth);
    if light.1 is Exhausted {
        light.0
    } else {
        light.0 + 1
    }
}

/// With no depth to spend a path is black, whatever lies before it:
/// neither a light nor the environment contributes.
pub proof fn lemma_depth_zero_is_black(events: Seq<Bounce>)
    ensures
        radiance(events, 0) == (0int, Ending::Exhausted),
        radiance(events, 0).1.black(),
        bounce_count(events, 0) == 0,
{
}

/// A path whose first bounce reaches a light ends there, at any depth
/// above zero: it yields the light's own colour, attenuated by nothing,
/// and sends exactly one ray.
pub proof fn lemma_light_ends_path(events: Seq<Bounce>, depth: int)
    requires
        depth > 0,
        events.len() > 0,
        events[0] == Bounce::Emitted,
    ensures
        radiance(events, depth) == (0int, Ending::Emitted),
        bounce_count(events, depth) == 1,
{
}

/// A path is attenuated at most once for each unit of depth and for each
/// bounce it meets, and it is exhausted exactly when every unit of depth
/// went into a bounce that carried it on.
pub proof fn lemma_radiance_bounds(events: Seq<Bounce>, depth: int)
    requires
        depth >= 0,
    ensures
        0 <= radiance(events, depth).0 <= depth,
        radiance(events, depth).0 <= events.len(),
        radiance(events, depth).1 is Exhausted <==> radiance(events, depth).0 == depth,
    decreases events.len(),
{
    if depth > 0 && events.len() > 0 && verdict(events[0], true) is None {
        lemma_radiance_bounds(events.drop_first(), depth - 1);
    }
}

/// A probe sends at most `depth` rays, at most one more than the bounces
/// it meets, and at least one where there is any depth.
pub proof fn lemma_bounce_count_bounds(events: Seq<Bounce>, depth: int)
    requires
        depth >= 0,
    ensures
        0 <= bounce_count(events, depth) <= depth,
        bounce_count(events, depth) <= events.len() + 1,
        depth > 0 ==> bounce_count(events, depth) >= 1,
    decreases events.len(),
{
    if depth > 0 && events.len() > 0 && events[0] is Scattered {
        lemma_bounce_count_bounds(events.drop_first(), depth - 1);
    }
}

/// The number of bounces at the head of `events` that carry a path on:
/// under `cutoff` the scatters that are not faint, without it all scatters.
pub open spec fn leading(events: Seq<Bounce>, cutoff: bool) -> int
    decreases events.len(),
{
    if events.len() == 0 || verdict(events[0], cutoff) is Some {
        0
    } else {
        1 + leading(events.drop_first(), cutoff)
    }
}

/// A path read at once instead of bounce by bounce. It is carried on by
/// the bounces at the head of `events`, as many as the depth allows. Where
/// the depth allows them all, the bounce behind them ends the path, or the
/// path escapes where none is left; otherwise the path is exhausted. The
/// probe counts the bounces that carry it on and the one behind them, up
/// to the depth.
pub proof fn lemma_path_at_once(events: Seq<Bounce>, depth: int)
    requires
        depth >= 0,
    ensures
        0 <= leading(events, true) <= leading(events, false) <= events.len(),
        radiance(events, depth).0 == if depth <= leading(events, true) {
            depth
        } else {
            leading(events, true)
        },
        radiance(events, depth).1 == if depth <= leading(events, true) {
            Ending::Exhausted
        } else if leading(events, true) == events.len() {
            Ending::Escaped
        } else {
            verdict(events[leading(events, true)], true)->0
        },
        depth > leading(events, true) && leading(events, true) < events.len() ==> verdict(
            events[leading(events, true)],
            true,
        ) is Some,
        bounce_count(events, depth) == if depth <= leading(events, false) {
            depth
        } else {
            leading(events, false) + 1
        },
    decreases events.len(),
{
    if events.len() > 0 {
        let rest = events.drop_first();
        if depth > 0 {
            lemma_path_at_once(rest, depth - 1);
        } else {
            lemma_path_at_once(rest, 0);
        }
    }
}

/// The probe never undercounts: the colour path sends no more rays into
/// the scene than the probe of the same bounces counted.
pub proof fn lemma_probe_covers_trace(events: Seq<Bounce>, depth: int)
    requires
        depth >= 0,
    ensures
        rays_cast(events, depth) <= bounce_count(events, depth),
    decreases events.len(),
{
    if depth > 0 && events.len() > 0 {
        if verdict(events[0], true) is None {
            lemma_probe_covers_trace(events.drop_first(), depth - 1);
        } else {
            lemma_bounce_count_bounds(events.drop_first(), depth - 1);
        }
    }
}

/// A path under way: the bookkeeping of one light path, fed one bounce at
/// a time by whoever computes the bounces.
#[derive(Clone, Copy, Debug, PartialEq, Eq, Structural)]
pub struct Path {
    /// Bounces the path may still take.
    pub remaining: i32,
    /// Bounces taken so far.
    pub bounces: i32,
    /// Why the path has ended, once it has.
    pub ending: Option<Ending>,
    /// Whether a faint scatter ends the path.
    pub cutoff: bool,
}

impl Path {
    /// A path is live until it has an ending. A live path has depth left;
    /// a path that a bounce ended has taken that bounce.
    pub open spec fn wf(&self) -> bool {
        &&& self.remaining >= 0
        &&& self.bounces >= 0
        &&& self.bounces + self.remaining <= i32::MAX
        &&& match self.ending {
            None => self.remaining > 0,
            Some(Ending::Exhausted) => true,
            Some(_) => self.bounces >= 1,
        }
    }

    /// Whether the path waits for another bounce.
    pub open spec fn alive(&self) -> bool {
        self.ending is None
    }

    /// A path of at most `depth` bounces that has taken none yet. With no
    /// depth to spend it has ended before it began.
    pub open spec fn begun(depth: i32, cutoff: bool) -> Path {
        Path {
            remaining: depth,
            bounces: 0,
            ending: if depth <= 0 {
                Some(Ending::Exhausted)
            } else {
                None
            },
            cutoff,
        }
    }

    /// The path after `bounce`: one more bounce taken, one less to go, and
    /// ended if the bounce ends it or no depth is left.
    pub open spec fn after(&self, bounce: Bounce) -> Path {
        Path {
            remaining: (self.remaining - 1) as i32,
            bounces: (self.bounces + 1) as i32,
            ending: match verdict(bounce, self.cutoff) {
                Some(ending) => Some(ending),
                None => if self.remaining == 1 {
                    Some(Ending::Exhausted)
                } else {
                    None
                },
            },
            cutoff: self.cutoff,
        }
    }

    /// The path after it met `events` in turn for as long as it was live.
    pub open spec fn fed(&self, events: Seq<Bounce>) -> Path
        decreases events.len(),
    {
        if !self.alive() || events.len() == 0 {
            *self
        } else {
            self.after(events[0]).fed(events.drop_first())
        }
    }

    /// The path brought to its end: one that is still live meets nothing
    /// more and escapes.
    pub open spec fn finished(&self) -> Path {
        if self.alive() {
            self.after(Bounce::Miss)
        } else {
            *self
        }
    }

    /// Of an ended path: how its colour is put together. The bounce that
    /// ended the path attenuates nothing; each bounce before it does.
    pub open spec fn outcome(&self) -> (int, Ending) {
        match self.ending {
            Some(Ending::Exhausted) => (self.bounces as int, Ending::Exhausted),
            Some(ending) => (self.bounces - 1, ending),
            None => (self.bounces as int, Ending::Exhausted),
        }
    }

    /// A path whose colour is wanted: a faint scatter ends it.
    pub fn trace(depth: i32) -> (path: Path)
        requires
            depth >= 0,
        ensures
            path == Path::begun(depth, true),
            path.wf(),
    {
        Path {
            remaining: depth,
            bounces: 0,
            ending: if depth == 0 {
                Some(Ending::Exhausted)
            } else {
                None
            },
            cutoff: true,
        }
    }

    /// A path whose length is wanted: it is followed however faint.
    pub fn probe(depth: i32) -> (path: Path)
        requires
            depth >= 0,
        ensures
            path == Path::begun(depth, false),
            path.wf(),
    {
        Path {
            remaining: depth,
            bounces: 0,
            ending: if depth == 0 {
                Some(Ending::Exhausted)
            } else {
                None
            },
            cutoff: false,
        }
    }

    pub fn live(&self) -> (yes: bool)
        ensures
            yes == self.alive(),
    {
        self.ending.is_none()
    }

    /// Takes the next bounce of a live path.
    pub fn advance(&mut self, bounce: Bounce)
        requires
            old(self).wf(),
            old(self).alive(),
        ensures
            *final(self) == old(self).after(bounce),
            final(self).wf(),
    {
        self.remaining = self.remaining - 1;
        self.bounces = self.bounces + 1;
        match bounce {
            Bounce::Miss => {
                self.ending = Some(Ending::Escaped);
            },
            Bounce::Absorbed => {
                self.ending = Some(Ending::Absorbed);
            },
            Bounce::Emitted => {
                self.ending = Some(Ending::Emitted);
            },
            Bounce::Scattered { faint } => {
                if self.cutoff && faint {
                    self.ending = Some(Ending::Faded);
                } else if self.remaining == 0 {
                    self.ending = Some(Ending::Exhausted);
                }
            },
        }
    }

    /// Of an ended path: how its colour is put together.
    pub fn summary(&self) -> (light: Radiance)
        requires
            self.wf(),
            !self.alive(),
        ensures
            light@ == self.outcome(),
    {
        match self.ending {
            Some(Ending::Exhausted) => Radiance {
                attenuations: self.bounces,
                ending: Ending::Exhausted,
            },
            Some(ending) => Radiance { attenuations: self.bounces - 1, ending },
            None => Radiance { attenuations: self.bounces, ending: Ending::Exhausted },
        }
    }

    /// Feeding a live colour path adds the radiance of what it is fed to
    /// the bounces it has already taken.
    proof fn lemma_fed_radiance(&self, events: Seq<Bounce>)
        requires
            self.wf(),
            self.alive(),
            self.cutoff,
        ensures
            self.fed(events).finished().wf(),
            !self.fed(events).finished().alive(),
            self.fed(events).finished().outcome() == (
                self.bounces + radiance(events, self.remaining as int).0,
                radiance(events, self.remaining as int).1,
            ),
        decreases events.len(),
    {
        if events.len() > 0 {
            let next = self.after(events[0]);
            let rest = events.drop_first();
            assert(self.fed(events) == next.fed(rest));
            if next.alive() {
                next.lemma_fed_radiance(rest);
            } else {
                assert(next.fed(rest) == next);
                assert(radiance(rest, 0) == (0int, Ending::Exhausted));
            }
        } else {
            assert(self.fed(events) == *self);
        }
    }

    /// Feeding a live probe path adds the bounce count of what it is fed
    /// to the bounces it has already taken.
    proof fn lemma_fed_bounces(&self, events: Seq<Bounce>)
        requires
            self.wf(),
            self.alive(),
            !self.cutoff,
        ensures
            self.fed(events).finished().wf(),
            !self.fed(events).finished().alive(),
            self.fed(events).finished().bounces == self.bounces + bounce_count(
                events,
                self.remaining as int,
            ),
        decreases events.len(),
    {
        if events.len() > 0 {
            let next = self.after(events[0]);
            let rest = events.drop_first();
            assert(self.fed(events) == next.fed(rest));
            if next.alive() {
                next.lemma_fed_bounces(rest);
            } else {
                assert(next.fed(rest) == next);
                assert(bounce_count(rest, 0) == 0);
            }
        } else {
            assert(self.fed(events) == *self);
        }
    }

    /// Stepping through a path bounce by bounce arrives at what the
    /// recursive reading of the path gives: the colour for a path begun
    /// with the cutoff, the bounce count for one begun without.
    pub proof fn lemma_walk_agrees(events: Seq<Bounce>, depth: i32)
        requires
            depth >= 0,
        ensures
            Path::begun(depth, true).fed(events).finished().outcome() == radiance(
                events,
                depth as int,
            ),
            Path::begun(depth, false).fed(events).finished().bounces == bounce_count(
                events,
                depth as int,
            ),
    {
        if depth > 0 {
            Path::begun(depth, true).lemma_fed_radiance(events);
            Path::begun(depth, false).lemma_fed_bounces(events);
        }
    }
}

/// Drives `path` through `events`, and on to its end.
fn walk(path: Path, events: &Vec<Bounce>) -> (end: Path)
    requires
        path.wf(),
    ensures
        end == path.fed(events@).finished(),
        end.wf(),
        !end.alive(),
{
    let mut path = path;
    let ghost begin = path;
    let mut k: usize = 0;
    assert(events@.skip(0) =~= events@);
    while path.live() && k < events.len()
        invariant
            path.wf(),
            k <= events.len(),
            path.fed(events@.skip(k as int)) == begin.fed(events@),
        decreases events.len() - k,
    {
        proof {
            let here = events@.skip(k as int);
            assert(here[0] == events@[k as int]);
            assert(here.drop_first() =~= events@.skip(k + 1));
        }
        path.advance(events[k]);
        k = k + 1;
    }
    if path.live() {
        path.advance(Bounce::Miss);
    }
    path
}

/// How the colour of a path of at most `depth` bounces is put together
/// when the path meets `events` in turn.
pub fn ray_color(events: &Vec<Bounce>, depth: i32) -> (light: Radiance)
    requires
        depth >= 0,
    ensures
        light@ == radiance(events@, depth as int),
        0 <= light.attenuations <= depth,
        light.ending is Exhausted <==> light.attenuations == depth,
{
    proof {
        Path::lemma_walk_agrees(events@, depth);
        lemma_radiance_bounds(events@, depth as int);
    }
    walk(Path::trace(depth), events).summary()
}

/// How many rays a probe path of at most `depth` bounces sends into the
/// scene when it meets `events` in turn.
pub fn depth_check(events: &Vec<Bounce>, depth: i32) -> (count: i32)
    requires
        depth >= 0,
    ensures
        count == bounce_count(events@, depth as int),
        0 <= count <= depth,
        depth > 0 ==> count >= 1,
{
    proof {
        Path::lemma_walk_agrees(events@, depth);
        lemma_bounce_count_bounds(events@, depth as int);
    }
    walk(Path::probe(depth), events).bounces
}

/// Whether the hit at position `i` is the nearest of `keys`, where a key
/// orders hits as their distances along the ray do and `None` stands for no
/// hit: no hit has a smaller key, and every hit before it has a larger one.
pub open spec fn nearest(keys: Seq<Option<u64>>, i: int) -> bool {
    &&& 0 <= i < keys.len()
    &&& keys[i] is Some
    &&& forall|j: int| 0 <= j < keys.len() && keys[j] is Some ==> keys[i]->0 <= (#[trigger] keys[j])->0
    &&& forall|j: int| 0 <= j < i && keys[j] is Some ==> keys[i]->0 < (#[trigger] keys[j])->0
}

/// At most one position holds the nearest hit.
pub proof fn lemma_nearest_unique(keys: Seq<Option<u64>>, i: int, j: int)
    requires
        nearest(keys, i),
        nearest(keys, j),
    ensures
        i == j,
{
    if i < j {
        assert(keys[j]->0 < keys[i]->0);
    } else if j < i {
        assert(keys[i]->0 < keys[j]->0);
    }
}

/// The position of the nearest hit among the candidates, as a linear scan
/// with a shrinking limit finds it: of equally near hits the first. `None`
/// where nothing was hit.
pub fn nearest_hit(keys: &Vec<Option<u64>>) -> (found: Option<usize>)
    ensures
        found is None <==> forall|j: int| 0 <= j < keys.len() ==> keys[j] is None,
        found matches Some(i) ==> nearest(keys@, i as int),
{
    let mut found: Option<usize> = None;
    let mut limit: u64 = 0;
    let mut k: usize = 0;
    while k < keys.len()
        invariant
            k <= keys.len(),
            found is None <==> forall|j: int| 0 <= j < k ==> keys[j] is None,
            found matches Some(i) ==> i < k && keys[i as int] == Some(limit) && nearest(
                keys@.take(k as int),
                i as int,
            ),
        decreases keys.len() - k,
    {
        match keys[k] {
            Some(key) => {
                if found.is_none() || key < limit {
                    found = Some(k);
                    limit = key;
                }
            },
            None => {},
        }
        k = k + 1;
    }
    assert(keys@.take(k as int) =~= keys@);
    found
}

/// One of the two places where a ray's line crosses a sphere.
#[derive(Clone, Copy, Debug, PartialEq, Eq, Structural)]
pub enum Root {
    /// The crossing with the smaller distance along the ray.
    Near,
    /// The crossing with the larger distance.
    Far,
}

/// Which crossing of a sphere counts as the hit. `crosses` tells that the
/// ray's line meets the sphere at all, `near_in_reach` and `far_in_reach`
/// that the crossing lies inside the interval searched. The near crossing
/// is taken where it is in reach, else the far one, else none.
pub fn choose_root(crosses: bool, near_in_reach: bool, far_in_reach: bool) -> (root: Option<Root>)
    ensures
        root == Some(Root::Near) <==> crosses && near_in_reach,
        root == Some(Root::Far) <==> crosses && !near_in_reach && far_in_reach,
        root is None <==> !crosses || (!near_in_reach && !far_in_reach),
{
    if !crosses {
        None
    } else if near_in_reach {
        Some(Root::Near)
    } else if far_in_reach {
        Some(Root::Far)
    } else {
        None
    }
}

} // verus!
