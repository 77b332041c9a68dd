//! Rays, and the light-transport integrator's control: how deep a path of
//! rays may go, and what it is worth when it ends.
//!
//! A path starts with a budget of bounces. While budget is left, the ray is
//! intersected with the scene. A hit scatters the ray, spends one bounce and
//! halves what the rest of the path will bring; a miss ends the path in the
//! sky. A path whose budget is spent brings nothing.

use vstd::prelude::*;
use crate::vector::{Point3, Vec3};

verus! {

/// The encoding of 0.0001. A hit as close as this or closer is left out, so
/// that a scattered ray does not strike the surface that it starts on.
pub const T_MIN_BITS: u64 = 0x3f1a_36e2_eb1c_432d;

/// The encoding of the largest single-precision number, about 3.4e38. A hit
/// as far as this or farther is left out.
pub const T_MAX_BITS: u64 = 0x47ef_ffff_e000_0000;

/// A ray: the points `origin + t * direction` for the distances `t`. The
/// direction need not have length one.
#[derive(Clone, Copy, Debug)]
pub struct Ray {
    pub origin: Point3,
    pub direction: Vec3,
}

impl Ray {
    pub fn new(origin: Point3, direction: Vec3) -> (ray: Ray)
        ensures
            ray == (Ray { origin, direction }),
    {
        Ray { origin, direction }
    }
}

/// What a finished path brings.
#[derive(Clone, Copy, Debug, PartialEq, Eq, Structural)]
pub enum Radiance {
    /// Nothing: the budget ran out before the path left the scene.
    Black,
    /// The sky in the direction of the last ray, halved once for each bounce.
    Sky { bounces: u32 },
}

/// What intersecting the ray with the scene gave.
#[derive(Clone, Copy, Debug, PartialEq, Eq, Structural)]
pub enum Event {
    Hit,
    Miss,
}

/// A path as the contracts see it.
pub enum State {
    /// The ray is to be intersected with the scene; `depth` is positive.
    Tracing { depth: int, bounces: nat },
    /// The path has ended.
    Done(Radiance),
}

/// The path at its start.
pub open spec fn start(depth: int) -> State {
    if depth <= 0 {
        State::Done(Radiance::Black)
    } else {
        State::Tracing { depth, bounces: 0 }
    }
}

/// The path after one intersection with the scene. A path that has ended
/// stays as it is.
pub open spec fn next(state: State, event: Event) -> State {
    match state {
        State::Done(radiance) => State::Done(radiance),
        State::Tracing { depth, bounces } => match event {
            Event::Miss => State::Done(Radiance::Sky { bounces: bounces as u32 }),
            Event::Hit => if depth - 1 <= 0 {
                State::Done(Radiance::Black)
            } else {
                State::Tracing { depth: depth - 1, bounces: bounces + 1 }
            },
        },
    }
}

/// The path after a run of intersections, the first of them first.
pub open spec fn run(state: State, events: Seq<Event>) -> State
    decreases events.len(),
{
    if events.len() == 0 {
        state
    } else {
        run(next(state, events.first()), events.drop_first())
    }
}

/// One path of the integrator.
pub struct Path {
    depth: i32,
    bounces: u32,
    done: Option<Radiance>,
}

impl View for Path {
    type V = State;

    closed spec fn view(&self) -> State {
        match self.done {
            Some(radiance) => State::Done(radiance),
            None => State::Tracing { depth: self.depth as int, bounces: self.bounces as nat },
        }
    }
}

impl Path {
    #[verifier::type_invariant]
    spec fn well_formed(self) -> bool {
        self.done is None ==> self.depth > 0 && self.bounces + self.depth <= i32::MAX
    }

    /// A path that may bounce `depth` times.
    pub fn new(depth: i32) -> (path: Path)
        ensures
            path@ == start(depth as int),
    {
        if depth <= 0 {
            Path { depth: 0, bounces: 0, done: Some(Radiance::Black) }
        } else {
            Path { depth, bounces: 0, done: None }
        }
    }

    /// What the path brings, once it has ended; `None` while the ray is
    /// still to be intersected with the scene.
    pub fn radiance(&self) -> (radiance: Option<Radiance>)
        ensures
            radiance == match self@ {
                State::Done(radiance) => Some(radiance),
                State::Tracing { .. } => None,
            },
    {
        self.done
    }

    /// The path after the ray has been intersected with the scene.
    pub fn step(self, event: Event) -> (path: Path)
        ensures
            path@ == next(self@, event),
    {
        proof {
            use_type_invariant(&self);
        }
        match self.done {
            Some(_) => self,
            None => match event {
                Event::Miss => Path {
                    depth: self.depth,
                    bounces: self.bounces,
                    done: Some(Radiance::Sky { bounces: self.bounces }),
                },
                Event::Hit => if self.depth - 1 <= 0 {
                    Path { depth: 0, bounces: self.bounces, done: Some(Radiance::Black) }
                } else {
                    Path { depth: self.depth - 1, bounces: self.bounces + 1, done: None }
                },
            },
        }
    }
}

/// A path that has ended stays as it is, whatever is reported to it.
pub proof fn lemma_done_is_final(radiance: Radiance, events: Seq<Event>)
    ensures
        run(State::Done(radiance), events) == State::Done(radiance),
    decreases events.len(),
{
    if events.len() > 0 {
        lemma_done_is_final(radiance, events.drop_first());
    }
}

/// The scene that a path of `bounces` hits and then a miss stands for.
pub open spec fn bounced(bounces: nat) -> Seq<Event> {
    Seq::new(bounces, |i: int| Event::Hit).push(Event::Miss)
}

/// A path that leaves the scene within its budget brings the sky, halved as
/// often as it bounced before.
pub proof fn lemma_escape_brings_sky(depth: int, bounces: nat, rest: Seq<Event>)
    requires
        bounces < depth,
        bounces <= u32::MAX,
    ensures
        run(start(depth), bounced(bounces) + rest) == State::Done(
            Radiance::Sky { bounces: bounces as u32 },
        ),
{
    lemma_escape_from(depth, 0, bounces, rest);
}

proof fn lemma_escape_from(depth: int, done: nat, left: nat, rest: Seq<Event>)
    requires
        left < depth,
        done + left <= u32::MAX,
    ensures
        run(State::Tracing { depth, bounces: done }, bounced(left) + rest) == State::Done(
            Radiance::Sky { bounces: (done + left) as u32 },
        ),
    decreases left,
{
    let events = bounced(left) + rest;
    let state = State::Tracing { depth, bounces: done };
    if left == 0 {
        lemma_done_is_final(Radiance::Sky { bounces: done as u32 }, events.drop_first());
    } else {
        assert(events.drop_first() =~= bounced((left - 1) as nat) + rest);
        lemma_escape_from(depth - 1, done + 1, (left - 1) as nat, rest);
    }
}

/// A path that never leaves the scene brings nothing.
pub proof fn lemma_closed_scene_is_black(depth: int, events: Seq<Event>)
    requires
        events.len() >= depth,
        forall|i: int| 0 <= i < depth ==> events[i] == Event::Hit,
    ensures
        run(start(depth), events) == State::Done(Radiance::Black),
{
    if depth > 0 {
        lemma_closed_from(depth, 0, events);
    } else {
        lemma_done_is_final(Radiance::Black, events);
    }
}

proof fn lemma_closed_from(depth: int, bounces: nat, events: Seq<Event>)
    requires
        0 < depth <= events.len(),
        forall|i: int| 0 <= i < depth ==> events[i] == Event::Hit,
    ensures
        run(State::Tracing { depth, bounces }, events) == State::Done(Radiance::Black),
    decreases depth,
{
    let rest = events.drop_first();
    if depth == 1 {
        lemma_done_is_final(Radiance::Black, rest);
    } else {
        assert forall|i: int| 0 <= i < depth - 1 implies rest[i] == Event::Hit by {
            assert(rest[i] == events[i + 1]);
        }
        lemma_closed_from(depth - 1, bounces + 1, rest);
    }
}

/// The integrator returns: whatever the scene answers, a path with a budget
/// of `depth` has ended once the ray was intersected `depth` times.
pub proof fn lemma_budget_ends_path(depth: int, events: Seq<Event>)
    requires
        events.len() >= depth,
    ensures
        run(start(depth), events) is Done,
{
    lemma_tracing_ends(start(depth), events);
}

proof fn lemma_tracing_ends(state: State, events: Seq<Event>)
    requires
        state matches State::Tracing { depth, .. } ==> 0 < depth <= events.len(),
    ensures
        run(state, events) is Done,
    decreases events.len(),
{
    match state {
        State::Done(radiance) => {
            lemma_done_is_final(radiance, events);
        },
        State::Tracing { depth, bounces } => {
            lemma_tracing_ends(next(state, events.first()), events.drop_first());
        },
    }
}

} // verus!
