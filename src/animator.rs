use vstd::prelude::*;
use crate::callback::{Callback, optional};

verus! {

/// One frame of an animation state: the visual frame shown and for how many
/// updates it is shown.
#[derive(PartialEq, Eq, Structural, Clone, Copy, Debug)]
pub struct Frame {
    pub index: usize,
    pub duration: u32,
}

/// A frame of a derived state: which frame of the source state to show, and
/// for how long.
#[derive(PartialEq, Eq, Structural, Clone, Copy, Debug)]
pub struct DerivedFrame {
    pub frame_index: usize,
    pub duration: u32,
}

/// A named animation state: an ordered, non-empty list of frames.
#[derive(Debug)]
pub struct AnimationState {
    pub name: String,
    pub frames: Vec<Frame>,
}

/// `b` holds what `a` holds.
pub open spec fn same_state(a: AnimationState, b: AnimationState) -> bool {
    a.name == b.name && a.frames@ == b.frames@
}

impl Clone for AnimationState {
    fn clone(&self) -> (r: AnimationState)
        ensures
            same_state(*self, r),
    {
        let frames = self.frames.clone();
        proof {
            assert(frames@ =~= self.frames@);
        }
        AnimationState { name: self.name.clone(), frames }
    }
}

/// A callback fired when playback enters frame `frame` of the current state.
#[derive(PartialEq, Eq, Structural, Clone, Copy, Debug)]
pub struct FrameCallback {
    pub frame: usize,
    pub callback: Callback,
}

/// A state machine over named animation states. It never runs callbacks: the
/// operations that would fire some hand them back to be queued.
#[derive(Debug)]
pub struct Animator {
    pub states: Vec<AnimationState>,
    pub current: Option<usize>,
    pub frame: usize,
    pub elapsed: u32,
    pub looping: bool,
    pub complete: bool,
    pub enabled: bool,
    pub on_complete: Option<Callback>,
    pub on_interrupt: Option<Callback>,
    pub frame_callbacks: Vec<FrameCallback>,
}

/// Index of the first state named `name`, or the number of states.
pub open spec fn find_state(states: Seq<AnimationState>, name: Seq<char>) -> int
    decreases states.len(),
{
    if states.len() == 0 {
        0
    } else if states[0].name@ == name {
        0
    } else {
        1 + find_state(states.drop_first(), name)
    }
}

proof fn lemma_find_state(states: Seq<AnimationState>, name: Seq<char>, i: int)
    requires
        0 <= i <= states.len(),
        forall|j: int| 0 <= j < i ==> (#[trigger] states[j]).name@ != name,
        i == states.len() || states[i].name@ == name,
    ensures
        find_state(states, name) == i,
    decreases i,
{
    if i > 0 {
        let rest = states.drop_first();
        assert forall|j: int| 0 <= j < i - 1 implies (#[trigger] rest[j]).name@ != name by {
            assert(rest[j] == states[j + 1]);
        }
        lemma_find_state(rest, name, i - 1);
    }
}

/// The callbacks registered for frame `f`, in registration order.
pub open spec fn frame_events(cbs: Seq<FrameCallback>, f: usize) -> Seq<Callback> {
    cbs.filter(|c: FrameCallback| c.frame == f).map_values(|c: FrameCallback| c.callback)
}

/// The frames of a derived state: each picks a frame of `src` and gives it a
/// new duration.
pub open spec fn derived_frames(src: Seq<Frame>, d: Seq<DerivedFrame>) -> Seq<Frame> {
    Seq::new(
        d.len(),
        |i: int| Frame { index: src[d[i].frame_index as int].index, duration: d[i].duration },
    )
}

/// `b` holds what `a` holds.
pub open spec fn same_animator(a: Animator, b: Animator) -> bool {
    &&& a.states@.len() == b.states@.len()
    &&& forall|i: int| 0 <= i < a.states@.len() ==> same_state(#[trigger] a.states@[i], b.states@[i])
    &&& a.current == b.current
    &&& a.frame == b.frame
    &&& a.elapsed == b.elapsed
    &&& a.looping == b.looping
    &&& a.complete == b.complete
    &&& a.enabled == b.enabled
    &&& a.on_complete == b.on_complete
    &&& a.on_interrupt == b.on_interrupt
    &&& a.frame_callbacks@ == b.frame_callbacks@
}

impl Clone for Animator {
    fn clone(&self) -> (r: Animator)
        ensures
            same_animator(*self, r),
    {
        let states = self.states.clone();
        let frame_callbacks = self.frame_callbacks.clone();
        proof {
            assert(frame_callbacks@ =~= self.frame_callbacks@);
        }
        Animator {
            states,
            current: self.current,
            frame: self.frame,
            elapsed: self.elapsed,
            looping: self.looping,
            complete: self.complete,
            enabled: self.enabled,
            on_complete: self.on_complete,
            on_interrupt: self.on_interrupt,
            frame_callbacks,
        }
    }
}

/// Once a non-looping state has played out, further updates change nothing
/// and fire nothing; only switching state (which clears `complete`) re-arms
/// the completion callback.
pub proof fn lemma_completed_stays(a: Animator, k: int)
    requires
        a.complete,
    ensures
        a.ticked() == (a, Seq::<Callback>::empty()),
        !a.started(k).0.complete,
        a.started(k).0.on_complete.is_none(),
{
}

/// A copy of a well-formed animator is well formed.
pub proof fn lemma_same_animator_wf(a: Animator, b: Animator)
    requires
        a.wf(),
        same_animator(a, b),
    ensures
        b.wf(),
{
    assert forall|i: int| 0 <= i < b.states@.len() implies (#[trigger] b.states@[i]).frames@.len() > 0 by {
        assert(same_state(a.states@[i], b.states@[i]));
    }
    if b.current.is_some() {
        assert(same_state(a.states@[a.current.unwrap() as int], b.states@[b.current.unwrap() as int]));
    }
}

impl Animator {
    pub open spec fn wf(&self) -> bool {
        &&& forall|i: int| 0 <= i < self.states@.len() ==> (#[trigger] self.states@[i]).frames@.len() > 0
        &&& self.current.is_some() ==> {
            let s = self.current.unwrap() as int;
            &&& 0 <= s < self.states@.len()
            &&& self.frame < self.states@[s].frames@.len()
            &&& (self.elapsed < self.states@[s].frames@[self.frame as int].duration || self.elapsed
                == 0)
        }
    }

    /// Duration of the frame being shown.
    pub open spec fn frame_duration(&self) -> u32 {
        self.states@[self.current.unwrap() as int].frames@[self.frame as int].duration
    }

    /// Number of frames of the current state.
    pub open spec fn frame_count(&self) -> int {
        self.states@[self.current.unwrap() as int].frames@.len() as int
    }

    /// One update: the animator after it, and the callbacks it fires.
    pub open spec fn ticked(self) -> (Animator, Seq<Callback>) {
        if !self.enabled || self.current.is_none() || self.complete {
            (self, seq![])
        } else if self.elapsed + 1 < self.frame_duration() {
            (Animator { elapsed: (self.elapsed + 1) as u32, ..self }, seq![])
        } else if self.frame + 1 < self.frame_count() {
            (
                Animator { frame: (self.frame + 1) as usize, elapsed: 0, ..self },
                frame_events(self.frame_callbacks@, (self.frame + 1) as usize),
            )
        } else if self.looping {
            (Animator { frame: 0, elapsed: 0, ..self }, frame_events(self.frame_callbacks@, 0))
        } else {
            (Animator { complete: true, ..self }, optional(self.on_complete))
        }
    }

    /// Switching to state `k`: playback restarts at its first frame, the
    /// completion and interrupt callbacks tied to the state left are dropped,
    /// and the callbacks of the first frame fire at once.
    pub open spec fn started(self, k: int) -> (Animator, Seq<Callback>) {
        (
            Animator {
                current: Some(k as usize),
                frame: 0,
                elapsed: 0,
                complete: false,
                on_complete: None,
                on_interrupt: None,
                ..self
            },
            frame_events(self.frame_callbacks@, 0),
        )
    }

    pub fn new() -> (r: Animator)
        ensures
            r.wf(),
            r.states@.len() == 0,
            r.current.is_none(),
            r.enabled,
            !r.complete,
            !r.looping,
            r.on_complete.is_none() && r.on_interrupt.is_none(),
            r.frame_callbacks@.len() == 0,
    {
        Animator {
            states: Vec::new(),
            current: None,
            frame: 0,
            elapsed: 0,
            looping: false,
            complete: false,
            enabled: true,
            on_complete: None,
            on_interrupt: None,
            frame_callbacks: Vec::new(),
        }
    }

    /// Adds a state to the table. A state without frames is refused.
    pub fn add_state(&mut self, name: String, frames: Vec<Frame>) -> (r: bool)
        requires
            old(self).wf(),
        ensures
            final(self).wf(),
            r == (frames@.len() > 0),
            r ==> final(self).states@ == old(self).states@.push(
                AnimationState { name, frames },
            ),
            r ==> final(self).states@.last().name@ == name@ && final(self).states@.last().frames@
                == frames@,
            !r ==> *final(self) == *old(self),
            *final(self) == (Animator { states: final(self).states, ..*old(self) }),
    {
        if frames.len() == 0 {
            return false;
        }
        let ghost old_states = self.states@;
        self.states.push(AnimationState { name, frames });
        proof {
            assert forall|i: int| 0 <= i < self.states@.len() implies (
            #[trigger] self.states@[i]).frames@.len() > 0 by {
                if i < old_states.len() {
                    assert(self.states@[i] == old_states[i]);
                }
            }
        }
        true
    }

    /// Adds the state `name`, which shows frames of the state `source` on the
    /// schedule `frames`. Refused when `source` is unknown, when `frames` is
    /// empty, or when it points past the frames of `source`.
    pub fn derive_state(&mut self, source: &String, name: String, frames: &Vec<DerivedFrame>) -> (r:
        bool)
        requires
            old(self).wf(),
        ensures
            final(self).wf(),
            ({
                let k = find_state(old(self).states@, source@);
                r == (k < old(self).states@.len() && frames@.len() > 0 && forall|i: int|
                    0 <= i < frames@.len() ==> (#[trigger] frames@[i]).frame_index
                        < old(self).states@[k].frames@.len())
            }),
            r ==> final(self).states@.len() == old(self).states@.len() + 1,
            r ==> final(self).states@.drop_last() == old(self).states@,
            r ==> final(self).states@.last().name@ == name@,
            r ==> final(self).states@.last().frames@ == derived_frames(
                old(self).states@[find_state(old(self).states@, source@)].frames@,
                frames@,
            ),
            !r ==> *final(self) == *old(self),
            *final(self) == (Animator { states: final(self).states, ..*old(self) }),
    {
        let k = match self.find(source) {
            Some(k) => k,
            None => return false,
        };
        if frames.len() == 0 {
            return false;
        }
        let mut out: Vec<Frame> = Vec::new();
        let mut i: usize = 0;
        while i < frames.len()
            invariant
                0 <= i <= frames@.len(),
                k < self.states@.len(),
                *self == *old(self),
                old(self).wf(),
                k == find_state(old(self).states@, source@),
                out@.len() == i,
                forall|j: int|
                    0 <= j < i ==> (#[trigger] frames@[j]).frame_index < self.states@[k as int].frames@.len(),
                forall|j: int|
                    0 <= j < i ==> #[trigger] out@[j] == (Frame {
                        index: self.states@[k as int].frames@[frames@[j].frame_index as int].index,
                        duration: frames@[j].duration,
                    }),
            decreases frames@.len() - i,
        {
            let d = frames[i];
            if d.frame_index >= self.states[k].frames.len() {
                proof {
                    assert(!((frames@[i as int]).frame_index < self.states@[k as int].frames@.len()));
                }
                return false;
            }
            out.push(Frame { index: self.states[k].frames[d.frame_index].index, duration: d.duration });
            i += 1;
        }
        proof {
            assert(out@ =~= derived_frames(self.states@[k as int].frames@, frames@));
        }
        let ghost before = self.states@;
        self.states.push(AnimationState { name, frames: out });
        proof {
            assert(self.states@.drop_last() =~= before);
            assert forall|j: int| 0 <= j < self.states@.len() implies (
            #[trigger] self.states@[j]).frames@.len() > 0 by {
                if j < before.len() {
                    assert(self.states@[j] == before[j]);
                }
            }
        }
        true
    }

    /// Looks a state up by name.
    pub fn find(&self, name: &String) -> (r: Option<usize>)
        ensures
            r.is_some() <==> find_state(self.states@, name@) < self.states@.len(),
            r.is_some() ==> r.unwrap() == find_state(self.states@, name@),
    {
        let mut i: usize = 0;
        while i < self.states.len() && !self.states[i].name.eq(name)
            invariant
                0 <= i <= self.states@.len(),
                forall|j: int| 0 <= j < i ==> (#[trigger] self.states@[j]).name@ != name@,
            decreases self.states@.len() - i,
        {
            i += 1;
        }
        proof {
            lemma_find_state(self.states@, name@, i as int);
        }
        if i < self.states.len() {
            Some(i)
        } else {
            None
        }
    }

    pub fn has_state(&self, name: &String) -> (r: bool)
        ensures
            r == (find_state(self.states@, name@) < self.states@.len()),
    {
        self.find(name).is_some()
    }

    /// Switches to the state `name` at its first frame (see `started`) and
    /// returns the callbacks of that frame. An unknown name changes nothing.
    pub fn set_state(&mut self, name: &String) -> (r: Vec<Callback>)
        requires
            old(self).wf(),
        ensures
            final(self).wf(),
            find_state(old(self).states@, name@) < old(self).states@.len() ==> (*final(self), r@)
                == old(self).started(find_state(old(self).states@, name@)),
            find_state(old(self).states@, name@) >= old(self).states@.len() ==> r@.len() == 0
                && *final(self) == *old(self),
    {
        match self.find(name) {
            None => Vec::new(),
            Some(k) => {
                self.current = Some(k);
                self.frame = 0;
                self.elapsed = 0;
                self.complete = false;
                self.on_complete = None;
                self.on_interrupt = None;
                self.events_for(0)
            },
        }
    }

    /// The callbacks registered for frame `f`, in registration order.
    fn events_for(&self, f: usize) -> (r: Vec<Callback>)
        ensures
            r@ == frame_events(self.frame_callbacks@, f),
    {
        let mut out: Vec<Callback> = Vec::new();
        let mut i: usize = 0;
        let ghost cbs = self.frame_callbacks@;
        while i < self.frame_callbacks.len()
            invariant
                0 <= i <= cbs.len(),
                cbs == self.frame_callbacks@,
                out@ == frame_events(cbs.take(i as int), f),
            decreases cbs.len() - i,
        {
            proof {
                reveal(Seq::filter);
                assert(cbs.take(i as int + 1).drop_last() == cbs.take(i as int));
            }
            let c = self.frame_callbacks[i];
            if c.frame == f {
                out.push(c.callback);
            }
            proof {
                let pre = cbs.take(i as int).filter(|c: FrameCallback| c.frame == f);
                let post = cbs.take(i as int + 1).filter(|c: FrameCallback| c.frame == f);
                if c.frame == f {
                    assert(post == pre.push(c));
                    assert(post.map_values(|c: FrameCallback| c.callback) =~= pre.map_values(
                        |c: FrameCallback| c.callback,
                    ).push(c.callback));
                } else {
                    assert(post == pre);
                }
            }
            i += 1;
        }
        proof {
            assert(cbs.take(cbs.len() as int) == cbs);
        }
        out
    }

    /// Advances playback by one update and returns the callbacks it fires:
    /// those of a frame entered, or the completion callback when a
    /// non-looping state plays out. A disabled, idle or completed animator
    /// does nothing.
    pub fn update(&mut self) -> (r: Vec<Callback>)
        requires
            old(self).wf(),
        ensures
            final(self).wf(),
            (*final(self), r@) == old(self).ticked(),
    {
        if !self.enabled || self.current.is_none() || self.complete {
            return Vec::new();
        }
        let s = self.current.unwrap();
        let count = self.states[s].frames.len();
        let duration = self.states[s].frames[self.frame].duration;
        if (self.elapsed as u64) + 1 < duration as u64 {
            self.elapsed = self.elapsed + 1;
            Vec::new()
        } else if self.frame + 1 < count {
            self.frame = self.frame + 1;
            self.elapsed = 0;
            self.events_for(self.frame)
        } else if self.looping {
            self.frame = 0;
            self.elapsed = 0;
            self.events_for(0)
        } else {
            self.complete = true;
            let mut out: Vec<Callback> = Vec::new();
            if let Some(c) = self.on_complete {
                out.push(c);
            }
            proof {
                assert(out@ =~= optional(self.on_complete));
            }
            out
        }
    }

    pub fn enable(&mut self)
        ensures
            *final(self) == (Animator { enabled: true, ..*old(self) }),
    {
        self.enabled = true;
    }

    pub fn disable(&mut self)
        ensures
            *final(self) == (Animator { enabled: false, ..*old(self) }),
    {
        self.enabled = false;
    }

    pub fn set_looping(&mut self, looping: bool)
        ensures
            *final(self) == (Animator { looping, ..*old(self) }),
    {
        self.looping = looping;
    }

    pub fn on_complete(&mut self, callback: Callback)
        ensures
            *final(self) == (Animator { on_complete: Some(callback), ..*old(self) }),
    {
        self.on_complete = Some(callback);
    }

    pub fn on_interrupt(&mut self, callback: Callback)
        ensures
            *final(self) == (Animator { on_interrupt: Some(callback), ..*old(self) }),
    {
        self.on_interrupt = Some(callback);
    }

    /// Registers `callback` to fire whenever playback enters frame `frame`.
    pub fn on_frame(&mut self, frame: usize, callback: Callback)
        ensures
            final(self).frame_callbacks@ == old(self).frame_callbacks@.push(
                FrameCallback { frame, callback },
            ),
            final(self).states == old(self).states,
            final(self).current == old(self).current,
            final(self).frame == old(self).frame,
            final(self).elapsed == old(self).elapsed,
            final(self).complete == old(self).complete,
            final(self).enabled == old(self).enabled,
            final(self).looping == old(self).looping,
            final(self).on_complete == old(self).on_complete,
            final(self).on_interrupt == old(self).on_interrupt,
    {
        self.frame_callbacks.push(FrameCallback { frame, callback });
    }
}

} // verus!
