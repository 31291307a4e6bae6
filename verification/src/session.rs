//! The loop of a session: keys in, the view changed, a frame out, until a
//! key asks for the end.
//!
//! The caller gathers the keys that were pressed and draws what it is handed;
//! what happens to the view in between, and whether there is another frame,
//! is decided here.

use vstd::prelude::*;
use crate::render::{Geometry, Renderer, Uniforms};
use crate::view::{Key, ViewState};

verus! {

/// Whether a session goes on.
#[derive(Clone, Copy, Debug, PartialEq, Eq, Structural)]
pub enum LoopState {
    Running,
    /// The end was asked for: there are no more frames.
    Terminated,
}

/// How the loop comes by its keys.
#[derive(Clone, Copy, Debug, PartialEq, Eq, Structural)]
pub enum Schedule {
    /// Each frame waits until a key was pressed.
    BlockingWait,
    /// Each frame takes the keys that are there, and a pause follows it.
    FixedIntervalPoll,
}

/// The pause after a frame of a polling loop, in milliseconds.
pub const POLL_INTERVAL_MILLIS: u64 = 100;

impl Schedule {
    /// Whether a frame waits for a key before it goes on.
    pub fn waits_for_input(self) -> (r: bool)
        ensures
            r == (self == Schedule::BlockingWait),
    {
        match self {
            Schedule::BlockingWait => true,
            Schedule::FixedIntervalPoll => false,
        }
    }

    /// The pause after a frame, in milliseconds.
    pub open spec fn pause(self) -> u64 {
        match self {
            Schedule::BlockingWait => 0,
            Schedule::FixedIntervalPoll => POLL_INTERVAL_MILLIS,
        }
    }

    /// The pause after a frame, in milliseconds.
    pub fn pause_millis(self) -> (r: u64)
        ensures
            r == self.pause(),
    {
        match self {
            Schedule::BlockingWait => 0,
            Schedule::FixedIntervalPoll => POLL_INTERVAL_MILLIS,
        }
    }
}

/// The number of keys in front of the first that asks for the end: all of
/// them where none does.
pub open spec fn first_quit(keys: Seq<Key>) -> int
    decreases keys.len(),
{
    if keys.len() == 0 || keys[0].quits() {
        0
    } else {
        1 + first_quit(keys.skip(1))
    }
}

/// `first_quit` is the one place in front of which no key asks for the end
/// and at which the keys end or a key does ask for it.
pub proof fn lemma_first_quit(keys: Seq<Key>, n: int)
    requires
        0 <= n <= keys.len(),
        forall|k: int| 0 <= k < n ==> !(#[trigger] keys[k]).quits(),
        n < keys.len() ==> keys[n].quits(),
    ensures
        first_quit(keys) == n,
    decreases keys.len(),
{
    if keys.len() == 0 || keys[0].quits() {
        if n > 0 {
            assert(!keys[0].quits());
        }
    } else {
        let rest = keys.skip(1);
        assert forall|k: int| 0 <= k < n - 1 implies !(#[trigger] rest[k]).quits() by {
            assert(rest[k] == keys[k + 1]);
        }
        if n - 1 < rest.len() {
            assert(rest[n - 1] == keys[n]);
        }
        lemma_first_quit(rest, n - 1);
    }
}

/// What the caller does with a frame.
#[derive(Debug)]
pub enum Frame {
    /// Draw and present, then pause.
    Draw {
        /// The geometry to draw, where it is new; else the last one serves.
        geometry: Option<Geometry>,
        /// The parameters of the shading stage, where the backend has any.
        uniforms: Option<Uniforms>,
        /// The view that the frame shows.
        shown: ViewState,
        /// The pause after the frame, in milliseconds.
        pause_millis: u64,
    },
    /// Present the frame that was begun, draw nothing, and end.
    Finish,
    /// The session has ended: there is no frame.
    Ended,
}

/// A session of the explorer.
#[derive(Clone, Copy, Debug, PartialEq, Eq, Structural)]
pub struct RenderLoop {
    pub state: LoopState,
    pub view: ViewState,
    pub renderer: Renderer,
    pub schedule: Schedule,
    /// Whether each frame is followed by a step inwards.
    pub auto_zoom: bool,
}

impl RenderLoop {
    /// Whether the view of the session is valid.
    pub open spec fn wf(self) -> bool {
        self.view.wf()
    }

    /// Whether a running session can take `keys`: its view can take those in
    /// front of the first that asks for the end and, where none does, the
    /// density that they leave is at least half a unit, so that a lattice
    /// can be built, and an automatic zoom can take its step.
    pub open spec fn admits(self, keys: Seq<Key>) -> bool {
        let heard = keys.take(first_quit(keys));
        let shown = self.view.after_all(heard);
        &&& self.view.accepts_all(heard)
        &&& first_quit(keys) == keys.len() ==> {
            &&& shown.density.units() > 0
            &&& self.auto_zoom ==> shown.accepts(Key::Enter)
        }
    }

    /// The view after a frame that showed `shown`.
    pub open spec fn view_after_frame(self, shown: ViewState) -> ViewState {
        if self.auto_zoom {
            shown.after(Key::Enter)
        } else {
            shown
        }
    }

    /// The renderer after a frame that showed `shown`.
    pub open spec fn renderer_after_frame(self, shown: ViewState) -> Renderer {
        if self.renderer.must_rebuild(shown) {
            Renderer { built_density: Some(shown.density), ..self.renderer }
        } else {
            self.renderer
        }
    }

    /// Whether a frame on `keys` leaves the session as `next` and gives
    /// `frame`.
    pub open spec fn framed(self, keys: Seq<Key>, next: RenderLoop, frame: Frame) -> bool {
        &&& self.wf() ==> next.wf()
        &&& next.schedule == self.schedule
        &&& next.auto_zoom == self.auto_zoom
        &&& self.state == LoopState::Terminated ==> next == self && frame is Ended
        &&& self.state == LoopState::Running ==> {
            let n = first_quit(keys);
            let shown = self.view.after_all(keys.take(n));
            if n < keys.len() {
                &&& frame is Finish
                &&& next.state == LoopState::Terminated
                &&& next.view == shown
                &&& next.renderer == self.renderer
            } else {
                &&& next.state == LoopState::Running
                &&& next.view == self.view_after_frame(shown)
                &&& next.renderer == self.renderer_after_frame(shown)
                &&& frame matches Frame::Draw { geometry, uniforms, shown: s, pause_millis }
                &&& s == shown
                &&& uniforms == self.renderer.uniforms_for(shown)
                &&& pause_millis == self.schedule.pause()
                &&& geometry is Some == self.renderer.must_rebuild(shown)
                &&& geometry matches Some(g) ==> g@ == self.renderer.geometry_for(shown)
            }
        }
    }

    /// A running session.
    pub fn new(view: ViewState, renderer: Renderer, schedule: Schedule, auto_zoom: bool) -> (r:
        RenderLoop)
        ensures
            r == (RenderLoop { state: LoopState::Running, view, renderer, schedule, auto_zoom }),
    {
        RenderLoop { state: LoopState::Running, view, renderer, schedule, auto_zoom }
    }

    /// Whether the session goes on.
    pub fn is_running(&self) -> (r: bool)
        ensures
            r == (self.state == LoopState::Running),
    {
        match self.state {
            LoopState::Running => true,
            LoopState::Terminated => false,
        }
    }

    /// Takes the keys that were pressed since the last frame and says what
    /// to do with this one.
    ///
    /// A session that has ended stays as it is. In a running one the keys
    /// change the view in their order, up to the first that asks for the end.
    /// Where one does, the session ends with the frame that was begun. Else
    /// the frame shows the view as the keys left it, with new geometry where
    /// the renderer needs it, and an automatic zoom then takes its step.
    pub fn frame(&mut self, keys: &Vec<Key>) -> (r: Frame)
        requires
            old(self).state == LoopState::Running ==> old(self).admits(keys@),
        ensures
            old(self).framed(keys@, *final(self), r),
    {
        if !self.is_running() {
            return Frame::Ended;
        }
        let heard: Vec<Key> = heard_keys(keys);
        self.view.apply_all(&heard);
        if heard.len() < keys.len() {
            self.state = LoopState::Terminated;
            return Frame::Finish;
        }
        let shown: ViewState = self.view;
        let geometry: Option<Geometry> = if self.renderer.needs_geometry(&shown) {
            Some(self.renderer.prepare_frame(&shown))
        } else {
            None
        };
        let uniforms: Option<Uniforms> = self.renderer.uniforms(&shown);
        if self.auto_zoom {
            self.view.apply(Key::Enter);
        }
        Frame::Draw { geometry, uniforms, shown, pause_millis: self.schedule.pause_millis() }
    }

    /// Takes the keys as `frame` does, where the session can take them; a
    /// running session that cannot is left as it is, and there is no frame.
    pub fn try_frame(&mut self, keys: &Vec<Key>) -> (r: Option<Frame>)
        ensures
            r is Some == (old(self).state == LoopState::Running ==> old(self).admits(keys@)),
            r is None ==> *final(self) == *old(self),
            r matches Some(frame) ==> old(self).framed(keys@, *final(self), frame),
    {
        if self.is_running() && !self.can_take(keys) {
            None
        } else {
            Some(self.frame(keys))
        }
    }

    /// Whether a running session can take `keys`.
    pub fn can_take(&self, keys: &Vec<Key>) -> (r: bool)
        ensures
            r == self.admits(keys@),
    {
        let heard: Vec<Key> = heard_keys(keys);
        if !self.view.can_apply_all(&heard) {
            return false;
        }
        if heard.len() < keys.len() {
            return true;
        }
        let mut shown: ViewState = self.view;
        shown.apply_all(&heard);
        shown.density.to_units() > 0 && (!self.auto_zoom || shown.can_apply(Key::Enter))
    }
}

/// The keys in front of the first that asks for the end.
pub fn heard_keys(keys: &Vec<Key>) -> (r: Vec<Key>)
    ensures
        r@ == keys@.take(first_quit(keys@)),
        0 <= first_quit(keys@) <= keys@.len(),
{
    let mut heard: Vec<Key> = Vec::new();
    let mut i: usize = 0;
    while i < keys.len()
        invariant
            0 <= i <= keys.len(),
            forall|k: int| 0 <= k < i ==> !(#[trigger] keys@[k]).quits(),
            heard@ == keys@.take(i as int),
        decreases keys.len() - i,
    {
        let key: Key = keys[i];
        if key.is_quit() {
            proof {
                lemma_first_quit(keys@, i as int);
            }
            return heard;
        }
        heard.push(key);
        assert(heard@ =~= keys@.take(i + 1));
        i = i + 1;
    }
    proof {
        lemma_first_quit(keys@, i as int);
    }
    heard
}

} // verus!
