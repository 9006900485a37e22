use crate::errors::ErrorKind;
use vstd::prelude::*;

verus! {

/// The three states of the playback session controller.
#[derive(Clone, Copy, Debug, PartialEq, Eq, Structural)]
pub enum PlaybackState {
    Idle,
    Playing,
    Paused,
}

/// The mathematical value of a [`PlaybackController`].
pub ghost struct ControllerView {
    pub state: PlaybackState,
    pub active: Option<i64>,
}

/// Controller invariant: a session (the id of its track) is held exactly
/// when the controller is not `Idle`.
pub open spec fn controller_inv(m: ControllerView) -> bool {
    (m.state is Idle) <==> (m.active is None)
}

/// `play` is valid from any state. When the backend opened the new
/// session (`opened`), the previous session is discarded and the
/// controller plays the new track; when the backend failed, nothing
/// changes and `PlaybackError` is reported.
pub open spec fn step_play(m: ControllerView, track_id: i64, opened: bool) -> (
    ControllerView,
    Result<(), ErrorKind>,
) {
    if opened {
        (
            (ControllerView { state: PlaybackState::Playing, active: Some(track_id) }),
            Ok(()),
        )
    } else {
        (m, Err(ErrorKind::PlaybackError))
    }
}

/// `pause` is valid only from `Playing`; elsewhere it reports
/// `InvalidState` and does not transition.
pub open spec fn step_pause(m: ControllerView) -> (ControllerView, Result<(), ErrorKind>) {
    if m.state is Playing {
        ((ControllerView { state: PlaybackState::Paused, active: m.active }), Ok(()))
    } else {
        (m, Err(ErrorKind::InvalidState))
    }
}

/// `resume` is valid only from `Paused`.
pub open spec fn step_resume(m: ControllerView) -> (ControllerView, Result<(), ErrorKind>) {
    if m.state is Paused {
        ((ControllerView { state: PlaybackState::Playing, active: m.active }), Ok(()))
    } else {
        (m, Err(ErrorKind::InvalidState))
    }
}

/// `stop` is valid from `Playing` or `Paused` and releases the session.
pub open spec fn step_stop(m: ControllerView) -> (ControllerView, Result<(), ErrorKind>) {
    if m.state is Playing || m.state is Paused {
        ((ControllerView { state: PlaybackState::Idle, active: None }), Ok(()))
    } else {
        (m, Err(ErrorKind::InvalidState))
    }
}

/// Finite-state controller over the single audio session: `Idle`,
/// `Playing` or `Paused`, holding the id of the active track outside
/// `Idle`. Opening and tearing down the actual audio sink is the
/// caller's business; the controller decides the transitions. The caller
/// is expected to stop the discarded sink when a new `play` succeeds.
pub struct PlaybackController {
    state: PlaybackState,
    active: Option<i64>,
}

impl View for PlaybackController {
    type V = ControllerView;

    closed spec fn view(&self) -> ControllerView {
        ControllerView { state: self.state, active: self.active }
    }
}

impl PlaybackController {
    /// A fresh controller, idle with no session.
    pub fn new() -> (c: PlaybackController)
        ensures
            c@.state is Idle,
            c@.active is None,
            controller_inv(c@),
    {
        PlaybackController { state: PlaybackState::Idle, active: None }
    }

    /// The current state.
    pub fn state(&self) -> (r: PlaybackState)
        ensures
            r == self@.state,
    {
        self.state
    }

    /// The id of the track whose session is active, if any.
    pub fn active_track(&self) -> (r: Option<i64>)
        ensures
            r == self@.active,
    {
        self.active
    }

    /// Record the outcome of asking the backend to open `track_id`'s
    /// session: transition per [`step_play`].
    pub fn play(&mut self, track_id: i64, opened: bool) -> (r: Result<(), ErrorKind>)
        requires
            controller_inv(old(self)@),
        ensures
            controller_inv(final(self)@),
            final(self)@ == step_play(old(self)@, track_id, opened).0,
            r == step_play(old(self)@, track_id, opened).1,
    {
        if opened {
            self.state = PlaybackState::Playing;
            self.active = Some(track_id);
            Ok(())
        } else {
            Err(ErrorKind::PlaybackError)
        }
    }

    /// Transition per [`step_pause`].
    pub fn pause(&mut self) -> (r: Result<(), ErrorKind>)
        requires
            controller_inv(old(self)@),
        ensures
            controller_inv(final(self)@),
            final(self)@ == step_pause(old(self)@).0,
            r == step_pause(old(self)@).1,
    {
        if self.state == PlaybackState::Playing {
            self.state = PlaybackState::Paused;
            Ok(())
        } else {
            Err(ErrorKind::InvalidState)
        }
    }

    /// Transition per [`step_resume`].
    pub fn resume(&mut self) -> (r: Result<(), ErrorKind>)
        requires
            controller_inv(old(self)@),
        ensures
            controller_inv(final(self)@),
            final(self)@ == step_resume(old(self)@).0,
            r == step_resume(old(self)@).1,
    {
        if self.state == PlaybackState::Paused {
            self.state = PlaybackState::Playing;
            Ok(())
        } else {
            Err(ErrorKind::InvalidState)
        }
    }

    /// Transition per [`step_stop`].
    pub fn stop(&mut self) -> (r: Result<(), ErrorKind>)
        requires
            controller_inv(old(self)@),
        ensures
            controller_inv(final(self)@),
            final(self)@ == step_stop(old(self)@).0,
            r == step_stop(old(self)@).1,
    {
        if self.state == PlaybackState::Playing || self.state == PlaybackState::Paused {
            self.state = PlaybackState::Idle;
            self.active = None;
            Ok(())
        } else {
            Err(ErrorKind::InvalidState)
        }
    }
}

} // verus!
