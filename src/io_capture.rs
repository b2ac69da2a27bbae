use vstd::prelude::*;

use crate::activation::{ActivationController, ActivationGuard, ActivationState};

verus! {

/// Samples a network stream must deliver while activating before it is
/// considered live.
pub const ACTIVATION_SAMPLES: usize = 192000;

/// While streaming without new data, the output stays up as long as the
/// sample count is below this.
pub const STREAM_HOLD_SAMPLES: usize = 48000;

/// Seconds without data after which an activation is abandoned (more than this).
pub const ACTIVATION_TIMEOUT_SECS: u64 = 3;

/// Seconds without data after which a stream is dropped (at least this).
pub const STREAM_TIMEOUT_SECS: u64 = 2;

/// Backlog, in samples, past which a network reader stops feeding the
/// shared stream buffer and drops what it read instead.
pub const STREAM_BACKLOG_LIMIT: usize = 16384;

/// Whether a reader may add to a shared stream buffer holding `len` samples.
pub fn accepts_backlog(len: usize) -> (r: bool)
    ensures
        r == (len < STREAM_BACKLOG_LIMIT),
{
    len < STREAM_BACKLOG_LIMIT
}

#[derive(Clone, Copy, Debug, PartialEq, Eq, Structural)]
pub enum IoPhase {
    /// No stream; waiting for data.
    Idle,
    /// Data arrived and the activation permit is held while the stream
    /// proves itself.
    Activating,
    /// The stream is live and feeds the graph.
    Streaming,
}

/// What to do with the shared stream buffer this tick.
#[derive(Clone, Copy, Debug, PartialEq, Eq, Structural)]
pub enum StreamAction {
    Leave,
    /// Move all of it to the node's output.
    Drain,
    /// Empty it.
    Discard,
}

/// The decision of one tick.
#[derive(Clone, Copy, Debug, PartialEq, Eq, Structural)]
pub struct IoTick {
    /// The node's output is active.
    pub active: bool,
    pub stream: StreamAction,
    /// Data was received: restart the timeout clock.
    pub touch: bool,
}

/// State of the capture node of a network stream.
#[derive(Clone, Copy, Debug, PartialEq, Eq, Structural)]
pub struct IoCaptureState {
    pub phase: IoPhase,
    /// Streaming is paused while some device activation runs.
    pub paused: bool,
    pub samples: usize,
}

/// The decision table of one tick: `music_len` samples are waiting in the
/// stream buffer, `quiet_secs` seconds have gone by since data was last
/// received, `acquired` says whether an attempt to take the activation
/// permit succeeded, and `probe` is what a probe of the permit saw.
pub open spec fn io_step(
    s: IoCaptureState,
    music_len: usize,
    quiet_secs: u64,
    acquired: bool,
    probe: ActivationState,
) -> (IoCaptureState, IoTick) {
    let quiet = IoTick { active: false, stream: StreamAction::Leave, touch: false };
    match s.phase {
        IoPhase::Idle => if music_len > 0 && acquired {
            (IoCaptureState { phase: IoPhase::Activating, samples: 0, ..s }, IoTick { touch: true, ..quiet })
        } else {
            (s, quiet)
        },
        IoPhase::Activating => if music_len > 0 && s.samples > ACTIVATION_SAMPLES {
            (IoCaptureState { phase: IoPhase::Streaming, samples: 0, ..s }, quiet)
        } else if music_len == 0 && quiet_secs > ACTIVATION_TIMEOUT_SECS {
            (IoCaptureState { phase: IoPhase::Idle, ..s }, quiet)
        } else if music_len > 0 {
            (
                IoCaptureState {
                    samples: if s.samples + music_len > usize::MAX { usize::MAX } else { (s.samples + music_len) as usize },
                    ..s
                },
                IoTick { touch: true, ..quiet },
            )
        } else {
            (s, quiet)
        },
        IoPhase::Streaming => if music_len > 0 {
            let paused = match probe {
                ActivationState::Activating => true,
                ActivationState::Running => false,
                ActivationState::Unavailable => s.paused,
            };
            (
                IoCaptureState { paused, samples: 0, ..s },
                IoTick {
                    active: !paused,
                    stream: if paused { StreamAction::Discard } else { StreamAction::Drain },
                    touch: true,
                },
            )
        } else if s.samples < STREAM_HOLD_SAMPLES {
            (s, IoTick { active: !s.paused, ..quiet })
        } else if quiet_secs >= STREAM_TIMEOUT_SECS {
            (IoCaptureState { phase: IoPhase::Idle, ..s }, quiet)
        } else {
            (s, quiet)
        },
    }
}

impl IoCaptureState {
    pub fn new() -> (r: IoCaptureState)
        ensures
            r == (IoCaptureState { phase: IoPhase::Idle, paused: false, samples: 0 }),
    {
        IoCaptureState { phase: IoPhase::Idle, paused: false, samples: 0 }
    }

    /// Whether measuring the stream buffer also empties it: everywhere but
    /// while streaming, data that arrives is only a sign of life.
    pub fn clears_stream(&self) -> (r: bool)
        ensures
            r == !(self.phase is Streaming),
    {
        match self.phase {
            IoPhase::Streaming => false,
            _ => true,
        }
    }

    /// One tick of the decision table, `io_step`.
    pub fn step(&self, music_len: usize, quiet_secs: u64, acquired: bool, probe: ActivationState) -> (r: (
        IoCaptureState,
        IoTick,
    ))
        ensures
            r == io_step(*self, music_len, quiet_secs, acquired, probe),
    {
        let quiet = IoTick { active: false, stream: StreamAction::Leave, touch: false };
        match self.phase {
            IoPhase::Idle => {
                if music_len > 0 && acquired {
                    (IoCaptureState { phase: IoPhase::Activating, paused: self.paused, samples: 0 }, IoTick {
                        active: false,
                        stream: StreamAction::Leave,
                        touch: true,
                    })
                } else {
                    (*self, quiet)
                }
            },
            IoPhase::Activating => {
                if music_len > 0 && self.samples > ACTIVATION_SAMPLES {
                    (IoCaptureState { phase: IoPhase::Streaming, paused: self.paused, samples: 0 }, quiet)
                } else if music_len == 0 && quiet_secs > ACTIVATION_TIMEOUT_SECS {
                    (IoCaptureState { phase: IoPhase::Idle, paused: self.paused, samples: self.samples }, quiet)
                } else if music_len > 0 {
                    (IoCaptureState {
                        phase: self.phase,
                        paused: self.paused,
                        samples: self.samples.saturating_add(music_len),
                    }, IoTick { active: false, stream: StreamAction::Leave, touch: true })
                } else {
                    (*self, quiet)
                }
            },
            IoPhase::Streaming => {
                if music_len > 0 {
                    let paused = match probe {
                        ActivationState::Activating => true,
                        ActivationState::Running => false,
                        ActivationState::Unavailable => self.paused,
                    };
                    (IoCaptureState { phase: self.phase, paused, samples: 0 }, IoTick {
                        active: !paused,
                        stream: if paused { StreamAction::Discard } else { StreamAction::Drain },
                        touch: true,
                    })
                } else if self.samples < STREAM_HOLD_SAMPLES {
                    (*self, IoTick { active: !self.paused, stream: StreamAction::Leave, touch: false })
                } else if quiet_secs >= STREAM_TIMEOUT_SECS {
                    (IoCaptureState { phase: IoPhase::Idle, paused: self.paused, samples: self.samples }, quiet)
                } else {
                    (*self, quiet)
                }
            },
        }
    }
}

/// The capture side of a network stream: its state, and the activation
/// permit while it holds one.
pub struct IoCaptureControl {
    state: IoCaptureState,
    guard: Option<ActivationGuard>,
}

impl IoCaptureControl {
    pub closed spec fn state_spec(&self) -> IoCaptureState {
        self.state
    }

    /// The permit is held exactly while activating.
    pub closed spec fn holds_permit(&self) -> bool {
        self.guard is Some
    }

    pub fn new() -> (r: IoCaptureControl)
        ensures
            r.state_spec() == (IoCaptureState { phase: IoPhase::Idle, paused: false, samples: 0 }),
            !r.holds_permit(),
    {
        IoCaptureControl { state: IoCaptureState::new(), guard: None }
    }

    pub fn state(&self) -> (r: IoCaptureState)
        ensures
            r == self.state_spec(),
    {
        self.state
    }

    /// One tick: tries to take the permit when idle data arrives, probes it
    /// while streaming data arrives, and moves by `io_step` on what those
    /// calls gave. The permit is given back on leaving the activating phase.
    pub fn tick(&mut self, music_len: usize, quiet_secs: u64, controller: &ActivationController) -> (r: IoTick)
        requires
            old(self).holds_permit() == (old(self).state_spec().phase is Activating),
        ensures
            final(self).holds_permit() == (final(self).state_spec().phase is Activating),
            exists|acquired: bool, probe: ActivationState|
                (final(self).state_spec(), r) == #[trigger] io_step(old(self).state_spec(), music_len, quiet_secs, acquired, probe),
    {
        let mut acquired = false;
        if self.state.phase == IoPhase::Idle && music_len > 0 {
            let g = controller.activate();
            match g {
                Some(guard) => {
                    acquired = true;
                    self.guard = Some(guard);
                },
                None => {},
            }
        }
        let probe = if self.state.phase == IoPhase::Streaming && music_len > 0 {
            controller.is_activating()
        } else {
            ActivationState::Running
        };
        let (next, tick) = self.state.step(music_len, quiet_secs, acquired, probe);
        if next.phase != IoPhase::Activating {
            self.guard = None;
        }
        proof {
            if !(next.phase is Activating) {
                assert(!(self.guard is Some));
            } else {
                assert(self.guard is Some);
            }
        }
        self.state = next;
        tick
    }
}

} // verus!
