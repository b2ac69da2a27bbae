//! A fixed-topology audio dataflow engine: ring buffers of interleaved
//! 16-bit samples, mixing, node adapters and a graph that ticks its nodes in
//! dependency order.
//!
//! Each module states its contracts over the spec functions it defines;
//! the laws that relate several calls are its public proof functions
//! (`ring_buffer::lemma_capacity_bound`, `base_mix::lemma_inactive_input_ignored`,
//! `rate::lemma_rate_ratio`, `duck::lemma_duck_transitions`, ...).

pub mod activation;
pub mod base_mix;
pub mod callback;
pub mod card_hint;
pub mod capture;
pub mod channels;
pub mod copy_out;
pub mod device;
pub mod duck;
pub mod gated;
pub mod graph;
pub mod io_capture;
pub mod meter;
pub mod node;
pub mod playback;
pub mod rate;
pub mod ring_buffer;
pub mod volume;

pub use crate::activation::{ActivationController, ActivationGuard, ActivationState};
pub use crate::base_mix::BaseMix;
pub use crate::callback::{Callback, CallbackInner};
pub use crate::card_hint::{AlsaCardHint, find_card};
pub use crate::capture::{Capture, CaptureInner};
pub use crate::channels::MonoToStereo;
pub use crate::copy_out::{copy_out, copy_out_ring};
pub use crate::device::{
    AlsaHwParams, AlsaSwParams, DEVICE_COOLOFF_SECS, DeviceControl, DeviceTick, OpenOutcome, PcmHealth,
    PlaybackPlan, SampleFormat, SeekAction, capture_frames, playback_plan,
};
pub use crate::duck::{DUCK_HOLD_FRAMES, Duck, DuckState, Ducked};
pub use crate::gated::{GateState, Gated, SwitchState, Switched, pass_or_mute};
pub use crate::graph::{Graph, GraphNodeParams};
pub use crate::io_capture::{
    ACTIVATION_SAMPLES, ACTIVATION_TIMEOUT_SECS, IoCaptureControl, IoCaptureState, IoPhase, IoTick,
    STREAM_BACKLOG_LIMIT, STREAM_HOLD_SAMPLES, STREAM_TIMEOUT_SECS, StreamAction, accepts_backlog,
};
pub use crate::meter::{LedMeter, METER_LEVELS, leds_lit};
pub use crate::node::Node;
pub use crate::playback::{Playback, PlaybackInner};
pub use crate::rate::Rate;
pub use crate::ring_buffer::{DEFAULT_MAX_LENGTH, RingBuffer, RingSlice};
pub use crate::volume::{Volume, scale_sample};
