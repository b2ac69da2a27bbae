use vstd::prelude::*;

use crate::activation::{ActivationController, ActivationGuard, ActivationState};

verus! {

/// Seconds a device node waits after a failure before it looks for its
/// card again (more than this).
pub const DEVICE_COOLOFF_SECS: u64 = 4;

/// Sample layout a sound device is opened with.
#[derive(Clone, Copy, Debug, PartialEq, Eq, Structural)]
pub enum SampleFormat {
    S16,
    S32,
}

/// Hardware parameters of a sound device: interleaved access, `channels`
/// channels at `rate`, and a ring of `periods` periods of `period_size`
/// frames.
#[derive(Clone, Copy, Debug, PartialEq, Eq, Structural)]
pub struct AlsaHwParams {
    pub channels: u32,
    pub rate: u32,
    pub format: SampleFormat,
    pub periods: u32,
    pub period_size: i32,
}

impl Default for AlsaHwParams {
    /// Stereo, 48 kHz, 16-bit, two periods of 48 frames.
    fn default() -> (r: AlsaHwParams)
        ensures
            r == (AlsaHwParams { channels: 2, rate: 48000, format: SampleFormat::S16, periods: 2, period_size: 48 }),
    {
        AlsaHwParams { channels: 2, rate: 48000, format: SampleFormat::S16, periods: 2, period_size: 48 }
    }
}

impl AlsaHwParams {
    pub fn new_32ms() -> (r: AlsaHwParams)
        ensures
            r == (AlsaHwParams { channels: 2, rate: 48000, format: SampleFormat::S16, periods: 32, period_size: 48 }),
    {
        AlsaHwParams { periods: 32, ..AlsaHwParams::default() }
    }

    pub fn new_64ms() -> (r: AlsaHwParams)
        ensures
            r == (AlsaHwParams { channels: 2, rate: 48000, format: SampleFormat::S16, periods: 32, period_size: 48 }),
    {
        AlsaHwParams { periods: 32, ..AlsaHwParams::default() }
    }

    pub fn new_mono_32ms() -> (r: AlsaHwParams)
        ensures
            r == (AlsaHwParams { channels: 1, rate: 48000, format: SampleFormat::S16, periods: 32, period_size: 48 }),
    {
        AlsaHwParams { channels: 1, periods: 32, ..AlsaHwParams::default() }
    }

    pub fn new_44100hz_64ms() -> (r: AlsaHwParams)
        ensures
            r == (AlsaHwParams { channels: 2, rate: 44100, format: SampleFormat::S16, periods: 32, period_size: 48 }),
    {
        AlsaHwParams { rate: 44100, periods: 32, ..AlsaHwParams::default() }
    }

    pub fn new_44100hz_32ms() -> (r: AlsaHwParams)
        ensures
            r == (AlsaHwParams { channels: 2, rate: 44100, format: SampleFormat::S16, periods: 32, period_size: 48 }),
    {
        AlsaHwParams { rate: 44100, periods: 32, ..AlsaHwParams::default() }
    }
}

/// Software parameters of a sound device, in frames.
#[derive(Clone, Copy, Debug, PartialEq, Eq, Structural)]
pub struct AlsaSwParams {
    pub avail_min: i32,
    pub start_threshold: i32,
}

impl Default for AlsaSwParams {
    fn default() -> (r: AlsaSwParams)
        ensures
            r == (AlsaSwParams { avail_min: 0, start_threshold: 0 }),
    {
        AlsaSwParams { avail_min: 0, start_threshold: 0 }
    }
}

impl AlsaSwParams {
    pub fn new_2ms() -> (r: AlsaSwParams)
        ensures
            r == (AlsaSwParams { avail_min: 96, start_threshold: 96 }),
    {
        AlsaSwParams { avail_min: 48 * 2, start_threshold: 48 * 2 }
    }

    pub fn new_4ms() -> (r: AlsaSwParams)
        ensures
            r == (AlsaSwParams { avail_min: 192, start_threshold: 192 }),
    {
        AlsaSwParams { avail_min: 48 * 4, start_threshold: 48 * 4 }
    }

    pub fn new_16ms() -> (r: AlsaSwParams)
        ensures
            r == (AlsaSwParams { avail_min: 768, start_threshold: 768 }),
    {
        AlsaSwParams { avail_min: 48 * 16, start_threshold: 48 * 16 }
    }

    pub fn new_32ms() -> (r: AlsaSwParams)
        ensures
            r == (AlsaSwParams { avail_min: 1536, start_threshold: 1536 }),
    {
        AlsaSwParams { avail_min: 48 * 32, start_threshold: 48 * 32 }
    }
}

/// What a device node without an open device should do this tick.
#[derive(Clone, Copy, Debug, PartialEq, Eq, Structural)]
pub enum SeekAction {
    /// Nothing this tick.
    Wait,
    /// Open the device now (the activation permit is held).
    Open,
    /// The card is not listed: start a new cool-off, restarting its clock.
    StartCooloff,
}

/// How an attempt to open the device went.
#[derive(Clone, Copy, Debug, PartialEq, Eq, Structural)]
pub enum OpenOutcome {
    Failed,
    /// The device opened; `configured` says whether its hardware
    /// parameters could be set.
    Opened { configured: bool },
}

/// What a status read of an open device found.
#[derive(Clone, Copy, Debug, PartialEq, Eq, Structural)]
pub enum PcmHealth {
    /// The status could not be read.
    Unreadable,
    Disconnected,
    /// An overrun; `recovered` says whether preparing the device again
    /// brought it back.
    Overrun { recovered: bool },
    /// Any other state.
    Fine,
}

/// What an open device node should do this tick.
#[derive(Clone, Copy, Debug, PartialEq, Eq, Structural)]
pub enum DeviceTick {
    /// Drop the device and start a new cool-off, restarting its clock.
    Close,
    /// Pause the device; no I/O this tick.
    Pause,
    /// Resume the device; no I/O this tick.
    Resume,
    /// Move samples this tick.
    Io,
    /// Paused: no I/O this tick.
    Idle,
}

/// State of a node that drives a sound device: whether the device is open,
/// whether it is cooling off after a failure, whether it is paused while
/// another device activates, and the activation permit while it holds one.
pub struct DeviceControl {
    open: bool,
    cooloff: bool,
    paused: bool,
    guard: Option<ActivationGuard>,
}

/// The decision for an open device, from its `paused` flag, what its status
/// read found and what a probe of the activation permit saw. Returns the
/// new `paused` flag and the action.
pub open spec fn device_check(paused: bool, health: PcmHealth, probe: ActivationState) -> (bool, DeviceTick) {
    match health {
        PcmHealth::Unreadable | PcmHealth::Disconnected | PcmHealth::Overrun { recovered: false } => (
            false,
            DeviceTick::Close,
        ),
        PcmHealth::Overrun { recovered: true } => (paused, if paused { DeviceTick::Idle } else { DeviceTick::Io }),
        PcmHealth::Fine => if (probe is Activating) && !paused {
            (true, DeviceTick::Pause)
        } else if (probe is Running) && paused {
            (false, DeviceTick::Resume)
        } else {
            (paused, if paused { DeviceTick::Idle } else { DeviceTick::Io })
        },
    }
}

impl DeviceControl {
    pub closed spec fn is_open(&self) -> bool {
        self.open
    }

    pub closed spec fn cooling_off(&self) -> bool {
        self.cooloff
    }

    pub closed spec fn is_paused(&self) -> bool {
        self.paused
    }

    pub closed spec fn holds_permit(&self) -> bool {
        self.guard is Some
    }

    /// No device, no cool-off.
    pub fn new() -> (r: DeviceControl)
        ensures
            !r.is_open(),
            !r.cooling_off(),
            !r.is_paused(),
            !r.holds_permit(),
    {
        DeviceControl { open: false, cooloff: false, paused: false, guard: None }
    }

    pub fn open(&self) -> (r: bool)
        ensures
            r == self.is_open(),
    {
        self.open
    }

    pub fn paused(&self) -> (r: bool)
        ensures
            r == self.is_paused(),
    {
        self.paused
    }

    /// One tick without an open device. A cool-off that has not lasted
    /// more than `DEVICE_COOLOFF_SECS` makes it wait; once over, the card
    /// is looked for: if it is listed the node first takes the activation
    /// permit (waiting this tick, and trying again next tick if the permit
    /// was taken) and then opens the device; if it is not listed a new
    /// cool-off starts.
    pub fn seek(&mut self, cooloff_secs: u64, card_listed: bool, controller: &ActivationController) -> (r: SeekAction)
        requires
            !old(self).is_open(),
        ensures
            !final(self).is_open(),
            final(self).is_paused() == old(self).is_paused(),
            old(self).cooling_off() && cooloff_secs <= DEVICE_COOLOFF_SECS ==> r == SeekAction::Wait
                && final(self).cooling_off() && final(self).holds_permit() == old(self).holds_permit(),
            !(old(self).cooling_off() && cooloff_secs <= DEVICE_COOLOFF_SECS) ==> {
                &&& card_listed && !old(self).holds_permit() ==> r == SeekAction::Wait && !final(self).cooling_off()
                &&& card_listed && old(self).holds_permit() ==> r == SeekAction::Open && !final(self).cooling_off()
                    && final(self).holds_permit()
                &&& !card_listed ==> r == SeekAction::StartCooloff && final(self).cooling_off()
                    && final(self).holds_permit() == old(self).holds_permit()
            },
    {
        if self.cooloff {
            if cooloff_secs > DEVICE_COOLOFF_SECS {
                self.cooloff = false;
            } else {
                return SeekAction::Wait;
            }
        }
        if card_listed {
            if self.guard.is_none() {
                self.guard = controller.activate();
                return SeekAction::Wait;
            }
            SeekAction::Open
        } else {
            self.cooloff = true;
            SeekAction::StartCooloff
        }
    }

    /// Records how opening the device went; the permit is given back either
    /// way. Returns whether a new cool-off starts: on failure, or when the
    /// device opened without its hardware parameters.
    pub fn opened(&mut self, outcome: OpenOutcome) -> (r: bool)
        ensures
            !final(self).holds_permit(),
            !final(self).is_paused(),
            final(self).is_open() == (outcome is Opened),
            r == (outcome == OpenOutcome::Failed || outcome == (OpenOutcome::Opened { configured: false })),
            final(self).cooling_off() == r,
    {
        self.guard = None;
        self.paused = false;
        match outcome {
            OpenOutcome::Failed => {
                self.open = false;
                self.cooloff = true;
                true
            },
            OpenOutcome::Opened { configured } => {
                self.open = true;
                self.cooloff = !configured;
                !configured
            },
        }
    }

    /// One tick with an open device, by `device_check`. Closing starts a
    /// cool-off.
    pub fn check(&mut self, health: PcmHealth, probe: ActivationState) -> (r: DeviceTick)
        requires
            old(self).is_open(),
        ensures
            (final(self).is_paused(), r) == device_check(old(self).is_paused(), health, probe),
            final(self).is_open() == (r != DeviceTick::Close),
            final(self).cooling_off() == (r == DeviceTick::Close || old(self).cooling_off()),
            final(self).holds_permit() == old(self).holds_permit(),
    {
        match health {
            PcmHealth::Unreadable | PcmHealth::Disconnected | PcmHealth::Overrun { recovered: false } => {
                self.open = false;
                self.cooloff = true;
                self.paused = false;
                DeviceTick::Close
            },
            PcmHealth::Overrun { recovered: true } => {
                if self.paused {
                    DeviceTick::Idle
                } else {
                    DeviceTick::Io
                }
            },
            PcmHealth::Fine => {
                let activating = probe.activating();
                let running = probe.running();
                if activating && !self.paused {
                    self.paused = true;
                    DeviceTick::Pause
                } else if running && self.paused {
                    self.paused = false;
                    DeviceTick::Resume
                } else if self.paused {
                    DeviceTick::Idle
                } else {
                    DeviceTick::Io
                }
            },
        }
    }
}

/// How many frames a playback node pads with silence and then writes.
#[derive(Clone, Copy, Debug, PartialEq, Eq, Structural)]
pub struct PlaybackPlan {
    pub pad_frames: usize,
    pub write_frames: usize,
}

/// The playback plan: when the device has less than one period queued
/// (`pcm_max - pcm_avail` frames), that many frames of silence are added to
/// the input first so the device does not run dry; then as many stereo
/// frames are written as both the device has room for and the input
/// (counting the padding) holds.
pub open spec fn playback_plan_spec(input_len: int, pcm_avail: int, pcm_max: int, pcm_period: int) -> PlaybackPlan {
    let queued = if pcm_max > pcm_avail { pcm_max - pcm_avail } else { 0 };
    let pad = if queued < pcm_period { queued } else { 0 };
    let have = input_len / 2 + pad;
    PlaybackPlan { pad_frames: pad as usize, write_frames: (if pcm_avail < have { pcm_avail } else { have }) as usize }
}

pub fn playback_plan(input_len: usize, pcm_avail: usize, pcm_max: usize, pcm_period: usize) -> (r: PlaybackPlan)
    requires
        pcm_max <= usize::MAX / 2,
    ensures
        r == playback_plan_spec(input_len as int, pcm_avail as int, pcm_max as int, pcm_period as int),
{
    let queued = if pcm_max > pcm_avail { pcm_max - pcm_avail } else { 0 };
    let pad = if queued < pcm_period { queued } else { 0 };
    let have = input_len / 2 + pad;
    PlaybackPlan { pad_frames: pad, write_frames: if pcm_avail < have { pcm_avail } else { have } }
}

/// Frames a capture node reads this tick: nothing until the device has
/// gathered `start_threshold` frames once (`reading` then becomes true),
/// then everything available.
pub fn capture_frames(reading: &mut bool, avail: usize, start_threshold: usize) -> (r: usize)
    ensures
        *final(reading) == (*old(reading) || avail >= start_threshold),
        r == if *final(reading) { avail } else { 0 },
{
    if !*reading && avail >= start_threshold {
        *reading = true;
    }
    if *reading {
        avail
    } else {
        0
    }
}

} // verus!
