use audio_graph::{
    ActivationController, ActivationState, AlsaHwParams, AlsaSwParams, DeviceControl, DeviceTick, OpenOutcome,
    PcmHealth, PlaybackPlan, SampleFormat, SeekAction, capture_frames, playback_plan,
};

#[test]
fn device_parameters() {
    let hw = AlsaHwParams::new_44100hz_64ms();
    assert_eq!(hw.rate, 44100);
    assert_eq!(hw.periods, 32);
    assert_eq!(hw.period_size, 48);
    assert_eq!(hw.format, SampleFormat::S16);
    assert_eq!(AlsaHwParams::new_mono_32ms().channels, 1);
    assert_eq!(AlsaHwParams::default().periods, 2);
    assert_eq!(AlsaSwParams::new_4ms(), AlsaSwParams { avail_min: 192, start_threshold: 192 });
    assert_eq!(AlsaSwParams::new_32ms().start_threshold, 1536);
    assert_eq!(AlsaSwParams::default().avail_min, 0);
}

#[test]
fn device_opens_after_taking_the_permit() {
    let c = ActivationController::new();
    let mut d = DeviceControl::new();
    assert_eq!(d.seek(0, true, &c), SeekAction::Wait);
    assert_eq!(c.is_activating(), ActivationState::Activating);
    assert_eq!(d.seek(0, true, &c), SeekAction::Open);
    assert!(!d.opened(OpenOutcome::Opened { configured: true }));
    assert!(d.open());
    assert_eq!(c.is_activating(), ActivationState::Running);
}

#[test]
fn device_cools_off_when_missing_or_failing() {
    let c = ActivationController::new();
    let mut d = DeviceControl::new();
    assert_eq!(d.seek(0, false, &c), SeekAction::StartCooloff);
    assert_eq!(d.seek(4, true, &c), SeekAction::Wait);
    assert_eq!(d.seek(5, true, &c), SeekAction::Wait);
    assert_eq!(d.seek(0, true, &c), SeekAction::Open);
    assert!(d.opened(OpenOutcome::Failed));
    assert!(!d.open());
    assert_eq!(d.seek(1, true, &c), SeekAction::Wait);
    assert_eq!(c.is_activating(), ActivationState::Running);
}

#[test]
fn open_device_pauses_and_resumes_around_activations() {
    let c = ActivationController::new();
    let mut d = DeviceControl::new();
    d.seek(0, true, &c);
    d.seek(0, true, &c);
    d.opened(OpenOutcome::Opened { configured: true });
    assert_eq!(d.check(PcmHealth::Fine, ActivationState::Running), DeviceTick::Io);
    assert_eq!(d.check(PcmHealth::Fine, ActivationState::Activating), DeviceTick::Pause);
    assert!(d.paused());
    assert_eq!(d.check(PcmHealth::Fine, ActivationState::Activating), DeviceTick::Idle);
    assert_eq!(d.check(PcmHealth::Overrun { recovered: true }, ActivationState::Running), DeviceTick::Idle);
    assert_eq!(d.check(PcmHealth::Fine, ActivationState::Running), DeviceTick::Resume);
    assert!(!d.paused());
    assert_eq!(d.check(PcmHealth::Fine, ActivationState::Unavailable), DeviceTick::Io);
    assert_eq!(d.check(PcmHealth::Overrun { recovered: false }, ActivationState::Running), DeviceTick::Close);
    assert!(!d.open());
}

#[test]
fn playback_plan_pads_a_starving_device() {
    assert_eq!(playback_plan(100, 1500, 1536, 48), PlaybackPlan { pad_frames: 36, write_frames: 86 });
    assert_eq!(playback_plan(100, 100, 1536, 48), PlaybackPlan { pad_frames: 0, write_frames: 50 });
    assert_eq!(playback_plan(1000, 20, 1536, 48), PlaybackPlan { pad_frames: 0, write_frames: 20 });
    assert_eq!(playback_plan(0, 2000, 1536, 48), PlaybackPlan { pad_frames: 0, write_frames: 0 });
}

#[test]
fn capture_waits_for_start_threshold() {
    let mut reading = false;
    assert_eq!(capture_frames(&mut reading, 100, 192), 0);
    assert!(!reading);
    assert_eq!(capture_frames(&mut reading, 200, 192), 200);
    assert!(reading);
    assert_eq!(capture_frames(&mut reading, 10, 192), 10);
}
