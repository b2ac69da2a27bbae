use audio_graph::{
    ActivationController, ActivationState, AlsaCardHint, CallbackInner, DuckState, Duck, Ducked, GateState,
    Gated, IoCaptureControl, IoCaptureState, IoPhase, MonoToStereo, Rate, RingBuffer, StreamAction,
    SwitchState, Switched, Volume, accepts_backlog, find_card, pass_or_mute, scale_sample,
};

fn drain(a: &mut RingBuffer) -> Vec<i16> {
    let mut out = Vec::new();
    let n = a.len();
    a.read_into(n, &mut out);
    out
}

#[test]
fn rate_converts_48k_to_44k1() {
    let mut rate = Rate::new(48000, 44100);
    let mut input = RingBuffer::new();
    let frames: Vec<i16> = (0..9600).map(|i| if i % 2 == 0 { 100 } else { -100 }).collect();
    input.write_from(frames.len(), &frames);
    let mut output = RingBuffer::new();
    let (consumed, produced) = rate.convert(&mut input, &mut output);
    assert_eq!(consumed, 9600);
    assert_eq!(produced, 8820);
    assert_eq!(input.len(), 0);
    let out = drain(&mut output);
    assert_eq!(out.len(), 8820);
    for (i, x) in out.iter().enumerate() {
        assert_eq!(*x, if i % 2 == 0 { 100 } else { -100 });
    }
}

#[test]
fn rate_keeps_a_partial_step_for_later() {
    let mut rate = Rate::new(48000, 44100);
    let mut input = RingBuffer::new();
    let samples: Vec<i16> = (0..200).map(|i| i as i16).collect();
    input.write_from(200, &samples);
    let mut output = RingBuffer::new();
    let (consumed, produced) = rate.convert(&mut input, &mut output);
    assert_eq!(consumed, 192);
    assert_eq!(produced, 176);
    assert_eq!(input.len(), 8);
    let out = drain(&mut output);
    assert_eq!(out[0], 0);
    assert_eq!(out[1], 1);
    assert_eq!(out[2], 2);
    assert_eq!(out[3], 3);
    assert_eq!(out[174], ((87 * 192 / 176) * 2) as i16);
    assert_eq!(out[175], ((87 * 192 / 176) * 2 + 1) as i16);
}

#[test]
fn duck_raises_and_lowers_its_flag() {
    let state = DuckState::new();
    let mut duck = Duck::new(1000, state.clone());
    let mut input = RingBuffer::new();
    let mut output = RingBuffer::new();
    input.write_from(2, &vec![2000, 0]);
    duck.listen(&mut input, &mut output);
    assert!(state.get());
    assert!(duck.active());
    assert_eq!(drain(&mut output), vec![2000, 0]);

    let quiet = vec![0i16; 9600];
    for _ in 0..10 {
        input.write_from(quiet.len(), &quiet);
        duck.listen(&mut input, &mut output);
        assert!(state.get());
        assert_eq!(drain(&mut output).len(), 9600);
    }
    input.write_from(quiet.len(), &quiet);
    duck.listen(&mut input, &mut output);
    assert!(!state.get());
    assert!(!duck.active());
    assert_eq!(drain(&mut output).len(), 9600);

    input.write_from(4, &vec![500, -500, 999, 1]);
    duck.listen(&mut input, &mut output);
    assert_eq!(drain(&mut output), vec![0, 0, 0, 0]);
    assert!(!state.get());
}

#[test]
fn ducked_attenuates_while_flag_is_raised() {
    let state = DuckState::new();
    let mut ducked = Ducked::new(vec![state.clone()], (1, 4));
    let mut input = RingBuffer::from(vec![400, -401, 3]);
    let mut output = RingBuffer::new();
    ducked.process(&mut input, &mut output);
    assert_eq!(drain(&mut output), vec![400, -401, 3]);
    state.set(true);
    input.write_from(3, &vec![400, -401, 3]);
    ducked.process(&mut input, &mut output);
    assert_eq!(drain(&mut output), vec![100, -100, 0]);
    input.write_from(1, &vec![8]);
    input.active = false;
    ducked.process(&mut input, &mut output);
    assert_eq!(input.len(), 1);
    assert_eq!(output.len(), 0);
}

#[test]
fn gated_mutes_and_passes() {
    let gate = GateState::new();
    assert!(!gate.get());
    let mut gated = Gated::new(gate.clone());
    let mut input = RingBuffer::from(vec![1, 2, 3]);
    let mut output = RingBuffer::new();
    gated.process(&mut input, &mut output);
    assert!(!output.active);
    assert_eq!(input.len(), 0);
    assert_eq!(output.len(), 0);

    gate.set(true);
    output.active = true;
    input.write_from(3, &vec![1, 2, 3]);
    gated.process(&mut input, &mut output);
    assert!(output.active);
    assert_eq!(drain(&mut output), vec![1, 2, 3]);

    gate.toggle();
    assert!(!gate.get());
    gate.map(|b| !*b);
    assert!(gate.get());
}

#[test]
fn pass_or_mute_leaves_inactive_input() {
    let mut input = RingBuffer::from(vec![1, 2]);
    input.active = false;
    let mut output = RingBuffer::new();
    pass_or_mute(false, &mut input, &mut output);
    assert_eq!(input.len(), 2);
    assert!(output.active);
}

#[test]
fn switched_routes_one_source() {
    let selector = SwitchState::new();
    assert_eq!(selector.get(), 1);
    let mut first = Switched::new(selector.clone(), 1);
    let mut second = Switched::new(selector.clone(), 2);
    let mut in1 = RingBuffer::from(vec![1, 1]);
    let mut in2 = RingBuffer::from(vec![2, 2]);
    let mut out1 = RingBuffer::new();
    let mut out2 = RingBuffer::new();
    first.process(&mut in1, &mut out1);
    second.process(&mut in2, &mut out2);
    assert_eq!(drain(&mut out1), vec![1, 1]);
    assert!(!out2.active);
    assert_eq!(in2.len(), 0);

    selector.set(2);
    assert_eq!(selector.get(), 2);
    selector.map(|v| *v + 1);
    assert_eq!(selector.get(), 3);
}

#[test]
fn volume_scales_toward_zero() {
    let mut volume = Volume::new((1, 2));
    let mut input = RingBuffer::from(vec![100, -101, 7]);
    let mut output = RingBuffer::new();
    volume.apply(&mut input, &mut output);
    assert_eq!(drain(&mut output), vec![50, -50, 3]);
    assert_eq!(scale_sample(-7, 1, 2), -3);
    assert_eq!(scale_sample(32767, 2, 1), -2);
    assert_eq!(scale_sample(-100, 3, -4), 75);
}

#[test]
fn mono_to_stereo_doubles_samples() {
    let mut m = MonoToStereo::new();
    let mut input = RingBuffer::from(vec![1, 2, 3]);
    let mut output = RingBuffer::new();
    m.widen(&mut input, &mut output);
    assert_eq!(drain(&mut output), vec![1, 1, 2, 2, 3, 3]);
    assert_eq!(input.len(), 0);
    let mut narrow = RingBuffer::new();
    narrow.max_length = 5;
    input.write_from(3, &vec![4, 5, 6]);
    m.widen(&mut input, &mut narrow);
    assert_eq!(drain(&mut narrow), vec![4, 4, 5, 5, 6]);
}

#[test]
fn activation_allows_one_holder() {
    let c = ActivationController::new();
    assert_eq!(c.is_activating(), ActivationState::Running);
    let g = c.activate();
    assert!(g.is_some());
    assert!(c.activate().is_none());
    let other = c.clone();
    assert!(other.activate().is_none());
    assert_eq!(other.is_activating(), ActivationState::Activating);
    drop(g);
    assert_eq!(c.is_activating(), ActivationState::Running);
    assert!(c.activate().is_some());
}

#[test]
fn activation_state_queries() {
    assert!(!ActivationState::Unavailable.available());
    assert!(ActivationState::Running.available());
    assert!(ActivationState::Activating.available());
    assert!(ActivationState::Running.running());
    assert!(!ActivationState::Activating.running());
    assert!(ActivationState::Activating.activating());
    assert!(!ActivationState::Unavailable.activating());
}

#[test]
fn io_capture_walks_through_its_phases() {
    let s = IoCaptureState::new();
    assert_eq!(s.phase, IoPhase::Idle);
    assert!(s.clears_stream());
    let (s1, t1) = s.step(100, 0, true, ActivationState::Running);
    assert_eq!(s1.phase, IoPhase::Activating);
    assert!(t1.touch && !t1.active);
    let (s2, t2) = s1.step(100, 0, false, ActivationState::Running);
    assert_eq!(s2.samples, 100);
    assert!(t2.touch);
    let ready = IoCaptureState { phase: IoPhase::Activating, paused: false, samples: 192001 };
    let (s3, _) = ready.step(10, 0, false, ActivationState::Running);
    assert_eq!(s3.phase, IoPhase::Streaming);
    assert_eq!(s3.samples, 0);
    assert!(!s3.clears_stream());
    let (s4, t4) = s3.step(10, 0, false, ActivationState::Running);
    assert!(t4.active);
    assert_eq!(t4.stream, StreamAction::Drain);
    let (s5, t5) = s4.step(10, 0, false, ActivationState::Activating);
    assert!(s5.paused && !t5.active);
    assert_eq!(t5.stream, StreamAction::Discard);
    let (_, t6) = s5.step(0, 10, false, ActivationState::Running);
    assert!(!t6.active);
    assert_eq!(t6.stream, StreamAction::Leave);
    let (s7, _) = s1.step(0, 4, false, ActivationState::Running);
    assert_eq!(s7.phase, IoPhase::Idle);
    let (s8, _) = s1.step(0, 3, false, ActivationState::Running);
    assert_eq!(s8.phase, IoPhase::Activating);
}

#[test]
fn io_capture_control_holds_the_permit_while_activating() {
    let c = ActivationController::new();
    let mut a = IoCaptureControl::new();
    let mut b = IoCaptureControl::new();
    let t = a.tick(10, 0, &c);
    assert!(t.touch);
    assert_eq!(a.state().phase, IoPhase::Activating);
    assert_eq!(c.is_activating(), ActivationState::Activating);
    b.tick(10, 0, &c);
    assert_eq!(b.state().phase, IoPhase::Idle);
    a.tick(0, 5, &c);
    assert_eq!(a.state().phase, IoPhase::Idle);
    assert_eq!(c.is_activating(), ActivationState::Running);
    assert!(accepts_backlog(16383));
    assert!(!accepts_backlog(16384));
}

#[test]
fn card_hints_match_long_names() {
    let long = String::from("USB Sound Device at usb-101c0000.ehci-1.2, full speed");
    assert!(AlsaCardHint::AlsaUsbPort("usb-101c0000.ehci-1.2").match_longname(&long));
    assert!(!AlsaCardHint::AlsaUsbPort("usb-101c0000.ehci-1.1").match_longname(&long));
    assert!(!AlsaCardHint::AlsaUsbPort("usb-101c0000.ehci-1").match_longname(&long));
    assert!(!AlsaCardHint::AlsaUsbPort("full speed").match_longname(&long));
    assert!(AlsaCardHint::AlsaName("USB Sound Device").match_longname(&long));
    assert!(!AlsaCardHint::AlsaName("Sound Device").match_longname(&long));
    assert!(AlsaCardHint::AlsaLongName("USB Sound Device at usb-101c0000.ehci-1.2, full speed").match_longname(&long));
    assert!(!AlsaCardHint::AlsaLongName("USB Sound Device").match_longname(&long));
    assert!(!AlsaCardHint::AlsaNone.match_longname(&long));
}

#[test]
fn find_card_takes_first_fitting_name() {
    let names = vec![
        String::from("HDA Intel"),
        String::from("USB Sound Device at usb-1, full speed"),
        String::from("USB Sound Device at usb-2, full speed"),
    ];
    assert_eq!(find_card(&AlsaCardHint::AlsaUsbPort("usb-2"), "", &names), Some(2));
    assert_eq!(find_card(&AlsaCardHint::AlsaName("USB"), "", &names), Some(1));
    assert_eq!(find_card(&AlsaCardHint::AlsaNone, "HDA Intel", &names), Some(0));
    assert_eq!(find_card(&AlsaCardHint::AlsaNone, "none", &names), None);
}

#[test]
fn duck_hears_negative_peaks() {
    let state = DuckState::new();
    let mut duck = Duck::new(1000, state.clone());
    let mut input = RingBuffer::from(vec![-2000, 10]);
    let mut output = RingBuffer::new();
    duck.listen(&mut input, &mut output);
    assert!(state.get());
    assert_eq!(drain(&mut output), vec![-2000, 10]);
}

#[test]
fn rate_accepts_slow_input() {
    let mut rate = Rate::new(400, 800);
    let mut input = RingBuffer::new();
    let samples: Vec<i16> = (0..20).map(|i| i as i16).collect();
    input.write_from(20, &samples);
    let mut output = RingBuffer::new();
    let (consumed, produced) = rate.convert(&mut input, &mut output);
    assert_eq!(consumed % 2, 0);
    assert!(consumed <= 20);
    assert_eq!(input.len(), 20 - consumed);
    assert!(produced >= 2 * consumed - 2 && produced <= 2 * consumed + 2);
    assert_eq!(output.len(), if consumed == 0 { 0 } else { produced });
}

#[test]
fn led_meter_tracks_peak() {
    let mut m = audio_graph::LedMeter::new();
    let mut input = RingBuffer::from(vec![5, 3000, -9000, 12]);
    let mut output = RingBuffer::new();
    m.meter(false, &mut input, &mut output);
    assert_eq!(m.peak(), 3000);
    assert_eq!(drain(&mut output), vec![5, 3000, -9000, 12]);
    input.write_from(1, &vec![100]);
    m.meter(true, &mut input, &mut output);
    assert_eq!(m.peak(), 100);
    assert_eq!(audio_graph::leds_lit(3000), [true, true, false, false]);
    assert_eq!(audio_graph::leds_lit(8192), [true, true, true, true]);
    assert_eq!(audio_graph::leds_lit(0), [false, false, false, false]);
}
