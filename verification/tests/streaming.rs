use nexus::frames::{
    accept_frame, blank_frame, buffer_delivered, capture_step, choose_codec, copy_over, encoder_plan,
    is_wayland, CaptureStep, CapturedFrame, DecodedFrame, Decoder, EncodedFrame, Encoder,
    FrameRingBuffer,
};
use nexus::input::{
    axis_limits, cursor_event, keyboard_event, mouse_event, setup_requests, window_title, InputEvent,
    Injector, RawEvent, SetupRequest, WindowButton, BUTTON_LEFT, KEYBOARD, MOUSE, MOVE, PRESS,
    RELEASE, TOUCH, UI_SET_ABSBIT, UI_SET_EVBIT, UI_SET_KEYBIT,
};
use nexus::pacing::{received_frame, Pacer, SendOutcome, StreamMetrics, StreamSession};
use nexus::scale::{scale_dimensions, target_bit_rate};
use nexus::wall::{millis_or_epoch, now_millis};

#[test]
fn t3_encoder_initializes() {
    let enc = Encoder::new(1920, 1080);
    let name = enc.codec_name();
    assert!(
        name == "libx264" || name == "h264_qsv" || name == "scaffold",
        "codec should be one of the supported encoders: {name}"
    );
    assert_eq!(enc.dimensions(), (1920, 1080));
}

#[test]
fn scale_dimensions_unchanged_below_1080p() {
    let (w, h) = scale_dimensions(1280, 720);
    assert_eq!(w, 1280);
    assert_eq!(h, 720);
}

#[test]
fn scale_dimensions_scales_4k() {
    let (w, h) = scale_dimensions(3840, 2160);
    assert_eq!(w, 1920);
    assert_eq!(h, 1080);
}

fn in_floating_point(w: u32, h: u32) -> (u32, u32) {
    if w <= 1920 && h <= 1080 {
        return (w, h);
    }
    let scale = (1920.0_f64 / w as f64).min(1080.0_f64 / h as f64);
    ((w as f64 * scale) as u32, (h as f64 * scale) as u32)
}

#[test]
fn scaling_agrees_with_floating_point() {
    for w in 0..400u32 {
        for h in [0u32, 1, 7, 719, 1080, 1081, 1440, 2161, 4320, 99_991, u32::MAX] {
            let w = w * 19 + w % 7;
            assert_eq!(scale_dimensions(w, h), in_floating_point(w, h), "{w} x {h}");
            assert_eq!(scale_dimensions(h, w), in_floating_point(h, w), "{h} x {w}");
        }
    }
    let mut x: u64 = 88_172_645_463_325_252;
    for _ in 0..20_000 {
        x ^= x << 13;
        x ^= x >> 7;
        x ^= x << 17;
        let (w, h) = ((x >> 32) as u32, x as u32);
        assert_eq!(scale_dimensions(w, h), in_floating_point(w, h), "{w} x {h}");
        let (w, h) = (w % 20_000, h % 20_000);
        assert_eq!(scale_dimensions(w, h), in_floating_point(w, h), "{w} x {h}");
    }
}

#[test]
fn a_scaled_picture_fits() {
    assert_eq!(scale_dimensions(2560, 1080), (1920, 810));
    assert_eq!(scale_dimensions(1080, 1920), (607, 1080));
    let (w, h) = scale_dimensions(u32::MAX, u32::MAX);
    assert!(w <= 1920 && h <= 1080);
}

#[test]
fn the_bit_rate_follows_the_size() {
    assert_eq!(target_bit_rate(1920, 1080), 8_000_000);
    assert_eq!(target_bit_rate(1280, 720), 3_555_555);
    let plan = encoder_plan(3840, 2160);
    assert_eq!((plan.width, plan.height, plan.bit_rate), (1920, 1080, 8_000_000));
}

fn frame(tag: u8) -> CapturedFrame {
    CapturedFrame { data: vec![tag; 4], width: 1, height: 1 }
}

#[test]
fn frames_come_out_in_the_order_they_went_in() {
    let mut ring = FrameRingBuffer::new(4);
    assert!(ring.try_pop().is_none());
    for round in 0..5u8 {
        assert!(ring.try_push(frame(round)));
        assert!(ring.try_push(frame(round + 100)));
        assert!(ring.try_push(frame(round + 200)));
        assert!(!ring.try_push(frame(0)), "one slot stays free");
        assert_eq!(ring.len(), 3);
        assert_eq!(ring.try_pop().unwrap().data[0], round);
        assert_eq!(ring.try_pop().unwrap().data[0], round + 100);
        assert_eq!(ring.try_pop().unwrap().data[0], round + 200);
        assert_eq!(ring.len(), 0);
    }
    assert!(FrameRingBuffer::new(0).try_pop().is_none());
}

#[test]
fn only_whole_pictures_are_taken() {
    let bytes = vec![9u8; 10];
    assert_eq!(accept_frame(&bytes, 8, 1, 2).unwrap().data, vec![9u8; 8]);
    assert!(accept_frame(&bytes, 4, 1, 2).is_none());
    assert!(accept_frame(&bytes, 12, 1, 3).is_none());
    let mut ring = FrameRingBuffer::new(8);
    buffer_delivered(&mut ring, &bytes, 4, 1, 2);
    assert_eq!(ring.len(), 0);
    buffer_delivered(&mut ring, &bytes, 8, 1, 2);
    assert_eq!(ring.len(), 1);
}

#[test]
fn a_missing_picture_becomes_a_blank_one() {
    let mut ring = FrameRingBuffer::new(8);
    assert!(matches!(capture_step(&mut ring, 0, 50, 1, 1), CaptureStep::Wait(1)));
    match capture_step(&mut ring, 50, 50, 1, 1) {
        CaptureStep::Deliver(f) => assert_eq!(f.data, vec![0u8; 4]),
        other => panic!("{other:?}"),
    }
    ring.try_push(frame(7));
    match capture_step(&mut ring, 0, 50, 1, 1) {
        CaptureStep::Deliver(f) => assert_eq!(f.data, vec![7u8; 4]),
        other => panic!("{other:?}"),
    }
    assert_eq!(blank_frame(2, 1).data, vec![0u8; 8]);
}

#[test]
fn the_session_type_is_recognised() {
    assert!(is_wayland(Some("wayland-0"), None));
    assert!(!is_wayland(Some(""), None));
    assert!(is_wayland(None, Some("wayland")));
    assert!(!is_wayland(None, Some("x11")));
}

#[test]
fn every_sixtieth_empty_picture_is_a_keyframe() {
    let mut enc = Encoder::with_codec(choose_codec(true, false), 4, 2);
    assert_eq!(enc.codec_name(), "libx264");
    assert_eq!(choose_codec(true, true), "h264_qsv");
    for n in 1..=120u32 {
        let e = enc.encode(frame(0));
        assert_eq!(e.keyframe, n % 60 == 0, "picture {n}");
        assert!(e.data.is_empty());
        assert_eq!((e.width, e.height), (4, 2));
        assert!(e.timestamp_ms > 0);
    }
    let real =
        EncodedFrame { data: vec![1], width: 1, height: 1, keyframe: true, timestamp_ms: 3 };
    assert!(enc.finish(real).keyframe);
}

#[test]
fn a_picture_that_failed_counts_toward_the_sixtieth() {
    let mut enc = Encoder::new(4, 2);
    for _ in 0..58 {
        enc.encode(frame(0));
    }
    enc.fail();
    assert!(enc.encode(frame(0)).keyframe);
    assert!(!enc.encode(frame(0)).keyframe);
}

#[test]
fn decoded_pictures_have_the_fixed_size() {
    let mut dec = Decoder::new(2, 1);
    let any = EncodedFrame { data: vec![], width: 9, height: 9, keyframe: false, timestamp_ms: 0 };
    assert_eq!(dec.decode(&any).data, vec![0u8; 8]);
    let short: DecodedFrame = dec.finish(Some(&vec![5, 6]));
    assert_eq!(short.data, vec![5, 6, 0, 0, 0, 0, 0, 0]);
    assert_eq!(dec.finish(Some(&vec![1; 20])).data, vec![1u8; 8]);
    let mut shown = vec![1, 2, 3];
    copy_over(&mut shown, &vec![9]);
    assert_eq!(shown, vec![9, 2, 3]);
}

#[test]
fn deadlines_do_not_drift() {
    let mut p = Pacer::new(100);
    assert_eq!(p.wait(30), Some(70));
    assert_eq!(p.wait(100), None);
    assert!(p.advance(150));
    assert!(p.advance(290));
    assert!(p.advance(300));
    assert_eq!(p.deadline_ns, 400);
    assert!(p.advance(700), "just not late enough");
    assert!(!p.advance(801));
    assert_eq!(p.deadline_ns, 901);
}

#[test]
fn every_picture_is_counted() {
    let mut s = StreamSession::new(100);
    assert!(s.due(100));
    s.captured(40);
    let encoded =
        EncodedFrame { data: vec![8], width: 3, height: 2, keyframe: true, timestamp_ms: 99 };
    let v = s.encoded(encoded, 7, 40, 10);
    assert_eq!((v.sequence, v.timestamp_ms, v.capture_latency_us), (1, 7, 40));
    assert!(s.sending(SendOutcome::Sent));
    let e = received_frame(v);
    assert_eq!((e.data, e.timestamp_ms, e.keyframe), (vec![8], 7, true));

    assert!(s.due(200));
    s.captured(20);
    s.encode_failed();
    assert!(s.due(300));
    s.capture_failed();
    assert!(!s.due(5000));
    assert!(s.due(5100));
    s.captured(0);
    let empty =
        EncodedFrame { data: vec![], width: 3, height: 2, keyframe: false, timestamp_ms: 0 };
    assert_eq!(s.encoded(empty, 8, 0, 5).sequence, 2);
    assert!(s.sending(SendOutcome::TimedOut));
    assert!(!s.sending(SendOutcome::Closed));

    let m = &s.metrics;
    assert_eq!((m.frames_captured, m.frames_encoded, m.encode_errors), (3, 2, 1));
    assert_eq!((m.frames_sent, m.frames_dropped_channel_full), (1, 1));
    assert_eq!((m.capture_errors, m.frames_dropped_lag), (1, 1));
    assert_eq!((m.avg_capture_latency_us(), m.avg_encode_latency_us()), (20, 7));
    assert_eq!(StreamMetrics::new().avg_capture_latency_us(), 0);
}

#[test]
fn t6_loopback_stream_synthetic_bgra_to_videoframe() {
    let mut encoder = Encoder::new(1920, 1080);
    let mut session = StreamSession::new(33_000_000);
    let mut prev_seq = 0u64;
    for n in 1..=5u64 {
        assert!(session.due(n * 33_000_000));
        session.captured(1);
        let encoded = encoder.encode(blank_frame(1920, 1080));
        let timestamp_ms = encoded.timestamp_ms;
        let vf = session.encoded(encoded, timestamp_ms, 1, 1);
        assert!(vf.sequence > prev_seq, "sequence must monotonically increase");
        assert!(vf.width > 0 && vf.height > 0, "dimensions must be valid");
        assert!(vf.timestamp_ms > 0, "timestamp_ms must be non-zero");
        prev_seq = vf.sequence;
        assert!(session.sending(SendOutcome::Sent));
    }
    assert_eq!(prev_seq, 5);
}

fn event(event_type: i32, action: i32) -> InputEvent {
    InputEvent { event_type, key_code: 42, x: 5, y: 0xffff_ffff, button: BUTTON_LEFT, action }
}

fn raw(events: Vec<RawEvent>) -> Vec<(u16, u16, i32)> {
    events.iter().map(|e| (e.kind, e.code, e.value)).collect()
}

#[test]
fn t4_uinput_error_on_missing_device() {
    let mut injector = Injector::new(false);
    let press =
        InputEvent { event_type: KEYBOARD, action: PRESS, key_code: 42, x: 0, y: 0, button: 0 };
    assert!(injector.inject(&press).is_empty(), "nothing is told where there is no device");
    assert!(!injector.is_enabled());
}

#[test]
fn events_are_told_to_the_device() {
    let mut d = Injector::new(true);
    assert!(d.is_enabled());
    assert_eq!(raw(d.inject(&event(KEYBOARD, PRESS))), vec![(1, 42, 1), (0, 0, 0)]);
    assert_eq!(raw(d.inject(&event(KEYBOARD, RELEASE))), vec![(1, 42, 0), (0, 0, 0)]);
    assert_eq!(raw(d.inject(&event(KEYBOARD, MOVE))), vec![(0, 0, 0)]);
    assert_eq!(raw(d.inject(&event(MOUSE, MOVE))), vec![(2, 0, 5), (2, 1, -1), (0, 0, 0)]);
    assert_eq!(raw(d.inject(&event(MOUSE, PRESS))), vec![(1, 0x110, 1), (0, 0, 0)]);
    assert_eq!(
        raw(d.inject(&event(TOUCH, PRESS))),
        vec![(3, 0, 5), (3, 1, -1), (1, 0x14a, 1), (0, 0, 0)]
    );
    assert_eq!(raw(d.inject(&event(TOUCH, MOVE))), vec![(3, 0, 5), (3, 1, -1), (0, 0, 0)]);
    assert_eq!(raw(d.inject(&event(TOUCH, RELEASE))), vec![(1, 0x14a, 0), (0, 0, 0)]);
    assert!(d.inject(&event(9, PRESS)).is_empty());
    let wide = InputEvent { key_code: 0x1_0007, ..event(KEYBOARD, PRESS) };
    assert_eq!(raw(d.inject(&wide))[0], (1, 7, 1));
}

#[test]
fn window_events_arrive_at_the_device() {
    let mut d = Injector::new(true);
    let right = mouse_event(WindowButton::Right, true);
    assert_eq!(raw(d.inject(&right)), vec![(1, 0x111, 1), (0, 0, 0)]);
    let middle = mouse_event(WindowButton::Middle, false);
    assert_eq!(raw(d.inject(&middle)), vec![(1, 0x112, 0), (0, 0, 0)]);
    assert!(d.inject(&mouse_event(WindowButton::Other, true)).is_empty());
    assert_eq!(raw(d.inject(&cursor_event(3, 4))), vec![(2, 0, 3), (2, 1, 4), (0, 0, 0)]);
    assert_eq!(raw(d.inject(&keyboard_event(Some(30), true))), vec![(1, 30, 1), (0, 0, 0)]);
    assert_eq!(keyboard_event(None, false).key_code, 0);
    assert_eq!(window_title("abc"), "Nexus \u{2014} abc");
}

#[test]
fn a_device_is_set_up_with_all_keys() {
    let r = setup_requests();
    assert_eq!(r.len(), 7 + 255 + 4);
    assert_eq!(r[0], SetupRequest { request: UI_SET_EVBIT, value: 1 });
    assert_eq!(r[6], SetupRequest { request: UI_SET_KEYBIT, value: 0x14a });
    assert_eq!(r[7], SetupRequest { request: UI_SET_KEYBIT, value: 1 });
    assert_eq!(r[261], SetupRequest { request: UI_SET_KEYBIT, value: 255 });
    assert_eq!(r[265], SetupRequest { request: UI_SET_ABSBIT, value: 1 });
    let limits = axis_limits();
    assert_eq!((limits.len(), limits[0], limits[1], limits[63]), (64, 1920, 1080, -1));
}

#[test]
fn the_present_is_counted_in_milliseconds() {
    assert_eq!(millis_or_epoch(Some(1_999_999)), 1);
    assert_eq!(millis_or_epoch(None), 0);
    assert!(now_millis() > 1_600_000_000_000);
}
