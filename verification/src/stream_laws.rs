//! What holds of streaming a screen: the pictures, their sizes, when they are due, what becomes of
//! them, and what a viewer's input comes to.
use vstd::arithmetic::power2::{lemma2_to64, lemma2_to64_rest, lemma_pow2_pos, lemma_pow2_unfold, pow2};
use vstd::prelude::*;
use vstd::string::*;

use crate::frames::{
    accept_frame, blank_frame, buffer_delivered, capture_step, choose_codec, copy_over,
    encoder_plan, is_wayland, CaptureStep, CapturedFrame, DecodedFrame, Decoder, EncodedFrame,
    Encoder, EncoderPlan, FrameRingBuffer,
};
use crate::input::{
    axis_limits, cursor_event, keyboard_event, mouse_event, setup_requests, Injector, InputEvent,
    RawEvent, SetupRequest, WindowButton,
};
use crate::pacing::{received_frame, Pacer, SendOutcome, StreamMetrics, StreamSession, VideoFrame};
use crate::scale::{
    is_scaled, is_scaled_at, lemma_nearest, nearest, scale_dimensions, target_bit_rate,
};

verus! {

broadcast use vstd::seq_lib::group_seq_properties;

/// A blank picture has four bytes for each dot, all zero.
pub proof fn law_blank_picture(w: u32, h: u32, r: CapturedFrame)
    requires
        call_ensures(blank_frame, (w, h), r),
        w * h * 4 <= u32::MAX,
    ensures
        r.width == w && r.height == h,
        r.data@.len() == w * h * 4,
        forall|i: int| 0 <= i < r.data@.len() ==> #[trigger] r.data@[i] == 0,
{
}

/// Bytes are copied from the beginning, as far as both sides reach; what lies behind stays.
pub proof fn law_copied_from_the_beginning(dst: &mut Vec<u8>, src: &Vec<u8>)
    requires
        call_ensures(copy_over, (dst, src), ()),
    ensures
        final(dst)@.len() == old(dst)@.len(),
        forall|i: int|
            0 <= i < old(dst)@.len() ==> #[trigger] final(dst)@[i] == (if i < src@.len() {
                src@[i]
            } else {
                old(dst)@[i]
            }),
{
}

/// A buffer is taken where it has the size of a whole picture and holds that many bytes: the picture
/// is those bytes.
pub proof fn law_whole_picture_is_taken(
    bytes: &Vec<u8>,
    size: usize,
    w: u32,
    h: u32,
    r: Option<CapturedFrame>,
)
    requires
        call_ensures(accept_frame, (bytes, size, w, h), r),
        w * h * 4 <= u32::MAX,
    ensures
        r is Some <==> size == w * h * 4 && size <= bytes@.len(),
        r matches Some(f) ==> {
            &&& f.width == w && f.height == h
            &&& f.data@.len() == size
            &&& forall|i: int| 0 <= i < size ==> #[trigger] f.data@[i] == bytes@[i]
        },
{
}

/// Pictures leave a queue in the order in which they came. One more is taken while there is a free
/// slot besides the one that stays free, and is else dropped, with the others as they were.
pub proof fn law_queue_takes_and_gives_in_order(
    q: &mut FrameRingBuffer,
    frame: CapturedFrame,
    put: bool,
    p: &mut FrameRingBuffer,
    taken: Option<CapturedFrame>,
)
    requires
        old(q).wf(),
        old(q).slots() > 0,
        call_ensures(FrameRingBuffer::try_push, (q, frame), put),
        old(p).wf(),
        call_ensures(FrameRingBuffer::try_pop, (p,), taken),
    ensures
        put <==> old(q)@.len() + 1 < old(q).slots(),
        put ==> final(q)@.len() == old(q)@.len() + 1 && final(q)@.last() == frame@,
        !put ==> final(q)@ == old(q)@,
        forall|i: int| 0 <= i < old(q)@.len() ==> #[trigger] final(q)@[i] == old(q)@[i],
        final(q).slots() == old(q).slots(),
        taken is Some <==> old(p)@.len() > 0,
        taken matches Some(f) ==> f@ == old(p)@[0] && final(p)@.len() == old(p)@.len() - 1,
        taken is None ==> final(p)@ == old(p)@,
        taken is Some ==> forall|i: int|
            0 <= i < final(p)@.len() ==> #[trigger] final(p)@[i] == old(p)@[i + 1],
        final(p).slots() == old(p).slots(),
{
}

/// What is put into an empty queue is what is taken out of it.
pub proof fn law_put_is_taken(
    capacity: usize,
    made: FrameRingBuffer,
    q: &mut FrameRingBuffer,
    frame: CapturedFrame,
    put: bool,
    p: &mut FrameRingBuffer,
    taken: Option<CapturedFrame>,
)
    requires
        capacity > 1,
        call_ensures(FrameRingBuffer::new, (capacity,), made),
        *old(q) == made,
        call_ensures(FrameRingBuffer::try_push, (q, frame), put),
        *old(p) == *final(q),
        call_ensures(FrameRingBuffer::try_pop, (p,), taken),
    ensures
        put,
        taken matches Some(f) && f@ == frame@,
        final(p)@.len() == 0,
{
}

/// A buffer that is delivered with a whole picture in it puts that picture at the end of the queue
/// while there is room; any other changes nothing.
pub proof fn law_delivered_picture_is_queued(
    q: &mut FrameRingBuffer,
    bytes: &Vec<u8>,
    size: usize,
    w: u32,
    h: u32,
    accepted: Option<CapturedFrame>,
)
    requires
        old(q).wf(),
        old(q).slots() > 0,
        w * h * 4 <= u32::MAX,
        call_ensures(buffer_delivered, (q, bytes, size, w, h), ()),
        call_ensures(accept_frame, (bytes, size, w, h), accepted),
    ensures
        accepted is None || old(q)@.len() + 1 >= old(q).slots() ==> final(q)@ == old(q)@,
        accepted matches Some(f) && old(q)@.len() + 1 < old(q).slots() ==> final(q)@ == old(q)@.push(
            (accepted->0)@,
        ),
{
}

/// The next picture is the first of the queue. Without one, it is waited for until the deadline, and
/// then a blank one is given.
pub proof fn law_next_picture(
    q: &mut FrameRingBuffer,
    now: u64,
    deadline: u64,
    w: u32,
    h: u32,
    r: CaptureStep,
    blank: CapturedFrame,
)
    requires
        old(q).wf(),
        w * h * 4 <= u32::MAX,
        call_ensures(capture_step, (q, now, deadline, w, h), r),
        call_ensures(blank_frame, (w, h), blank),
    ensures
        old(q)@.len() > 0 ==> (r matches CaptureStep::Deliver(f) && f@ == old(q)@[0]) && final(q)@
            == old(q)@.drop_first(),
        old(q)@.len() == 0 && now >= deadline ==> (r matches CaptureStep::Deliver(f) && f@ == blank@),
        old(q)@.len() == 0 && now < deadline ==> (r matches CaptureStep::Wait(ms) && ms == 1),
        old(q)@.len() == 0 ==> final(q)@.len() == 0,
{
}

/// A session is a Wayland one where it has a display of that name, or is of that type.
pub proof fn law_wayland_session(display: Option<&str>, session: Option<&str>, r: bool)
    requires
        call_ensures(is_wayland, (display, session), r),
    ensures
        r <==> (display is Some && (display->0)@.len() > 0) || (session is Some && (session->0)@
            == "wayland"@),
{
}

/// The codec of the graphics hardware is used where it is there and opens, and never else.
pub proof fn law_codec_of_the_hardware(found: bool, opened: bool, r: &'static str)
    requires
        call_ensures(choose_codec, (found, opened), r),
    ensures
        r@ == "h264_qsv"@ <==> found && opened,
        r@ == "libx264"@ <==> !(found && opened),
{
    reveal_strlit("h264_qsv");
    reveal_strlit("libx264");
    assert("h264_qsv"@.len() != "libx264"@.len());
}

/// Each picture that is encoded, or fails to be, counts as one. One that comes out empty can be decoded
/// by itself where it is the sixtieth, the hundred and twentieth and so on; of any other the codec says
/// so. Nothing else of it is changed.
pub proof fn law_every_sixtieth_empty_picture_stands_alone(
    e: &mut Encoder,
    encoded: EncodedFrame,
    r: EncodedFrame,
)
    requires
        old(e).attempts() < u64::MAX,
        call_ensures(Encoder::finish, (e, encoded), r),
    ensures
        final(e).attempts() == old(e).attempts() + 1,
        final(e).size() == old(e).size(),
        final(e).codec() == old(e).codec(),
        r.data@ == encoded.data@,
        r.width == encoded.width && r.height == encoded.height,
        r.timestamp_ms == encoded.timestamp_ms,
        encoded.data@.len() > 0 ==> r.keyframe == encoded.keyframe,
        encoded.data@.len() == 0 ==> (r.keyframe <==> exists|n: int|
            final(e).attempts() == #[trigger] (n * 60)),
{
    if encoded.data@.len() == 0 {
        let k = final(e).attempts() as int;
        if r.keyframe {
            assert(k == (k / 60) * 60);
        }
        if exists|n: int| k == #[trigger] (n * 60) {
            let n = choose|n: int| k == #[trigger] (n * 60);
            assert((n * 60) % 60 == 0);
        }
    }
}

/// A picture on which the codec fails counts like the others.
pub proof fn law_failed_picture_counts(e: &mut Encoder)
    requires
        old(e).attempts() < u64::MAX,
        call_ensures(Encoder::fail, (e,), ()),
    ensures
        final(e).attempts() == old(e).attempts() + 1,
        final(e).size() == old(e).size(),
        final(e).codec() == old(e).codec(),
{
}

/// Without a codec an encoded picture is empty, has the size of the encoder, and can be decoded by
/// itself where it is a sixtieth.
pub proof fn law_picture_without_a_codec_is_empty(e: &mut Encoder, frame: CapturedFrame, r: EncodedFrame)
    requires
        old(e).attempts() < u64::MAX,
        call_ensures(Encoder::encode, (e, frame), r),
    ensures
        r.data@.len() == 0,
        (r.width, r.height) == old(e).size(),
        r.keyframe <==> (old(e).attempts() + 1) % 60 == 0,
        final(e).attempts() == old(e).attempts() + 1,
        final(e).size() == old(e).size(),
{
}

/// A decoded picture has the size of the decoder, with the bytes that the codec gave as far as they
/// reach, and zeros for the rest.
pub proof fn law_decoded_picture_has_the_size(d: &Decoder, picture: Option<&Vec<u8>>, r: DecodedFrame)
    requires
        d.size().0 * d.size().1 * 4 <= u32::MAX,
        call_ensures(Decoder::finish, (d, picture), r),
    ensures
        (r.width, r.height) == d.size(),
        r.data@.len() == d.size().0 * d.size().1 * 4,
        forall|i: int|
            0 <= i < r.data@.len() ==> #[trigger] r.data@[i] == (if picture is Some && i < (
            picture->0)@.len() {
                (picture->0)@[i]
            } else {
                0
            }),
{
}

proof fn lemma_scaled_near(x: int, a: int, w: int, r: int)
    requires
        is_scaled(x, a, w, r),
        0 <= x < 0x1_0000_0000,
        0 < a <= 1920,
        a < w < 0x1_0000_0000,
    ensures
        0 <= r,
        r * w <= x * a,
        x * a <= (r + 1) * w,
{
    let (s, t) = choose|s: nat, t: nat| #[trigger] is_scaled_at(x, a, w, r, s, t);
    lemma2_to64();
    lemma2_to64_rest();
    lemma_pow2_pos(s);
    lemma_pow2_pos(t);
    let ps = pow2(s) as int;
    let pt = pow2(t) as int;
    let m = nearest(a * ps, w);
    let p = x * m;
    let k = nearest(p, pt);
    assert(a * ps >= 0) by (nonlinear_arith)
        requires
            a > 0,
            ps > 0,
    ;
    lemma_nearest(a * ps, w);
    assert(p >= 0) by (nonlinear_arith)
        requires
            p == x * m,
            x >= 0,
            m >= 0,
    ;
    lemma_nearest(p, pt);
    let v = k * pt;
    assert(v >= 0) by (nonlinear_arith)
        requires
            v == k * pt,
            k >= 0,
            pt > 0,
    ;
    assert(0 <= r && r * ps <= v && v < (r + 1) * ps) by (nonlinear_arith)
        requires
            r == v / ps,
            v >= 0,
            ps > 0,
    ;
    if x == 0 {
        assert(p == 0) by (nonlinear_arith)
            requires
                p == x * m,
                x == 0,
        ;
        if t > 0 {
            lemma_pow2_pos((t - 1) as nat);
        }
        assert(pt == 1);
        assert(k == 0);
        assert(v == 0);
        assert(r == 0) by (nonlinear_arith)
            requires
                r * ps <= v,
                v == 0,
                ps > 0,
                r >= 0,
        ;
        assert(x * a == 0 && r * w == 0 && (r + 1) * w == w) by (nonlinear_arith)
            requires
                x == 0,
                r == 0,
        ;
    } else {
        // The rounded ratio has at most 53 bits.
        assert(m <= 0x20000000000000) by (nonlinear_arith)
            requires
                2 * (m * w) <= 2 * (a * ps) + w,
                a * ps < 0x20000000000000 * w,
                w > 0,
        ;
        // The spacing of the product is at most twice the side.
        assert(pt <= 2 * x) by {
            if t > 0 {
                lemma_pow2_unfold(t);
                let half = pow2((t - 1) as nat) as int;
                assert(pt == 2 * half);
                assert(0x20000000000000 * half <= p);
                assert(p <= x * 0x20000000000000) by (nonlinear_arith)
                    requires
                        p == x * m,
                        m <= 0x20000000000000,
                        x >= 0,
                ;
            } else {
                assert(pt == 1);
            }
        }
        let xw = x * w;
        let xa = x * a;
        // Both roundings together move the product by less than one unit.
        assert(3 * xw < 2 * ps) by {
            assert(xa <= 0xffffffff * 1920) by (nonlinear_arith)
                requires
                    xa == x * a,
                    0 <= x <= 0xffffffff,
                    0 < a <= 1920,
            ;
            assert(x * (0x10000000000000 * w) <= x * (a * ps)) by (nonlinear_arith)
                requires
                    x >= 0,
                    0x10000000000000 * w <= a * ps,
            ;
            assert(x * (0x10000000000000 * w) == 0x10000000000000 * xw) by (nonlinear_arith)
                requires
                    xw == x * w,
            ;
            assert(x * (a * ps) == xa * ps) by (nonlinear_arith)
                requires
                    xa == x * a,
            ;
            let q = xa * ps;
            assert(0x10000000000000 * xw <= q);
            assert(q <= 0x8_0000_0000_00 * ps) by (nonlinear_arith)
                requires
                    q == xa * ps,
                    xa <= 0xffffffff * 1920,
                    ps > 0,
            ;
            assert(0x10000000000000 * xw <= 0x8_0000_0000_00 * ps);
        }
        let pw = p * w;
        let vw = v * w;
        let xaps = xa * ps;
        assert(2 * pw <= 2 * xaps + xw && 2 * xaps <= 2 * pw + xw) by {
            assert(x * (2 * (m * w)) <= x * (2 * (a * ps) + w)) by (nonlinear_arith)
                requires
                    x >= 0,
                    2 * (m * w) <= 2 * (a * ps) + w,
            ;
            assert(x * (2 * (a * ps)) <= x * (2 * (m * w) + w)) by (nonlinear_arith)
                requires
                    x >= 0,
                    2 * (a * ps) <= 2 * (m * w) + w,
            ;
            assert(x * (2 * (m * w)) == 2 * pw) by (nonlinear_arith)
                requires
                    pw == p * w,
                    p == x * m,
            ;
            assert(x * (2 * (a * ps) + w) == 2 * xaps + xw) by (nonlinear_arith)
                requires
                    xaps == xa * ps,
                    xa == x * a,
                    xw == x * w,
            ;
            assert(x * (2 * (a * ps)) == 2 * xaps) by (nonlinear_arith)
                requires
                    xaps == xa * ps,
                    xa == x * a,
            ;
            assert(x * (2 * (m * w) + w) == 2 * pw + xw) by (nonlinear_arith)
                requires
                    pw == p * w,
                    p == x * m,
                    xw == x * w,
            ;
        }
        assert(2 * vw <= 2 * pw + 2 * xw && 2 * pw <= 2 * vw + 2 * xw) by (nonlinear_arith)
            requires
                vw == v * w,
                pw == p * w,
                xw == x * w,
                2 * v <= 2 * p + pt,
                2 * p <= 2 * v + pt,
                pt <= 2 * x,
                w > 0,
        ;
        let rw = r * w;
        let rw1 = (r + 1) * w;
        assert(rw * ps <= vw && vw <= rw1 * ps) by (nonlinear_arith)
            requires
                rw == r * w,
                rw1 == (r + 1) * w,
                vw == v * w,
                r * ps <= v,
                v < (r + 1) * ps,
                w > 0,
        ;
        assert(rw < xa + 1) by (nonlinear_arith)
            requires
                2 * (rw * ps) < 2 * (xa * ps) + 2 * ps,
                ps > 0,
        ;
        assert(xa < rw1 + 1) by (nonlinear_arith)
            requires
                2 * (xa * ps) < 2 * (rw1 * ps) + 2 * ps,
                ps > 0,
        ;
    }
}

/// A picture that fits is sent in its own size. A larger one is scaled so that it fits, with both sides
/// in the ratio of the side that exceeds more: each is less than one dot short of that ratio, and never
/// over it.
pub proof fn law_large_picture_is_scaled_down(w: u32, h: u32, r: (u32, u32))
    requires
        call_ensures(scale_dimensions, (w, h), r),
    ensures
        r.0 <= 1920 && r.1 <= 1080,
        w <= 1920 && h <= 1080 ==> r == (w, h),
        (w > 1920 || h > 1080) && 1920 * h <= 1080 * w ==> {
            &&& r.0 * w <= w * 1920 <= (r.0 + 1) * w
            &&& r.1 * w <= h * 1920 <= (r.1 + 1) * w
        },
        (w > 1920 || h > 1080) && 1920 * h > 1080 * w ==> {
            &&& r.0 * h <= w * 1080 <= (r.0 + 1) * h
            &&& r.1 * h <= h * 1080 <= (r.1 + 1) * h
        },
{
    if w > 1920 || h > 1080 {
        if 1920 * h <= 1080 * w {
            lemma_scaled_near(w as int, 1920, w as int, r.0 as int);
            lemma_scaled_near(h as int, 1920, w as int, r.1 as int);
        } else {
            lemma_scaled_near(w as int, 1080, h as int, r.0 as int);
            lemma_scaled_near(h as int, 1080, h as int, r.1 as int);
        }
    }
}

/// The bits per second are eight million for 1920 by 1080, and in proportion to the area for any other
/// size, rounded down.
pub proof fn law_bit_rate_goes_by_the_area(w: u32, h: u32, r: u64)
    requires
        call_ensures(target_bit_rate, (w, h), r),
        w * h <= u32::MAX,
    ensures
        r * (1920 * 1080) <= (w * h) * 8_000_000 < (r + 1) * (1920 * 1080),
{
    let n = (w * h) * 8_000_000;
    assert(r * 2_073_600 <= n && n < (r + 1) * 2_073_600) by (nonlinear_arith)
        requires
            r == n / 2_073_600,
            n >= 0,
    ;
}

/// Pictures are encoded in the size that they are sent in, at the bit rate of that size.
pub proof fn law_encoder_goes_by_the_scaled_size(
    w: u32,
    h: u32,
    plan: EncoderPlan,
    size: (u32, u32),
    rate: u64,
)
    requires
        call_ensures(encoder_plan, (w, h), plan),
        call_ensures(scale_dimensions, (w, h), size),
        call_ensures(target_bit_rate, size, rate),
    ensures
        plan.width == size.0,
        plan.height == size.1,
        plan.bit_rate == rate,
{
    if w > 1920 || h > 1080 {
        let (a, d) = crate::scale::ratio(w as int, h as int);
        crate::scale::law_scaling_is_determined(w as int, a, d, plan.width as int, size.0 as int);
        crate::scale::law_scaling_is_determined(h as int, a, d, plan.height as int, size.1 as int);
    }
}

/// The first picture is due one interval after the beginning. A picture is due once its deadline has
/// come, and not before.
pub proof fn law_picture_is_due_at_its_deadline(
    interval: u64,
    made: Pacer,
    p: &Pacer,
    now: u64,
    r: Option<u64>,
)
    requires
        call_ensures(Pacer::new, (interval,), made),
        call_ensures(Pacer::wait, (p, now), r),
    ensures
        made.deadline_ns == interval && made.interval_ns == interval,
        r is None <==> now >= p.deadline_ns,
        r matches Some(ns) ==> now + ns == p.deadline_ns,
{
}

/// The next deadline is one interval after the last, however late the picture came, unless it came more
/// than two intervals after that: then it is left out, and the next is due one interval from now.
pub proof fn law_next_deadline(p: &mut Pacer, now: u64, r: bool)
    requires
        old(p).deadline_ns + 3 * old(p).interval_ns <= u64::MAX,
        now + old(p).interval_ns <= u64::MAX,
        call_ensures(Pacer::advance, (p, now), r),
    ensures
        final(p).interval_ns == old(p).interval_ns,
        r <==> now <= old(p).deadline_ns + 3 * old(p).interval_ns,
        r ==> final(p).deadline_ns == old(p).deadline_ns + old(p).interval_ns,
        !r ==> final(p).deadline_ns == now + old(p).interval_ns,
{
}

/// Whether `c` is the sum of two times, in 64 bits.
pub open spec fn is_sum(a: u64, b: u64, c: u64) -> bool {
    c == a + b || c + 0x1_0000_0000_0000_0000 == a + b
}

/// Whether two counts differ by one, in 64 bits.
pub open spec fn one_more(a: u64, b: u64) -> bool {
    b == a + 1 || (a == u64::MAX && b == 0)
}

/// A picture that is due is taken or left out as the deadlines say, and only one that is left out is
/// counted, once.
pub proof fn law_late_picture_is_counted(s: &mut StreamSession, now: u64, r: bool)
    requires
        old(s).pacer.deadline_ns + 3 * old(s).pacer.interval_ns <= u64::MAX,
        now + old(s).pacer.interval_ns <= u64::MAX,
        call_ensures(StreamSession::due, (s, now), r),
    ensures
        r <==> now <= old(s).pacer.deadline_ns + 3 * old(s).pacer.interval_ns,
        final(s).seq == old(s).seq,
        final(s).pacer.interval_ns == old(s).pacer.interval_ns,
        r ==> final(s).pacer.deadline_ns == old(s).pacer.deadline_ns + old(s).pacer.interval_ns
            && final(s).metrics == old(s).metrics,
        !r ==> {
            let (a, b) = (old(s).metrics, final(s).metrics);
            &&& final(s).pacer.deadline_ns == now + old(s).pacer.interval_ns
            &&& one_more(a.frames_dropped_lag, b.frames_dropped_lag)
            &&& b == (StreamMetrics { frames_dropped_lag: b.frames_dropped_lag, ..a })
        },
{
}

/// A picture that could not be captured is counted as that, once, and changes nothing else.
pub proof fn law_failed_capture_is_counted(s: &mut StreamSession)
    requires
        call_ensures(StreamSession::capture_failed, (s,), ()),
    ensures
        ({
            let (a, b) = (old(s).metrics, final(s).metrics);
            &&& one_more(a.capture_errors, b.capture_errors)
            &&& b == (StreamMetrics { capture_errors: b.capture_errors, ..a })
            &&& final(s).seq == old(s).seq
            &&& final(s).pacer == old(s).pacer
        }),
{
}

/// A picture that was captured is counted, once, with the time that it took.
pub proof fn law_capture_is_counted(s: &mut StreamSession, us: u64)
    requires
        call_ensures(StreamSession::captured, (s, us), ()),
    ensures
        ({
            let (a, b) = (old(s).metrics, final(s).metrics);
            &&& one_more(a.frames_captured, b.frames_captured)
            &&& is_sum(a.total_capture_latency_us, us, b.total_capture_latency_us)
            &&& b == (StreamMetrics {
                frames_captured: b.frames_captured,
                total_capture_latency_us: b.total_capture_latency_us,
                ..a
            })
            &&& final(s).seq == old(s).seq
            &&& final(s).pacer == old(s).pacer
        }),
{
}

/// A picture that could not be encoded is counted as that, once, and changes nothing else: it gets no
/// number.
pub proof fn law_failed_encoding_is_counted(s: &mut StreamSession)
    requires
        call_ensures(StreamSession::encode_failed, (s,), ()),
    ensures
        ({
            let (a, b) = (old(s).metrics, final(s).metrics);
            &&& one_more(a.encode_errors, b.encode_errors)
            &&& b == (StreamMetrics { encode_errors: b.encode_errors, ..a })
            &&& final(s).seq == old(s).seq
            &&& final(s).pacer == old(s).pacer
        }),
{
}

/// A picture that was encoded gets the next number, which no other has, and is sent as it was encoded,
/// with its time and how long it took. It is counted, once.
pub proof fn law_encoded_picture_is_numbered(
    s: &mut StreamSession,
    e: EncodedFrame,
    ts: u64,
    capture_us: u64,
    encode_us: u64,
    r: VideoFrame,
)
    requires
        old(s).seq < u64::MAX,
        call_ensures(StreamSession::encoded, (s, e, ts, capture_us, encode_us), r),
    ensures
        r.sequence == old(s).seq + 1,
        final(s).seq == r.sequence,
        r.timestamp_ms == ts,
        r.data@ == e.data@,
        r.width == e.width && r.height == e.height,
        r.keyframe == e.keyframe,
        r.capture_latency_us == capture_us,
        r.encode_latency_us == encode_us,
        ({
            let (a, b) = (old(s).metrics, final(s).metrics);
            &&& one_more(a.frames_encoded, b.frames_encoded)
            &&& is_sum(a.total_encode_latency_us, encode_us, b.total_encode_latency_us)
            &&& b == (StreamMetrics {
                frames_encoded: b.frames_encoded,
                total_encode_latency_us: b.total_encode_latency_us,
                ..a
            })
            &&& final(s).pacer == old(s).pacer
        }),
{
}

/// A stream ends where the viewer has gone, and nowhere else. A picture that was sent is counted as
/// sent, one for which there was no room as dropped, each once.
pub proof fn law_stream_ends_with_the_viewer(s: &mut StreamSession, outcome: SendOutcome, r: bool)
    requires
        call_ensures(StreamSession::sending, (s, outcome), r),
    ensures
        r <==> outcome != SendOutcome::Closed,
        final(s).seq == old(s).seq,
        final(s).pacer == old(s).pacer,
        ({
            let (a, b) = (old(s).metrics, final(s).metrics);
            &&& outcome == SendOutcome::Sent ==> one_more(a.frames_sent, b.frames_sent) && b == (
            StreamMetrics { frames_sent: b.frames_sent, ..a })
            &&& outcome == SendOutcome::TimedOut ==> one_more(
                a.frames_dropped_channel_full,
                b.frames_dropped_channel_full,
            ) && b == (StreamMetrics {
                frames_dropped_channel_full: b.frames_dropped_channel_full,
                ..a
            })
            &&& outcome == SendOutcome::Closed ==> b == a
        }),
{
}

/// A stream begins with nothing counted and no number given out.
pub proof fn law_stream_begins_at_nothing(interval: u64, s: StreamSession, m: StreamMetrics)
    requires
        call_ensures(StreamSession::new, (interval,), s),
        call_ensures(StreamMetrics::new, (), m),
    ensures
        s.seq == 0,
        s.pacer.interval_ns == interval && s.pacer.deadline_ns == interval,
        s.metrics == m,
        m.frames_captured == 0 && m.frames_encoded == 0 && m.frames_sent == 0,
        m.frames_dropped_lag == 0 && m.frames_dropped_channel_full == 0,
        m.encode_errors == 0 && m.capture_errors == 0,
        m.total_capture_latency_us == 0 && m.total_encode_latency_us == 0,
{
}

/// An average is the whole part of the time that it took in all, by how many there were; of none it is
/// nothing.
pub proof fn law_averages(m: &StreamMetrics, capture: u64, encode: u64)
    requires
        call_ensures(StreamMetrics::avg_capture_latency_us, (m,), capture),
        call_ensures(StreamMetrics::avg_encode_latency_us, (m,), encode),
    ensures
        m.frames_captured == 0 ==> capture == 0,
        m.frames_captured > 0 ==> capture * m.frames_captured <= m.total_capture_latency_us < (capture
            + 1) * m.frames_captured,
        m.frames_encoded == 0 ==> encode == 0,
        m.frames_encoded > 0 ==> encode * m.frames_encoded <= m.total_encode_latency_us < (encode + 1)
            * m.frames_encoded,
{
    if m.frames_captured > 0 {
        lemma_average(m.total_capture_latency_us as int, m.frames_captured as int, capture as int);
    }
    if m.frames_encoded > 0 {
        lemma_average(m.total_encode_latency_us as int, m.frames_encoded as int, encode as int);
    }
}

proof fn lemma_average(total: int, n: int, q: int)
    requires
        total >= 0,
        n > 0,
        q == total / n,
    ensures
        q * n <= total < (q + 1) * n,
{
    assert(q * n <= total && total < (q + 1) * n) by (nonlinear_arith)
        requires
            total >= 0,
            n > 0,
            q == total / n,
    ;
}

/// A viewer decodes what was sent: the same bytes, size, time, and whether it can be decoded by itself.
pub proof fn law_viewer_decodes_what_was_sent(v: VideoFrame, r: EncodedFrame)
    requires
        call_ensures(received_frame, (v,), r),
    ensures
        r.data@ == v.data@,
        r.width == v.width && r.height == v.height,
        r.keyframe == v.keyframe,
        r.timestamp_ms == v.timestamp_ms,
{
}

/// Whether what the device is told presses or lets go the key `code`, and ends there.
pub open spec fn tells_key(l: Seq<RawEvent>, code: int, down: bool) -> bool {
    &&& l.len() == 2
    &&& l[0].kind == 1 && l[0].code == code && l[0].value == (if down {
        1int
    } else {
        0
    })
    &&& is_end(l[1])
}

/// Whether this is the end of what the device is told at once.
pub open spec fn is_end(e: RawEvent) -> bool {
    e.kind == 0 && e.code == 0 && e.value == 0
}

/// Whether an event of the device has a number, read with a sign, as its value along an axis.
pub open spec fn tells_axis(e: RawEvent, kind: int, axis: int, n: u32) -> bool {
    &&& e.kind == kind
    &&& e.code == axis
    &&& n < 0x8000_0000 ==> e.value == n
    &&& n >= 0x8000_0000 ==> e.value == n - 0x1_0000_0000
}

/// A key of a viewer presses or lets go the key of its code at the host, in sixteen bits.
pub proof fn law_key_is_told(j: &mut Injector, e: &InputEvent, r: Vec<RawEvent>)
    requires
        call_ensures(Injector::inject, (j, e), r),
        e.event_type == 0,
        old(j).has_device(),
    ensures
        e.action == 0 || e.action == 1 ==> tells_key(
            r@,
            e.key_code as int % 0x1_0000,
            e.action == 0,
        ),
        e.action != 0 && e.action != 1 ==> r@.len() == 1 && is_end(r@[0]),
{
}

/// A mouse of a viewer moves by what it has moved, and presses or lets go the button that it has; a
/// button that the host does not have does nothing.
pub proof fn law_mouse_is_told(j: &mut Injector, e: &InputEvent, r: Vec<RawEvent>)
    requires
        call_ensures(Injector::inject, (j, e), r),
        e.event_type == 1,
        old(j).has_device(),
    ensures
        e.action == 2 ==> r@.len() == 3 && tells_axis(r@[0], 2, 0, e.x) && tells_axis(
            r@[1],
            2,
            1,
            e.y,
        ) && is_end(r@[2]),
        e.action == 0 || e.action == 1 ==> {
            &&& e.button == 1 ==> tells_key(r@, 0x110, e.action == 0)
            &&& e.button == 2 ==> tells_key(r@, 0x111, e.action == 0)
            &&& e.button == 3 ==> tells_key(r@, 0x112, e.action == 0)
            &&& e.button < 1 || e.button > 3 ==> r@.len() == 0
        },
        e.action < 0 || e.action > 2 ==> r@.len() == 0,
{
}

/// A finger of a viewer is put down, moved and lifted at the place where it is.
pub proof fn law_touch_is_told(j: &mut Injector, e: &InputEvent, r: Vec<RawEvent>)
    requires
        call_ensures(Injector::inject, (j, e), r),
        e.event_type == 2,
        old(j).has_device(),
    ensures
        e.action == 0 || e.action == 2 ==> r@.len() >= 3 && tells_axis(r@[0], 3, 0, e.x)
            && tells_axis(r@[1], 3, 1, e.y) && is_end(r@.last()),
        e.action == 2 ==> r@.len() == 3,
        e.action == 0 ==> r@.len() == 4 && r@[2].kind == 1 && r@[2].code == 0x14a && r@[2].value == 1,
        e.action == 1 ==> tells_key(r@, 0x14a, false),
        e.action < 0 || e.action > 2 ==> r@.len() == 0,
{
}

/// Without a device nothing is told, and nothing is told of an event of an unknown type. Telling changes
/// nothing.
pub proof fn law_nothing_is_told_without_a_device(j: &mut Injector, e: &InputEvent, r: Vec<RawEvent>)
    requires
        call_ensures(Injector::inject, (j, e), r),
    ensures
        !old(j).has_device() || e.event_type < 0 || e.event_type > 2 ==> r@.len() == 0,
        *final(j) == *old(j),
{
}

/// What a window reports of a key reaches the device of the host as that key.
pub proof fn law_pressed_key_arrives(
    code: Option<u32>,
    pressed: bool,
    e: InputEvent,
    j: &mut Injector,
    r: Vec<RawEvent>,
)
    requires
        call_ensures(keyboard_event, (code, pressed), e),
        call_ensures(Injector::inject, (j, &e), r),
        old(j).has_device(),
    ensures
        code matches Some(c) && c < 0x1_0000 ==> tells_key(r@, code->0 as int, pressed),
        code is None ==> tells_key(r@, 0, pressed),
{
}

/// What a window reports of its pointer reaches the device of the host as a movement by so much.
pub proof fn law_moved_pointer_arrives(x: u32, y: u32, e: InputEvent, j: &mut Injector, r: Vec<RawEvent>)
    requires
        call_ensures(cursor_event, (x, y), e),
        call_ensures(Injector::inject, (j, &e), r),
        old(j).has_device(),
    ensures
        r@.len() == 3,
        tells_axis(r@[0], 2, 0, x),
        tells_axis(r@[1], 2, 1, y),
        is_end(r@[2]),
{
}

/// What a window reports of a mouse button reaches the device of the host as that button.
pub proof fn law_pressed_button_arrives(
    b: WindowButton,
    pressed: bool,
    e: InputEvent,
    j: &mut Injector,
    r: Vec<RawEvent>,
)
    requires
        call_ensures(mouse_event, (b, pressed), e),
        call_ensures(Injector::inject, (j, &e), r),
        old(j).has_device(),
    ensures
        b == WindowButton::Left ==> tells_key(r@, 0x110, pressed),
        b == WindowButton::Right ==> tells_key(r@, 0x111, pressed),
        b == WindowButton::Middle ==> tells_key(r@, 0x112, pressed),
        b == WindowButton::Other ==> r@.len() == 0,
{
}

/// Whether one of the requests that set up a device is this one.
pub open spec fn asks_for(l: Seq<SetupRequest>, request: int, value: int) -> bool {
    exists|i: int|
        0 <= i < l.len() && (#[trigger] l[i]).request == request && l[i].value == value
}

/// A device is set up for all that it is told: keys, relative and absolute axes, every key code from 1
/// to 255, the three mouse buttons and the finger, and both axes.
pub proof fn law_device_is_set_up_for_all_that_is_told(r: Vec<SetupRequest>)
    requires
        call_ensures(setup_requests, (), r),
    ensures
        forall|n: int| 1 <= n <= 3 ==> #[trigger] asks_for(r@, 0x4004_5564, n),
        forall|n: int| 1 <= n <= 255 ==> #[trigger] asks_for(r@, 0x4004_5565, n),
        asks_for(r@, 0x4004_5565, 0x110) && asks_for(r@, 0x4004_5565, 0x111) && asks_for(
            r@,
            0x4004_5565,
            0x112,
        ) && asks_for(r@, 0x4004_5565, 0x14a),
        asks_for(r@, 0x4004_5566, 0) && asks_for(r@, 0x4004_5566, 1),
        asks_for(r@, 0x4004_5567, 0) && asks_for(r@, 0x4004_5567, 1),
        r@.len() == 266,
{
    let l = r@;
    assert(l.len() == 266);
    assert forall|n: int| 1 <= n <= 3 implies #[trigger] asks_for(l, 0x4004_5564, n) by {
        assert(l[n - 1].value == n);
    }
    assert forall|n: int| 1 <= n <= 255 implies #[trigger] asks_for(l, 0x4004_5565, n) by {
        assert(l[n + 6].value == n);
    }
    assert(l[3].value == 0x110 && l[4].value == 0x111 && l[5].value == 0x112 && l[6].value == 0x14a);
    assert(l[262].value == 0 && l[263].value == 1 && l[264].value == 0 && l[265].value == 1);
}

/// The two axes of a picture go to its edges, and the others are unused.
pub proof fn law_axes_go_to_the_edges(r: Vec<i32>)
    requires
        call_ensures(axis_limits, (), r),
    ensures
        r@.len() == 64,
        r@[0] == 1920,
        r@[1] == 1080,
        forall|i: int| 2 <= i < 64 ==> #[trigger] r@[i] == -1,
{
}

/// An encoder and a decoder are for the size that they were made for; a new encoder has encoded nothing.
pub proof fn law_made_for_a_size(
    w: u32,
    h: u32,
    name: &str,
    a: Encoder,
    b: Encoder,
    d: Decoder,
    e: &Encoder,
    size: (u32, u32),
)
    requires
        call_ensures(Encoder::new, (w, h), a),
        call_ensures(Encoder::with_codec, (name, w, h), b),
        call_ensures(Decoder::new, (w, h), d),
        call_ensures(Encoder::dimensions, (e,), size),
    ensures
        a.size() == (w, h) && b.size() == (w, h) && d.size() == (w, h),
        a.attempts() == 0 && b.attempts() == 0,
        b.codec() == name@,
        size == e.size(),
{
}

/// As many pictures are counted in a queue as are in it, and an injector has a device where one was
/// opened.
pub proof fn law_queue_and_device_are_as_they_were_made(
    q: &FrameRingBuffer,
    n: usize,
    opened: bool,
    j: Injector,
    enabled: bool,
)
    requires
        q.wf(),
        call_ensures(FrameRingBuffer::len, (q,), n),
        call_ensures(Injector::new, (opened,), j),
        call_ensures(Injector::is_enabled, (&j,), enabled),
    ensures
        n == q@.len(),
        enabled == opened,
        j.has_device() == opened,
{
}

/// A picture that is decoded without a codec is blank, in the size of the decoder, which stays as it is.
pub proof fn law_decoded_without_a_codec(d: &mut Decoder, f: &EncodedFrame, r: DecodedFrame)
    requires
        old(d).size().0 * old(d).size().1 * 4 <= u32::MAX,
        call_ensures(Decoder::decode, (d, f), r),
    ensures
        *final(d) == *old(d),
        (r.width, r.height) == old(d).size(),
        r.data@.len() == old(d).size().0 * old(d).size().1 * 4,
        forall|i: int| 0 <= i < r.data@.len() ==> #[trigger] r.data@[i] == 0,
{
}

} // verus!
