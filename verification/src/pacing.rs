//! Serving a stream: when the next picture is due, what is sent, and what has become of every
//! picture.
use vstd::prelude::*;

use crate::frames::{EncodedFrame, EncodedView};

verus! {

/// When pictures are due, in nanoseconds since the beginning of the stream.
#[derive(Debug)]
pub struct Pacer {
    pub interval_ns: u64,
    pub deadline_ns: u64,
}

/// Whether the clock has room for the next deadlines.
pub open spec fn has_room(p: Pacer, now_ns: u64) -> bool {
    &&& p.deadline_ns + 3 * p.interval_ns <= u64::MAX
    &&& now_ns + p.interval_ns <= u64::MAX
}

/// Whether a picture is so late that it is left out: by more than two intervals after the next
/// one is due.
pub open spec fn lags(p: Pacer, now_ns: u64) -> bool {
    now_ns > p.deadline_ns + p.interval_ns + 2 * p.interval_ns
}

/// The deadlines after a picture came due.
pub open spec fn advanced(p: Pacer, now_ns: u64) -> Pacer {
    Pacer {
        deadline_ns: if lags(p, now_ns) {
            (now_ns + p.interval_ns) as u64
        } else {
            (p.deadline_ns + p.interval_ns) as u64
        },
        ..p
    }
}

impl Pacer {
    /// Deadlines at the given interval, the first one interval after the beginning.
    pub fn new(interval_ns: u64) -> (r: Pacer)
        ensures
            r.interval_ns == interval_ns && r.deadline_ns == interval_ns,
    {
        Pacer { interval_ns, deadline_ns: interval_ns }
    }

    /// How long it is until the next picture is due; nothing where it is.
    pub fn wait(&self, now_ns: u64) -> (r: Option<u64>)
        ensures
            r == (if now_ns < self.deadline_ns {
                Some((self.deadline_ns - now_ns) as u64)
            } else {
                None
            }),
    {
        if now_ns < self.deadline_ns {
            Some(self.deadline_ns - now_ns)
        } else {
            None
        }
    }

    /// A picture is due. Says whether it is taken; where the stream has fallen too far behind, it
    /// is left out and the deadlines start anew from now.
    pub fn advance(&mut self, now_ns: u64) -> (r: bool)
        requires
            has_room(*old(self), now_ns),
        ensures
            r == !lags(*old(self), now_ns),
            *final(self) == advanced(*old(self), now_ns),
    {
        self.deadline_ns = self.deadline_ns + self.interval_ns;
        if now_ns > self.deadline_ns + self.interval_ns * 2 {
            self.deadline_ns = now_ns + self.interval_ns;
            false
        } else {
            true
        }
    }
}

/// The deadlines after a number of pictures came due at the given times.
pub open spec fn advanced_all(p: Pacer, times: Seq<u64>) -> Pacer
    decreases times.len(),
{
    if times.len() == 0 {
        p
    } else {
        advanced(advanced_all(p, times.drop_last()), times.last())
    }
}

/// Whether none of the pictures that came due at the given times was left out.
pub open spec fn keeps_up(p: Pacer, times: Seq<u64>) -> bool {
    forall|i: int|
        0 <= i < times.len() ==> !lags(#[trigger] advanced_all(p, times.take(i)), times[i])
}

/// Deadlines do not drift: as long as no picture is left out, each is an exact multiple of the
/// interval, however late the pictures before it were.
pub proof fn law_deadlines_do_not_drift(p: Pacer, times: Seq<u64>)
    requires
        keeps_up(p, times),
        p.deadline_ns + times.len() * p.interval_ns <= u64::MAX,
    ensures
        advanced_all(p, times).deadline_ns == p.deadline_ns + times.len() * p.interval_ns,
        advanced_all(p, times).interval_ns == p.interval_ns,
    decreases times.len(),
{
    if times.len() > 0 {
        let n = times.len() - 1;
        let head = times.drop_last();
        assert(head =~= times.take(n));
        assert forall|i: int| 0 <= i < head.len() implies !lags(
            #[trigger] advanced_all(p, head.take(i)),
            head[i],
        ) by {
            assert(head.take(i) =~= times.take(i));
        }
        let interval = p.interval_ns as int;
        assert((n + 1) * interval == n * interval + interval) by (nonlinear_arith);
        law_deadlines_do_not_drift(p, head);
        assert(!lags(advanced_all(p, times.take(n)), times[n]));
    } else {
        assert(0 * (p.interval_ns as int) == 0);
    }
}

/// After a picture was left out, the next is due one interval from now.
pub proof fn law_lagging_starts_anew(p: Pacer, now_ns: u64)
    requires
        lags(p, now_ns),
        has_room(p, now_ns),
    ensures
        advanced(p, now_ns).deadline_ns == now_ns + p.interval_ns,
        !lags(advanced(p, now_ns), now_ns),
{
}

/// What has become of the pictures of a stream.
#[derive(Debug)]
pub struct StreamMetrics {
    pub frames_captured: u64,
    pub frames_encoded: u64,
    pub frames_sent: u64,
    pub frames_dropped_lag: u64,
    pub frames_dropped_channel_full: u64,
    pub encode_errors: u64,
    pub capture_errors: u64,
    pub total_capture_latency_us: u64,
    pub total_encode_latency_us: u64,
}

impl StreamMetrics {
    /// Nothing has happened yet.
    pub fn new() -> (r: StreamMetrics)
        ensures
            r == no_frames(),
    {
        StreamMetrics {
            frames_captured: 0,
            frames_encoded: 0,
            frames_sent: 0,
            frames_dropped_lag: 0,
            frames_dropped_channel_full: 0,
            encode_errors: 0,
            capture_errors: 0,
            total_capture_latency_us: 0,
            total_encode_latency_us: 0,
        }
    }

    /// The microseconds that it took on average to capture a picture.
    pub fn avg_capture_latency_us(&self) -> (r: u64)
        ensures
            r == average(self.total_capture_latency_us, self.frames_captured),
    {
        average_of(self.total_capture_latency_us, self.frames_captured)
    }

    /// The microseconds that it took on average to encode a picture.
    pub fn avg_encode_latency_us(&self) -> (r: u64)
        ensures
            r == average(self.total_encode_latency_us, self.frames_encoded),
    {
        average_of(self.total_encode_latency_us, self.frames_encoded)
    }
}

/// The counts of a stream that has not begun.
pub open spec fn no_frames() -> StreamMetrics {
    StreamMetrics {
        frames_captured: 0,
        frames_encoded: 0,
        frames_sent: 0,
        frames_dropped_lag: 0,
        frames_dropped_channel_full: 0,
        encode_errors: 0,
        capture_errors: 0,
        total_capture_latency_us: 0,
        total_encode_latency_us: 0,
    }
}

/// The whole part of an average, 0 of nothing.
pub open spec fn average(total: u64, n: u64) -> int {
    if n > 0 {
        total as int / n as int
    } else {
        0
    }
}

fn average_of(total: u64, n: u64) -> (r: u64)
    ensures
        r == average(total, n),
{
    if n > 0 {
        proof {
            assert(0 <= total as int / n as int <= total) by (nonlinear_arith)
                requires
                    n > 0,
                    total >= 0,
            ;
        }
        total / n
    } else {
        0
    }
}

/// A sum in 64 bits, which starts at 0 again.
pub open spec fn wrapped(a: u64, b: u64) -> u64 {
    if a + b <= u64::MAX {
        (a + b) as u64
    } else {
        (a + b - 0x1_0000_0000_0000_0000) as u64
    }
}

fn wrap(a: u64, b: u64) -> (r: u64)
    ensures
        r == wrapped(a, b),
{
    a.wrapping_add(b)
}

/// A picture on its way to a viewer.
#[derive(Debug)]
pub struct VideoFrame {
    pub sequence: u64,
    pub timestamp_ms: u64,
    pub width: u32,
    pub height: u32,
    pub data: Vec<u8>,
    pub keyframe: bool,
    pub capture_latency_us: u64,
    pub encode_latency_us: u64,
}

/// A picture on its way to a viewer, as contracts speak of it.
#[verifier::ext_equal]
pub struct VideoView {
    pub sequence: u64,
    pub timestamp_ms: u64,
    pub width: u32,
    pub height: u32,
    pub data: Seq<u8>,
    pub keyframe: bool,
    pub capture_latency_us: u64,
    pub encode_latency_us: u64,
}

impl View for VideoFrame {
    type V = VideoView;

    open spec fn view(&self) -> VideoView {
        VideoView {
            sequence: self.sequence,
            timestamp_ms: self.timestamp_ms,
            width: self.width,
            height: self.height,
            data: self.data@,
            keyframe: self.keyframe,
            capture_latency_us: self.capture_latency_us,
            encode_latency_us: self.encode_latency_us,
        }
    }
}

/// The picture that a viewer decodes.
pub open spec fn received(v: VideoView) -> EncodedView {
    EncodedView {
        data: v.data,
        width: v.width,
        height: v.height,
        keyframe: v.keyframe,
        timestamp_ms: v.timestamp_ms,
    }
}

/// The picture that a viewer decodes.
pub fn received_frame(vf: VideoFrame) -> (r: EncodedFrame)
    ensures
        r@ == received(vf@),
{
    EncodedFrame {
        data: vf.data,
        width: vf.width,
        height: vf.height,
        keyframe: vf.keyframe,
        timestamp_ms: vf.timestamp_ms,
    }
}

/// What became of an attempt to send a picture.
#[derive(Clone, Copy, Debug, PartialEq, Eq, Structural)]
pub enum SendOutcome {
    Sent,
    /// The viewer has gone.
    Closed,
    /// There was no room in time.
    TimedOut,
}

/// A stream that is being served to one viewer.
#[derive(Debug)]
pub struct StreamSession {
    pub pacer: Pacer,
    pub metrics: StreamMetrics,
    /// How many pictures were numbered.
    pub seq: u64,
}

/// The picture that is sent of an encoded one.
pub open spec fn numbered(
    seq: u64,
    e: EncodedView,
    timestamp_ms: u64,
    capture_latency_us: u64,
    encode_latency_us: u64,
) -> VideoView {
    VideoView {
        sequence: (seq + 1) as u64,
        timestamp_ms,
        width: e.width,
        height: e.height,
        data: e.data,
        keyframe: e.keyframe,
        capture_latency_us,
        encode_latency_us,
    }
}

/// The counts after a picture was left out.
pub open spec fn after_lag(m: StreamMetrics) -> StreamMetrics {
    StreamMetrics { frames_dropped_lag: wrapped(m.frames_dropped_lag, 1), ..m }
}

/// The counts after no picture could be captured.
pub open spec fn after_capture_error(m: StreamMetrics) -> StreamMetrics {
    StreamMetrics { capture_errors: wrapped(m.capture_errors, 1), ..m }
}

/// The counts after a picture was captured.
pub open spec fn after_capture(m: StreamMetrics, latency_us: u64) -> StreamMetrics {
    StreamMetrics {
        frames_captured: wrapped(m.frames_captured, 1),
        total_capture_latency_us: wrapped(m.total_capture_latency_us, latency_us),
        ..m
    }
}

/// The counts after a picture could not be encoded.
pub open spec fn after_encode_error(m: StreamMetrics) -> StreamMetrics {
    StreamMetrics { encode_errors: wrapped(m.encode_errors, 1), ..m }
}

/// The counts after a picture was encoded.
pub open spec fn after_encode(m: StreamMetrics, latency_us: u64) -> StreamMetrics {
    StreamMetrics {
        frames_encoded: wrapped(m.frames_encoded, 1),
        total_encode_latency_us: wrapped(m.total_encode_latency_us, latency_us),
        ..m
    }
}

/// The counts after an attempt to send a picture.
pub open spec fn after_send(m: StreamMetrics, outcome: SendOutcome) -> StreamMetrics {
    match outcome {
        SendOutcome::Sent => StreamMetrics { frames_sent: wrapped(m.frames_sent, 1), ..m },
        SendOutcome::Closed => m,
        SendOutcome::TimedOut => StreamMetrics {
            frames_dropped_channel_full: wrapped(m.frames_dropped_channel_full, 1),
            ..m
        },
    }
}

impl StreamSession {
    /// A stream that begins, with a picture at the given interval.
    pub fn new(interval_ns: u64) -> (r: StreamSession)
        ensures
            r.pacer.interval_ns == interval_ns && r.pacer.deadline_ns == interval_ns,
            r.metrics == no_frames(),
            r.seq == 0,
    {
        StreamSession { pacer: Pacer::new(interval_ns), metrics: StreamMetrics::new(), seq: 0 }
    }

    /// A picture is due. Says whether it is to be captured.
    pub fn due(&mut self, now_ns: u64) -> (r: bool)
        requires
            has_room(old(self).pacer, now_ns),
        ensures
            r == !lags(old(self).pacer, now_ns),
            final(self).pacer == advanced(old(self).pacer, now_ns),
            final(self).metrics == (if r {
                old(self).metrics
            } else {
                after_lag(old(self).metrics)
            }),
            final(self).seq == old(self).seq,
    {
        let on_time = self.pacer.advance(now_ns);
        if !on_time {
            self.metrics.frames_dropped_lag = wrap(self.metrics.frames_dropped_lag, 1);
        }
        on_time
    }

    /// No picture could be captured.
    pub fn capture_failed(&mut self)
        ensures
            *final(self) == (StreamSession {
                metrics: after_capture_error(old(self).metrics),
                ..*old(self)
            }),
    {
        self.metrics.capture_errors = wrap(self.metrics.capture_errors, 1);
    }

    /// A picture was captured.
    pub fn captured(&mut self, latency_us: u64)
        ensures
            *final(self) == (StreamSession {
                metrics: after_capture(old(self).metrics, latency_us),
                ..*old(self)
            }),
    {
        self.metrics.frames_captured = wrap(self.metrics.frames_captured, 1);
        self.metrics.total_capture_latency_us = wrap(
            self.metrics.total_capture_latency_us,
            latency_us,
        );
    }

    /// A picture could not be encoded.
    pub fn encode_failed(&mut self)
        ensures
            *final(self) == (StreamSession {
                metrics: after_encode_error(old(self).metrics),
                ..*old(self)
            }),
    {
        self.metrics.encode_errors = wrap(self.metrics.encode_errors, 1);
    }

    /// A picture was encoded: gives the one that is to be sent, with the next number.
    pub fn encoded(
        &mut self,
        encoded: EncodedFrame,
        timestamp_ms: u64,
        capture_latency_us: u64,
        encode_latency_us: u64,
    ) -> (r: VideoFrame)
        requires
            old(self).seq < u64::MAX,
        ensures
            r@ == numbered(
                old(self).seq,
                encoded@,
                timestamp_ms,
                capture_latency_us,
                encode_latency_us,
            ),
            *final(self) == (StreamSession {
                metrics: after_encode(old(self).metrics, encode_latency_us),
                seq: (old(self).seq + 1) as u64,
                ..*old(self)
            }),
    {
        self.metrics.frames_encoded = wrap(self.metrics.frames_encoded, 1);
        self.metrics.total_encode_latency_us = wrap(
            self.metrics.total_encode_latency_us,
            encode_latency_us,
        );
        self.seq = self.seq + 1;
        VideoFrame {
            sequence: self.seq,
            timestamp_ms,
            width: encoded.width,
            height: encoded.height,
            data: encoded.data,
            keyframe: encoded.keyframe,
            capture_latency_us,
            encode_latency_us,
        }
    }

    /// A picture was to be sent. Says whether the stream goes on.
    pub fn sending(&mut self, outcome: SendOutcome) -> (r: bool)
        ensures
            r == (outcome != SendOutcome::Closed),
            *final(self) == (StreamSession {
                metrics: after_send(old(self).metrics, outcome),
                ..*old(self)
            }),
    {
        match outcome {
            SendOutcome::Sent => {
                self.metrics.frames_sent = wrap(self.metrics.frames_sent, 1);
                true
            },
            SendOutcome::Closed => false,
            SendOutcome::TimedOut => {
                self.metrics.frames_dropped_channel_full = wrap(
                    self.metrics.frames_dropped_channel_full,
                    1,
                );
                true
            },
        }
    }
}

/// Pictures are numbered in the order in which they are encoded, from 1 on.
pub proof fn law_numbers_increase(a: StreamSession, b: StreamSession, e: EncodedView, f: EncodedView)
    requires
        a.seq < b.seq < u64::MAX,
    ensures
        forall|s: u64, t: u64, c: u64, d: u64, g: u64, h: u64|
            1 <= (#[trigger] numbered(a.seq, e, s, c, d)).sequence < (
            #[trigger] numbered(b.seq, f, t, g, h)).sequence,
{
}

/// What becomes of a picture that is due while the viewer is there.
#[verifier::ext_equal]
pub enum Fate {
    LeftOut,
    NotCaptured,
    NotEncoded { capture_us: u64 },
    Encoded { capture_us: u64, encode_us: u64, sent: bool },
}

/// The counts after one picture.
pub open spec fn after_frame(m: StreamMetrics, fate: Fate) -> StreamMetrics {
    match fate {
        Fate::LeftOut => after_lag(m),
        Fate::NotCaptured => after_capture_error(m),
        Fate::NotEncoded { capture_us } => after_encode_error(after_capture(m, capture_us)),
        Fate::Encoded { capture_us, encode_us, sent } => after_send(
            after_encode(after_capture(m, capture_us), encode_us),
            if sent {
                SendOutcome::Sent
            } else {
                SendOutcome::TimedOut
            },
        ),
    }
}

/// The counts after a number of pictures.
pub open spec fn after_frames(m: StreamMetrics, fates: Seq<Fate>) -> StreamMetrics
    decreases fates.len(),
{
    if fates.len() == 0 {
        m
    } else {
        after_frame(after_frames(m, fates.drop_last()), fates.last())
    }
}

/// Every picture is accounted for: those that were captured were encoded or failed to be, those
/// that were encoded were sent or dropped, and together with those left out and those that could
/// not be captured they are all that came due.
pub proof fn law_every_frame_is_accounted_for(fates: Seq<Fate>)
    requires
        fates.len() <= u64::MAX,
    ensures
        ({
            let m = after_frames(no_frames(), fates);
            &&& m.frames_captured == m.frames_encoded + m.encode_errors
            &&& m.frames_encoded == m.frames_sent + m.frames_dropped_channel_full
            &&& fates.len() == m.frames_captured + m.capture_errors + m.frames_dropped_lag
        }),
    decreases fates.len(),
{
    if fates.len() > 0 {
        law_every_frame_is_accounted_for(fates.drop_last());
    }
}

} // verus!
