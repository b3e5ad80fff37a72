//! The pictures of a stream: taken from the screen, kept for a moment, encoded and decoded.
use vstd::prelude::*;
use vstd::string::*;

use crate::scale::{scale_dimensions, target_bit_rate};

verus! {

/// A picture of the screen, four bytes to a dot.
#[derive(Debug)]
pub struct CapturedFrame {
    pub data: Vec<u8>,
    pub width: u32,
    pub height: u32,
}

/// A picture, as contracts speak of it.
#[verifier::ext_equal]
pub struct PictureView {
    pub data: Seq<u8>,
    pub width: u32,
    pub height: u32,
}

impl View for CapturedFrame {
    type V = PictureView;

    open spec fn view(&self) -> PictureView {
        PictureView { data: self.data@, width: self.width, height: self.height }
    }
}

/// A picture that is all zeros.
pub open spec fn blank(width: u32, height: u32) -> PictureView {
    PictureView { data: Seq::new((width * height * 4) as nat, |i: int| 0u8), width, height }
}

/// Whether the bytes of a picture of the given size can be counted in 32 bits.
pub open spec fn is_countable(width: u32, height: u32) -> bool {
    width * height * 4 <= u32::MAX
}

fn zeros(width: u32, height: u32) -> (r: Vec<u8>)
    requires
        is_countable(width, height),
    ensures
        r@ == blank(width, height).data,
{
    let size = picture_bytes(width, height);
    let mut data: Vec<u8> = Vec::new();
    let mut i: usize = 0;
    while i < size
        invariant
            i <= size,
            data@ == Seq::new(i as nat, |j: int| 0u8),
        decreases size - i,
    {
        data.push(0);
        i = i + 1;
        assert(data@ =~= Seq::new(i as nat, |j: int| 0u8));
    }
    data
}

/// The number of bytes of a picture.
fn picture_bytes(width: u32, height: u32) -> (r: usize)
    requires
        is_countable(width, height),
    ensures
        r == width * height * 4,
{
    proof {
        assert(0 <= width * height) by (nonlinear_arith);
    }
    (width * height * 4) as usize
}

/// A picture that is all zeros.
pub fn blank_frame(width: u32, height: u32) -> (r: CapturedFrame)
    requires
        is_countable(width, height),
    ensures
        r@ == blank(width, height),
{
    CapturedFrame { data: zeros(width, height), width, height }
}

/// The bytes `dst` with those of `src` over them, as far as both reach.
pub open spec fn copied(dst: Seq<u8>, src: Seq<u8>) -> Seq<u8> {
    if src.len() >= dst.len() {
        src.take(dst.len() as int)
    } else {
        src + dst.skip(src.len() as int)
    }
}

/// Copies `src` over the beginning of `dst`, as far as both reach.
pub fn copy_over(dst: &mut Vec<u8>, src: &Vec<u8>)
    ensures
        final(dst)@ == copied(old(dst)@, src@),
{
    let ghost before = dst@;
    let n = if src.len() < dst.len() {
        src.len()
    } else {
        dst.len()
    };
    let mut i: usize = 0;
    while i < n
        invariant
            i <= n,
            n <= src@.len(),
            n <= before.len(),
            dst@.len() == before.len(),
            forall|j: int| 0 <= j < i ==> dst@[j] == src@[j],
            forall|j: int| i <= j < before.len() ==> dst@[j] == before[j],
        decreases n - i,
    {
        dst.set(i, src[i]);
        i = i + 1;
    }
    assert(dst@ =~= copied(before, src@));
}

/// A picture from a buffer that was delivered, where it holds a whole one of the expected size.
pub fn accept_frame(bytes: &Vec<u8>, size: usize, width: u32, height: u32) -> (r: Option<CapturedFrame>)
    requires
        is_countable(width, height),
    ensures
        match r {
            Some(f) => size == width * height * 4 && size <= bytes@.len() && f@ == (PictureView {
                data: bytes@.take(size as int),
                width,
                height,
            }),
            None => size != width * height * 4 || size > bytes@.len(),
        },
{
    if size != picture_bytes(width, height) || size > bytes.len() {
        return None;
    }
    let mut data: Vec<u8> = Vec::new();
    let mut i: usize = 0;
    while i < size
        invariant
            i <= size,
            size <= bytes@.len(),
            data@ == bytes@.take(i as int),
        decreases size - i,
    {
        data.push(bytes[i]);
        i = i + 1;
        assert(data@ =~= bytes@.take(i as int));
    }
    Some(CapturedFrame { data, width, height })
}

/// A queue of pictures in a ring of slots, one of which stays free: a full queue takes no more.
#[derive(Debug)]
pub struct FrameRingBuffer {
    buffer: Vec<Option<CapturedFrame>>,
    head: usize,
    tail: usize,
    capacity: usize,
}

/// The slot that lies `i` behind `tail` in a ring.
spec fn slot(tail: int, i: int, capacity: int) -> int {
    if tail + i < capacity {
        tail + i
    } else {
        tail + i - capacity
    }
}

/// What a slot holds.
spec fn held(slots: Seq<Option<CapturedFrame>>, i: int) -> PictureView {
    match slots[i] {
        Some(f) => f@,
        None => blank(0, 0),
    }
}

impl View for FrameRingBuffer {
    type V = Seq<PictureView>;

    closed spec fn view(&self) -> Seq<PictureView> {
        Seq::new(
            self.count(),
            |i: int| held(self.buffer@, slot(self.tail as int, i, self.capacity as int)),
        )
    }
}

impl FrameRingBuffer {
    spec fn count(&self) -> nat {
        if self.head >= self.tail {
            (self.head - self.tail) as nat
        } else {
            (self.head + self.capacity - self.tail) as nat
        }
    }

    /// The number of slots.
    pub closed spec fn slots(&self) -> nat {
        self.capacity as nat
    }

    /// Whether the two ends lie in the ring and what lies between them is filled.
    pub closed spec fn wf(&self) -> bool {
        &&& self.buffer@.len() == self.capacity
        &&& self.head < self.capacity || (self.head == 0 && self.capacity == 0)
        &&& self.tail < self.capacity || (self.tail == 0 && self.capacity == 0)
        &&& forall|i: int|
            0 <= i < self.count() ==> (#[trigger] self.buffer@[slot(
                self.tail as int,
                i,
                self.capacity as int,
            )]) is Some
    }

    /// An empty queue with the given number of slots.
    pub fn new(capacity: usize) -> (r: FrameRingBuffer)
        ensures
            r.wf(),
            r.slots() == capacity,
            r@ == Seq::<PictureView>::empty(),
    {
        let mut buffer: Vec<Option<CapturedFrame>> = Vec::new();
        let mut i: usize = 0;
        while i < capacity
            invariant
                i <= capacity,
                buffer@.len() == i,
            decreases capacity - i,
        {
            buffer.push(None);
            i = i + 1;
        }
        let r = FrameRingBuffer { buffer, head: 0, tail: 0, capacity };
        assert(r@ =~= Seq::<PictureView>::empty());
        r
    }

    /// Puts a picture at the end of the queue, unless the queue is full: then it is dropped. Says
    /// whether it was put.
    pub fn try_push(&mut self, frame: CapturedFrame) -> (r: bool)
        requires
            old(self).wf(),
            old(self).slots() > 0,
        ensures
            final(self).wf(),
            final(self).slots() == old(self).slots(),
            r == (old(self)@.len() + 1 < old(self).slots()),
            final(self)@ == (if r {
                old(self)@.push(frame@)
            } else {
                old(self)@
            }),
    {
        let head = self.head;
        let next_head: usize = if head + 1 == self.capacity {
            0
        } else {
            head + 1
        };
        if next_head == self.tail {
            return false;
        }
        let ghost before = *self;
        self.buffer.set(head, Some(frame));
        self.head = next_head;
        proof {
            let n = before.count() as int;
            assert(self.count() == n + 1);
            assert(slot(before.tail as int, n, before.capacity as int) == head);
            assert forall|i: int| 0 <= i < self.count() implies (#[trigger] self.buffer@[slot(
                self.tail as int,
                i,
                self.capacity as int,
            )]) is Some by {
                if i < n {
                    assert(before.buffer@[slot(before.tail as int, i, before.capacity as int)] is Some);
                }
            }
            assert(self@ =~= before@.push(frame@));
        }
        true
    }

    /// Takes the picture at the beginning of the queue; nothing where the queue is empty.
    pub fn try_pop(&mut self) -> (r: Option<CapturedFrame>)
        requires
            old(self).wf(),
        ensures
            final(self).wf(),
            final(self).slots() == old(self).slots(),
            match r {
                Some(f) => old(self)@.len() > 0 && f@ == old(self)@[0] && final(self)@ == old(
                    self,
                )@.skip(1),
                None => old(self)@.len() == 0 && final(self)@ == old(self)@,
            },
    {
        let tail = self.tail;
        if tail == self.head {
            return None;
        }
        let ghost before = *self;
        proof {
            assert(slot(tail as int, 0, self.capacity as int) == tail);
            assert(self.buffer@[slot(tail as int, 0, self.capacity as int)] is Some);
        }
        let mut taken: Option<CapturedFrame> = None;
        std::mem::swap(&mut self.buffer[tail], &mut taken);
        self.tail = if tail + 1 == self.capacity {
            0
        } else {
            tail + 1
        };
        proof {
            assert(self.buffer@ =~= before.buffer@.update(tail as int, None));
            assert(self.count() + 1 == before.count());
            assert forall|i: int| 0 <= i < self.count() implies slot(
                self.tail as int,
                i,
                self.capacity as int,
            ) == slot(before.tail as int, i + 1, before.capacity as int) && (
            #[trigger] self.buffer@[slot(self.tail as int, i, self.capacity as int)]) is Some by {
                assert(before.buffer@[slot(before.tail as int, i + 1, before.capacity as int)] is Some);
            }
            assert(self@ =~= before@.skip(1));
        }
        taken
    }

    /// The number of pictures in the queue.
    pub fn len(&self) -> (r: usize)
        requires
            self.wf(),
        ensures
            r == self@.len(),
    {
        if self.head >= self.tail {
            self.head - self.tail
        } else {
            self.head + (self.capacity - self.tail)
        }
    }
}

/// The queue `q` of a ring with the given number of slots after one picture was offered.
pub open spec fn offered(q: Seq<PictureView>, slots: nat, f: PictureView) -> Seq<PictureView> {
    if q.len() + 1 < slots {
        q.push(f)
    } else {
        q
    }
}

/// The queue after a number of pictures were offered, one after the other.
pub open spec fn all_offered(q: Seq<PictureView>, slots: nat, fs: Seq<PictureView>) -> Seq<PictureView>
    decreases fs.len(),
{
    if fs.len() == 0 {
        q
    } else {
        offered(all_offered(q, slots, fs.drop_last()), slots, fs.last())
    }
}

/// Pictures are handed on in the order in which they were offered. When there are more than the
/// ring has room for, it is the latest that are dropped.
pub proof fn law_frames_keep_their_order(q: Seq<PictureView>, slots: nat, fs: Seq<PictureView>)
    requires
        q.len() < slots,
    ensures
        all_offered(q, slots, fs) == (if q.len() + fs.len() < slots {
            q + fs
        } else {
            q + fs.take(slots - 1 - q.len())
        }),
    decreases fs.len(),
{
    if fs.len() == 0 {
        assert(q + fs =~= q);
    } else {
        law_frames_keep_their_order(q, slots, fs.drop_last());
        if q.len() + fs.len() < slots {
            assert((q + fs.drop_last()).push(fs.last()) =~= q + fs);
        } else {
            let n = slots - 1 - q.len();
            assert(fs.drop_last().take(n) =~= fs.take(n));
            if q.len() + fs.len() == slots {
                assert(fs.drop_last() =~= fs.take(n));
            }
        }
    }
}

/// A buffer was delivered: a whole picture in it is offered to the queue, anything else is passed
/// over.
pub fn buffer_delivered(
    ring: &mut FrameRingBuffer,
    bytes: &Vec<u8>,
    size: usize,
    width: u32,
    height: u32,
)
    requires
        old(ring).wf(),
        old(ring).slots() > 0,
        is_countable(width, height),
    ensures
        final(ring).wf(),
        final(ring).slots() == old(ring).slots(),
        final(ring)@ == (if size == width * height * 4 && size <= bytes@.len() {
            offered(
                old(ring)@,
                old(ring).slots(),
                PictureView { data: bytes@.take(size as int), width, height },
            )
        } else {
            old(ring)@
        }),
{
    match accept_frame(bytes, size, width, height) {
        Some(frame) => {
            ring.try_push(frame);
        },
        None => {},
    }
}

/// What is done to get the next picture.
#[derive(Debug)]
pub enum CaptureStep {
    Deliver(CapturedFrame),
    /// Wait for the given milliseconds and look again.
    Wait(u64),
}

/// Looks for the next picture: the first of the queue, or after the deadline a blank one, so that
/// the stream does not stall.
pub fn capture_step(
    ring: &mut FrameRingBuffer,
    now_ms: u64,
    deadline_ms: u64,
    width: u32,
    height: u32,
) -> (r: CaptureStep)
    requires
        old(ring).wf(),
        is_countable(width, height),
    ensures
        final(ring).wf(),
        final(ring).slots() == old(ring).slots(),
        if old(ring)@.len() > 0 {
            &&& r matches CaptureStep::Deliver(f) && f@ == old(ring)@[0]
            &&& final(ring)@ == old(ring)@.skip(1)
        } else {
            &&& final(ring)@ == old(ring)@
            &&& match r {
                CaptureStep::Deliver(f) => now_ms >= deadline_ms && f@ == blank(width, height),
                CaptureStep::Wait(ms) => now_ms < deadline_ms && ms == 1,
            }
        },
{
    match ring.try_pop() {
        Some(f) => CaptureStep::Deliver(f),
        None => {
            if now_ms >= deadline_ms {
                CaptureStep::Deliver(blank_frame(width, height))
            } else {
                CaptureStep::Wait(1)
            }
        },
    }
}

/// Whether the session is a Wayland one, from what the environment says of its display and type.
pub fn is_wayland(wayland_display: Option<&str>, session_type: Option<&str>) -> (r: bool)
    ensures
        r == ((wayland_display matches Some(d) && d@.len() > 0) || (session_type matches Some(t) && t@
            == "wayland"@)),
{
    let named = match wayland_display {
        Some(d) => !d.is_empty(),
        None => false,
    };
    let typed = match session_type {
        Some(t) => crate::text::same(t, "wayland"),
        None => false,
    };
    named || typed
}

/// An encoded picture.
#[derive(Debug)]
pub struct EncodedFrame {
    pub data: Vec<u8>,
    pub width: u32,
    pub height: u32,
    pub keyframe: bool,
    pub timestamp_ms: u64,
}

/// An encoded picture, as contracts speak of it.
#[verifier::ext_equal]
pub struct EncodedView {
    pub data: Seq<u8>,
    pub width: u32,
    pub height: u32,
    pub keyframe: bool,
    pub timestamp_ms: u64,
}

impl View for EncodedFrame {
    type V = EncodedView;

    open spec fn view(&self) -> EncodedView {
        EncodedView {
            data: self.data@,
            width: self.width,
            height: self.height,
            keyframe: self.keyframe,
            timestamp_ms: self.timestamp_ms,
        }
    }
}

/// The encoder that is used: that of the graphics hardware where there is one and it opens, else
/// the one that runs everywhere.
pub fn choose_codec(hardware_found: bool, hardware_opened: bool) -> (r: &'static str)
    ensures
        r@ == (if hardware_found && hardware_opened {
            "h264_qsv"@
        } else {
            "libx264"@
        }),
{
    if hardware_found && hardware_opened {
        "h264_qsv"
    } else {
        "libx264"
    }
}

/// The size and the bits per second that pictures of a given size are encoded in.
#[derive(Debug)]
pub struct EncoderPlan {
    pub width: u32,
    pub height: u32,
    pub bit_rate: u64,
}

/// The size and the bits per second that pictures of a given size are encoded in.
pub fn encoder_plan(width: u32, height: u32) -> (r: EncoderPlan)
    ensures
        r.width <= 1920 && r.height <= 1080,
        width <= 1920 && height <= 1080 ==> r.width == width && r.height == height,
        width > 1920 || height > 1080 ==> {
            let (a, w) = crate::scale::ratio(width as int, height as int);
            crate::scale::is_scaled(width as int, a, w, r.width as int) && crate::scale::is_scaled(
                height as int,
                a,
                w,
                r.height as int,
            )
        },
        r.bit_rate == (r.width * r.height) * 8_000_000 / 2_073_600,
{
    let (w, h) = scale_dimensions(width, height);
    proof {
        assert(w * h <= 1920 * 1080) by (nonlinear_arith)
            requires
                w <= 1920,
                h <= 1080,
        ;
    }
    EncoderPlan { width: w, height: h, bit_rate: target_bit_rate(w, h) }
}

/// Encodes pictures one after the other. Without a codec at hand the encoded pictures are empty.
#[derive(Debug)]
pub struct Encoder {
    codec_name: String,
    width: u32,
    height: u32,
    seq: u64,
}

impl Encoder {
    /// The name of the codec.
    pub closed spec fn codec(&self) -> Seq<char> {
        self.codec_name@
    }

    /// The size of the pictures.
    pub closed spec fn size(&self) -> (u32, u32) {
        (self.width, self.height)
    }

    /// How many pictures were to be encoded, those that failed among them.
    pub closed spec fn attempts(&self) -> u64 {
        self.seq
    }

    /// An encoder without a codec.
    pub fn new(width: u32, height: u32) -> (r: Encoder)
        ensures
            r.codec() == "scaffold"@,
            r.size() == (width, height),
            r.attempts() == 0,
    {
        Encoder { codec_name: "scaffold".to_owned(), width, height, seq: 0 }
    }

    /// An encoder with the codec of the given name.
    pub fn with_codec(codec_name: &str, width: u32, height: u32) -> (r: Encoder)
        ensures
            r.codec() == codec_name@,
            r.size() == (width, height),
            r.attempts() == 0,
    {
        Encoder { codec_name: codec_name.to_owned(), width, height, seq: 0 }
    }

    /// What is handed on of a picture that the codec has encoded. Where it is empty, every
    /// sixtieth counts as one that can be decoded without those before it.
    pub fn finish(&mut self, encoded: EncodedFrame) -> (r: EncodedFrame)
        requires
            old(self).attempts() < u64::MAX,
        ensures
            final(self).attempts() == old(self).attempts() + 1,
            final(self).codec() == old(self).codec(),
            final(self).size() == old(self).size(),
            r@ == (EncodedView {
                keyframe: if encoded@.data.len() == 0 {
                    (old(self).attempts() + 1) % 60 == 0
                } else {
                    encoded@.keyframe
                },
                ..encoded@
            }),
    {
        self.seq = self.seq + 1;
        let keyframe = if encoded.data.len() == 0 {
            self.seq % 60 == 0
        } else {
            encoded.keyframe
        };
        EncodedFrame {
            data: encoded.data,
            width: encoded.width,
            height: encoded.height,
            keyframe,
            timestamp_ms: encoded.timestamp_ms,
        }
    }

    /// The codec has failed on a picture. It counts toward the sixtieth like the others.
    pub fn fail(&mut self)
        requires
            old(self).attempts() < u64::MAX,
        ensures
            final(self).attempts() == old(self).attempts() + 1,
            final(self).codec() == old(self).codec(),
            final(self).size() == old(self).size(),
    {
        self.seq = self.seq + 1;
    }

    /// Encodes a picture without a codec. The time that is noted is that of the system clock.
    pub fn encode(&mut self, _frame: CapturedFrame) -> (r: EncodedFrame)
        requires
            old(self).attempts() < u64::MAX,
        ensures
            final(self).attempts() == old(self).attempts() + 1,
            final(self).codec() == old(self).codec(),
            final(self).size() == old(self).size(),
            r@.data == Seq::<u8>::empty(),
            (r@.width, r@.height) == old(self).size(),
            r@.keyframe == ((old(self).attempts() + 1) % 60 == 0),
            crate::wall::is_clock_millisecond(r@.timestamp_ms),
    {
        let timestamp_ms = crate::wall::now_millis();
        let width = self.width;
        let height = self.height;
        self.finish(EncodedFrame { data: Vec::new(), width, height, keyframe: false, timestamp_ms })
    }

    /// The name of the codec.
    pub fn codec_name(&self) -> (r: &str)
        ensures
            r@ == self.codec(),
    {
        self.codec_name.as_str()
    }

    /// The size of the pictures.
    pub fn dimensions(&self) -> (r: (u32, u32))
        ensures
            r == self.size(),
    {
        (self.width, self.height)
    }
}

/// A decoded picture.
#[derive(Debug)]
pub struct DecodedFrame {
    pub data: Vec<u8>,
    pub width: u32,
    pub height: u32,
}

impl View for DecodedFrame {
    type V = PictureView;

    open spec fn view(&self) -> PictureView {
        PictureView { data: self.data@, width: self.width, height: self.height }
    }
}

/// Decodes pictures to a fixed size.
#[derive(Debug)]
pub struct Decoder {
    width: u32,
    height: u32,
}

impl Decoder {
    /// The size of the pictures.
    pub closed spec fn size(&self) -> (u32, u32) {
        (self.width, self.height)
    }

    /// A decoder for pictures of the given size.
    pub fn new(width: u32, height: u32) -> (r: Decoder)
        ensures
            r.size() == (width, height),
    {
        Decoder { width, height }
    }

    /// The picture that is shown for what the codec gave: its bytes as far as they reach, a blank
    /// one where it gave none yet.
    pub fn finish(&self, picture: Option<&Vec<u8>>) -> (r: DecodedFrame)
        requires
            is_countable(self.size().0, self.size().1),
        ensures
            r@ == (match picture {
                Some(bytes) => PictureView {
                    data: copied(blank(self.size().0, self.size().1).data, bytes@),
                    width: self.size().0,
                    height: self.size().1,
                },
                None => blank(self.size().0, self.size().1),
            }),
    {
        let mut data = zeros(self.width, self.height);
        match picture {
            Some(bytes) => copy_over(&mut data, bytes),
            None => (),
        }
        DecodedFrame { data, width: self.width, height: self.height }
    }

    /// Decodes a picture without a codec: it is blank.
    pub fn decode(&mut self, _frame: &EncodedFrame) -> (r: DecodedFrame)
        requires
            is_countable(old(self).size().0, old(self).size().1),
        ensures
            *final(self) == *old(self),
            r@ == blank(old(self).size().0, old(self).size().1),
    {
        self.finish(None)
    }
}

} // verus!
