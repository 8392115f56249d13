//! Native playback's plumbing: what the external decoder is run with, what a
//! probe of a file says, and how raw sound travels from a pipe to the device.

use std::collections::VecDeque;

use vstd::prelude::*;

use crate::text::{chars_of, decimal_u64, same, string_range};
#[allow(unused_imports)]
use crate::text::{decimal, deep, lemma_deep_push, opt};
use crate::ytdlp::{s, Double};

verus! {

// ---------------------------------------------------------------------------
// Probing a file
// ---------------------------------------------------------------------------

/// Size, frame rate and length of a video.
#[derive(Debug, Clone, Copy, PartialEq, Eq, Structural)]
pub struct VideoInfo {
    pub width: u32,
    pub height: u32,
    pub fps: Double,
    /// The total length, where the file tells one.
    pub duration: Option<Double>,
}

/// What a probe says of one stream. `rate` and `duration` are the numbers that
/// their texts stand for, where they are numbers.
#[derive(Debug, PartialEq)]
pub struct StreamFacts {
    pub codec_type: String,
    pub width: Option<u32>,
    pub height: Option<u32>,
    pub rate: Option<Double>,
    pub duration: Option<Double>,
}

/// Why a file cannot be played.
#[derive(Debug, Clone, Copy, PartialEq, Eq, Structural)]
pub enum ProbeError {
    NoVideoStream,
    NoWidth,
    NoHeight,
}

impl ProbeError {
    pub fn message(self) -> (r: &'static str)
        ensures
            r@ == (match self {
                ProbeError::NoVideoStream => "no video stream found"@,
                ProbeError::NoWidth => "video stream has no width"@,
                ProbeError::NoHeight => "video stream has no height"@,
            }),
    {
        match self {
            ProbeError::NoVideoStream => "no video stream found",
            ProbeError::NoWidth => "video stream has no width",
            ProbeError::NoHeight => "video stream has no height",
        }
    }
}

/// The bits of thirty, as a double.
pub const DEFAULT_FPS: u64 = 0x403e_0000_0000_0000;

/// The number, where it is above zero.
pub open spec fn if_positive(n: Option<Double>) -> Option<Double> {
    match n {
        Some(d) => if d.positive() {
            Some(d)
        } else {
            None
        },
        None => None,
    }
}

/// Where the first video stream stands; the number of streams where there is
/// none.
pub open spec fn video_pos(streams: Seq<StreamFacts>) -> int
    decreases streams.len(),
{
    if streams.len() == 0 || streams[0].codec_type@ == "video"@ {
        0
    } else {
        1 + video_pos(streams.skip(1))
    }
}

/// The frame rate to play at: the stream's own where it is above zero, else
/// thirty. Guessing wrong only paces playback slightly off.
pub open spec fn frame_rate(rate: Option<Double>) -> Double {
    match if_positive(rate) {
        Some(d) => d,
        None => Double { bits: DEFAULT_FPS },
    }
}

/// The length to draw the seek bar against: the container's own, which covers
/// the whole file; else the stream's; else none. A length that is no number or
/// is zero is none: the seek bar has to divide by it.
pub open spec fn length_of(container: Option<Double>, stream: Option<Double>) -> Option<Double> {
    match if_positive(container) {
        Some(d) => Some(d),
        None => if_positive(stream),
    }
}

/// What a probe says of a file.
pub open spec fn video_info_spec(
    streams: Seq<StreamFacts>,
    container: Option<Double>,
) -> Result<VideoInfo, ProbeError> {
    let i = video_pos(streams);
    if i >= streams.len() {
        Err(ProbeError::NoVideoStream)
    } else if streams[i].width is None {
        Err(ProbeError::NoWidth)
    } else if streams[i].height is None {
        Err(ProbeError::NoHeight)
    } else {
        Ok(
            VideoInfo {
                width: streams[i].width->0,
                height: streams[i].height->0,
                fps: frame_rate(streams[i].rate),
                duration: length_of(container, streams[i].duration),
            },
        )
    }
}

fn positive(n: Option<Double>) -> (r: Option<Double>)
    ensures
        r == if_positive(n),
{
    match n {
        Some(d) => if d.is_positive() {
            Some(d)
        } else {
            None
        },
        None => None,
    }
}

/// What a probe says of a file, given its streams and the length of its
/// container.
pub fn video_info(streams: &Vec<StreamFacts>, container: Option<Double>) -> (r: Result<
    VideoInfo,
    ProbeError,
>)
    ensures
        r == video_info_spec(streams@, container),
{
    let mut i: usize = 0;
    assert(streams@.skip(0) =~= streams@);
    while i < streams.len() && !same(streams[i].codec_type.as_str(), "video")
        invariant
            i <= streams@.len(),
            video_pos(streams@) == i + video_pos(streams@.skip(i as int)),
        decreases streams@.len() - i,
    {
        assert(streams@.skip(i as int)[0] == streams@[i as int]);
        assert(streams@.skip(i as int).skip(1) =~= streams@.skip(i + 1));
        i = i + 1;
    }
    if i == streams.len() {
        return Err(ProbeError::NoVideoStream);
    }
    assert(streams@.skip(i as int)[0] == streams@[i as int]);
    let stream: &StreamFacts = &streams[i];
    let width: u32 = match stream.width {
        Some(w) => w,
        None => {
            return Err(ProbeError::NoWidth);
        },
    };
    let height: u32 = match stream.height {
        Some(h) => h,
        None => {
            return Err(ProbeError::NoHeight);
        },
    };
    let fps: Double = match positive(stream.rate) {
        Some(d) => d,
        None => Double { bits: DEFAULT_FPS },
    };
    let duration: Option<Double> = match positive(container) {
        Some(d) => Some(d),
        None => positive(stream.duration),
    };
    Ok(VideoInfo { width, height, fps, duration })
}

/// Where the first slash of a text stands.
pub open spec fn first_slash(t: Seq<char>) -> Option<nat>
    decreases t.len(),
{
    if t.len() == 0 {
        None
    } else if t[0] == '/' {
        Some(0)
    } else {
        match first_slash(t.skip(1)) {
            Some(i) => Some(i + 1),
            None => None,
        }
    }
}

/// A frame rate is told as a fraction, such as `30000/1001`: its numerator, and
/// its denominator where there is one.
pub fn rate_parts(rate: &str) -> (r: (String, Option<String>))
    ensures
        match first_slash(rate@) {
            Some(i) => r.0@ == rate@.take(i as int) && opt(r.1) == Some(
                rate@.skip((i + 1) as int),
            ),
            None => r.0@ == rate@ && r.1 is None,
        },
{
    let chars: Vec<char> = chars_of(rate);
    let len: usize = chars.len();
    let mut i: usize = 0;
    assert(chars@.skip(0) =~= chars@);
    while i < len
        invariant
            i <= len,
            len == chars@.len(),
            chars@ == rate@,
            first_slash(chars@) == (match first_slash(chars@.skip(i as int)) {
                Some(k) => Some((k + i) as nat),
                None => None,
            }),
        decreases len - i,
    {
        assert(chars@.skip(i as int)[0] == chars@[i as int]);
        if chars[i] == '/' {
            let head: String = string_range(&chars, 0, i);
            let tail: String = string_range(&chars, i + 1, len);
            assert(head@ =~= rate@.take(i as int));
            assert(tail@ =~= rate@.skip(i + 1));
            return (head, Some(tail));
        }
        assert(chars@.skip(i as int).skip(1) =~= chars@.skip(i + 1));
        i = i + 1;
    }
    let whole: String = string_range(&chars, 0, len);
    assert(whole@ =~= rate@);
    (whole, None)
}

// ---------------------------------------------------------------------------
// Running the decoder
// ---------------------------------------------------------------------------

/// The arguments of a probe of a file.
pub open spec fn ffprobe_args_spec(source: Seq<char>) -> Seq<Seq<char>> {
    seq![
        "-v"@,
        "quiet"@,
        "-print_format"@,
        "json"@,
        "-show_streams"@,
        "-show_format"@,
        source,
    ]
}

/// The arguments of a probe of a file.
pub fn ffprobe_args(source: &str) -> (a: Vec<String>)
    ensures
        deep(a@) == ffprobe_args_spec(source@),
{
    broadcast use lemma_deep_push;

    let mut a: Vec<String> = Vec::new();
    a.push(s("-v"));
    a.push(s("quiet"));
    a.push(s("-print_format"));
    a.push(s("json"));
    a.push(s("-show_streams"));
    a.push(s("-show_format"));
    a.push(s(source));
    assert(deep(a@) =~= ffprobe_args_spec(source@));
    a
}

/// The arguments that decode the picture as raw frames, from `start` seconds at
/// `fps` frames a second.
pub open spec fn video_args_spec(
    source: Seq<char>,
    start: Seq<char>,
    fps: Seq<char>,
) -> Seq<Seq<char>> {
    seq![
        "-ss"@,
        start,
        "-i"@,
        source,
        "-an"@,
        "-loglevel"@,
        "error"@,
        "-f"@,
        "rawvideo"@,
        "-pix_fmt"@,
        "bgra"@,
        "-vf"@,
        "fps="@ + fps,
        "pipe:1"@,
    ]
}

/// The arguments that decode the picture as raw frames.
pub fn video_args(source: &str, start: &str, fps: &str) -> (a: Vec<String>)
    ensures
        deep(a@) == video_args_spec(source@, start@, fps@),
{
    broadcast use lemma_deep_push;

    let mut a: Vec<String> = Vec::new();
    a.push(s("-ss"));
    a.push(s(start));
    a.push(s("-i"));
    a.push(s(source));
    a.push(s("-an"));
    a.push(s("-loglevel"));
    a.push(s("error"));
    a.push(s("-f"));
    a.push(s("rawvideo"));
    a.push(s("-pix_fmt"));
    a.push(s("bgra"));
    a.push(s("-vf"));
    a.push(crate::text::concat("fps=", fps));
    a.push(s("pipe:1"));
    assert(deep(a@) =~= video_args_spec(source@, start@, fps@));
    a
}

/// Sound samples a second.
pub const SAMPLE_RATE: u32 = 48_000;

/// Channels of sound, interleaved.
pub const CHANNELS: u16 = 2;

/// How many samples may wait for the device: half a second of them. Long enough
/// to ride out jitter, short enough that a pause leaves no stale tail.
pub const RING_CAPACITY: usize = 48_000;

/// The arguments that decode the sound as raw samples, from `start` seconds.
/// The start is that of the picture, so both decode one position.
pub open spec fn audio_args_spec(source: Seq<char>, start: Seq<char>) -> Seq<Seq<char>> {
    seq![
        "-ss"@,
        start,
        "-i"@,
        source,
        "-vn"@,
        "-loglevel"@,
        "error"@,
        "-f"@,
        "s16le"@,
        "-ar"@,
        decimal(SAMPLE_RATE as nat),
        "-ac"@,
        decimal(CHANNELS as nat),
        "pipe:1"@,
    ]
}

/// The arguments that decode the sound as raw samples.
pub fn audio_args(source: &str, start: &str) -> (a: Vec<String>)
    ensures
        deep(a@) == audio_args_spec(source@, start@),
{
    broadcast use lemma_deep_push;

    let mut a: Vec<String> = Vec::new();
    a.push(s("-ss"));
    a.push(s(start));
    a.push(s("-i"));
    a.push(s(source));
    a.push(s("-vn"));
    a.push(s("-loglevel"));
    a.push(s("error"));
    a.push(s("-f"));
    a.push(s("s16le"));
    a.push(s("-ar"));
    a.push(decimal_u64(SAMPLE_RATE as u64));
    a.push(s("-ac"));
    a.push(decimal_u64(CHANNELS as u64));
    a.push(s("pipe:1"));
    assert(deep(a@) =~= audio_args_spec(source@, start@));
    a
}

/// A frame with the first and the third byte of each pixel changed places: from
/// blue first to red first. What is left over at the end stays as it is.
pub open spec fn turned(bgra: Seq<u8>) -> Seq<u8> {
    Seq::new(
        bgra.len(),
        |i: int|
            if i - i % 4 + 4 > bgra.len() {
                bgra[i]
            } else if i % 4 == 0 {
                bgra[i + 2]
            } else if i % 4 == 2 {
                bgra[i - 2]
            } else {
                bgra[i]
            },
    )
}

/// A frame as the window takes it. Decoders hand out blue first.
pub fn red_first(bgra: &[u8]) -> (r: Vec<u8>)
    ensures
        r@ == turned(bgra@),
{
    let len: usize = bgra.len();
    let mut out: Vec<u8> = Vec::new();
    let mut i: usize = 0;
    while i < len
        invariant
            i <= len,
            len == bgra@.len(),
            out@ == turned(bgra@).take(i as int),
        decreases len - i,
    {
        let rest: usize = i % 4;
        let byte: u8 = if len - (i - rest) < 4 {
            bgra[i]
        } else if rest == 0 {
            bgra[i + 2]
        } else if rest == 2 {
            bgra[i - 2]
        } else {
            bgra[i]
        };
        out.push(byte);
        assert(turned(bgra@).take(i as int).push(byte) =~= turned(bgra@).take(i + 1));
        i = i + 1;
    }
    assert(turned(bgra@).take(len as int) =~= turned(bgra@));
    out
}

/// Changing places twice gives the frame back.
pub proof fn lemma_turning_twice(bgra: Seq<u8>)
    ensures
        turned(turned(bgra)) == bgra,
{
    assert(turned(turned(bgra)) =~= bgra);
}

/// The bytes of one raw frame, four to a pixel; none where they are too many to
/// address.
pub fn frame_len(width: u32, height: u32) -> (r: Option<usize>)
    ensures
        match r {
            Some(n) => n == width * height * 4,
            None => width * height * 4 > usize::MAX,
        },
{
    assert(width * height <= u32::MAX * u32::MAX) by (nonlinear_arith)
        requires
            width <= u32::MAX,
            height <= u32::MAX,
    ;
    let pixels: u128 = width as u128;
    let pixels: u128 = pixels * height as u128;
    let bytes: u128 = pixels * 4;
    if bytes <= usize::MAX as u128 {
        Some(bytes as usize)
    } else {
        None
    }
}

// ---------------------------------------------------------------------------
// Pacing
// ---------------------------------------------------------------------------

/// How long the picture waits for sound before it goes on by itself, in
/// milliseconds. Only a file without sound, or a machine without a device, gets
/// there.
pub const AUDIO_START_TIMEOUT_MS: u64 = 1500;

/// When the frames of a run are due, in nanoseconds of one clock. A decoder is
/// much faster than playback, so frames are held back to the pace of the file.
#[derive(Debug, Clone, Copy, PartialEq, Eq, Structural)]
pub struct Pacer {
    /// When playback began, were it never paused.
    pub origin: u64,
    /// The time from one frame to the next.
    pub interval: u64,
    /// The frames shown so far.
    pub shown: u32,
}

/// When a frame is due, counted from zero. Frames are counted from the origin
/// rather than from each other, so that no rounding adds up.
pub open spec fn due(p: Pacer, frame: nat) -> int {
    p.origin + p.interval * frame
}

impl Pacer {
    pub fn new(now: u64, interval: u64) -> (r: Pacer)
        ensures
            r == (Pacer { origin: now, interval, shown: 0 }),
    {
        Pacer { origin: now, interval, shown: 0 }
    }

    /// Playback was paused for a while. The time is added to the origin: without
    /// it the frames that were due meanwhile would rush past the sound.
    pub fn resume(&mut self, paused_for: u64)
        requires
            old(self).origin + paused_for <= u64::MAX,
        ensures
            *final(self) == (Pacer {
                origin: (old(self).origin + paused_for) as u64,
                ..*old(self)
            }),
    {
        self.origin = self.origin + paused_for;
    }

    /// A frame was shown. Gives back how long to wait before the next one.
    pub fn wait(&mut self, now: u64) -> (r: u128)
        requires
            old(self).shown < u32::MAX,
        ensures
            *final(self) == (Pacer { shown: (old(self).shown + 1) as u32, ..*old(self) }),
            r == (if due(*final(self), final(self).shown as nat) > now {
                due(*final(self), final(self).shown as nat) - now
            } else {
                0
            }),
    {
        self.shown = self.shown + 1;
        assert(self.interval * self.shown <= u64::MAX * u32::MAX) by (nonlinear_arith)
            requires
                self.interval <= u64::MAX,
                self.shown <= u32::MAX,
        ;
        let at: u128 = self.origin as u128 + self.interval as u128 * self.shown as u128;
        if at > now as u128 {
            at - now as u128
        } else {
            0
        }
    }
}

/// A pause puts off every frame by its own length and changes nothing else:
/// picture and sound come back together.
pub proof fn lemma_pause_puts_off_every_frame(p: Pacer, paused_for: u64, frame: nat)
    requires
        p.origin + paused_for <= u64::MAX,
    ensures
        due(Pacer { origin: (p.origin + paused_for) as u64, ..p }, frame) == due(p, frame)
            + paused_for,
{
}

/// Frames are evenly spaced however many there are: the pace never drifts.
pub proof fn lemma_pace_never_drifts(p: Pacer, frame: nat, more: nat)
    ensures
        due(p, frame + more) == due(p, frame) + p.interval * more,
{
    assert(p.interval * (frame + more) == p.interval * frame + p.interval * more)
        by (nonlinear_arith);
}

/// Whether the picture may start: once sound reaches the device, or once it has
/// waited long enough. Both times are in milliseconds.
pub fn may_start(sounding: bool, waited: u64) -> (r: bool)
    ensures
        r == (sounding || waited >= AUDIO_START_TIMEOUT_MS),
{
    sounding || waited >= AUDIO_START_TIMEOUT_MS
}

// ---------------------------------------------------------------------------
// Sound
// ---------------------------------------------------------------------------

/// The sample that two bytes stand for, the low one first.
pub open spec fn sample(low: u8, high: u8) -> i16 {
    let n = low as int + 256 * high as int;
    if n >= 32768 {
        (n - 65536) as i16
    } else {
        n as i16
    }
}

/// The samples that bytes stand for; a last byte without its other half is
/// none.
pub open spec fn samples(bytes: Seq<u8>) -> Seq<i16> {
    Seq::new(bytes.len() / 2, |i: int| sample(bytes[2 * i], bytes[2 * i + 1]))
}

/// The last byte, where it has no other half.
pub open spec fn half(bytes: Seq<u8>) -> Seq<u8> {
    if bytes.len() % 2 == 1 {
        seq![bytes.last()]
    } else {
        Seq::<u8>::empty()
    }
}

fn sample_of(low: u8, high: u8) -> (r: i16)
    ensures
        r == sample(low, high),
{
    let n: i32 = low as i32 + 256 * high as i32;
    if n >= 32768 {
        (n - 65536) as i16
    } else {
        n as i16
    }
}

/// Puts samples together from reads of a pipe, which can end in the middle of
/// one. The half that was read is kept for the next read: dropping it would
/// shift every sample after it and turn the rest of the track into noise.
#[derive(Debug, PartialEq, Eq)]
pub struct PcmReader {
    pub carry: Option<u8>,
}

impl PcmReader {
    /// The byte that waits for its other half.
    pub open spec fn waiting(self) -> Seq<u8> {
        match self.carry {
            Some(b) => seq![b],
            None => Seq::<u8>::empty(),
        }
    }

    pub fn new() -> (r: PcmReader)
        ensures
            r.waiting() == Seq::<u8>::empty(),
    {
        PcmReader { carry: None }
    }

    /// Takes in what one read gave. Gives back the samples that are whole.
    pub fn feed(&mut self, bytes: &[u8]) -> (r: Vec<i16>)
        ensures
            r@ == samples(old(self).waiting() + bytes@),
            final(self).waiting() == half(old(self).waiting() + bytes@),
    {
        let ghost all = self.waiting() + bytes@;
        let ghost k: int = self.waiting().len() as int;
        let mut out: Vec<i16> = Vec::new();
        let mut low: Option<u8> = self.carry;
        let mut i: usize = 0;
        assert(out@ =~= samples(all.take(k)));
        while i < bytes.len()
            invariant
                i <= bytes@.len(),
                0 <= k <= 1,
                all.len() == k + bytes@.len(),
                forall|j: int| 0 <= j < bytes@.len() ==> #[trigger] all[k + j] == bytes@[j],
                out@ == samples(all.take(k + i)),
                low is Some <==> (k + i) % 2 == 1,
                low is Some ==> low->0 == all[k + i - 1],
            decreases bytes@.len() - i,
        {
            assert(all[k + i] == bytes@[i as int]);
            let ghost before = all.take(k + i);
            let ghost after = all.take(k + i + 1);
            match low {
                None => {
                    low = Some(bytes[i]);
                    assert(samples(after) =~= samples(before));
                },
                Some(l) => {
                    let next: i16 = sample_of(l, bytes[i]);
                    out.push(next);
                    low = None;
                    assert(after.len() / 2 == before.len() / 2 + 1);
                    assert(samples(after) =~= samples(before).push(next));
                },
            }
            i = i + 1;
        }
        assert(all.take(k + i) =~= all);
        self.carry = low;
        assert(self.waiting() =~= half(all));
        out
    }
}

/// However a pipe cuts its bytes into reads, the samples are the same: those of
/// one read and then another are those of both at once.
pub proof fn lemma_cuts_do_not_matter(x: Seq<u8>, b: Seq<u8>)
    ensures
        samples(x + b) == samples(x) + samples(half(x) + b),
        half(x + b) == half(half(x) + b),
{
    let n = x.len() / 2;
    let h = half(x) + b;
    assert((x + b).len() / 2 == n + h.len() / 2);
    assert forall|i: int| 0 <= i < (x + b).len() / 2 implies samples(x + b)[i] == (samples(x)
        + samples(h))[i] by {
        if i >= n {
            let j = i - n;
            if x.len() % 2 == 0 {
                assert((x + b)[2 * i] == b[2 * j]);
                assert(h[2 * j] == b[2 * j]);
            } else {
                assert(h[2 * j] == (x + b)[2 * i]);
                assert(h[2 * j + 1] == (x + b)[2 * i + 1]);
            }
        }
    }
    assert(samples(x + b) =~= samples(x) + samples(h));
    assert(half(x + b) =~= half(h));
}

/// What the thread that reads the sound pipe does next.
#[derive(Debug, Clone, Copy, PartialEq, Eq, Structural)]
pub enum ReadStep {
    /// End.
    Stop,
    /// Sleep that many milliseconds, and look again.
    Sleep(u64),
    /// Read from the pipe.
    Read,
}

/// What the thread that reads the sound pipe does next. A stop comes first;
/// nothing is read while paused, nor while the ring is full: the decoder is far
/// faster than real time, and waiting for room lets the device set the pace.
pub fn read_step(stopped: bool, paused: bool, queued: usize) -> (r: ReadStep)
    ensures
        r == (if stopped {
            ReadStep::Stop
        } else if paused {
            ReadStep::Sleep(50)
        } else if queued >= RING_CAPACITY {
            ReadStep::Sleep(5)
        } else {
            ReadStep::Read
        }),
{
    if stopped {
        ReadStep::Stop
    } else if paused {
        ReadStep::Sleep(50)
    } else if queued >= RING_CAPACITY {
        ReadStep::Sleep(5)
    } else {
        ReadStep::Read
    }
}

/// The samples that can go to the device: as many as wait and fit, in whole
/// frames.
pub open spec fn whole_frames(queued: nat, room: nat, channels: nat) -> nat {
    let n = if queued < room {
        queued
    } else {
        room
    };
    ((n / channels) * channels) as nat
}

/// Takes samples for the device from the ring, in whole frames: an odd number
/// would swap the channels for every sample after it. What does not fit stays.
pub fn take_frames(ring: &mut VecDeque<i16>, room: usize, channels: u16) -> (r: Vec<i16>)
    requires
        channels > 0,
    ensures
        ({
            let n = whole_frames(old(ring)@.len(), room as nat, channels as nat) as int;
            &&& r@ == old(ring)@.take(n)
            &&& final(ring)@ == old(ring)@.skip(n)
            &&& n % channels as int == 0
            &&& n <= room
        }),
{
    let queued: usize = ring.len();
    let fits: usize = if queued < room {
        queued
    } else {
        room
    };
    let frame: usize = channels as usize;
    proof {
        vstd::arithmetic::div_mod::lemma_mod_decreases(fits as nat, frame as nat);
    }
    let available: usize = fits - fits % frame;
    proof {
        vstd::arithmetic::div_mod::lemma_fundamental_div_mod(fits as int, frame as int);
        let q = fits as int / frame as int;
        assert(q * frame as int == frame as int * q) by (nonlinear_arith);
        assert(available == whole_frames(
            old(ring)@.len(),
            room as nat,
            channels as nat,
        ));
        vstd::arithmetic::div_mod::lemma_mod_multiples_basic(q, frame as int);
    }
    let ghost all = ring@;
    let mut out: Vec<i16> = Vec::new();
    let mut i: usize = 0;
    assert(all.skip(0) =~= all);
    while i < available
        invariant
            i <= available <= all.len(),
            out@ == all.take(i as int),
            ring@ == all.skip(i as int),
        decreases available - i,
    {
        let next: Option<i16> = ring.pop_front();
        match next {
            Some(n) => {
                out.push(n);
            },
            None => {},
        }
        i = i + 1;
        assert(out@ =~= all.take(i as int));
        assert(ring@ =~= all.skip(i as int));
    }
    out
}

/// Sound comes out as it went in: what two fills of the device take is what one
/// fill of both rooms would, as long as the first room holds whole frames.
pub proof fn lemma_fills_keep_order(queue: Seq<i16>, room: nat, more: nat, channels: nat)
    requires
        channels > 0,
        room % channels == 0,
        room <= queue.len(),
    ensures
        ({
            let a = whole_frames(queue.len(), room, channels) as int;
            let rest = queue.skip(a);
            let b = whole_frames(rest.len(), more, channels) as int;
            let c = whole_frames(queue.len(), room + more, channels) as int;
            &&& a == room
            &&& a + b == c
            &&& queue.take(a) + rest.take(b) == queue.take(c)
        }),
{
    let a = whole_frames(queue.len(), room, channels) as int;
    vstd::arithmetic::div_mod::lemma_fundamental_div_mod(room as int, channels as int);
    let q = (room / channels) as int;
    assert(q * channels as int == channels as int * q) by (nonlinear_arith);
    assert(a == room);
    let rest = queue.skip(a);
    let n = if rest.len() < more {
        rest.len()
    } else {
        more
    };
    let m = if queue.len() < room + more {
        queue.len()
    } else {
        (room + more) as nat
    };
    assert(m == room + n);
    vstd::arithmetic::div_mod::lemma_div_multiples_vanish_fancy(q, 0, channels as int);
    assert((room + n) as int / channels as int == q + n as int / channels as int) by {
        vstd::arithmetic::div_mod::lemma_hoist_over_denominator(
            n as int,
            q,
            channels as nat,
        );
    }
    let p = n as int / channels as int;
    assert((q + p) * channels as int == q * channels as int + p * channels as int)
        by (nonlinear_arith);
    let b = whole_frames(rest.len(), more, channels) as int;
    let c = whole_frames(queue.len(), room + more, channels) as int;
    vstd::arithmetic::div_mod::lemma_fundamental_div_mod(n as int, channels as int);
    assert(p * channels as int == channels as int * p) by (nonlinear_arith);
    assert(0 <= n as int % channels as int) by (nonlinear_arith)
        requires
            channels > 0,
    ;
    assert(b <= n);
    assert(queue.take(a) + rest.take(b) =~= queue.take(c));
}

// ---------------------------------------------------------------------------
// What each of these comes to
// ---------------------------------------------------------------------------

proof fn lemma_video_pos(streams: Seq<StreamFacts>, n: int)
    requires
        0 <= n <= streams.len(),
        n < streams.len() ==> streams[n].codec_type@ == "video"@,
        forall|i: int| 0 <= i < n ==> (#[trigger] streams[i]).codec_type@ != "video"@,
    ensures
        video_pos(streams) == n,
    decreases streams.len(),
{
    if n > 0 {
        let rest = streams.skip(1);
        assert(streams[0].codec_type@ != "video"@);
        assert forall|i: int| 0 <= i < n - 1 implies (#[trigger] rest[i]).codec_type@
            != "video"@ by {
            assert(rest[i] == streams[i + 1]);
        }
        lemma_video_pos(rest, n - 1);
    }
}

/// A file is told by its first video stream: its width and height, without which it
/// cannot be played, its rate where that is above zero and else thirty frames a second,
/// and its length: the container's where that is above zero, else the stream's where that
/// is, else none.
pub proof fn lemma_first_video_stream_tells(
    streams: Seq<StreamFacts>,
    container: Option<Double>,
    n: int,
)
    requires
        0 <= n <= streams.len(),
        n < streams.len() ==> streams[n].codec_type@ == "video"@,
        forall|i: int| 0 <= i < n ==> (#[trigger] streams[i]).codec_type@ != "video"@,
    ensures
        ({
            let r = video_info_spec(streams, container);
            let v = streams[n];
            &&& n == streams.len() ==> r == Err::<VideoInfo, ProbeError>(ProbeError::NoVideoStream)
            &&& n < streams.len() && v.width is None ==> r == Err::<VideoInfo, ProbeError>(
                ProbeError::NoWidth,
            )
            &&& n < streams.len() && v.width is Some && v.height is None ==> r == Err::<
                VideoInfo,
                ProbeError,
            >(ProbeError::NoHeight)
            &&& n < streams.len() && v.width is Some && v.height is Some ==> {
                let whole = container is Some && container->0.positive();
                let part = v.duration is Some && v.duration->0.positive();
                let paced = v.rate is Some && v.rate->0.positive();
                &&& r is Ok
                &&& r->Ok_0.width == v.width->0 && r->Ok_0.height == v.height->0
                &&& paced ==> r->Ok_0.fps == v.rate->0
                &&& !paced ==> r->Ok_0.fps.bits == 0x403e_0000_0000_0000
                &&& whole ==> r->Ok_0.duration == container
                &&& !whole && part ==> r->Ok_0.duration == v.duration
                &&& !whole && !part ==> r->Ok_0.duration is None
            }
        }),
{
    lemma_video_pos(streams, n);
}

/// The first slash stands behind what has none.
pub proof fn lemma_first_slash_parts_a_rate(above: Seq<char>, below: Seq<char>)
    requires
        !above.contains('/'),
    ensures
        first_slash(above + seq!['/'] + below) == Some(above.len()),
        first_slash(above) is None,
    decreases above.len(),
{
    let t = above + seq!['/'] + below;
    if above.len() > 0 {
        let k = above.skip(1);
        assert(above[0] != '/');
        assert(!k.contains('/')) by {
            if k.contains('/') {
                let i = choose|i: int| 0 <= i < k.len() && k[i] == '/';
                assert(above[i + 1] == '/');
            }
        }
        lemma_first_slash_parts_a_rate(k, below);
        assert(t.skip(1) =~= k + seq!['/'] + below);
    }
}

/// A probe asks, quietly, for the streams and the container of a file as JSON.
pub proof fn lemma_probe_asks_for_streams_and_container(source: Seq<char>)
    ensures
        ffprobe_args_spec(source) == seq![
            "-v"@,
            "quiet"@,
            "-print_format"@,
            "json"@,
            "-show_streams"@,
            "-show_format"@,
            source,
        ],
{
}

/// The picture and the sound of a run are decoded from one source at one position, each
/// without the other, and written raw to the pipe: frames of four bytes a pixel, blue
/// first, at the rate asked for; samples of sixteen bits, 48000 a second, in stereo.
pub proof fn lemma_picture_and_sound_start_together(
    source: Seq<char>,
    start: Seq<char>,
    fps: Seq<char>,
)
    ensures
        ({
            let (v, a) = (video_args_spec(source, start, fps), audio_args_spec(source, start));
            &&& v.len() == 14 && a.len() == 14
            &&& v[0] == "-ss"@ && v[1] == start && v[2] == "-i"@ && v[3] == source
            &&& forall|i: int| 0 <= i < 4 ==> #[trigger] v[i] == a[i]
            &&& v[4] == "-an"@ && a[4] == "-vn"@
            &&& v[5] == "-loglevel"@ && v[6] == "error"@ && a[5] == "-loglevel"@ && a[6]
                == "error"@
            &&& v[7] == "-f"@ && v[8] == "rawvideo"@ && v[9] == "-pix_fmt"@ && v[10] == "bgra"@
            &&& v[11] == "-vf"@ && v[12] == "fps="@ + fps
            &&& a[7] == "-f"@ && a[8] == "s16le"@
            &&& a[9] == "-ar"@ && a[10] == "48000"@
            &&& a[11] == "-ac"@ && a[12] == "2"@
            &&& v[13] == "pipe:1"@ && a[13] == "pipe:1"@
        }),
{
    reveal_strlit("48000");
    reveal_strlit("2");
    reveal_with_fuel(decimal, 6);
    assert(decimal(48000) =~= "48000"@);
    assert(decimal(2) =~= "2"@);
}

/// Blue and red of each whole pixel change places; green, the fourth byte, and bytes that
/// make no whole pixel stay.
pub proof fn lemma_blue_and_red_change_places(bgra: Seq<u8>, pixel: int)
    ensures
        ({
            let t = turned(bgra);
            let at = 4 * pixel;
            &&& t.len() == bgra.len()
            &&& 0 <= pixel && at + 4 <= bgra.len() ==> {
                &&& t[at] == bgra[at + 2]
                &&& t[at + 1] == bgra[at + 1]
                &&& t[at + 2] == bgra[at]
                &&& t[at + 3] == bgra[at + 3]
            }
            &&& 0 <= pixel && at <= bgra.len() < at + 4 ==> forall|i: int|
                at <= i < bgra.len() ==> #[trigger] t[i] == bgra[i]
        }),
{
}

/// A frame is due as many intervals after the beginning as there are frames before it.
pub proof fn lemma_frames_are_due_in_turn(p: Pacer, frame: nat)
    ensures
        due(p, 0) == p.origin,
        due(p, frame + 1) - due(p, frame) == p.interval,
{
    assert(p.interval * (frame + 1) == p.interval * frame + p.interval) by (nonlinear_arith);
    assert(p.interval * 0 == 0) by (nonlinear_arith);
}

/// Half a second of stereo sound may wait for the device, and the picture waits for sound
/// a second and a half.
pub proof fn lemma_waits_of_a_run()
    ensures
        SAMPLE_RATE == 48_000 && CHANNELS == 2 && RING_CAPACITY == 48_000,
        AUDIO_START_TIMEOUT_MS == 1500,
{
}

/// Two bytes are a sample in two's complement, the low one first.
pub proof fn lemma_two_bytes_are_a_sample(low: u8, high: u8)
    ensures
        high < 128 ==> sample(low, high) == low + 256 * high,
        high >= 128 ==> sample(low, high) == low + 256 * high - 65536,
{
}

/// Bytes are samples two by two, in their order; an odd one at the end waits.
pub proof fn lemma_bytes_are_samples_two_by_two(bytes: Seq<u8>, low: u8, high: u8)
    requires
        bytes.len() % 2 == 0,
    ensures
        samples(Seq::<u8>::empty()).len() == 0,
        samples(bytes.push(low).push(high)) == samples(bytes).push(sample(low, high)),
        samples(bytes.push(low)) == samples(bytes),
        half(bytes).len() == 0,
        half(bytes.push(low)) == seq![low],
{
    let more = bytes.push(low).push(high);
    assert(samples(more) =~= samples(bytes).push(sample(low, high)));
    assert(samples(bytes.push(low)) =~= samples(bytes));
}

/// As many samples go to the device as wait and fit, less what makes no whole frame.
pub proof fn lemma_whole_frames_fill_the_room(queued: nat, room: nat, channels: nat)
    requires
        channels > 0,
    ensures
        ({
            let n = whole_frames(queued, room, channels);
            &&& n <= queued && n <= room
            &&& n + channels > queued || n + channels > room
            &&& n % channels == 0
        }),
{
    let m = if queued < room {
        queued
    } else {
        room
    };
    vstd::arithmetic::div_mod::lemma_fundamental_div_mod(m as int, channels as int);
    vstd::arithmetic::div_mod::lemma_mod_bound(m as int, channels as int);
    vstd::arithmetic::mul::lemma_mul_is_commutative((m / channels) as int, channels as int);
    vstd::arithmetic::div_mod::lemma_mod_multiples_basic((m / channels) as int, channels as int);
}

} // verus!
