//! Audio capture configuration and buffering: the `arecord` invocation, the
//! pre-roll ring of raw microphone audio, diagnostic traces, and the wake
//! word pause state.
use vstd::prelude::*;
use crate::bytes_util::{copy_range, extend_bytes};
use crate::text::{is_white_space, str_eq, trim, trimmed};
use crate::json::{members_view, no_members, push_member, Json, JsonMember, JsonNumber, JsonView, NumberView};

verus! {

pub const ARECORD_WAKEWORD_DEVICE: &'static str = "hw:0,0";
pub const ARECORD_CAPTURE_DEVICE: &'static str = "hw:0,1";
pub const ARECORD_RAW_CHANNELS: &'static str = "4";
pub const ARECORD_RAW_SAMPLE_RATE: &'static str = "48000";

/// Bytes of one raw capture frame: four 32-bit channels.
pub const RAW_FRAME_BYTES: usize = 16;
/// One second of raw four-channel audio at 48 kHz.
pub const PREROLL_MAX_BYTES: usize = 768000;

/// `arecord` arguments for the board's native capture format on `device`:
/// quiet, S32_LE, four channels, 48 kHz, raw.
pub fn arecord_args(device: &'static str) -> (args: [&'static str; 11])
    ensures
        args@ == seq!["-q", "-D", device, "-f", "S32_LE", "-c", ARECORD_RAW_CHANNELS, "-r", ARECORD_RAW_SAMPLE_RATE, "-t", "raw"],
{
    let args = ["-q", "-D", device, "-f", "S32_LE", "-c", ARECORD_RAW_CHANNELS, "-r", ARECORD_RAW_SAMPLE_RATE, "-t", "raw"];
    assert(args@ =~= seq!["-q", "-D", device, "-f", "S32_LE", "-c", ARECORD_RAW_CHANNELS, "-r", ARECORD_RAW_SAMPLE_RATE, "-t", "raw"]);
    args
}

/// Commands for the voice capture actor.
#[derive(Clone, Copy, Debug, PartialEq, Eq, Structural)]
pub enum AudioCommand {
    Start,
    Stop,
}

/// Voice capture format.
#[derive(Clone, Copy, Debug, PartialEq, Eq, Structural)]
pub struct AudioConfig {
    pub sample_rate: u32,
    pub channels: u8,
    pub frame_duration_ms: u16,
}

impl Default for AudioConfig {
    /// 16 kHz mono in 60 ms frames.
    fn default() -> (c: AudioConfig)
        ensures
            c.sample_rate == 16_000 && c.channels == 1 && c.frame_duration_ms == 60,
    {
        AudioConfig { sample_rate: 16_000, channels: 1, frame_duration_ms: 60 }
    }
}

/// The only capture format the voice pipeline supports.
#[derive(Clone, Copy, Debug, PartialEq, Eq, Structural)]
pub enum AudioConfigError {
    /// Anything but 16 kHz mono 60 ms frames.
    UnsupportedFormat,
}

/// Accepts exactly 16 kHz mono 60 ms frames.
pub fn validate_config(config: AudioConfig) -> (r: Result<(), AudioConfigError>)
    ensures
        r is Ok <==> (config.sample_rate == 16_000 && config.channels == 1 && config.frame_duration_ms == 60),
        r is Err ==> r == Err::<(), AudioConfigError>(AudioConfigError::UnsupportedFormat),
{
    if config.sample_rate != 16_000 || config.channels != 1 || config.frame_duration_ms != 60 {
        return Err(AudioConfigError::UnsupportedFormat);
    }
    Ok(())
}

/// Noise suppression in front of the wake word detector is on exactly when
/// the setting is `1`; it is off when unset, `0` or anything else.
pub fn wake_noise_suppression_enabled(value: Option<&str>) -> (on: bool)
    ensures
        on == (value matches Some(v) && v@ == "1"@),
{
    match value {
        None => false,
        Some(v) => crate::text::str_eq(v, "1"),
    }
}

/// Priming is on exactly when the setting is `1`.
pub fn priming_enabled(value: Option<&str>) -> (on: bool)
    ensures
        on == (value matches Some(v) && v@ == "1"@),
{
    match value {
        Some(v) => crate::text::str_eq(v, "1"),
        None => false,
    }
}

/// Total bytes of a list of timed chunks.
pub open spec fn chunk_bytes(chunks: Seq<(u64, Seq<u8>)>) -> nat
    decreases chunks.len(),
{
    if chunks.len() == 0 {
        0
    } else {
        chunks[0].1.len() + chunk_bytes(chunks.drop_first())
    }
}

/// Drops the oldest chunks while more than `PREROLL_MAX_BYTES` are held.
pub open spec fn evict_oldest(chunks: Seq<(u64, Seq<u8>)>) -> Seq<(u64, Seq<u8>)>
    decreases chunks.len(),
{
    if chunks.len() > 0 && chunk_bytes(chunks) > PREROLL_MAX_BYTES {
        evict_oldest(chunks.drop_first())
    } else {
        chunks
    }
}

/// The bytes of the chunks received at or after `cutoff`, in order.
pub open spec fn bytes_since(chunks: Seq<(u64, Seq<u8>)>, cutoff: u64) -> Seq<u8>
    decreases chunks.len(),
{
    if chunks.len() == 0 {
        Seq::empty()
    } else {
        bytes_if_since(chunks[0], cutoff) + bytes_since(chunks.drop_first(), cutoff)
    }
}

/// All bytes of the chunks, in order.
pub open spec fn all_bytes(chunks: Seq<(u64, Seq<u8>)>) -> Seq<u8>
    decreases chunks.len(),
{
    if chunks.len() == 0 {
        Seq::empty()
    } else {
        chunks[0].1 + all_bytes(chunks.drop_first())
    }
}

/// Model of the pre-roll buffer.
pub struct PreRollView {
    /// Frame-aligned chunks with their arrival times, oldest first.
    pub chunks: Seq<(u64, Seq<u8>)>,
    /// Bytes of a partial frame waiting for the rest.
    pub carry: Seq<u8>,
}

/// The last second of raw microphone audio, kept frame-aligned with arrival
/// times so a recording can start with what was said just before it.
pub struct PreRollBuffer {
    chunks: Vec<(u64, Vec<u8>)>,
    total_bytes: usize,
    carry: Vec<u8>,
}

impl View for PreRollBuffer {
    type V = PreRollView;

    closed spec fn view(&self) -> PreRollView {
        PreRollView {
            chunks: self.chunks@.map_values(|c: (u64, Vec<u8>)| (c.0, c.1@)),
            carry: self.carry@,
        }
    }
}

/// What `push` makes of the buffer.
pub open spec fn spec_push(v: PreRollView, data: Seq<u8>, received_at: u64) -> PreRollView {
    let buffer = v.carry + data;
    let aligned = buffer.len() - buffer.len() % 16;
    if aligned > 0 {
        PreRollView {
            chunks: evict_oldest(v.chunks.push((received_at, buffer.subrange(0, aligned)))),
            carry: buffer.subrange(aligned, buffer.len() as int),
        }
    } else {
        PreRollView { chunks: evict_oldest(v.chunks), carry: buffer }
    }
}

proof fn lemma_chunk_bytes_push(chunks: Seq<(u64, Seq<u8>)>, c: (u64, Seq<u8>))
    ensures
        chunk_bytes(chunks.push(c)) == chunk_bytes(chunks) + c.1.len(),
    decreases chunks.len(),
{
    let s = chunks.push(c);
    if chunks.len() > 0 {
        assert(s[0] == chunks[0]);
        assert(s.drop_first() =~= chunks.drop_first().push(c));
        lemma_chunk_bytes_push(chunks.drop_first(), c);
    } else {
        assert(s.drop_first() =~= chunks);
        assert(s[0] == c);
    }
}

/// The bytes that a chunk adds to `bytes_since`.
pub open spec fn bytes_if_since(c: (u64, Seq<u8>), cutoff: u64) -> Seq<u8> {
    if c.0 >= cutoff { c.1 } else { Seq::empty() }
}

proof fn lemma_bytes_since_push(chunks: Seq<(u64, Seq<u8>)>, c: (u64, Seq<u8>), cutoff: u64)
    ensures
        bytes_since(chunks.push(c), cutoff) == bytes_since(chunks, cutoff) + bytes_if_since(c, cutoff),
    decreases chunks.len(),
{
    let s = chunks.push(c);
    if chunks.len() > 0 {
        assert(s[0] == chunks[0]);
        assert(s.drop_first() =~= chunks.drop_first().push(c));
        lemma_bytes_since_push(chunks.drop_first(), c, cutoff);
        let h = bytes_if_since(chunks[0], cutoff);
        let m = bytes_since(chunks.drop_first(), cutoff);
        let t = bytes_if_since(c, cutoff);
        assert(bytes_since(s, cutoff) == h + (m + t));
        assert(bytes_since(chunks, cutoff) == h + m);
        assert(h + (m + t) =~= (h + m) + t);
    } else {
        assert(s.drop_first() =~= chunks);
        assert(s[0] == c);
        assert(bytes_since(chunks, cutoff) == Seq::<u8>::empty());
        assert(bytes_since(s, cutoff) == bytes_if_since(c, cutoff) + Seq::<u8>::empty());
        assert(bytes_if_since(c, cutoff) + Seq::<u8>::empty() =~= Seq::<u8>::empty() + bytes_if_since(c, cutoff));
    }
}

proof fn lemma_all_bytes_push(chunks: Seq<(u64, Seq<u8>)>, c: (u64, Seq<u8>))
    ensures
        all_bytes(chunks.push(c)) == all_bytes(chunks) + c.1,
    decreases chunks.len(),
{
    let s = chunks.push(c);
    if chunks.len() > 0 {
        assert(s[0] == chunks[0]);
        assert(s.drop_first() =~= chunks.drop_first().push(c));
        lemma_all_bytes_push(chunks.drop_first(), c);
        let h = chunks[0].1;
        let m = all_bytes(chunks.drop_first());
        assert(all_bytes(s) == h + (m + c.1));
        assert(all_bytes(chunks) == h + m);
        assert(h + (m + c.1) =~= (h + m) + c.1);
    } else {
        assert(s.drop_first() =~= chunks);
        assert(s[0] == c);
        assert(all_bytes(chunks) == Seq::<u8>::empty());
        assert(all_bytes(s) == c.1 + Seq::<u8>::empty());
        assert(c.1 + Seq::<u8>::empty() =~= Seq::<u8>::empty() + c.1);
    }
}

proof fn lemma_whole_frames(len: nat)
    ensures
        (len - len % 16) % 16 == 0,
        0 <= len - len % 16 <= len,
        len - (len - len % 16) < 16,
{
    vstd::arithmetic::div_mod::lemma_fundamental_div_mod(len as int, 16);
    vstd::arithmetic::div_mod::lemma_mod_multiples_basic(len as int / 16, 16);
    assert(len - len % 16 == 16 * (len as int / 16));
    vstd::arithmetic::mul::lemma_mul_is_commutative(16, len as int / 16);
}

impl Default for PreRollBuffer {
    /// An empty buffer, as `new` makes.
    fn default() -> (b: PreRollBuffer)
        ensures
            b.wf(),
            b@.chunks.len() == 0,
            b@.carry.len() == 0,
    {
        PreRollBuffer::new()
    }
}

impl PreRollBuffer {
    /// The buffer's invariant: the byte count is tracked, chunks are whole
    /// frames, the cap holds and the carry is a partial frame.
    pub closed spec fn wf(&self) -> bool {
        &&& self.total_bytes == chunk_bytes(self@.chunks)
        &&& self.total_bytes <= PREROLL_MAX_BYTES
        &&& self@.carry.len() < 16
        &&& forall|i: int| 0 <= i < self@.chunks.len() ==> (#[trigger] self@.chunks[i]).1.len() % 16 == 0
    }

    /// An empty buffer.
    pub fn new() -> (b: PreRollBuffer)
        ensures
            b.wf(),
            b@.chunks.len() == 0,
            b@.carry.len() == 0,
    {
        let b = PreRollBuffer { chunks: Vec::new(), total_bytes: 0, carry: Vec::new() };
        assert(b@.chunks =~= Seq::<(u64, Seq<u8>)>::empty());
        b
    }

    /// Appends raw bytes that arrived at `received_at`: whole frames become a
    /// chunk, a partial frame is carried to the next push, and the oldest
    /// chunks go while more than one second is held.
    pub fn push(&mut self, data: &[u8], received_at: u64)
        requires
            old(self).wf(),
            data@.len() <= usize::MAX - PREROLL_MAX_BYTES - RAW_FRAME_BYTES,
        ensures
            final(self).wf(),
            final(self)@ == spec_push(old(self)@, data@, received_at),
    {
        let mut buffer: Vec<u8> = Vec::new();
        std::mem::swap(&mut buffer, &mut self.carry);
        extend_bytes(&mut buffer, data);
        let ghost joined = buffer@;
        assert(joined == old(self)@.carry + data@);
        let aligned = buffer.len() - buffer.len() % RAW_FRAME_BYTES;
        proof {
            lemma_whole_frames(buffer@.len());
        }
        let ghost pushed = self@.chunks;
        if aligned > 0 {
            let rest = copy_range(buffer.as_slice(), aligned, buffer.len());
            let frames = copy_range(buffer.as_slice(), 0, aligned);
            let ghost c = (received_at, frames@);
            proof {
                lemma_chunk_bytes_push(self@.chunks, c);
            }
            self.carry = rest;
            self.total_bytes = self.total_bytes + frames.len();
            self.chunks.push((received_at, frames));
            proof {
                pushed = old(self)@.chunks.push(c);
            }
            assert(self@.chunks =~= pushed);
        } else {
            self.carry = buffer;
            assert(self@.chunks =~= pushed);
        }
        assert(self@.carry == spec_push(old(self)@, data@, received_at).carry);
        assert(self.total_bytes == chunk_bytes(self@.chunks));
        while self.total_bytes > PREROLL_MAX_BYTES && self.chunks.len() > 0
            invariant
                self.total_bytes == chunk_bytes(self@.chunks),
                evict_oldest(self@.chunks) == evict_oldest(pushed),
                forall|i: int| 0 <= i < self@.chunks.len() ==> (#[trigger] self@.chunks[i]).1.len() % 16 == 0,
                self@.carry == spec_push(old(self)@, data@, received_at).carry,
                self@.carry.len() < 16,
            decreases self@.chunks.len(),
        {
            let ghost before = self@.chunks;
            let (_, chunk) = self.chunks.remove(0);
            assert(self@.chunks =~= before.drop_first());
            self.total_bytes = self.total_bytes - chunk.len();
        }
        assert(evict_oldest(self@.chunks) == self@.chunks);
        assert(self@.chunks == spec_push(old(self)@, data@, received_at).chunks);
    }

    /// Forgets all audio, including a partial frame.
    pub fn reset_stream(&mut self)
        ensures
            final(self).wf(),
            final(self)@.chunks.len() == 0,
            final(self)@.carry.len() == 0,
    {
        self.chunks.clear();
        self.total_bytes = 0;
        self.carry.clear();
        assert(self@.chunks =~= Seq::<(u64, Seq<u8>)>::empty());
    }

    /// The bytes of the chunks that arrived at or after `cutoff`, in order.
    pub fn snapshot_since(&self, cutoff: u64) -> (out: Vec<u8>)
        requires
            self.wf(),
        ensures
            out@ == bytes_since(self@.chunks, cutoff),
    {
        let mut out: Vec<u8> = Vec::new();
        let mut i: usize = 0;
        while i < self.chunks.len()
            invariant
                i <= self@.chunks.len(),
                self@.chunks.len() == self.chunks@.len(),
                out@ == bytes_since(self@.chunks.take(i as int), cutoff),
            decreases self@.chunks.len() - i,
        {
            proof {
                lemma_bytes_since_push(self@.chunks.take(i as int), self@.chunks[i as int], cutoff);
                assert(self@.chunks.take(i as int + 1) =~= self@.chunks.take(i as int).push(self@.chunks[i as int]));
            }
            if self.chunks[i].0 >= cutoff {
                extend_bytes(&mut out, self.chunks[i].1.as_slice());
            }
            i = i + 1;
        }
        assert(self@.chunks.take(i as int) =~= self@.chunks);
        out
    }
}

/// Whether `y` ends with `x`.
pub open spec fn ends_with(y: Seq<u8>, x: Seq<u8>) -> bool {
    x.len() <= y.len() && y.subrange(y.len() - x.len(), y.len() as int) == x
}

/// The whole frames at the front of `bytes`.
pub open spec fn whole_frames(bytes: Seq<u8>) -> Seq<u8> {
    bytes.subrange(0, bytes.len() - bytes.len() % 16)
}

/// What the pre-roll holds after `pushed` was pushed since it was created
/// (or reset), every push arriving no earlier than `since`: the carry is the
/// trailing partial frame of `pushed`; the chunks, whole frames that arrived
/// at or after `since`, hold a suffix of the whole frames of `pushed`, and at
/// most one second of audio.
pub open spec fn preroll_holds(v: PreRollView, pushed: Seq<u8>, since: u64) -> bool {
    &&& v.carry == pushed.subrange(pushed.len() - pushed.len() % 16, pushed.len() as int)
    &&& ends_with(whole_frames(pushed), all_bytes(v.chunks))
    &&& chunk_bytes(v.chunks) <= PREROLL_MAX_BYTES
    &&& forall|i: int| 0 <= i < v.chunks.len() ==> (#[trigger] v.chunks[i]).1.len() % 16 == 0 && v.chunks[i].0 >= since
}

proof fn lemma_chunk_bytes_is_len(chunks: Seq<(u64, Seq<u8>)>)
    ensures
        chunk_bytes(chunks) == all_bytes(chunks).len(),
    decreases chunks.len(),
{
    if chunks.len() > 0 {
        lemma_chunk_bytes_is_len(chunks.drop_first());
    }
}

proof fn lemma_all_bytes_frames(chunks: Seq<(u64, Seq<u8>)>)
    requires
        forall|i: int| 0 <= i < chunks.len() ==> (#[trigger] chunks[i]).1.len() % 16 == 0,
    ensures
        all_bytes(chunks).len() % 16 == 0,
    decreases chunks.len(),
{
    if chunks.len() > 0 {
        assert forall|i: int| 0 <= i < chunks.drop_first().len() implies (#[trigger] chunks.drop_first()[i]).1.len() % 16
            == 0 by {
            assert(chunks.drop_first()[i] == chunks[i + 1]);
        }
        lemma_all_bytes_frames(chunks.drop_first());
        let a = chunks[0].1.len() as int;
        let b = all_bytes(chunks.drop_first()).len() as int;
        assert((a + b) % 16 == 0) by (nonlinear_arith)
            requires
                a % 16 == 0,
                b % 16 == 0,
                a >= 0,
                b >= 0,
        ;
    }
}

proof fn lemma_evict_keeps_suffix(chunks: Seq<(u64, Seq<u8>)>)
    ensures
        ends_with(all_bytes(chunks), all_bytes(evict_oldest(chunks))),
        chunk_bytes(evict_oldest(chunks)) <= PREROLL_MAX_BYTES,
        forall|i: int| 0 <= i < evict_oldest(chunks).len() ==> exists|j: int|
            0 <= j < chunks.len() && #[trigger] evict_oldest(chunks)[i] == chunks[j],
    decreases chunks.len(),
{
    let a = all_bytes(chunks);
    if chunks.len() > 0 && chunk_bytes(chunks) > PREROLL_MAX_BYTES {
        let rest = chunks.drop_first();
        lemma_evict_keeps_suffix(rest);
        let e = all_bytes(evict_oldest(rest));
        let r = all_bytes(rest);
        assert(a == chunks[0].1 + r);
        assert(a.subrange(a.len() - e.len(), a.len() as int) =~= r.subrange(r.len() - e.len(), r.len() as int));
        assert forall|i: int| 0 <= i < evict_oldest(chunks).len() implies exists|j: int|
            0 <= j < chunks.len() && #[trigger] evict_oldest(chunks)[i] == chunks[j] by {
            let j = choose|j: int| 0 <= j < rest.len() && evict_oldest(rest)[i] == rest[j];
            assert(rest[j] == chunks[j + 1]);
        }
    } else {
        assert(a.subrange(0, a.len() as int) =~= a);
        if chunks.len() == 0 {
            assert(chunk_bytes(chunks) == 0);
        }
        assert forall|i: int| 0 <= i < evict_oldest(chunks).len() implies exists|j: int|
            0 <= j < chunks.len() && #[trigger] evict_oldest(chunks)[i] == chunks[j] by {
            assert(evict_oldest(chunks)[i] == chunks[i]);
        }
    }
}

proof fn lemma_bytes_since_all(chunks: Seq<(u64, Seq<u8>)>, since: u64)
    requires
        forall|i: int| 0 <= i < chunks.len() ==> (#[trigger] chunks[i]).0 >= since,
    ensures
        bytes_since(chunks, since) == all_bytes(chunks),
    decreases chunks.len(),
{
    if chunks.len() > 0 {
        assert forall|i: int| 0 <= i < chunks.drop_first().len() implies (#[trigger] chunks.drop_first()[i]).0 >= since by {
            assert(chunks.drop_first()[i] == chunks[i + 1]);
        }
        lemma_bytes_since_all(chunks.drop_first(), since);
    }
}

/// A fresh (or reset) pre-roll holds what nothing pushed describes.
pub proof fn lemma_preroll_starts_empty(v: PreRollView, since: u64)
    requires
        v.chunks.len() == 0,
        v.carry.len() == 0,
    ensures
        preroll_holds(v, Seq::<u8>::empty(), since),
{
    assert(all_bytes(v.chunks) == Seq::<u8>::empty());
    assert(chunk_bytes(v.chunks) == 0);
    assert(v.carry =~= Seq::<u8>::empty().subrange(0, 0));
    assert(whole_frames(Seq::<u8>::empty()).subrange(0, 0) =~= Seq::<u8>::empty());
}

/// Each push keeps what the pre-roll holds: after pushing `data` (arriving at
/// `received_at`, no earlier than `since`), it holds what `pushed + data`
/// describes; only whole oldest chunks are ever dropped.
pub proof fn lemma_preroll_push(v: PreRollView, pushed: Seq<u8>, since: u64, data: Seq<u8>, received_at: u64)
    requires
        preroll_holds(v, pushed, since),
        received_at >= since,
    ensures
        preroll_holds(spec_push(v, data, received_at), pushed + data, since),
{
    let p2 = pushed + data;
    let buffer = v.carry + data;
    let aligned = buffer.len() - buffer.len() % 16;
    let w = pushed.len() - pushed.len() % 16;
    lemma_whole_frames(pushed.len());
    lemma_whole_frames(buffer.len());
    assert(p2.len() == w + buffer.len());
    let bl = buffer.len() as int;
    assert(p2.len() % 16 == bl % 16) by (nonlinear_arith)
        requires
            p2.len() == w + bl,
            w % 16 == 0,
            w >= 0,
            bl >= 0,
    ;
    let w2 = p2.len() - p2.len() % 16;
    assert(w2 == w + aligned);
    assert(p2.subrange(w, p2.len() as int) =~= buffer);
    assert(p2.subrange(w2, p2.len() as int) =~= buffer.subrange(aligned, bl));
    let wf1 = whole_frames(pushed);
    let wf2 = whole_frames(p2);
    assert(wf2 =~= wf1 + buffer.subrange(0, aligned));
    let old_all = all_bytes(v.chunks);
    let pushed_chunks = if aligned > 0 { v.chunks.push((received_at, buffer.subrange(0, aligned))) } else { v.chunks };
    if aligned > 0 {
        lemma_all_bytes_push(v.chunks, (received_at, buffer.subrange(0, aligned)));
    }
    let nb = all_bytes(pushed_chunks);
    assert(nb == old_all + buffer.subrange(0, aligned));
    assert(ends_with(wf2, nb)) by {
        assert(wf2.subrange(wf2.len() - nb.len(), wf2.len() as int) =~= wf1.subrange(
            wf1.len() - old_all.len(),
            wf1.len() as int,
        ) + buffer.subrange(0, aligned));
    }
    lemma_evict_keeps_suffix(pushed_chunks);
    let kept = evict_oldest(pushed_chunks);
    let kb = all_bytes(kept);
    assert(ends_with(wf2, kb)) by {
        assert(wf2.subrange(wf2.len() - kb.len(), wf2.len() as int) =~= nb.subrange(nb.len() - kb.len(), nb.len() as int));
    }
    assert forall|i: int| 0 <= i < kept.len() implies (#[trigger] kept[i]).1.len() % 16 == 0 && kept[i].0 >= since by {
        let j = choose|j: int| 0 <= j < pushed_chunks.len() && kept[i] == pushed_chunks[j];
        if aligned > 0 && j == v.chunks.len() {
            assert(pushed_chunks[j] == (received_at, buffer.subrange(0, aligned)));
        } else {
            assert(pushed_chunks[j] == v.chunks[j]);
        }
    }
    assert(spec_push(v, data, received_at).chunks == kept);
}

/// What the pre-roll gives back: everything it holds from `since` on, which
/// is a suffix of the whole frames pushed, a whole number of frames, and at
/// most one second of audio.
pub proof fn lemma_preroll_snapshot(v: PreRollView, pushed: Seq<u8>, since: u64)
    requires
        preroll_holds(v, pushed, since),
    ensures
        bytes_since(v.chunks, since) == all_bytes(v.chunks),
        ends_with(whole_frames(pushed), bytes_since(v.chunks, since)),
        bytes_since(v.chunks, since).len() % 16 == 0,
        bytes_since(v.chunks, since).len() <= PREROLL_MAX_BYTES,
{
    lemma_bytes_since_all(v.chunks, since);
    lemma_all_bytes_frames(v.chunks);
    lemma_chunk_bytes_is_len(v.chunks);
}

/// The pre-roll after the pushes `pushes` (each its bytes and arrival time),
/// in order, starting from `v`.
pub open spec fn after_pushes(v: PreRollView, pushes: Seq<(Seq<u8>, u64)>) -> PreRollView
    decreases pushes.len(),
{
    if pushes.len() == 0 {
        v
    } else {
        spec_push(after_pushes(v, pushes.drop_last()), pushes.last().0, pushes.last().1)
    }
}

/// All the bytes of the pushes, in order.
pub open spec fn pushed_bytes(pushes: Seq<(Seq<u8>, u64)>) -> Seq<u8>
    decreases pushes.len(),
{
    if pushes.len() == 0 {
        Seq::empty()
    } else {
        pushed_bytes(pushes.drop_last()) + pushes.last().0
    }
}

/// The pre-roll over any run of pushes into an empty (new or reset) buffer,
/// arriving in time order: a snapshot from no later than the first push is a
/// suffix of the whole frames pushed (only whole oldest chunks are dropped),
/// a whole number of frames, and at most one second of audio.
pub proof fn lemma_preroll_run(v: PreRollView, pushes: Seq<(Seq<u8>, u64)>, since: u64)
    requires
        v.chunks.len() == 0,
        v.carry.len() == 0,
        forall|i: int, j: int| 0 <= i <= j < pushes.len() ==> (#[trigger] pushes[i]).1 <= (#[trigger] pushes[j]).1,
        pushes.len() > 0 ==> since <= pushes[0].1,
    ensures
        preroll_holds(after_pushes(v, pushes), pushed_bytes(pushes), since),
        ends_with(whole_frames(pushed_bytes(pushes)), bytes_since(after_pushes(v, pushes).chunks, since)),
        bytes_since(after_pushes(v, pushes).chunks, since).len() % 16 == 0,
        bytes_since(after_pushes(v, pushes).chunks, since).len() <= PREROLL_MAX_BYTES,
    decreases pushes.len(),
{
    if pushes.len() == 0 {
        lemma_preroll_starts_empty(v, since);
    } else {
        let init = pushes.drop_last();
        assert forall|i: int, j: int| 0 <= i <= j < init.len() implies (#[trigger] init[i]).1 <= (#[trigger] init[j]).1 by {
            assert(init[i] == pushes[i] && init[j] == pushes[j]);
        }
        if init.len() > 0 {
            assert(init[0] == pushes[0]);
        }
        lemma_preroll_run(v, init, since);
        assert(pushes[0].1 <= pushes[pushes.len() - 1].1);
        lemma_preroll_push(after_pushes(v, init), pushed_bytes(init), since, pushes.last().0, pushes.last().1);
    }
    lemma_preroll_snapshot(after_pushes(v, pushes), pushed_bytes(pushes), since);
}

/// While nothing is evicted, the retained frames and the carried partial
/// frame are exactly the bytes pushed so far, in order.
pub proof fn lemma_preroll_keeps_every_byte(v: PreRollView, data: Seq<u8>, received_at: u64)
    requires
        chunk_bytes(v.chunks) + data.len() + v.carry.len() <= PREROLL_MAX_BYTES,
    ensures
        all_bytes(spec_push(v, data, received_at).chunks) + spec_push(v, data, received_at).carry
            == all_bytes(v.chunks) + v.carry + data,
{
    let buffer = v.carry + data;
    let aligned = buffer.len() - buffer.len() % 16;
    if aligned > 0 {
        let c = (received_at, buffer.subrange(0, aligned));
        lemma_chunk_bytes_push(v.chunks, c);
        lemma_all_bytes_push(v.chunks, c);
        assert(evict_oldest(v.chunks.push(c)) == v.chunks.push(c));
        assert(buffer.subrange(0, aligned) + buffer.subrange(aligned, buffer.len() as int) =~= buffer);
        assert(all_bytes(v.chunks) + c.1 + buffer.subrange(aligned, buffer.len() as int) =~= all_bytes(v.chunks) + v.carry + data);
    } else {
        assert(evict_oldest(v.chunks) == v.chunks);
        assert(all_bytes(v.chunks) + buffer =~= all_bytes(v.chunks) + v.carry + data);
    }
}

/// Raw capture frame size used by the raw diagnostic trace.
pub const RAW_TRACE_FRAME_BYTES: usize = 16;
/// Thirty seconds of raw capture.
pub const RAW_TRACE_MAX_BYTES: usize = 23040000;
/// Thirty seconds of 16 kHz 16-bit PCM.
pub const PCM_TRACE_MAX_BYTES: usize = 960000;

/// Raw microphone input kept for a diagnostic trace.
pub struct RawTrace {
    pub bytes: Vec<u8>,
    pub consumed_bytes: u64,
    pub priming_target_pcm_frames: usize,
    pub priming_discarded_pcm_frames: usize,
    pub source: &'static str,
}

impl RawTrace {
    /// An empty raw trace whose source is not yet known.
    pub fn new() -> (t: RawTrace)
        ensures
            t.bytes@.len() == 0,
            t.consumed_bytes == 0,
            t.priming_target_pcm_frames == 0,
            t.priming_discarded_pcm_frames == 0,
            t.source@ == "unavailable"@,
    {
        RawTrace {
            bytes: Vec::with_capacity(RAW_TRACE_MAX_BYTES),
            consumed_bytes: 0,
            priming_target_pcm_frames: 0,
            priming_discarded_pcm_frames: 0,
            source: "unavailable",
        }
    }

    /// Counts `chunk` as consumed and keeps as much of it as the 30 s cap
    /// allows.
    pub fn record(&mut self, chunk: &[u8])
        requires
            old(self).bytes@.len() <= RAW_TRACE_MAX_BYTES,
        ensures
            final(self).consumed_bytes == if old(self).consumed_bytes + chunk@.len() > u64::MAX {
                u64::MAX as int
            } else {
                old(self).consumed_bytes + chunk@.len()
            },
            final(self).bytes@ == old(self).bytes@ + chunk@.subrange(
                0,
                if chunk@.len() < RAW_TRACE_MAX_BYTES - old(self).bytes@.len() {
                    chunk@.len() as int
                } else {
                    RAW_TRACE_MAX_BYTES - old(self).bytes@.len()
                },
            ),
            final(self).bytes@.len() <= RAW_TRACE_MAX_BYTES,
            final(self).priming_target_pcm_frames == old(self).priming_target_pcm_frames,
            final(self).priming_discarded_pcm_frames == old(self).priming_discarded_pcm_frames,
            final(self).source == old(self).source,
    {
        let n = chunk.len() as u64;
        self.consumed_bytes = if n > u64::MAX - self.consumed_bytes { u64::MAX } else { self.consumed_bytes + n };
        let room = RAW_TRACE_MAX_BYTES - self.bytes.len();
        let retained = if chunk.len() < room { chunk.len() } else { room };
        extend_bytes(&mut self.bytes, vstd::slice::slice_subrange(chunk, 0, retained));
    }

    /// The kept bytes up to the last whole frame.
    pub fn aligned_bytes(&self) -> (b: &[u8])
        ensures
            b@ == self.bytes@.subrange(0, self.bytes@.len() - self.bytes@.len() % 16),
    {
        let n = self.bytes.len() / RAW_TRACE_FRAME_BYTES * RAW_TRACE_FRAME_BYTES;
        vstd::slice::slice_subrange(self.bytes.as_slice(), 0, n)
    }
}

/// The audio buffers of a diagnostic trace: encoded-stage PCM and, when
/// enabled, the raw input.
pub struct PcmTraceData {
    pub pcm: Vec<u8>,
    pub raw: Option<RawTrace>,
}

impl PcmTraceData {
    /// Keeps an encoded frame when it fits in the 30 s cap in full.
    pub fn record_encoded(&mut self, frame: &[u8])
        ensures
            final(self).pcm@ == if old(self).pcm@.len() + frame@.len() <= PCM_TRACE_MAX_BYTES {
                old(self).pcm@ + frame@
            } else {
                old(self).pcm@
            },
            final(self).raw == old(self).raw,
    {
        if self.pcm.len() <= PCM_TRACE_MAX_BYTES && frame.len() <= PCM_TRACE_MAX_BYTES - self.pcm.len() {
            extend_bytes(&mut self.pcm, frame);
        }
    }
}

/// The signed 32-bit sample stored little-endian at `i` in `bytes`.
pub open spec fn sample_at(bytes: Seq<u8>, i: int) -> i32 {
    (bytes[i] + bytes[i + 1] * 256 + bytes[i + 2] * 65536 + bytes[i + 3] * 16777216) as i32
}

/// The `k`th whole raw frame of `bytes`: its four channels' samples.
pub open spec fn raw_frame_at(bytes: Seq<u8>, k: int) -> Seq<i32> {
    seq![
        sample_at(bytes, 16 * k),
        sample_at(bytes, 16 * k + 4),
        sample_at(bytes, 16 * k + 8),
        sample_at(bytes, 16 * k + 12),
    ]
}

/// The signed little-endian 32-bit sample at `i`.
fn read_sample(bytes: &Vec<u8>, i: usize) -> (v: i32)
    requires
        i + 4 <= bytes.len(),
    ensures
        v == sample_at(bytes@, i as int),
{
    let b0 = bytes[i] as u32;
    let b1 = bytes[i + 1] as u32;
    let b2 = bytes[i + 2] as u32;
    let b3 = bytes[i + 3] as u32;
    assert(b0 + b1 * 256 + b2 * 65536 + b3 * 16777216 <= u32::MAX);
    let u: u32 = b0 + b1 * 256 + b2 * 65536 + b3 * 16777216;
    #[verifier::truncate]
    (u as i32)
}

/// Raw capture input collected into whole frames of four 32-bit channels;
/// the bytes of an unfinished frame wait for the next input.
pub struct RawFrameAssembler {
    carry: Vec<u8>,
}

impl RawFrameAssembler {
    /// The bytes waiting for the rest of their frame.
    pub closed spec fn pending(&self) -> Seq<u8> {
        self.carry@
    }

    /// Fewer than a frame's bytes wait.
    pub closed spec fn wf(&self) -> bool {
        self.carry@.len() < RAW_FRAME_BYTES
    }

    /// An assembler with nothing waiting.
    pub fn new() -> (a: RawFrameAssembler)
        ensures
            a.wf(),
            a.pending() == Seq::<u8>::empty(),
    {
        RawFrameAssembler { carry: Vec::new() }
    }

    /// Takes more input and returns the frames it completes, in order; the
    /// bytes after the last whole frame wait.
    pub fn push(&mut self, raw: &[u8]) -> (frames: Vec<[i32; 4]>)
        requires
            old(self).wf(),
            old(self).pending().len() + raw@.len() <= usize::MAX,
        ensures
            final(self).wf(),
            ({
                let all = old(self).pending() + raw@;
                &&& frames@.len() == all.len() / 16
                &&& forall|k: int| 0 <= k < frames@.len() ==> (#[trigger] frames@[k])@ == raw_frame_at(all, k)
                &&& final(self).pending() == all.subrange(16 * (all.len() / 16) as int, all.len() as int)
            }),
    {
        let mut all: Vec<u8> = Vec::new();
        extend_bytes(&mut all, self.carry.as_slice());
        extend_bytes(&mut all, raw);
        let ghost whole = old(self).carry@ + raw@;
        assert(all@ =~= whole);
        let count = all.len() / RAW_FRAME_BYTES;
        let mut frames: Vec<[i32; 4]> = Vec::new();
        let mut k: usize = 0;
        while k < count
            invariant
                all@ == whole,
                count == all@.len() / 16,
                k <= count,
                frames@.len() == k,
                forall|j: int| 0 <= j < k ==> (#[trigger] frames@[j])@ == raw_frame_at(whole, j),
            decreases count - k,
        {
            let base = k * RAW_FRAME_BYTES;
            let frame: [i32; 4] = [
                read_sample(&all, base),
                read_sample(&all, base + 4),
                read_sample(&all, base + 8),
                read_sample(&all, base + 12),
            ];
            assert(frame@ =~= raw_frame_at(whole, k as int));
            frames.push(frame);
            k = k + 1;
        }
        self.carry = copy_range(all.as_slice(), count * RAW_FRAME_BYTES, all.len());
        frames
    }
}

/// Frames in one batch handed to the wind detector.
pub const WIND_FRAME_BATCH_SIZE: usize = 1200;

/// Raw frames gathered for the wind detector, handed over a full batch at a
/// time.
pub struct WindFrameBatch {
    frames: Vec<[i32; 4]>,
}

impl WindFrameBatch {
    /// The frames gathered so far.
    pub closed spec fn gathered(&self) -> Seq<[i32; 4]> {
        self.frames@
    }

    /// Fewer than a batch are gathered.
    pub closed spec fn wf(&self) -> bool {
        self.frames@.len() < WIND_FRAME_BATCH_SIZE
    }

    /// An empty batch.
    pub fn new() -> (b: WindFrameBatch)
        ensures
            b.wf(),
            b.gathered() == Seq::<[i32; 4]>::empty(),
    {
        WindFrameBatch { frames: Vec::new() }
    }

    /// Adds a frame; when that completes a batch, returns the batch and
    /// starts a new one.
    pub fn push(&mut self, frame: [i32; 4]) -> (full: Option<Vec<[i32; 4]>>)
        requires
            old(self).wf(),
        ensures
            final(self).wf(),
            match full {
                Some(batch) => batch@ == old(self).gathered().push(frame) && batch@.len()
                    == WIND_FRAME_BATCH_SIZE && final(self).gathered() == Seq::<[i32; 4]>::empty(),
                None => old(self).gathered().len() + 1 < WIND_FRAME_BATCH_SIZE && final(self).gathered()
                    == old(self).gathered().push(frame),
            },
    {
        self.frames.push(frame);
        if self.frames.len() == WIND_FRAME_BATCH_SIZE {
            let mut batch: Vec<[i32; 4]> = Vec::new();
            std::mem::swap(&mut batch, &mut self.frames);
            Some(batch)
        } else {
            None
        }
    }
}

/// Bytes of one 60 ms frame of 16 kHz 16-bit mono PCM.
pub const PCM_FRAME_BYTES: usize = 1920;
/// Samples in one 60 ms PCM frame.
pub const PCM_FRAME_SAMPLES: usize = 960;

/// A JSON number for a count.
pub open spec fn count_json(n: int) -> JsonView {
    JsonView::Number(NumberView::PosInt(n as u64))
}

/// The metadata members describing the encoded-stage PCM of a trace.
pub open spec fn pcm_trace_members(
    pcm_len: nat,
    started_ms: u64,
    reason: Seq<char>,
    total_frames: u64,
) -> Seq<(Seq<char>, JsonView)> {
    seq![
        ("format"@, JsonView::Str("s16le"@)),
        ("sample_rate"@, count_json(16000)),
        ("channels"@, count_json(1)),
        ("frame_duration_ms"@, count_json(60)),
        ("stage"@, JsonView::Str("post_dsp_pre_opus"@)),
        ("noise_suppression"@, JsonView::Str("sonora_ns_0.2.0_k12db"@)),
        ("endpoint_sidechain"@, JsonView::Str("nnnoiseless_0.5.2"@)),
        ("started_ms"@, count_json(started_ms as int)),
        ("stop_reason"@, JsonView::Str(reason)),
        ("total_encoded_frames"@, count_json(total_frames as int)),
        ("trace_frames"@, count_json(pcm_len as int / 1920)),
        ("trace_bytes"@, count_json(pcm_len as int)),
        ("truncated"@, JsonView::Bool(pcm_len as int / 1920 < total_frames)),
    ]
}

/// The metadata members describing the raw input of a trace written to the
/// file named `file`.
pub open spec fn raw_trace_members(raw: RawTrace, file: Seq<char>) -> Seq<(Seq<char>, JsonView)> {
    let kept = raw.bytes@.len() as int;
    let aligned = kept - kept % 16;
    seq![
        ("file"@, JsonView::Str(file)),
        ("format"@, JsonView::Str("s32le"@)),
        ("sample_rate"@, count_json(48000)),
        ("channels"@, count_json(4)),
        ("stage"@, JsonView::Str("capture_input_pre_dsp"@)),
        ("source"@, JsonView::Str(raw.source@)),
        ("scope"@, JsonView::Str("all_consumed_input_including_priming_history_preroll_and_conversion_lookahead"@)),
        ("priming_target_pcm_frames"@, count_json(raw.priming_target_pcm_frames as int)),
        ("priming_discarded_pcm_frames"@, count_json(raw.priming_discarded_pcm_frames as int)),
        ("priming_discarded_pcm_samples"@, count_json(raw.priming_discarded_pcm_frames * 960)),
        ("consumed_bytes"@, count_json(raw.consumed_bytes as int)),
        ("trace_bytes"@, count_json(aligned)),
        ("trace_frames"@, count_json(aligned / 16)),
        ("maximum_bytes"@, count_json(RAW_TRACE_MAX_BYTES as int)),
        ("truncated"@, JsonView::Bool(raw.consumed_bytes > aligned)),
        ("discarded_partial_frame_bytes"@, count_json(kept % 16)),
        ("encoded_frames_only"@, JsonView::Bool(false)),
    ]
}

/// A count as a JSON number.
fn count(n: u64) -> (j: Json)
    ensures
        j@ == count_json(n as int),
{
    Json::Number(JsonNumber::PosInt(n))
}

/// The JSON metadata saved beside a diagnostic trace that was started at
/// `started_ms` and stopped for `reason` after `total_frames` encoded frames;
/// when raw input was kept, it is described under `raw` as the file
/// `raw_file`.
pub fn pcm_trace_metadata(
    trace: &PcmTraceData,
    started_ms: u64,
    reason: &str,
    total_frames: u64,
    raw_file: &str,
) -> (j: Json)
    requires
        trace.raw matches Some(r) ==> r.priming_discarded_pcm_frames * 960 <= usize::MAX,
    ensures
        j@ == JsonView::Object(
            match trace.raw {
                Some(r) => pcm_trace_members(trace.pcm@.len(), started_ms, reason@, total_frames).push(
                    ("raw"@, JsonView::Object(raw_trace_members(r, raw_file@))),
                ),
                None => pcm_trace_members(trace.pcm@.len(), started_ms, reason@, total_frames),
            },
        ),
{
    let pcm_len = trace.pcm.len();
    let trace_frames = pcm_len / PCM_FRAME_BYTES;
    let mut m = no_members();
    push_member(&mut m, "format", Json::Str("s16le".to_owned()));
    push_member(&mut m, "sample_rate", count(16000));
    push_member(&mut m, "channels", count(1));
    push_member(&mut m, "frame_duration_ms", count(60));
    push_member(&mut m, "stage", Json::Str("post_dsp_pre_opus".to_owned()));
    push_member(&mut m, "noise_suppression", Json::Str("sonora_ns_0.2.0_k12db".to_owned()));
    push_member(&mut m, "endpoint_sidechain", Json::Str("nnnoiseless_0.5.2".to_owned()));
    push_member(&mut m, "started_ms", count(started_ms));
    push_member(&mut m, "stop_reason", Json::Str(reason.to_owned()));
    push_member(&mut m, "total_encoded_frames", count(total_frames));
    push_member(&mut m, "trace_frames", count(trace_frames as u64));
    push_member(&mut m, "trace_bytes", count(pcm_len as u64));
    push_member(&mut m, "truncated", Json::Bool((trace_frames as u64) < total_frames));
    assert(members_view(m@) =~= pcm_trace_members(trace.pcm@.len(), started_ms, reason@, total_frames));
    match &trace.raw {
        Some(raw) => {
            let kept = raw.bytes.len();
            let aligned = kept / RAW_TRACE_FRAME_BYTES * RAW_TRACE_FRAME_BYTES;
            let mut r = no_members();
            push_member(&mut r, "file", Json::Str(raw_file.to_owned()));
            push_member(&mut r, "format", Json::Str("s32le".to_owned()));
            push_member(&mut r, "sample_rate", count(48000));
            push_member(&mut r, "channels", count(4));
            push_member(&mut r, "stage", Json::Str("capture_input_pre_dsp".to_owned()));
            push_member(&mut r, "source", Json::Str(raw.source.to_owned()));
            push_member(
                &mut r,
                "scope",
                Json::Str("all_consumed_input_including_priming_history_preroll_and_conversion_lookahead".to_owned()),
            );
            push_member(&mut r, "priming_target_pcm_frames", count(raw.priming_target_pcm_frames as u64));
            push_member(&mut r, "priming_discarded_pcm_frames", count(raw.priming_discarded_pcm_frames as u64));
            push_member(
                &mut r,
                "priming_discarded_pcm_samples",
                count((raw.priming_discarded_pcm_frames * PCM_FRAME_SAMPLES) as u64),
            );
            push_member(&mut r, "consumed_bytes", count(raw.consumed_bytes));
            push_member(&mut r, "trace_bytes", count(aligned as u64));
            push_member(&mut r, "trace_frames", count((aligned / RAW_TRACE_FRAME_BYTES) as u64));
            push_member(&mut r, "maximum_bytes", count(RAW_TRACE_MAX_BYTES as u64));
            push_member(&mut r, "truncated", Json::Bool(raw.consumed_bytes > aligned as u64));
            push_member(&mut r, "discarded_partial_frame_bytes", count((kept % RAW_TRACE_FRAME_BYTES) as u64));
            push_member(&mut r, "encoded_frames_only", Json::Bool(false));
            assert(members_view(r@) =~= raw_trace_members(*raw, raw_file@));
            let ghost before = members_view(m@);
            push_member(&mut m, "raw", Json::Object(r));
            assert(members_view(m@) =~= before.push(("raw"@, JsonView::Object(raw_trace_members(*raw, raw_file@)))));
            Json::Object(m)
        },
        None => Json::Object(m),
    }
}

/// Why a PCM frame could not be encoded.
#[derive(Clone, Copy, Debug, PartialEq, Eq, Structural)]
pub enum PcmFrameError {
    /// The frame is not exactly one 60 ms frame long.
    WrongSize,
}

/// The signed 16-bit sample stored little-endian at `i` in `bytes`.
pub open spec fn pcm_sample_at(bytes: Seq<u8>, i: int) -> i16 {
    (bytes[i] + bytes[i + 1] * 256) as i16
}

/// The samples of a 60 ms PCM frame, ready for the Opus encoder; a frame of
/// any other length is refused.
pub fn pcm_frame_samples(pcm_frame: &[u8]) -> (r: Result<Vec<i16>, PcmFrameError>)
    ensures
        match r {
            Ok(samples) => pcm_frame@.len() == PCM_FRAME_BYTES && samples@.len() == PCM_FRAME_SAMPLES
                && forall|k: int| 0 <= k < PCM_FRAME_SAMPLES ==> #[trigger] samples@[k] == pcm_sample_at(
                pcm_frame@,
                2 * k,
            ),
            Err(e) => pcm_frame@.len() != PCM_FRAME_BYTES && e == PcmFrameError::WrongSize,
        },
{
    if pcm_frame.len() != PCM_FRAME_BYTES {
        return Err(PcmFrameError::WrongSize);
    }
    let mut samples: Vec<i16> = Vec::with_capacity(PCM_FRAME_SAMPLES);
    let mut k: usize = 0;
    while k < PCM_FRAME_SAMPLES
        invariant
            pcm_frame@.len() == PCM_FRAME_BYTES,
            k <= PCM_FRAME_SAMPLES,
            samples@.len() == k,
            forall|j: int| 0 <= j < k ==> #[trigger] samples@[j] == pcm_sample_at(pcm_frame@, 2 * j),
        decreases PCM_FRAME_SAMPLES - k,
    {
        let lo = pcm_frame[2 * k] as u16;
        let hi = pcm_frame[2 * k + 1] as u16;
        let u: u16 = lo + hi * 256;
        let v: i16 = #[verifier::truncate] (u as i16);
        samples.push(v);
        k = k + 1;
    }
    Ok(samples)
}

/// Skips one PCM frame while priming frames remain, counting it in the raw
/// trace; returns whether the frame was skipped.
pub fn discard_priming_frame(remaining: &mut usize, trace: &mut Option<PcmTraceData>) -> (skipped: bool)
    ensures
        skipped == (*old(remaining) > 0),
        *final(remaining) == if *old(remaining) > 0 { *old(remaining) - 1 } else { 0 },
        match (*old(trace), *final(trace)) {
            (Some(t0), Some(t1)) => t1.pcm@ == t0.pcm@ && match (t0.raw, t1.raw) {
                (Some(r0), Some(r1)) => r1.priming_discarded_pcm_frames == if *old(remaining) > 0 && r0.priming_discarded_pcm_frames < usize::MAX {
                    r0.priming_discarded_pcm_frames + 1
                } else {
                    r0.priming_discarded_pcm_frames as int
                } && r1.bytes@ == r0.bytes@ && r1.consumed_bytes == r0.consumed_bytes,
                (None, None) => true,
                _ => false,
            },
            (None, None) => true,
            _ => false,
        },
{
    if *remaining == 0 {
        return false;
    }
    *remaining = *remaining - 1;
    match trace {
        Some(t) => match &mut t.raw {
            Some(raw) => {
                if raw.priming_discarded_pcm_frames < usize::MAX {
                    raw.priming_discarded_pcm_frames = raw.priming_discarded_pcm_frames + 1;
                }
            },
            None => {},
        },
        None => {},
    }
    true
}

/// Whether the saved wake word preference (the file's text, `None` when it
/// could not be read) says the user muted the detector: the text, trimmed,
/// is `paused`.
pub fn preference_muted(content: Option<&str>) -> (muted: bool)
    ensures
        muted == match content {
            Some(t) => trimmed(t@) == "paused"@,
            None => false,
        },
{
    match content {
        Some(t) => str_eq(trim(t), "paused"),
        None => false,
    }
}

/// The text saved for the wake word preference.
pub fn preference_text(muted: bool) -> (text: &'static str)
    ensures
        text@ == if muted { "paused"@ } else { "running"@ },
{
    if muted {
        "paused"
    } else {
        "running"
    }
}

/// The saved wake word preference reads back as the choice that was saved:
/// the text saved for `muted`, trimmed, is `paused` exactly when `muted`.
pub proof fn lemma_preference_reads_back(muted: bool)
    ensures
        (trimmed(if muted { "paused"@ } else { "running"@ }) == "paused"@) == muted,
{
    reveal_strlit("paused");
    reveal_strlit("running");
    let s = if muted { "paused"@ } else { "running"@ };
    assert(!is_white_space(s[0]));
    assert(!is_white_space(s[s.len() - 1]));
    assert(trimmed(s) =~= s);
    if !muted {
        assert(s.len() != "paused"@.len());
    }
}

/// The wake word's hold on repeated detections: once a detection has been
/// announced, no other is announced until it is rejected, the detector is
/// paused, or the listener restarts.
pub struct DetectionGate {
    /// An announced detection still awaits its verdict.
    pub candidate_pending: bool,
}

impl DetectionGate {
    /// No detection pending.
    pub fn new() -> (g: DetectionGate)
        ensures
            !g.candidate_pending,
    {
        DetectionGate { candidate_pending: false }
    }

    /// Whether a confirmed detection may be announced now.
    pub fn may_announce(&self) -> (may: bool)
        ensures
            may == !self.candidate_pending,
    {
        !self.candidate_pending
    }

    /// Records an announcement; one that reached its listeners holds off
    /// the next.
    pub fn announced(&mut self, delivered: bool)
        ensures
            final(self).candidate_pending == (old(self).candidate_pending || delivered),
    {
        if delivered {
            self.candidate_pending = true;
        }
    }

    /// Ends the hold: the detection was rejected, the detector paused, or
    /// the listener restarted.
    pub fn clear(&mut self)
        ensures
            !final(self).candidate_pending,
    {
        self.candidate_pending = false;
    }
}

/// Why the wake word detector is paused: a user mute (persisted) and a
/// transient suppression while a recording runs are tracked separately.
#[derive(Clone, Copy, Debug, PartialEq, Eq, Structural)]
pub struct WakeWordPauseState {
    pub user_muted: bool,
    pub recording_suppressed: bool,
}

impl WakeWordPauseState {
    /// Starts unsuppressed, muted as the user left it.
    pub fn new(user_muted: bool) -> (s: WakeWordPauseState)
        ensures
            s.user_muted == user_muted,
            !s.recording_suppressed,
    {
        WakeWordPauseState { user_muted, recording_suppressed: false }
    }

    /// Paused while either cause holds.
    pub fn is_paused(self) -> (p: bool)
        ensures
            p == (self.user_muted || self.recording_suppressed),
    {
        self.user_muted || self.recording_suppressed
    }

    /// A persisted pause mutes (and reports the new mute state to save); a
    /// transient one suppresses for the recording.
    pub fn pause(&mut self, persist: bool) -> (saved: Option<bool>)
        ensures
            persist ==> final(self).user_muted && final(self).recording_suppressed == old(self).recording_suppressed
                && saved == Some(true),
            !persist ==> final(self).recording_suppressed && final(self).user_muted == old(self).user_muted
                && saved is None,
    {
        if persist {
            self.user_muted = true;
            Some(true)
        } else {
            self.recording_suppressed = true;
            None
        }
    }

    /// A persisted resume unmutes (and reports it); a transient one ends the
    /// recording suppression.
    pub fn resume(&mut self, persist: bool) -> (saved: Option<bool>)
        ensures
            persist ==> !final(self).user_muted && final(self).recording_suppressed == old(self).recording_suppressed
                && saved == Some(false),
            !persist ==> !final(self).recording_suppressed && final(self).user_muted == old(self).user_muted
                && saved is None,
    {
        if persist {
            self.user_muted = false;
            Some(false)
        } else {
            self.recording_suppressed = false;
            None
        }
    }
}

/// The wake word detector's decisions: whether it listens and announces, as
/// commands and detections arrive.
pub struct WakeWordControl {
    pub pause: WakeWordPauseState,
    pub gate: DetectionGate,
}

/// What a pause command asks of the detector, once its state is updated.
#[derive(Clone, Copy, Debug, PartialEq, Eq, Structural)]
pub struct PauseActions {
    /// The mute state to save and report, for a persisted pause.
    pub save_muted: Option<bool>,
    /// Stop the listener and drop its buffered audio (a persisted pause).
    pub stop_listener: bool,
    /// Answer the sender's acknowledgement request.
    pub acknowledge: bool,
}

impl WakeWordControl {
    /// A detector muted as the user left it, with nothing announced.
    pub fn new(user_muted: bool) -> (c: WakeWordControl)
        ensures
            c.pause.user_muted == user_muted,
            !c.pause.recording_suppressed,
            !c.gate.candidate_pending,
    {
        WakeWordControl { pause: WakeWordPauseState::new(user_muted), gate: DetectionGate::new() }
    }

    /// Whether a confirmed detection is announced now: only while the
    /// detector is neither muted nor suppressed for a recording, and no
    /// earlier detection awaits its verdict.
    pub fn may_announce(&self) -> (may: bool)
        ensures
            may == (!self.pause.user_muted && !self.pause.recording_suppressed && !self.gate.candidate_pending),
    {
        !self.pause.is_paused() && self.gate.may_announce()
    }

    /// Records an announcement; one that reached its listeners holds off the
    /// next.
    pub fn announced(&mut self, delivered: bool)
        ensures
            final(self).pause == old(self).pause,
            final(self).gate.candidate_pending == (old(self).gate.candidate_pending || delivered),
            announces(*old(self), DetectorEvent::Confirmed { delivered })
                ==> *final(self) == detector_after(*old(self), DetectorEvent::Confirmed { delivered }),
    {
        self.gate.announced(delivered);
    }

    /// A pause: the state is updated, any pending detection is dropped, and
    /// then the actions are taken (the acknowledgement last).
    pub fn on_pause(&mut self, persist: bool, wants_ack: bool) -> (a: PauseActions)
        ensures
            persist ==> final(self).pause.user_muted && final(self).pause.recording_suppressed
                == old(self).pause.recording_suppressed && a.save_muted == Some(true),
            !persist ==> final(self).pause.recording_suppressed && final(self).pause.user_muted
                == old(self).pause.user_muted && a.save_muted is None,
            !final(self).gate.candidate_pending,
            a.stop_listener == persist,
            a.acknowledge == wants_ack,
            *final(self) == detector_after(*old(self), DetectorEvent::Pause { persist }),
    {
        let save_muted = self.pause.pause(persist);
        self.gate.clear();
        PauseActions { save_muted, stop_listener: persist, acknowledge: wants_ack }
    }

    /// A resume; returns the mute state to save and report, for a persisted
    /// one.
    pub fn on_resume(&mut self, persist: bool) -> (save_muted: Option<bool>)
        ensures
            persist ==> !final(self).pause.user_muted && final(self).pause.recording_suppressed
                == old(self).pause.recording_suppressed && save_muted == Some(false),
            !persist ==> !final(self).pause.recording_suppressed && final(self).pause.user_muted
                == old(self).pause.user_muted && save_muted is None,
            final(self).gate == old(self).gate,
            *final(self) == detector_after(*old(self), DetectorEvent::Resume { persist }),
    {
        self.pause.resume(persist)
    }

    /// The announced detection was rejected, or the listener restarted:
    /// detections may be announced again.
    pub fn clear_detection(&mut self)
        ensures
            final(self).pause == old(self).pause,
            !final(self).gate.candidate_pending,
            *final(self) == detector_after(*old(self), DetectorEvent::Rejected),
            *final(self) == detector_after(*old(self), DetectorEvent::Restarted),
    {
        self.gate.clear();
    }
}

/// What reaches the wake word detector's decision loop.
#[derive(Clone, Copy, Debug, PartialEq, Eq, Structural)]
pub enum DetectorEvent {
    /// The classifier confirmed a detection; `delivered` tells whether an
    /// announcement of it reaches a listener.
    Confirmed { delivered: bool },
    /// A pause command, persisted (a user mute) or transient.
    Pause { persist: bool },
    /// A resume command, persisted or transient.
    Resume { persist: bool },
    /// The announced detection was rejected.
    Rejected,
    /// The listener restarted.
    Restarted,
}

/// Whether the detector in state `c` announces on `e`.
pub open spec fn announces(c: WakeWordControl, e: DetectorEvent) -> bool {
    &&& e is Confirmed
    &&& !c.pause.user_muted
    &&& !c.pause.recording_suppressed
    &&& !c.gate.candidate_pending
}

/// The detector's state after `e`.
pub open spec fn detector_after(c: WakeWordControl, e: DetectorEvent) -> WakeWordControl {
    match e {
        DetectorEvent::Confirmed { delivered } => WakeWordControl {
            pause: c.pause,
            gate: DetectionGate { candidate_pending: c.gate.candidate_pending || (announces(c, e) && delivered) },
        },
        DetectorEvent::Pause { persist } => WakeWordControl {
            pause: if persist {
                WakeWordPauseState { user_muted: true, recording_suppressed: c.pause.recording_suppressed }
            } else {
                WakeWordPauseState { user_muted: c.pause.user_muted, recording_suppressed: true }
            },
            gate: DetectionGate { candidate_pending: false },
        },
        DetectorEvent::Resume { persist } => WakeWordControl {
            pause: if persist {
                WakeWordPauseState { user_muted: false, recording_suppressed: c.pause.recording_suppressed }
            } else {
                WakeWordPauseState { user_muted: c.pause.user_muted, recording_suppressed: false }
            },
            gate: c.gate,
        },
        DetectorEvent::Rejected | DetectorEvent::Restarted => WakeWordControl {
            pause: c.pause,
            gate: DetectionGate { candidate_pending: false },
        },
    }
}

/// The detector's state after the first `n` of `events`, from `c`.
pub open spec fn detector_state(c: WakeWordControl, events: Seq<DetectorEvent>, n: nat) -> WakeWordControl
    decreases n,
{
    if n == 0 {
        c
    } else {
        detector_after(detector_state(c, events, (n - 1) as nat), events[n - 1])
    }
}

/// Whether the `i`th event announced a detection that reached a listener.
pub open spec fn delivered_announcement(c: WakeWordControl, events: Seq<DetectorEvent>, i: nat) -> bool {
    &&& announces(detector_state(c, events, i), events[i as int])
    &&& events[i as int] matches DetectorEvent::Confirmed { delivered } && delivered
}

/// Whether an event ends the hold of an announced detection.
pub open spec fn ends_hold(e: DetectorEvent) -> bool {
    e is Rejected || e is Pause || e is Restarted
}

/// After a delivered announcement the hold stays until an event that ends
/// it.
proof fn lemma_hold_persists(c: WakeWordControl, events: Seq<DetectorEvent>, i: nat, j: nat)
    requires
        i < j <= events.len(),
        delivered_announcement(c, events, i),
        forall|k: int| i < k < j ==> !ends_hold(#[trigger] events[k]),
    ensures
        detector_state(c, events, j).gate.candidate_pending,
    decreases j,
{
    if j > i + 1 {
        lemma_hold_persists(c, events, i, (j - 1) as nat);
        assert(!ends_hold(events[j - 1]));
    }
}

/// Over any run of the detector: a detection is announced only while the
/// detector is neither muted nor suppressed for a recording; and once one
/// has reached a listener, no other is announced until it is rejected, the
/// detector is paused, or the listener restarts.
pub proof fn lemma_detector_run(c: WakeWordControl, events: Seq<DetectorEvent>, i: nat, j: nat)
    requires
        i < j < events.len(),
        delivered_announcement(c, events, i),
        announces(detector_state(c, events, j), events[j as int]),
    ensures
        !detector_state(c, events, i).pause.user_muted,
        !detector_state(c, events, i).pause.recording_suppressed,
        !detector_state(c, events, j).pause.user_muted,
        !detector_state(c, events, j).pause.recording_suppressed,
        exists|k: int| i < k < j && ends_hold(#[trigger] events[k]),
{
    if forall|k: int| i < k < j ==> !ends_hold(#[trigger] events[k]) {
        lemma_hold_persists(c, events, i, j);
    }
}

/// A transient pause and resume never touch the user's mute.
pub proof fn lemma_transient_cycle_keeps_user_mute(s: WakeWordPauseState, mid: WakeWordPauseState, end: WakeWordPauseState)
    requires
        mid.recording_suppressed && mid.user_muted == s.user_muted,
        !end.recording_suppressed && end.user_muted == mid.user_muted,
    ensures
        end.user_muted == s.user_muted,
        end.is_paused_spec() == s.user_muted,
{
}

impl WakeWordPauseState {
    pub open spec fn is_paused_spec(self) -> bool {
        self.user_muted || self.recording_suppressed
    }
}

} // verus!
