//! Reassembly of chunked companion-app messages: chunks are checked against
//! their CRC32, stored per message id, and released once every index of a
//! message has arrived. Storage is bounded in message count, in bytes and in
//! age.
use vstd::prelude::*;
use vstd::utf8::*;
use crate::bytes_util::{bytes_equal, copy_range, extend_bytes};
use crate::json::opt_text;
use crate::chunking::{
    ascii_chars, concat_pieces, crc32_hash, crc32_of, is_uuid_text, lemma_chunk_envelope_round_trip,
    lemma_concat_pieces_prefix, lemma_pieces_rebuild_data, parse_one_chunk_envelope, piece, piece_count,
    spec_chunk_envelope, spec_chunks, ChunkEnvelopeParse, EnvelopeView,
};

verus! {

broadcast use {encode_utf8_decode_utf8};

/// Largest message that reassembly releases.
pub const MAX_REASSEMBLED_MESSAGE: usize = 524288;
/// Cap on the bytes held by all partially received messages together.
pub const MAX_PENDING_MESSAGE_BYTES: usize = 524288;
/// Cap on the number of partially received messages.
pub const MAX_PENDING_MESSAGES: usize = 8;
/// Partially received messages older than this are forgotten.
pub const PENDING_MESSAGE_TTL_MS: u64 = 120_000;

/// One partially received message.
pub struct ChunkedMessage {
    message_id: String,
    total_chunks: u16,
    received_chunks: Vec<Option<Vec<u8>>>,
    received_count: usize,
    complete_size: usize,
    updated_at_ms: u64,
}

/// Model of a partially received message.
pub struct PendingView {
    pub id: Seq<char>,
    pub total: u16,
    pub chunks: Seq<Option<Seq<u8>>>,
    pub size: nat,
    pub updated_at: u64,
}

pub open spec fn opt_bytes_view(o: Option<Vec<u8>>) -> Option<Seq<u8>> {
    match o {
        Some(v) => Some(v@),
        None => None,
    }
}

impl View for ChunkedMessage {
    type V = PendingView;

    closed spec fn view(&self) -> PendingView {
        PendingView {
            id: self.message_id@,
            total: self.total_chunks,
            chunks: self.received_chunks@.map_values(|o: Option<Vec<u8>>| opt_bytes_view(o)),
            size: self.complete_size as nat,
            updated_at: self.updated_at_ms,
        }
    }
}

/// Bytes held by the present chunks.
pub open spec fn present_bytes(chunks: Seq<Option<Seq<u8>>>) -> nat
    decreases chunks.len(),
{
    if chunks.len() == 0 {
        0
    } else {
        present_bytes(chunks.drop_last()) + match chunks.last() {
            Some(c) => c.len(),
            None => 0,
        }
    }
}

/// Number of present chunks.
pub open spec fn present_count(chunks: Seq<Option<Seq<u8>>>) -> nat
    decreases chunks.len(),
{
    if chunks.len() == 0 {
        0
    } else {
        present_count(chunks.drop_last()) + if chunks.last() is Some { 1nat } else { 0nat }
    }
}

/// The present chunks joined in index order.
pub open spec fn joined_chunks(chunks: Seq<Option<Seq<u8>>>) -> Seq<u8>
    decreases chunks.len(),
{
    if chunks.len() == 0 {
        Seq::empty()
    } else {
        joined_chunks(chunks.drop_last()) + match chunks.last() {
            Some(c) => c,
            None => Seq::empty(),
        }
    }
}

/// A well-formed partially received message.
pub open spec fn pending_wf(p: PendingView) -> bool {
    &&& p.total >= 2
    &&& p.chunks.len() == p.total
    &&& p.size == present_bytes(p.chunks)
    &&& present_count(p.chunks) < p.total
}

/// Bytes held by all partially received messages.
pub open spec fn total_pending_bytes(s: Seq<PendingView>) -> nat
    decreases s.len(),
{
    if s.len() == 0 {
        0
    } else {
        total_pending_bytes(s.drop_last()) + s.last().size
    }
}

/// Whether `s` holds a message with id `id`.
pub open spec fn has_id(s: Seq<PendingView>, id: Seq<char>) -> bool {
    exists|i: int| 0 <= i < s.len() && (#[trigger] s[i]).id == id
}

/// The index of the message with id `id` (meaningful when `has_id`).
pub open spec fn id_index(s: Seq<PendingView>, id: Seq<char>) -> int {
    choose|i: int| 0 <= i < s.len() && (#[trigger] s[i]).id == id
}

/// The message with id `id` (meaningful when `has_id`).
pub open spec fn entry_for(s: Seq<PendingView>, id: Seq<char>) -> PendingView {
    s[id_index(s, id)]
}

/// `s` without the message with id `id`.
pub open spec fn without_id(s: Seq<PendingView>, id: Seq<char>) -> Seq<PendingView> {
    if has_id(s, id) {
        s.remove(id_index(s, id))
    } else {
        s
    }
}

/// How long ago `t` was, seen from `now` (zero for a future `t`).
pub open spec fn age(now: u64, t: u64) -> nat {
    if now >= t {
        (now - t) as nat
    } else {
        0
    }
}

/// Whether an entry is still young enough to keep.
pub open spec fn is_fresh(now: u64, p: PendingView) -> bool {
    age(now, p.updated_at) <= PENDING_MESSAGE_TTL_MS
}

/// The messages of `s` still fresh at `now`, in order.
pub open spec fn fresh_entries(s: Seq<PendingView>, now: u64) -> Seq<PendingView>
    decreases s.len(),
{
    if s.len() == 0 {
        s
    } else {
        let head = fresh_entries(s.drop_last(), now);
        if is_fresh(now, s.last()) {
            head.push(s.last())
        } else {
            head
        }
    }
}

/// Whether a message may be evicted: any message, or any but `exclude`.
pub open spec fn evictable(p: PendingView, exclude: Option<Seq<char>>) -> bool {
    match exclude {
        Some(x) => p.id != x,
        None => true,
    }
}

/// The index of the first of the oldest evictable messages of `s`, or -1.
pub open spec fn oldest_of(s: Seq<PendingView>, now: u64, exclude: Option<Seq<char>>) -> int
    decreases s.len(),
{
    if s.len() == 0 {
        -1
    } else {
        let r = oldest_of(s.drop_last(), now, exclude);
        if !evictable(s.last(), exclude) {
            r
        } else if r < 0 || age(now, s.last().updated_at) > age(now, s[r].updated_at) {
            s.len() - 1
        } else {
            r
        }
    }
}

/// Room by count: when eight messages are held and none is the message
/// `id`, the oldest goes.
pub open spec fn count_room(s: Seq<PendingView>, id: Seq<char>, now: u64) -> Seq<PendingView> {
    let o = oldest_of(s, now, None);
    if !has_id(s, id) && s.len() >= MAX_PENDING_MESSAGES && 0 <= o < s.len() {
        s.remove(o)
    } else {
        s
    }
}

/// Room by bytes: while a chunk of `len` bytes, replacing `replaced` bytes
/// of its message, would take the held bytes past the cap, the oldest other
/// message goes; when only the message `id` is left, it goes too and the
/// chunk is refused. Returns the messages kept and whether the chunk fits.
pub open spec fn byte_room(s: Seq<PendingView>, id: Seq<char>, now: u64, len: nat, replaced: nat) -> (Seq<PendingView>, bool)
    decreases s.len(),
{
    if len + total_pending_bytes(s) - replaced <= MAX_PENDING_MESSAGE_BYTES {
        (s, true)
    } else {
        let o = oldest_of(s, now, Some(id));
        if 0 <= o < s.len() {
            byte_room(s.remove(o), id, now, len, replaced)
        } else {
            (without_id(s, id), false)
        }
    }
}

/// The messages kept when room is made for chunk `idx` of `total` (`len`
/// bytes) of message `id` at `now`: stale messages are forgotten, then room
/// is made by count, then by bytes; and whether the chunk fits.
pub open spec fn room_made(
    s: Seq<PendingView>,
    id: Seq<char>,
    idx: u16,
    total: u16,
    len: nat,
    now: u64,
) -> (Seq<PendingView>, bool) {
    byte_room(
        count_room(fresh_entries(s, now), id, now),
        id,
        now,
        len,
        stored_len(base_chunks(s, id, total, now), idx as int),
    )
}

/// How one chunk was taken in.
pub enum ChunkAdmission {
    /// The chunk completed its message; here is the whole message.
    Complete(Vec<u8>),
    /// The chunk was stored; its message is still incomplete.
    Stored,
    /// The chunk's checksum did not match; the sender should resend it.
    RetransmitRequested,
    /// The chunk (and, for a multi-chunk message, its message) was dropped.
    Discarded,
}

/// Storage for partially received chunked messages.
pub struct ChunkReassembler {
    pending_messages: Vec<ChunkedMessage>,
}

impl View for ChunkReassembler {
    type V = Seq<PendingView>;

    closed spec fn view(&self) -> Seq<PendingView> {
        self.pending_messages@.map_values(|m: ChunkedMessage| m@)
    }
}

/// The stored chunk length at `idx` (zero when absent or out of range).
pub open spec fn stored_len(chunks: Seq<Option<Seq<u8>>>, idx: int) -> nat {
    if 0 <= idx < chunks.len() {
        match chunks[idx] {
            Some(c) => c.len(),
            None => 0,
        }
    } else {
        0
    }
}

/// The fresh entry that a chunk for `id` continues, if any.
pub open spec fn prior_entry(s: Seq<PendingView>, id: Seq<char>, now: u64) -> Option<PendingView> {
    if has_id(s, id) && is_fresh(now, entry_for(s, id)) {
        Some(entry_for(s, id))
    } else {
        None
    }
}

/// The chunk slots that a chunk for `id` is stored into.
pub open spec fn base_chunks(s: Seq<PendingView>, id: Seq<char>, total: u16, now: u64) -> Seq<Option<Seq<u8>>> {
    match prior_entry(s, id, now) {
        Some(p) => p.chunks,
        None => Seq::new(total as nat, |k: int| None::<Seq<u8>>),
    }
}

/// Bytes of the message after storing `len` bytes at `idx`.
pub open spec fn next_size(s: Seq<PendingView>, id: Seq<char>, total: u16, idx: u16, len: nat, now: u64) -> int {
    let base = match prior_entry(s, id, now) {
        Some(p) => p.size as int,
        None => 0,
    };
    base - stored_len(base_chunks(s, id, total, now), idx as int) + len
}

/// Whether the chunk announces a total that contradicts its stored message.
pub open spec fn total_mismatch(s: Seq<PendingView>, id: Seq<char>, total: u16, now: u64) -> bool {
    match prior_entry(s, id, now) {
        Some(p) => p.total != total,
        None => false,
    }
}

/// The message's chunk slots once the chunk is stored.
pub open spec fn updated_chunks(
    s: Seq<PendingView>,
    id: Seq<char>,
    total: u16,
    idx: u16,
    chunk: Seq<u8>,
    now: u64,
) -> Seq<Option<Seq<u8>>> {
    base_chunks(s, id, total, now).update(idx as int, Some(chunk))
}

/// Whether some slot holds an empty chunk.
pub open spec fn has_empty_chunk(chunks: Seq<Option<Seq<u8>>>) -> bool {
    exists|k: int| 0 <= k < chunks.len() && chunks[k] == Some(Seq::<u8>::empty())
}

/// The model of how a chunk was taken in.
pub enum AdmissionView {
    Complete(Seq<u8>),
    Stored,
    RetransmitRequested,
    Discarded,
}

impl ChunkAdmission {
    pub open spec fn admission_view(self) -> AdmissionView {
        match self {
            ChunkAdmission::Complete(b) => AdmissionView::Complete(b@),
            ChunkAdmission::Stored => AdmissionView::Stored,
            ChunkAdmission::RetransmitRequested => AdmissionView::RetransmitRequested,
            ChunkAdmission::Discarded => AdmissionView::Discarded,
        }
    }
}

/// How chunk `idx` of `total` for message `id`, carrying `data` under
/// `checksum`, is taken in at `now`, from the stored messages `s` to `s2`
/// with admission `a`. A chunk with an impossible index is discarded, and one
/// whose CRC32 differs from its checksum asks for retransmission; neither
/// touches the stored messages. A single-chunk message is released directly
/// unless it is larger than `MAX_REASSEMBLED_MESSAGE`. Otherwise the other
/// messages that remain were already stored and are fresh; the message is
/// dropped when its total contradicts the stored one or it would grow past
/// the cap, released in index order when its last chunk arrives (dropped if
/// a chunk was empty), and otherwise stored with the chunk in its slot. The
/// other messages kept are exactly those `room_made` leaves (stale ones
/// forgotten, the oldest gone when eight are held, then the oldest gone while
/// the byte cap would be exceeded), in their order, with the stored message
/// last; so any other fresh message that is evicted is at least as old as
/// every other message kept.
pub open spec fn chunk_taken(
    s: Seq<PendingView>,
    id: Seq<char>,
    idx: u16,
    total: u16,
    checksum: u32,
    data: Seq<u8>,
    now: u64,
    s2: Seq<PendingView>,
    a: AdmissionView,
) -> bool {
    &&& (idx >= total || total == 0) ==> a is Discarded && s2 == s
    &&& (idx < total && crc32_of(data) != checksum) ==> a is RetransmitRequested && s2 == s
    &&& (idx < total && crc32_of(data) == checksum && total == 1) ==> {
        &&& s2 == s
        &&& if data.len() <= MAX_REASSEMBLED_MESSAGE {
            a == AdmissionView::Complete(data)
        } else {
            a is Discarded
        }
    }
    &&& (idx < total && crc32_of(data) == checksum && total >= 2) ==> {
        let chunks = updated_chunks(s, id, total, idx, data, now);
        let size = next_size(s, id, total, idx, data.len(), now);
        let kept = without_id(room_made(s, id, idx, total, data.len(), now).0, id);
        &&& if a is Stored {
            s2 == kept.push(PendingView { id, total, chunks, size: size as nat, updated_at: now })
        } else {
            s2 == kept
        }
        &&& forall|i: int| 0 <= i < s2.len() && (#[trigger] s2[i]).id != id ==> s.contains(s2[i]) && is_fresh(now, s2[i])
        &&& evicted_oldest_first(s, s2, id, now)
        &&& if total_mismatch(s, id, total, now) || size > MAX_REASSEMBLED_MESSAGE {
            a is Discarded && !has_id(s2, id)
        } else if present_count(chunks) == total {
            &&& !has_id(s2, id)
            &&& if has_empty_chunk(chunks) {
                a is Discarded
            } else {
                a == AdmissionView::Complete(joined_chunks(chunks))
            }
        } else {
            &&& a is Stored
            &&& has_id(s2, id)
            &&& entry_for(s2, id) == (PendingView { id, total, chunks, size: size as nat, updated_at: now })
        }
    }
}

proof fn lemma_present_update(chunks: Seq<Option<Seq<u8>>>, k: int, v: Seq<u8>)
    requires
        0 <= k < chunks.len(),
    ensures
        present_bytes(chunks.update(k, Some(v))) == present_bytes(chunks) - stored_len(chunks, k) + v.len(),
        present_count(chunks.update(k, Some(v))) == present_count(chunks) + if chunks[k] is None { 1int } else { 0int },
    decreases chunks.len(),
{
    let u = chunks.update(k, Some(v));
    if k == chunks.len() - 1 {
        assert(u.drop_last() =~= chunks.drop_last());
    } else {
        assert(u.drop_last() =~= chunks.drop_last().update(k, Some(v)));
        lemma_present_update(chunks.drop_last(), k, v);
    }
}

proof fn lemma_present_bounds(chunks: Seq<Option<Seq<u8>>>)
    ensures
        present_count(chunks) <= chunks.len(),
        present_count(chunks) == chunks.len() ==> forall|k: int| 0 <= k < chunks.len() ==> (#[trigger] chunks[k]) is Some,
        forall|k: int| 0 <= k < chunks.len() ==> stored_len(chunks, k) <= present_bytes(chunks),
    decreases chunks.len(),
{
    if chunks.len() > 0 {
        lemma_present_bounds(chunks.drop_last());
        assert forall|k: int| 0 <= k < chunks.len() implies stored_len(chunks, k) <= present_bytes(chunks) by {
            if k < chunks.len() - 1 {
                assert(stored_len(chunks.drop_last(), k) == stored_len(chunks, k));
            }
        }
        if present_count(chunks) == chunks.len() {
            assert forall|k: int| 0 <= k < chunks.len() implies (#[trigger] chunks[k]) is Some by {
                if k < chunks.len() - 1 {
                    assert(chunks.drop_last()[k] == chunks[k]);
                }
            }
        }
    }
}

proof fn lemma_empty_slots(n: nat)
    ensures
        present_bytes(Seq::new(n, |k: int| None::<Seq<u8>>)) == 0,
        present_count(Seq::new(n, |k: int| None::<Seq<u8>>)) == 0,
    decreases n,
{
    if n > 0 {
        assert(Seq::new(n, |k: int| None::<Seq<u8>>).drop_last() =~= Seq::new((n - 1) as nat, |k: int| None::<Seq<u8>>));
        lemma_empty_slots((n - 1) as nat);
    }
}

proof fn lemma_total_remove(s: Seq<PendingView>, k: int)
    requires
        0 <= k < s.len(),
    ensures
        total_pending_bytes(s.remove(k)) + s[k].size == total_pending_bytes(s),
    decreases s.len(),
{
    if k < s.len() - 1 {
        assert(s.remove(k).drop_last() =~= s.drop_last().remove(k));
        lemma_total_remove(s.drop_last(), k);
    } else {
        assert(s.remove(k) =~= s.drop_last());
    }
}

proof fn lemma_total_push(s: Seq<PendingView>, p: PendingView)
    ensures
        total_pending_bytes(s.push(p)) == total_pending_bytes(s) + p.size,
{
    assert(s.push(p).drop_last() =~= s);
}

proof fn lemma_total_prefix(s: Seq<PendingView>, i: int)
    requires
        0 <= i <= s.len(),
    ensures
        total_pending_bytes(s.take(i)) <= total_pending_bytes(s),
        i < s.len() ==> total_pending_bytes(s.take(i + 1)) == total_pending_bytes(s.take(i)) + s[i].size,
    decreases s.len() - i,
{
    if i < s.len() {
        assert(s.take(i + 1).drop_last() =~= s.take(i));
        lemma_total_prefix(s, i + 1);
    } else {
        assert(s.take(i) =~= s);
    }
}

proof fn lemma_total_single_le(s: Seq<PendingView>, k: int)
    requires
        0 <= k < s.len(),
    ensures
        s[k].size <= total_pending_bytes(s),
{
    lemma_total_remove(s, k);
}

/// Eviction takes the oldest first: each fresh message of `s` other than
/// `id` that `s2` no longer holds is at least as old as every message of `s2`
/// other than `id`.
pub open spec fn evicted_oldest_first(s: Seq<PendingView>, s2: Seq<PendingView>, id: Seq<char>, now: u64) -> bool {
    forall|i: int, j: int|
        #![trigger s[i], s2[j]]
        0 <= i < s.len() && 0 <= j < s2.len() && is_fresh(now, s[i]) && s[i].id != id && !s2.contains(s[i])
            && s2[j].id != id ==> age(now, s2[j].updated_at) <= age(now, s[i].updated_at)
}

proof fn lemma_nothing_fresh_evicted(s: Seq<PendingView>, s2: Seq<PendingView>, id: Seq<char>, now: u64)
    requires
        forall|i: int| 0 <= i < s.len() && is_fresh(now, #[trigger] s[i]) ==> s2.contains(s[i]),
    ensures
        evicted_oldest_first(s, s2, id, now),
{
}

/// Removing the oldest message other than `id` keeps eviction oldest-first.
proof fn lemma_evict_oldest_other(s: Seq<PendingView>, before: Seq<PendingView>, o: int, id: Seq<char>, now: u64)
    requires
        evicted_oldest_first(s, before, id, now),
        0 <= o < before.len(),
        before[o].id != id,
        forall|j: int| 0 <= j < before.len() && before[j].id != id
            ==> age(now, #[trigger] before[j].updated_at) <= age(now, before[o].updated_at),
    ensures
        evicted_oldest_first(s, before.remove(o), id, now),
{
    let after = before.remove(o);
    assert forall|i: int, j: int|
        #![trigger s[i], after[j]]
        0 <= i < s.len() && 0 <= j < after.len() && is_fresh(now, s[i]) && s[i].id != id && !after.contains(s[i])
            && after[j].id != id implies age(now, after[j].updated_at) <= age(now, s[i].updated_at) by {
        let j2 = if j < o { j } else { j + 1 };
        assert(after[j] == before[j2]);
        if before.contains(s[i]) {
            let k = choose|k: int| 0 <= k < before.len() && before[k] == s[i];
            if k != o {
                let k2 = if k < o { k } else { k - 1 };
                assert(after[k2] == before[k]);
                assert(after.contains(s[i]));
            }
            assert(age(now, before[j2].updated_at) <= age(now, before[o].updated_at));
        } else {
            assert(age(now, before[j2].updated_at) <= age(now, s[i].updated_at));
        }
    }
}

/// Removing the message `id` keeps eviction oldest-first.
proof fn lemma_remove_own_keeps_order(s: Seq<PendingView>, before: Seq<PendingView>, k: int, id: Seq<char>, now: u64)
    requires
        evicted_oldest_first(s, before, id, now),
        0 <= k < before.len(),
        before[k].id == id,
    ensures
        evicted_oldest_first(s, before.remove(k), id, now),
{
    let after = before.remove(k);
    assert forall|i: int, j: int|
        #![trigger s[i], after[j]]
        0 <= i < s.len() && 0 <= j < after.len() && is_fresh(now, s[i]) && s[i].id != id && !after.contains(s[i])
            && after[j].id != id implies age(now, after[j].updated_at) <= age(now, s[i].updated_at) by {
        let j2 = if j < k { j } else { j + 1 };
        assert(after[j] == before[j2]);
        if before.contains(s[i]) {
            let m = choose|m: int| 0 <= m < before.len() && before[m] == s[i];
            assert(m != k);
            let m2 = if m < k { m } else { m - 1 };
            assert(after[m2] == before[m]);
        }
    }
}

/// Adding the message `id` keeps eviction oldest-first.
proof fn lemma_push_own_keeps_order(s: Seq<PendingView>, before: Seq<PendingView>, ev: PendingView, id: Seq<char>, now: u64)
    requires
        evicted_oldest_first(s, before, id, now),
        ev.id == id,
    ensures
        evicted_oldest_first(s, before.push(ev), id, now),
{
    let after = before.push(ev);
    assert forall|i: int, j: int|
        #![trigger s[i], after[j]]
        0 <= i < s.len() && 0 <= j < after.len() && is_fresh(now, s[i]) && s[i].id != id && !after.contains(s[i])
            && after[j].id != id implies age(now, after[j].updated_at) <= age(now, s[i].updated_at) by {
        assert(after[j] == before[j]);
        if before.contains(s[i]) {
            let m = choose|m: int| 0 <= m < before.len() && before[m] == s[i];
            assert(after[m] == before[m]);
        }
    }
}

impl ChunkReassembler {
    /// The reassembler's invariant: distinct well-formed messages, within the
    /// count and byte caps.
    pub closed spec fn wf(&self) -> bool {
        &&& self@.len() <= MAX_PENDING_MESSAGES
        &&& forall|i: int| 0 <= i < self@.len() ==> pending_wf(#[trigger] self@[i])
        &&& forall|i: int, j: int|
            0 <= i < j < self@.len() ==> (#[trigger] self@[i]).id != (#[trigger] self@[j]).id
        &&& total_pending_bytes(self@) <= MAX_PENDING_MESSAGE_BYTES
        &&& forall|i: int| 0 <= i < self.pending_messages@.len() ==> {
            let m = #[trigger] self.pending_messages@[i];
            m.received_count == present_count(m@.chunks)
        }
    }

    /// An empty reassembler.
    pub fn new() -> (r: Self)
        ensures
            r.wf(),
            r@ == Seq::<PendingView>::empty(),
    {
        let r = ChunkReassembler { pending_messages: Vec::new() };
        assert(r@ =~= Seq::<PendingView>::empty());
        r
    }
}

impl ChunkReassembler {
    /// The limits every reassembler keeps: at most `MAX_PENDING_MESSAGES`
    /// partially received messages with distinct ids, each well formed (its
    /// slots match its total, its size is the bytes of its present chunks,
    /// and it is incomplete), holding at most `MAX_PENDING_MESSAGE_BYTES`
    /// bytes together.
    pub proof fn lemma_limits(&self)
        requires
            self.wf(),
        ensures
            self@.len() <= MAX_PENDING_MESSAGES,
            total_pending_bytes(self@) <= MAX_PENDING_MESSAGE_BYTES,
            forall|i: int| 0 <= i < self@.len() ==> pending_wf(#[trigger] self@[i]),
            forall|i: int, j: int| 0 <= i < j < self@.len() ==> (#[trigger] self@[i]).id != (#[trigger] self@[j]).id,
    {
    }

    fn id_matches(m: &ChunkedMessage, id: &str) -> (same: bool)
        ensures
            same == (m@.id == id@),
    {
        let mine = m.message_id.as_str();
        let same = bytes_equal(mine.as_bytes(), id.as_bytes());
        proof {
            encode_utf8_decode_utf8(mine@);
            encode_utf8_decode_utf8(id@);
        }
        same
    }

    fn find_id(&self, id: &str) -> (r: Option<usize>)
        requires
            self.wf(),
        ensures
            r matches Some(i) ==> i < self@.len() && self@[i as int].id == id@ && entry_for(self@, id@) == self@[i as int]
                && id_index(self@, id@) == i,
            r is None ==> !has_id(self@, id@),
    {
        let mut i: usize = 0;
        while i < self.pending_messages.len()
            invariant
                self.wf(),
                i <= self@.len(),
                self@.len() == self.pending_messages@.len(),
                forall|j: int| 0 <= j < i ==> (#[trigger] self@[j]).id != id@,
            decreases self@.len() - i,
        {
            if Self::id_matches(&self.pending_messages[i], id) {
                assert(self@[i as int] == self.pending_messages@[i as int]@);
                assert(has_id(self@, id@));
                let ghost c = choose|c: int| 0 <= c < self@.len() && (#[trigger] self@[c]).id == id@;
                assert(c == i) by {
                    if c < i {
                    } else if c > i {
                        assert(self@[i as int].id != self@[c].id);
                    }
                }
                return Some(i);
            }
            assert(self@[i as int] == self.pending_messages@[i as int]@);
            i = i + 1;
        }
        None
    }

    fn remove_at(&mut self, k: usize)
        requires
            old(self).wf(),
            k < old(self)@.len(),
        ensures
            final(self).wf(),
            final(self)@ == old(self)@.remove(k as int),
    {
        proof {
            lemma_total_remove(self@, k as int);
        }
        self.pending_messages.remove(k);
        assert(self@ =~= old(self)@.remove(k as int));
    }

    fn total_bytes(&self) -> (n: usize)
        requires
            self.wf(),
        ensures
            n == total_pending_bytes(self@),
    {
        let mut sum: usize = 0;
        let mut i: usize = 0;
        while i < self.pending_messages.len()
            invariant
                self.wf(),
                i <= self@.len(),
                self@.len() == self.pending_messages@.len(),
                sum == total_pending_bytes(self@.take(i as int)),
            decreases self@.len() - i,
        {
            proof {
                lemma_total_prefix(self@, i as int);
                lemma_total_prefix(self@, i as int + 1);
            }
            assert(self@[i as int] == self.pending_messages@[i as int]@);
            sum = sum + self.pending_messages[i].complete_size;
            i = i + 1;
        }
        assert(self@.take(i as int) =~= self@);
        sum
    }

    /// Index of the oldest entry whose id is not `exclude`.
    fn oldest_index(&self, now_ms: u64, exclude: Option<&str>) -> (r: Option<usize>)
        requires
            self.wf(),
        ensures
            r matches Some(i) ==> {
                &&& i < self@.len()
                &&& (exclude matches Some(x) ==> self@[i as int].id != x@)
                &&& forall|j: int| 0 <= j < self@.len() && (exclude matches Some(x) ==> self@[j].id != x@)
                    ==> age(now_ms, #[trigger] self@[j].updated_at) <= age(now_ms, self@[i as int].updated_at)
            },
            r is None ==> forall|j: int| 0 <= j < self@.len() ==> (exclude matches Some(x) && (#[trigger] self@[j]).id == x@),
            match r {
                Some(i) => oldest_of(self@, now_ms, opt_text(exclude)) == i,
                None => oldest_of(self@, now_ms, opt_text(exclude)) == -1,
            },
    {
        let mut best: Option<usize> = None;
        let mut best_age: u64 = 0;
        let mut i: usize = 0;
        while i < self.pending_messages.len()
            invariant
                self.wf(),
                i <= self@.len(),
                self@.len() == self.pending_messages@.len(),
                best matches Some(b) ==> {
                    &&& b < i
                    &&& (exclude matches Some(x) ==> self@[b as int].id != x@)
                    &&& best_age == age(now_ms, self@[b as int].updated_at)
                    &&& forall|j: int| 0 <= j < i && (exclude matches Some(x) ==> self@[j].id != x@)
                        ==> age(now_ms, #[trigger] self@[j].updated_at) <= best_age
                },
                best is None ==> forall|j: int| 0 <= j < i ==> (exclude matches Some(x) && (#[trigger] self@[j]).id == x@),
                match best {
                    Some(b) => oldest_of(self@.take(i as int), now_ms, opt_text(exclude)) == b,
                    None => oldest_of(self@.take(i as int), now_ms, opt_text(exclude)) == -1,
                },
            decreases self@.len() - i,
        {
            assert(self@[i as int] == self.pending_messages@[i as int]@);
            proof {
                let t1 = self@.take(i as int + 1);
                assert(t1.drop_last() =~= self@.take(i as int));
                assert(t1.last() == self@[i as int]);
                assert forall|k: int| 0 <= k < i implies t1[k] == self@.take(i as int)[k] by {}
            }
            let excluded = match exclude {
                Some(x) => Self::id_matches(&self.pending_messages[i], x),
                None => false,
            };
            if !excluded {
                let t = self.pending_messages[i].updated_at_ms;
                let a = if now_ms >= t { now_ms - t } else { 0 };
                match best {
                    None => {
                        best = Some(i);
                        best_age = a;
                    },
                    Some(_) => {
                        if a > best_age {
                            best = Some(i);
                            best_age = a;
                        }
                    },
                }
            }
            i = i + 1;
        }
        assert(self@.take(i as int) =~= self@);
        best
    }

    fn retain_fresh(&mut self, now_ms: u64)
        requires
            old(self).wf(),
        ensures
            final(self).wf(),
            forall|i: int| 0 <= i < final(self)@.len() ==> is_fresh(now_ms, #[trigger] final(self)@[i]),
            forall|i: int| 0 <= i < final(self)@.len() ==> old(self)@.contains(#[trigger] final(self)@[i]),
            forall|i: int| 0 <= i < old(self)@.len() && is_fresh(now_ms, #[trigger] old(self)@[i])
                ==> final(self)@.contains(old(self)@[i]),
            final(self)@ == fresh_entries(old(self)@, now_ms),
    {
        let mut i: usize = 0;
        let ghost mut j: int = 0;
        assert(old(self)@.take(0) =~= Seq::<PendingView>::empty());
        assert(self@ =~= fresh_entries(old(self)@.take(0), now_ms) + old(self)@.skip(0));
        while i < self.pending_messages.len()
            invariant
                self.wf(),
                i <= self@.len(),
                self@.len() == self.pending_messages@.len(),
                forall|j: int| 0 <= j < i ==> is_fresh(now_ms, #[trigger] self@[j]),
                forall|j: int| 0 <= j < self@.len() ==> old(self)@.contains(#[trigger] self@[j]),
                forall|j: int| 0 <= j < old(self)@.len() && is_fresh(now_ms, #[trigger] old(self)@[j])
                    ==> self@.contains(old(self)@[j]),
                0 <= j <= old(self)@.len(),
                self@ == fresh_entries(old(self)@.take(j), now_ms) + old(self)@.skip(j),
                i == fresh_entries(old(self)@.take(j), now_ms).len(),
            decreases self@.len() - i,
        {
            assert(self@[i as int] == self.pending_messages@[i as int]@);
            let ghost fj = fresh_entries(old(self)@.take(j), now_ms);
            assert(self@[i as int] == old(self)@[j]);
            proof {
                let t1 = old(self)@.take(j + 1);
                assert(t1.drop_last() =~= old(self)@.take(j));
                assert(t1.last() == old(self)@[j]);
            }
            let t = self.pending_messages[i].updated_at_ms;
            let a = if now_ms >= t { now_ms - t } else { 0 };
            if a > PENDING_MESSAGE_TTL_MS {
                let ghost before = self@;
                self.remove_at(i);
                assert forall|j: int| 0 <= j < old(self)@.len() && is_fresh(now_ms, #[trigger] old(self)@[j])
                    implies self@.contains(old(self)@[j]) by {
                    let x = old(self)@[j];
                    let m = choose|m: int| 0 <= m < before.len() && before[m] == x;
                    assert(m != i);
                    if m < i {
                        assert(self@[m] == x);
                    } else {
                        assert(self@[m - 1] == x);
                    }
                }
                assert forall|j: int| 0 <= j < self@.len() implies old(self)@.contains(#[trigger] self@[j]) by {
                    if j < i {
                        assert(self@[j] == before[j]);
                    } else {
                        assert(self@[j] == before[j + 1]);
                    }
                }
                proof {
                    assert(self@ =~= fj + old(self)@.skip(j + 1));
                    j = j + 1;
                }
            } else {
                i = i + 1;
                proof {
                    assert(self@ =~= fj.push(old(self)@[j]) + old(self)@.skip(j + 1));
                    j = j + 1;
                }
            }
        }
        proof {
            if j < old(self)@.len() {
                assert(self@.len() == i + old(self)@.skip(j).len());
            }
            assert(old(self)@.take(j) =~= old(self)@);
            assert(self@ =~= fresh_entries(old(self)@, now_ms));
        }
    }
}

impl ChunkReassembler {
    /// Takes in one chunk of message `message_id` at time `now_ms`.
    ///
    /// A chunk with an impossible index is discarded, and one whose CRC32
    /// differs from `expected_checksum` asks for retransmission; neither
    /// touches the stored messages. A single-chunk message is released
    /// directly unless it is larger than `MAX_REASSEMBLED_MESSAGE`. Otherwise
    /// stale messages are forgotten, the oldest message makes room when eight
    /// are held, older messages are evicted while the byte cap would be
    /// exceeded, and the chunk is stored; a message whose last chunk arrives is
    /// released in index order.
    #[verifier::rlimit(40)]
    pub fn add_chunk(
        &mut self,
        message_id: &str,
        chunk_idx: u16,
        total_chunks: u16,
        expected_checksum: u32,
        chunk_data: Vec<u8>,
        now_ms: u64,
    ) -> (res: ChunkAdmission)
        requires
            old(self).wf(),
        ensures
            final(self).wf(),
            chunk_taken(
                old(self)@,
                message_id@,
                chunk_idx,
                total_chunks,
                expected_checksum,
                chunk_data@,
                now_ms,
                final(self)@,
                res.admission_view(),
            ),
    {
        if chunk_idx >= total_chunks || total_chunks == 0 {
            return ChunkAdmission::Discarded;
        }
        let actual_checksum = crc32_hash(chunk_data.as_slice());
        if actual_checksum != expected_checksum {
            return ChunkAdmission::RetransmitRequested;
        }
        if total_chunks == 1 {
            if chunk_data.len() > MAX_REASSEMBLED_MESSAGE {
                return ChunkAdmission::Discarded;
            }
            return ChunkAdmission::Complete(chunk_data);
        }
        let ghost s = old(self)@;
        let ghost id = message_id@;
        let ghost prior = prior_entry(s, id, now_ms);
        let replaced_size = match self.make_room(message_id, chunk_idx, total_chunks, chunk_data.len(), now_ms) {
            Some(r) => r,
            None => return ChunkAdmission::Discarded,
        };
        proof {
            self.lemma_own_size_le_total(s, id, now_ms);
        }
        let ghost agg = total_pending_bytes(self@);
        let ghost own_size: int = match prior { Some(p) => p.size as int, None => 0 };
        assert(chunk_data@.len() + agg - replaced_size <= MAX_PENDING_MESSAGE_BYTES);

        let mut entry = match self.find_id(message_id) {
            Some(i) => {
                assert(self@[i as int] == self.pending_messages@[i as int]@);
                if self.pending_messages[i].total_chunks != total_chunks {
                    let ghost before = self@;
                    self.remove_at(i);
                    proof {
                        self.lemma_removed_own(before, i as int, id);
                        lemma_remove_own_keeps_order(s, before, i as int, id, now_ms);
                    }
                    return ChunkAdmission::Discarded;
                }
                let ghost before = self@;
                proof {
                    lemma_total_remove(self@, i as int);
                }
                let e = self.pending_messages.remove(i);
                assert(self@ =~= before.remove(i as int));
                assert(before[i as int] == e@);
                assert(total_pending_bytes(self@) + own_size == agg);
                proof {
                    self.lemma_removed_own(before, i as int, id);
                    lemma_remove_own_keeps_order(s, before, i as int, id, now_ms);
                }
                e
            },
            None => {
                let mut slots: Vec<Option<Vec<u8>>> = Vec::with_capacity(total_chunks as usize);
                let mut k: u16 = 0;
                while k < total_chunks
                    invariant
                        k <= total_chunks,
                        slots@.len() == k,
                        forall|j: int| 0 <= j < k ==> slots@[j] is None,
                    decreases total_chunks - k,
                {
                    slots.push(None);
                    k = k + 1;
                }
                proof {
                    lemma_empty_slots(total_chunks as nat);
                }
                let e = ChunkedMessage {
                    message_id: message_id.to_owned(),
                    total_chunks,
                    received_chunks: slots,
                    received_count: 0,
                    complete_size: 0,
                    updated_at_ms: now_ms,
                };
                assert(e@.chunks =~= Seq::new(total_chunks as nat, |k: int| None::<Seq<u8>>));
                assert(total_pending_bytes(self@) + own_size == agg);
                e
            },
        };
        assert(entry@.chunks == base_chunks(s, id, total_chunks, now_ms));
        assert(entry@.id == id);
        assert(entry@.size == own_size);
        assert(entry.received_count == present_count(entry@.chunks));
        assert(!has_id(self@, id));
        assert(self@.len() < MAX_PENDING_MESSAGES);
        let ghost rest = self@;
        proof {
            lemma_present_bounds(entry@.chunks);
        }
        let prior_len = Self::stored_chunk_len(&entry, chunk_idx);
        if chunk_data.len() > MAX_REASSEMBLED_MESSAGE - (entry.complete_size - prior_len) {
            return ChunkAdmission::Discarded;
        }
        let new_size = entry.complete_size - prior_len + chunk_data.len();
        let was_absent = entry.received_chunks[chunk_idx as usize].is_none();
        let ghost old_chunks = entry@.chunks;
        let ghost chunk_view = chunk_data@;
        proof {
            lemma_present_update(old_chunks, chunk_idx as int, chunk_view);
        }
        entry.received_chunks.set(chunk_idx as usize, Some(chunk_data));
        if was_absent {
            entry.received_count = entry.received_count + 1;
        }
        entry.complete_size = new_size;
        entry.updated_at_ms = now_ms;
        assert(entry@.chunks =~= old_chunks.update(chunk_idx as int, Some(chunk_view)));
        assert(entry@.chunks == updated_chunks(s, id, total_chunks, chunk_idx, chunk_view, now_ms));

        if entry.received_count == total_chunks as usize {
            return Self::join_entry(&entry);
        }
        let ghost before = self@;
        let ghost ev = entry@;
        assert(pending_wf(ev));
        proof {
            lemma_total_push(self@, entry@);
        }
        self.pending_messages.push(entry);
        assert(self@ =~= before.push(ev));
        assert(self@.drop_last() =~= before);
        proof {
            self.lemma_pushed_own(before, id);
            self.lemma_push_keeps_wf(before, ev);
            lemma_push_own_keeps_order(s, before, ev, id, now_ms);
        }
        ChunkAdmission::Stored
    }

    fn make_room(&mut self, message_id: &str, chunk_idx: u16, total_chunks: u16, chunk_len: usize, now_ms: u64) -> (res: Option<usize>)
        requires
            old(self).wf(),
            chunk_idx < total_chunks,
            total_chunks >= 2,
        ensures
            final(self).wf(),
            forall|i: int| 0 <= i < final(self)@.len() ==> old(self)@.contains(#[trigger] final(self)@[i])
                && is_fresh(now_ms, final(self)@[i]),
            evicted_oldest_first(old(self)@, final(self)@, message_id@, now_ms),
            res matches Some(r) ==> {
                &&& final(self).tracks(old(self)@, message_id@, now_ms)
                &&& r == stored_len(base_chunks(old(self)@, message_id@, total_chunks, now_ms), chunk_idx as int)
                &&& (prior_entry(old(self)@, message_id@, now_ms) matches Some(p) ==> r <= p.size)
                &&& (!has_id(final(self)@, message_id@) ==> final(self)@.len() < MAX_PENDING_MESSAGES)
                &&& chunk_len + total_pending_bytes(final(self)@) - r <= MAX_PENDING_MESSAGE_BYTES
            },
            res is None ==> !has_id(final(self)@, message_id@)
                && next_size(old(self)@, message_id@, total_chunks, chunk_idx, chunk_len as nat, now_ms) > MAX_REASSEMBLED_MESSAGE,
            final(self)@ == room_made(old(self)@, message_id@, chunk_idx, total_chunks, chunk_len as nat, now_ms).0,
            res is Some <==> room_made(old(self)@, message_id@, chunk_idx, total_chunks, chunk_len as nat, now_ms).1,
    {
        let ghost s = old(self)@;
        let ghost id = message_id@;
        let ghost prior = prior_entry(s, id, now_ms);

        self.retain_fresh(now_ms);
        proof {
            self.lemma_prior_after_retain(s, id, now_ms);
            lemma_nothing_fresh_evicted(s, self@, id, now_ms);
        }

        let ghost fresh = self@;
        assert(fresh == fresh_entries(s, now_ms));
        let found = self.find_id(message_id);
        if found.is_none() && self.pending_messages.len() >= MAX_PENDING_MESSAGES {
            if let Some(oldest) = self.oldest_index(now_ms, None) {
                let ghost before = self@;
                assert(before[oldest as int].id != id);
                assert(opt_text(None::<&str>) == None::<Seq<char>>);
                self.remove_at(oldest);
                proof {
                    self.lemma_removal_keeps_tracking(before, oldest as int, s, id, now_ms);
                    lemma_evict_oldest_other(s, before, oldest as int, id, now_ms);
                }
                assert(self@ == count_room(fresh, id, now_ms));
            } else {
                assert(opt_text(None::<&str>) == None::<Seq<char>>);
                assert(self@ == count_room(fresh, id, now_ms));
            }
        } else {
            assert(self@ == count_room(fresh, id, now_ms));
        }
        let ghost counted = self@;

        let replaced_size: usize = match self.find_id(message_id) {
            Some(i) => {
                proof {
                    assert(self@[i as int] == self.pending_messages@[i as int]@);
                    lemma_present_bounds(self@[i as int].chunks);
                    lemma_total_single_le(self@, i as int);
                }
                Self::stored_chunk_len(&self.pending_messages[i], chunk_idx)
            },
            None => 0,
        };
        assert(replaced_size == stored_len(base_chunks(s, id, total_chunks, now_ms), chunk_idx as int)) by {
            if prior is None {
                assert(stored_len(base_chunks(s, id, total_chunks, now_ms), chunk_idx as int) == 0);
            }
        }

        loop
            invariant
                self.wf(),
                self@.len() <= MAX_PENDING_MESSAGES,
                self.tracks(s, id, now_ms),
                evicted_oldest_first(s, self@, id, now_ms),
                !has_id(self@, id) ==> self@.len() < MAX_PENDING_MESSAGES,
                replaced_size == stored_len(base_chunks(s, id, total_chunks, now_ms), chunk_idx as int),
                prior matches Some(p) ==> replaced_size <= p.size,
                id == message_id@,
                s == old(self)@,
                chunk_idx < total_chunks,
                total_chunks >= 2,
                prior == prior_entry(s, id, now_ms),
                byte_room(self@, id, now_ms, chunk_len as nat, replaced_size as nat) == room_made(
                    s,
                    id,
                    chunk_idx,
                    total_chunks,
                    chunk_len as nat,
                    now_ms,
                ),
            ensures
                self.wf(),
                self.tracks(s, id, now_ms),
                evicted_oldest_first(s, self@, id, now_ms),
                !has_id(self@, id) ==> self@.len() < MAX_PENDING_MESSAGES,
                chunk_len + total_pending_bytes(self@) - replaced_size <= MAX_PENDING_MESSAGE_BYTES,
                self@ == room_made(s, id, chunk_idx, total_chunks, chunk_len as nat, now_ms).0,
                room_made(s, id, chunk_idx, total_chunks, chunk_len as nat, now_ms).1,
            decreases self@.len(),
        {
            let aggregate = self.total_bytes();
            proof {
                self.lemma_own_size_le_total(s, id, now_ms);
            }
            let room = MAX_PENDING_MESSAGE_BYTES - (aggregate - replaced_size);
            if chunk_len <= room {
                break;
            }
            assert(opt_text(Some(message_id)) == Some(id));
            match self.oldest_index(now_ms, Some(message_id)) {
                Some(o) => {
                    let ghost before = self@;
                    assert(byte_room(before, id, now_ms, chunk_len as nat, replaced_size as nat) == byte_room(
                        before.remove(o as int),
                        id,
                        now_ms,
                        chunk_len as nat,
                        replaced_size as nat,
                    ));
                    self.remove_at(o);
                    proof {
                        self.lemma_removal_keeps_tracking(before, o as int, s, id, now_ms);
                        lemma_evict_oldest_other(s, before, o as int, id, now_ms);
                    }
                },
                None => {
                    proof {
                        self.lemma_only_own_left(s, id, now_ms);
                    }
                    let ghost before = self@;
                    assert(byte_room(before, id, now_ms, chunk_len as nat, replaced_size as nat) == (
                        without_id(before, id),
                        false,
                    ));
                    if let Some(i) = self.find_id(message_id) {
                        self.remove_at(i);
                        proof {
                            self.lemma_removed_own(before, i as int, id);
                            lemma_remove_own_keeps_order(s, before, i as int, id, now_ms);
                        }
                    }
                    assert(self@ == without_id(before, id));
                    return None;
                },
            }
        }
        Some(replaced_size)

    }

    fn stored_chunk_len(m: &ChunkedMessage, idx: u16) -> (n: usize)
        ensures
            n == stored_len(m@.chunks, idx as int),
    {
        if (idx as usize) < m.received_chunks.len() {
            match &m.received_chunks[idx as usize] {
                Some(c) => c.len(),
                None => 0,
            }
        } else {
            0
        }
    }

    fn join_entry(m: &ChunkedMessage) -> (res: ChunkAdmission)
        requires
            present_count(m@.chunks) == m@.chunks.len(),
        ensures
            if has_empty_chunk(m@.chunks) {
                res is Discarded
            } else {
                res matches ChunkAdmission::Complete(b) && b@ == joined_chunks(m@.chunks)
            },
    {
        proof {
            lemma_present_bounds(m@.chunks);
        }
        let mut out: Vec<u8> = Vec::new();
        let mut k: usize = 0;
        while k < m.received_chunks.len()
            invariant
                k <= m@.chunks.len(),
                m@.chunks.len() == m.received_chunks@.len(),
                forall|j: int| 0 <= j < m@.chunks.len() ==> (#[trigger] m@.chunks[j]) is Some,
                forall|j: int| 0 <= j < k ==> (#[trigger] m@.chunks[j]) != Some(Seq::<u8>::empty()),
                out@ == joined_chunks(m@.chunks.take(k as int)),
            decreases m@.chunks.len() - k,
        {
            assert(m@.chunks[k as int] == opt_bytes_view(m.received_chunks@[k as int]));
            match &m.received_chunks[k] {
                Some(c) => {
                    if c.len() == 0 {
                        assert(c@ =~= Seq::<u8>::empty());
                        return ChunkAdmission::Discarded;
                    }
                    extend_bytes(&mut out, c.as_slice());
                    assert(m@.chunks.take(k as int + 1).drop_last() =~= m@.chunks.take(k as int));
                    k = k + 1;
                    assert(c@.len() > 0);
                },
                None => {
                    return ChunkAdmission::Discarded;
                },
            }
        }
        assert(m@.chunks.take(k as int) =~= m@.chunks);
        ChunkAdmission::Complete(out)
    }

    /// What the add path keeps track of while it rearranges storage.
    spec fn tracks(&self, s: Seq<PendingView>, id: Seq<char>, now: u64) -> bool {
        &&& forall|i: int| 0 <= i < self@.len() ==> s.contains(#[trigger] self@[i]) && is_fresh(now, self@[i])
        &&& (has_id(self@, id) <==> prior_entry(s, id, now) is Some)
        &&& has_id(self@, id) ==> entry_for(self@, id) == prior_entry(s, id, now).unwrap()
    }

    proof fn lemma_prior_after_retain(&self, s: Seq<PendingView>, id: Seq<char>, now: u64)
        requires
            self.wf(),
            forall|i: int| 0 <= i < self@.len() ==> is_fresh(now, #[trigger] self@[i]),
            forall|i: int| 0 <= i < self@.len() ==> s.contains(#[trigger] self@[i]),
            forall|i: int| 0 <= i < s.len() && is_fresh(now, #[trigger] s[i]) ==> self@.contains(s[i]),
            forall|i: int, j: int| 0 <= i < j < s.len() ==> (#[trigger] s[i]).id != (#[trigger] s[j]).id,
        ensures
            self.tracks(s, id, now),
    {
        if has_id(self@, id) {
            let k = choose|k: int| 0 <= k < self@.len() && (#[trigger] self@[k]).id == id;
            let m = choose|m: int| 0 <= m < s.len() && s[m] == self@[k];
            assert(s[m].id == id);
            assert(has_id(s, id));
            let c = choose|c: int| 0 <= c < s.len() && (#[trigger] s[c]).id == id;
            assert(c == m) by {
                if c < m {
                    assert(s[c].id != s[m].id);
                } else if c > m {
                    assert(s[m].id != s[c].id);
                }
            }
            let c2 = choose|c2: int| 0 <= c2 < self@.len() && (#[trigger] self@[c2]).id == id;
            assert(c2 == k) by {
                if c2 < k {
                    assert(self@[c2].id != self@[k].id);
                } else if c2 > k {
                    assert(self@[k].id != self@[c2].id);
                }
            }
        } else if has_id(s, id) {
            let c = choose|c: int| 0 <= c < s.len() && (#[trigger] s[c]).id == id;
            if is_fresh(now, s[c]) {
                let k = choose|k: int| 0 <= k < self@.len() && self@[k] == s[c];
                assert(self@[k].id == id);
            }
        }
    }

    proof fn lemma_removal_keeps_tracking(&self, before: Seq<PendingView>, k: int, s: Seq<PendingView>, id: Seq<char>, now: u64)
        requires
            0 <= k < before.len(),
            self@ == before.remove(k),
            before[k].id != id,
            forall|i: int| 0 <= i < before.len() ==> s.contains(#[trigger] before[i]) && is_fresh(now, before[i]),
            (has_id(before, id) <==> prior_entry(s, id, now) is Some),
            has_id(before, id) ==> entry_for(before, id) == prior_entry(s, id, now).unwrap(),
            forall|i: int, j: int| 0 <= i < j < before.len() ==> (#[trigger] before[i]).id != (#[trigger] before[j]).id,
        ensures
            self.tracks(s, id, now),
    {
        assert forall|i: int| 0 <= i < self@.len() implies s.contains(#[trigger] self@[i]) && is_fresh(now, self@[i]) by {
            if i < k {
                assert(self@[i] == before[i]);
            } else {
                assert(self@[i] == before[i + 1]);
            }
        }
        if has_id(before, id) {
            let c = choose|c: int| 0 <= c < before.len() && (#[trigger] before[c]).id == id;
            assert(c != k);
            let c2 = if c < k { c } else { c - 1 };
            assert(self@[c2] == before[c]);
            assert(has_id(self@, id));
            let d = choose|d: int| 0 <= d < self@.len() && (#[trigger] self@[d]).id == id;
            let d2 = if d < k { d } else { d + 1 };
            assert(self@[d] == before[d2]);
            assert(d2 == c) by {
                if d2 < c {
                    assert(before[d2].id != before[c].id);
                } else if d2 > c {
                    assert(before[c].id != before[d2].id);
                }
            }
        } else {
            if has_id(self@, id) {
                let d = choose|d: int| 0 <= d < self@.len() && (#[trigger] self@[d]).id == id;
                let d2 = if d < k { d } else { d + 1 };
                assert(self@[d] == before[d2]);
                assert(has_id(before, id));
            }
        }
    }

    proof fn lemma_own_size_le_total(&self, s: Seq<PendingView>, id: Seq<char>, now: u64)
        requires
            self.wf(),
            self.tracks(s, id, now),
        ensures
            prior_entry(s, id, now) matches Some(p) ==> p.size <= total_pending_bytes(self@),
    {
        if has_id(self@, id) {
            let c = choose|c: int| 0 <= c < self@.len() && (#[trigger] self@[c]).id == id;
            lemma_total_single_le(self@, c);
        }
    }

    proof fn lemma_only_own_left(&self, s: Seq<PendingView>, id: Seq<char>, now: u64)
        requires
            self.wf(),
            self.tracks(s, id, now),
            forall|j: int| 0 <= j < self@.len() ==> (#[trigger] self@[j]).id == id,
        ensures
            total_pending_bytes(self@) == match prior_entry(s, id, now) {
                Some(p) => p.size as int,
                None => 0int,
            },
    {
        if self@.len() == 0 {
        } else if self@.len() == 1 {
            assert(self@.drop_last() =~= Seq::<PendingView>::empty());
            assert(total_pending_bytes(self@.drop_last()) == 0);
            assert(total_pending_bytes(self@) == self@[0].size);
            assert(self@[0].id == id);
            assert(has_id(self@, id));
            let c = choose|c: int| 0 <= c < self@.len() && (#[trigger] self@[c]).id == id;
            assert(c == 0);
            assert(entry_for(self@, id) == self@[0]);
        } else {
            assert(self@[0].id != self@[1].id);
        }
    }

    proof fn lemma_removed_own(&self, before: Seq<PendingView>, k: int, id: Seq<char>)
        requires
            0 <= k < before.len(),
            self@ == before.remove(k),
            before[k].id == id,
            forall|i: int, j: int| 0 <= i < j < before.len() ==> (#[trigger] before[i]).id != (#[trigger] before[j]).id,
        ensures
            !has_id(self@, id),
            forall|i: int| 0 <= i < self@.len() ==> before.contains(#[trigger] self@[i]),
    {
        if has_id(self@, id) {
            let d = choose|d: int| 0 <= d < self@.len() && (#[trigger] self@[d]).id == id;
            let d2 = if d < k { d } else { d + 1 };
            assert(self@[d] == before[d2]);
            if d2 < k {
                assert(before[d2].id != before[k].id);
            } else {
                assert(before[k].id != before[d2].id);
            }
        }
        assert forall|i: int| 0 <= i < self@.len() implies before.contains(#[trigger] self@[i]) by {
            if i < k {
                assert(self@[i] == before[i]);
            } else {
                assert(self@[i] == before[i + 1]);
            }
        }
    }

    proof fn lemma_push_keeps_wf(&self, before: Seq<PendingView>, ev: PendingView)
        requires
            self@ == before.push(ev),
            self@.len() <= MAX_PENDING_MESSAGES,
            pending_wf(ev),
            !has_id(before, ev.id),
            forall|i: int| 0 <= i < before.len() ==> pending_wf(#[trigger] before[i]),
            forall|i: int, j: int| 0 <= i < j < before.len() ==> (#[trigger] before[i]).id != (#[trigger] before[j]).id,
            total_pending_bytes(self@) <= MAX_PENDING_MESSAGE_BYTES,
            forall|i: int| 0 <= i < self.pending_messages@.len() ==> {
                let m = #[trigger] self.pending_messages@[i];
                m.received_count == present_count(m@.chunks)
            },
        ensures
            self.wf(),
    {
        assert forall|i: int| 0 <= i < self@.len() implies pending_wf(#[trigger] self@[i]) by {
            if i < before.len() {
                assert(self@[i] == before[i]);
            }
        }
        assert forall|i: int, j: int| 0 <= i < j < self@.len() implies (#[trigger] self@[i]).id != (#[trigger] self@[j]).id by {
            assert(self@[i] == before[i]);
            if j < before.len() {
                assert(self@[j] == before[j]);
            } else {
                assert(self@[j] == ev);
            }
        }
    }

    proof fn lemma_pushed_own(&self, before: Seq<PendingView>, id: Seq<char>)
        requires
            self@.len() == before.len() + 1,
            self@.drop_last() == before,
            self@.last().id == id,
            !has_id(before, id),
        ensures
            has_id(self@, id),
            entry_for(self@, id) == self@.last(),
            forall|i: int| 0 <= i < self@.len() - 1 ==> (#[trigger] self@[i]) == before[i],
    {
        let n = self@.len() - 1;
        assert(self@[n].id == id);
        let c = choose|c: int| 0 <= c < self@.len() && (#[trigger] self@[c]).id == id;
        if c < n {
            assert(before[c] == self@[c]);
        }
        assert forall|i: int| 0 <= i < self@.len() - 1 implies (#[trigger] self@[i]) == before[i] by {
            assert(self@.drop_last()[i] == self@[i]);
        }
    }
}

/// The first `k` pieces of `data` in their slots, of `n` slots.
pub open spec fn first_pieces(data: Seq<u8>, n: nat, k: nat) -> Seq<Option<Seq<u8>>> {
    Seq::new(n, |j: int| if j < k { Some(piece(data, j)) } else { None })
}

proof fn lemma_first_pieces(data: Seq<u8>, n: nat, k: nat)
    ensures
        present_count(first_pieces(data, n, k)) == if k < n { k } else { n },
        present_bytes(first_pieces(data, n, k)) == concat_pieces(data, if k < n { k } else { n }).len(),
        joined_chunks(first_pieces(data, n, k)) == concat_pieces(data, if k < n { k } else { n }),
    decreases n,
{
    if n > 0 {
        let m: nat = (n - 1) as nat;
        let km: nat = if k < m { k } else { m };
        assert(first_pieces(data, n, k).drop_last() =~= first_pieces(data, m, km));
        lemma_first_pieces(data, m, km);
    }
}

proof fn lemma_pieces_not_empty(data: Seq<u8>, j: int)
    requires
        0 <= j < piece_count(data.len()),
    ensures
        piece(data, j).len() > 0,
{
    let len = data.len();
    assert(j * 2000 < len) by (nonlinear_arith)
        requires
            len > 0,
            0 <= j < (len + 1999) / 2000,
    ;
}

proof fn lemma_room_for_nothing_held(id: Seq<char>, idx: u16, total: u16, len: nat, now: u64)
    requires
        len <= MAX_PENDING_MESSAGE_BYTES,
        idx < total,
    ensures
        without_id(room_made(Seq::<PendingView>::empty(), id, idx, total, len, now).0, id) == Seq::<PendingView>::empty(),
{
    let e = Seq::<PendingView>::empty();
    assert(fresh_entries(e, now) == e);
    assert(!has_id(e, id));
    assert(count_room(e, id, now) == e);
    assert(total_pending_bytes(e) == 0);
    assert(stored_len(base_chunks(e, id, total, now), idx as int) == 0);
    assert(room_made(e, id, idx, total, len, now).0 == e);
}

proof fn lemma_room_for_own_entry(p: PendingView, id: Seq<char>, idx: u16, total: u16, len: nat, now: u64)
    requires
        p.id == id,
        is_fresh(now, p),
        len + p.size - stored_len(p.chunks, idx as int) <= MAX_PENDING_MESSAGE_BYTES,
    ensures
        without_id(room_made(seq![p], id, idx, total, len, now).0, id) == Seq::<PendingView>::empty(),
{
    let one = seq![p];
    assert(one.drop_last() =~= Seq::<PendingView>::empty());
    assert(fresh_entries(one.drop_last(), now) == Seq::<PendingView>::empty());
    assert(fresh_entries(one, now) =~= one);
    assert(one[0].id == id);
    assert(has_id(one, id));
    assert(count_room(one, id, now) == one);
    assert(total_pending_bytes(one.drop_last()) == 0);
    assert(total_pending_bytes(one) == p.size);
    let c = id_index(one, id);
    assert(c == 0);
    assert(entry_for(one, id) == p);
    assert(prior_entry(one, id, now) == Some(p));
    assert(base_chunks(one, id, total, now) == p.chunks);
    assert(room_made(one, id, idx, total, len, now).0 == one);
    assert(one.remove(0) =~= Seq::<PendingView>::empty());
}

proof fn lemma_reassemble_prefix(
    data: Seq<u8>,
    id: Seq<char>,
    now: u64,
    states: Seq<Seq<PendingView>>,
    results: Seq<AdmissionView>,
    k: nat,
)
    requires
        2 <= piece_count(data.len()),
        data.len() <= MAX_REASSEMBLED_MESSAGE,
        states.len() == piece_count(data.len()) + 1,
        results.len() == piece_count(data.len()),
        prior_entry(states[0], id, now) is None,
        forall|j: int|
            0 <= j < results.len() ==> #[trigger] chunk_taken(
                states[j],
                id,
                j as u16,
                piece_count(data.len()) as u16,
                crc32_of(piece(data, j)),
                piece(data, j),
                now,
                states[j + 1],
                results[j],
            ),
        k < piece_count(data.len()),
    ensures
        forall|j: int| 0 <= j < k ==> results[j] == AdmissionView::Stored,
        k == 0 ==> prior_entry(states[k as int], id, now) is None,
        k > 0 ==> prior_entry(states[k as int], id, now) == Some(
            PendingView {
                id,
                total: piece_count(data.len()) as u16,
                chunks: first_pieces(data, piece_count(data.len()), k),
                size: concat_pieces(data, k).len(),
                updated_at: now,
            },
        ),
        states[0].len() == 0 && k == 0 ==> states[k as int] == Seq::<PendingView>::empty(),
        states[0].len() == 0 && k > 0 ==> states[k as int] == seq![
            PendingView {
                id,
                total: piece_count(data.len()) as u16,
                chunks: first_pieces(data, piece_count(data.len()), k),
                size: concat_pieces(data, k).len(),
                updated_at: now,
            },
        ],
    decreases k,
{
    let n = piece_count(data.len());
    assert(n <= 263) by (nonlinear_arith)
        requires
            n == (data.len() + 1999) / 2000,
            data.len() <= 524288,
    ;
    if k > 0 {
        let j: nat = (k - 1) as nat;
        lemma_reassemble_prefix(data, id, now, states, results, j);
        let s = states[j as int];
        let p = piece(data, j as int);
        assert(chunk_taken(states[j as int], id, j as u16, n as u16, crc32_of(p), p, now, states[k as int], results[j as int]));
        lemma_first_pieces(data, n, j);
        lemma_first_pieces(data, n, k);
        lemma_concat_pieces_prefix(data, k);
        let base = base_chunks(s, id, n as u16, now);
        assert(base =~= first_pieces(data, n, j));
        assert(stored_len(base, j as int) == 0);
        let chunks = updated_chunks(s, id, n as u16, j as u16, p, now);
        assert(chunks =~= first_pieces(data, n, k));
        assert(concat_pieces(data, k) == concat_pieces(data, j) + p);
        let size = next_size(s, id, n as u16, j as u16, p.len(), now);
        assert(size == concat_pieces(data, k).len());
        assert(!total_mismatch(s, id, n as u16, now));
        assert(present_count(chunks) == k);
        let s2 = states[k as int];
        assert(has_id(s2, id));
        assert(is_fresh(now, entry_for(s2, id)));
        if states[0].len() == 0 {
            lemma_concat_pieces_prefix(data, j);
            assert(p.len() <= 2000);
            if j == 0 {
                lemma_room_for_nothing_held(id, j as u16, n as u16, p.len(), now);
            } else {
                let e = prior_entry(s, id, now).unwrap();
                assert(s == seq![e]);
                assert(concat_pieces(data, k).len() <= data.len());
                lemma_room_for_own_entry(e, id, j as u16, n as u16, p.len(), now);
            }
            assert(s2 =~= seq![PendingView { id, total: n as u16, chunks, size: size as nat, updated_at: now }]);
        }
    }
}

/// Chunk reassembly gives back the message: its chunks delivered in order
/// at one moment, to a store that holds no live entry for its id, are each
/// stored until the last, which releases the whole message; a store that
/// held nothing holds nothing afterwards.
pub proof fn lemma_in_order_chunks_reassemble(
    data: Seq<u8>,
    id: Seq<char>,
    now: u64,
    states: Seq<Seq<PendingView>>,
    results: Seq<AdmissionView>,
)
    requires
        2 <= piece_count(data.len()),
        data.len() <= MAX_REASSEMBLED_MESSAGE,
        states.len() == piece_count(data.len()) + 1,
        results.len() == piece_count(data.len()),
        prior_entry(states[0], id, now) is None,
        forall|j: int|
            0 <= j < results.len() ==> #[trigger] chunk_taken(
                states[j],
                id,
                j as u16,
                piece_count(data.len()) as u16,
                crc32_of(piece(data, j)),
                piece(data, j),
                now,
                states[j + 1],
                results[j],
            ),
    ensures
        forall|j: int| 0 <= j < results.len() - 1 ==> results[j] == AdmissionView::Stored,
        results.last() == AdmissionView::Complete(data),
        states[0].len() == 0 ==> states.last().len() == 0,
{
    let n = piece_count(data.len());
    let last: nat = (n - 1) as nat;
    lemma_reassemble_prefix(data, id, now, states, results, last);
    assert(n <= 263) by (nonlinear_arith)
        requires
            n == (data.len() + 1999) / 2000,
            data.len() <= 524288,
    ;
    let s = states[last as int];
    let p = piece(data, last as int);
    assert(chunk_taken(s, id, last as u16, n as u16, crc32_of(p), p, now, states[n as int], results[last as int]));
    lemma_first_pieces(data, n, last);
    lemma_first_pieces(data, n, n);
    lemma_concat_pieces_prefix(data, n);
    lemma_pieces_rebuild_data(data);
    let base = base_chunks(s, id, n as u16, now);
    assert(base =~= first_pieces(data, n, last));
    assert(stored_len(base, last as int) == 0);
    let chunks = updated_chunks(s, id, n as u16, last as u16, p, now);
    assert(chunks =~= first_pieces(data, n, n));
    assert(concat_pieces(data, n) == concat_pieces(data, last) + p);
    assert(!total_mismatch(s, id, n as u16, now));
    assert(!has_empty_chunk(chunks)) by {
        assert forall|j: int| 0 <= j < chunks.len() implies chunks[j] != Some(Seq::<u8>::empty()) by {
            lemma_pieces_not_empty(data, j);
        }
    }
    if states[0].len() == 0 {
        let e = prior_entry(s, id, now).unwrap();
        assert(s == seq![e]);
        lemma_concat_pieces_prefix(data, last);
        assert(concat_pieces(data, n).len() <= data.len());
        lemma_room_for_own_entry(e, id, last as u16, n as u16, p.len(), now);
        assert(states.last() == states[n as int]);
    }
}

/// The envelopes that frame `data` under `id`, as they read back.
pub open spec fn chunk_envelopes(data: Seq<u8>, id: Seq<u8>) -> Seq<EnvelopeView> {
    Seq::new(
        piece_count(data.len()),
        |i: int|
            EnvelopeView::Complete {
                message_id: ascii_chars(id),
                index: i as u16,
                total: piece_count(data.len()) as u16,
                checksum: crc32_of(piece(data, i)),
                payload: piece(data, i),
                consumed: spec_chunks(data, id)[i].len() as int,
            },
    )
}

proof fn lemma_envelope_prefix(e: Seq<u8>, rest: Seq<u8>)
    requires
        spec_chunk_envelope(e) matches EnvelopeView::Complete { consumed, .. } && consumed == e.len(),
    ensures
        spec_chunk_envelope(e + rest) == spec_chunk_envelope(e),
{
    let d = e + rest;
    assert(d.subrange(1, 37) =~= e.subrange(1, 37));
    assert forall|i: int| 0 <= i < e.len() implies d[i] == e[i] by {}
    if let EnvelopeView::Complete { payload, consumed, .. } = spec_chunk_envelope(e) {
        assert(d.subrange(47, consumed) =~= e.subrange(47, consumed));
    }
}

proof fn lemma_frames_of_chunks(data: Seq<u8>, id: Seq<u8>, k: nat)
    requires
        is_uuid_text(id),
        piece_count(data.len()) <= 1000,
        k <= piece_count(data.len()),
    ensures
        spec_frames(spec_chunks(data, id).skip(k as int).flatten()) == (
            chunk_envelopes(data, id).skip(k as int),
            FrameEnd::Drained,
        ),
    decreases piece_count(data.len()) - k,
{
    let n = piece_count(data.len());
    let cs = spec_chunks(data, id);
    let tail = cs.skip(k as int);
    if k == n {
        assert(tail =~= Seq::<Seq<u8>>::empty());
        assert(chunk_envelopes(data, id).skip(k as int) =~= Seq::<EnvelopeView>::empty());
    } else {
        lemma_frames_of_chunks(data, id, k + 1);
        assert(tail.drop_first() =~= cs.skip(k as int + 1));
        let chunk = cs[k as int];
        let rest = cs.skip(k as int + 1).flatten();
        assert(tail.flatten() == chunk + rest);
        lemma_chunk_envelope_round_trip(data, id, k as int);
        lemma_envelope_prefix(chunk, rest);
        let buf = chunk + rest;
        assert(buf[0] == chunk[0]);
        assert(chunk[0] == 36);
        assert(buf.subrange(chunk.len() as int, buf.len() as int) =~= rest);
        assert(chunk_envelopes(data, id).skip(k as int) =~= seq![chunk_envelopes(data, id)[k as int]]
            + chunk_envelopes(data, id).skip(k as int + 1));
    }
}

proof fn lemma_released_stored(results: Seq<AdmissionView>)
    requires
        forall|j: int| 0 <= j < results.len() ==> results[j] == AdmissionView::Stored,
    ensures
        released(results) == Seq::<Seq<u8>>::empty(),
    decreases results.len(),
{
    if results.len() > 0 {
        lemma_released_stored(results.drop_last());
    }
}

/// Framing and reassembly are inverse: the envelopes that frame a message
/// (of at least one byte, within the reassembly cap) under a UUID id, read
/// from one buffer and taken in at one moment by a store that holds no live
/// entry for that id, release exactly that message, and every byte of the
/// buffer is used; a store that held nothing holds nothing afterwards.
pub proof fn lemma_framed_message_reassembles(
    data: Seq<u8>,
    id: Seq<u8>,
    now: u64,
    states: Seq<Seq<PendingView>>,
    results: Seq<AdmissionView>,
)
    requires
        is_uuid_text(id),
        0 < data.len() <= MAX_REASSEMBLED_MESSAGE,
        prior_entry(states[0], ascii_chars(id), now) is None,
        envelopes_taken(spec_frames(spec_chunks(data, id).flatten()).0, now, states, results),
    ensures
        spec_frames(spec_chunks(data, id).flatten()).1 == FrameEnd::Drained,
        released(results) == seq![data],
        states[0].len() == 0 ==> states.last().len() == 0,
{
    let n = piece_count(data.len());
    assert(1 <= n <= 263) by (nonlinear_arith)
        requires
            n == (data.len() + 1999) / 2000,
            0 < data.len() <= 524288,
    ;
    lemma_frames_of_chunks(data, id, 0);
    assert(spec_chunks(data, id).skip(0) =~= spec_chunks(data, id));
    let envs = chunk_envelopes(data, id);
    assert(envs.skip(0) =~= envs);
    assert forall|j: int| 0 <= j < results.len() implies #[trigger] chunk_taken(
        states[j],
        ascii_chars(id),
        j as u16,
        n as u16,
        crc32_of(piece(data, j)),
        piece(data, j),
        now,
        states[j + 1],
        results[j],
    ) by {
        assert(envs[j] == EnvelopeView::Complete {
            message_id: ascii_chars(id),
            index: j as u16,
            total: n as u16,
            checksum: crc32_of(piece(data, j)),
            payload: piece(data, j),
            consumed: spec_chunks(data, id)[j].len() as int,
        });
    }
    if n == 1 {
        assert(piece(data, 0) =~= data);
        assert(chunk_taken(states[0], ascii_chars(id), 0, 1, crc32_of(piece(data, 0)), piece(data, 0), now, states[1], results[0]));
        assert(piece(data, 0).len() <= MAX_REASSEMBLED_MESSAGE);
        assert(results[0] == AdmissionView::Complete(data));
        assert(results.len() == 1);
        assert(results.drop_last() =~= Seq::<AdmissionView>::empty());
        assert(released(results.drop_last()) =~= Seq::<Seq<u8>>::empty());
        assert(released(results) =~= seq![data]);
        assert(states.last() == states[1]);
    } else {
        lemma_in_order_chunks_reassemble(data, ascii_chars(id), now, states, results);
        lemma_released_stored(results.drop_last());
        assert(released(results) =~= seq![data]);
    }
}

/// Cap on the bytes buffered for one session before a frame completes.
pub const MAX_INBOUND_BUFFER: usize = 524288;

/// How the framing of a buffer ends.
pub enum FrameEnd {
    /// Every byte belonged to a complete envelope.
    Drained,
    /// The rest is a prefix of an envelope and waits for more bytes.
    Partial(Seq<u8>),
    /// The rest starts like an envelope but cannot be one; it is dropped.
    Garbage,
    /// The rest does not start like an envelope; it may be a whole
    /// MessagePack message and is handed over as such.
    Unframed(Seq<u8>),
}

/// The complete envelopes at the front of `buf`, in order, and how the
/// framing ends.
pub open spec fn spec_frames(buf: Seq<u8>) -> (Seq<EnvelopeView>, FrameEnd)
    decreases buf.len(),
{
    if buf.len() == 0 {
        (Seq::empty(), FrameEnd::Drained)
    } else if buf[0] != 36 {
        (Seq::empty(), FrameEnd::Unframed(buf))
    } else {
        match spec_chunk_envelope(buf) {
            EnvelopeView::NeedMore => (Seq::empty(), FrameEnd::Partial(buf)),
            EnvelopeView::Invalid => (Seq::empty(), FrameEnd::Garbage),
            EnvelopeView::Complete { message_id, index, total, checksum, payload, consumed } => {
                if 0 < consumed <= buf.len() {
                    let rest = spec_frames(buf.subrange(consumed, buf.len() as int));
                    (seq![spec_chunk_envelope(buf)] + rest.0, rest.1)
                } else {
                    (Seq::empty(), FrameEnd::Garbage)
                }
            },
        }
    }
}

/// The session buffer once `new_data` arrives: the old bytes are dropped
/// when keeping them would pass the cap.
pub open spec fn grown_buffer(old_buf: Seq<u8>, new_data: Seq<u8>) -> Seq<u8> {
    if old_buf.len() + new_data.len() > MAX_INBOUND_BUFFER {
        new_data
    } else {
        old_buf + new_data
    }
}

/// The (message id, index) pairs whose retransmission `envs` ask for.
pub open spec fn retransmit_requests(envs: Seq<EnvelopeView>) -> Seq<(Seq<char>, u16)>
    decreases envs.len(),
{
    if envs.len() == 0 {
        Seq::empty()
    } else {
        let head = retransmit_requests(envs.drop_last());
        match envs.last() {
            EnvelopeView::Complete { message_id, index, payload, checksum, .. } =>
                if crc32_of(payload) != checksum { head.push((message_id, index)) } else { head },
            _ => head,
        }
    }
}

/// The messages released by a run of admissions, in order.
pub open spec fn released(results: Seq<AdmissionView>) -> Seq<Seq<u8>>
    decreases results.len(),
{
    if results.len() == 0 {
        Seq::empty()
    } else {
        let head = released(results.drop_last());
        match results.last() {
            AdmissionView::Complete(b) => head.push(b),
            _ => head,
        }
    }
}

/// The envelopes `envs` taken in one after another at `now`: the stored
/// messages go from `states[0]` through each envelope's admission to
/// `states[envs.len()]`, with admissions `results`.
pub open spec fn envelopes_taken(
    envs: Seq<EnvelopeView>,
    now: u64,
    states: Seq<Seq<PendingView>>,
    results: Seq<AdmissionView>,
) -> bool {
    &&& states.len() == envs.len() + 1
    &&& results.len() == envs.len()
    &&& forall|j: int|
        0 <= j < envs.len() ==> match #[trigger] envs[j] {
            EnvelopeView::Complete { message_id, index, total, checksum, payload, .. } => chunk_taken(
                states[j],
                message_id,
                index,
                total,
                checksum,
                payload,
                now,
                states[j + 1],
                results[j],
            ),
            _ => true,
        }
}

/// The bytes of each message.
pub open spec fn message_views(messages: Seq<Vec<u8>>) -> Seq<Seq<u8>> {
    messages.map_values(|m: Vec<u8>| m@)
}

/// What one batch of inbound bytes produced.
pub struct InboundOutcome {
    /// Messages completed by the chunks in this batch, in completion order.
    pub completed: Vec<Vec<u8>>,
    /// Chunks whose checksum failed, as (message id, chunk index).
    pub retransmit: Vec<(String, u16)>,
    /// Bytes that did not start like an envelope; whether they are a whole
    /// MessagePack message is for the caller to decide.
    pub unframed: Option<Vec<u8>>,
}

pub open spec fn retransmit_view(r: Seq<(String, u16)>) -> Seq<(Seq<char>, u16)> {
    r.map_values(|p: (String, u16)| (p.0@, p.1))
}

/// Appends `new_data` to a session buffer and takes in every complete
/// envelope at its front, in order, through `reassembler`.
pub fn process_inbound(
    reassembler: &mut ChunkReassembler,
    buffer: &mut Vec<u8>,
    new_data: &[u8],
    now_ms: u64,
) -> (out: InboundOutcome)
    requires
        old(reassembler).wf(),
    ensures
        final(reassembler).wf(),
        ({
            let frames = spec_frames(grown_buffer(old(buffer)@, new_data@));
            &&& retransmit_view(out.retransmit@) == retransmit_requests(frames.0)
            &&& exists|states: Seq<Seq<PendingView>>, results: Seq<AdmissionView>|
                #[trigger] envelopes_taken(frames.0, now_ms, states, results) && states[0] == old(reassembler)@
                    && states.last() == final(reassembler)@ && message_views(out.completed@) == released(results)
            &&& match frames.1 {
                FrameEnd::Drained => final(buffer)@.len() == 0 && out.unframed is None,
                FrameEnd::Partial(rest) => final(buffer)@ == rest && out.unframed is None,
                FrameEnd::Garbage => final(buffer)@.len() == 0 && out.unframed is None,
                FrameEnd::Unframed(rest) => final(buffer)@.len() == 0
                    && (out.unframed matches Some(u) && u@ == rest),
            }
        }),
{
    if buffer.len() > MAX_INBOUND_BUFFER || new_data.len() > MAX_INBOUND_BUFFER - buffer.len() {
        buffer.clear();
    }
    extend_bytes(buffer, new_data);
    let ghost start = buffer@;
    assert(start == grown_buffer(old(buffer)@, new_data@));
    let mut completed: Vec<Vec<u8>> = Vec::new();
    let mut retransmit: Vec<(String, u16)> = Vec::new();
    let ghost mut seen: Seq<EnvelopeView> = Seq::empty();
    let ghost mut states: Seq<Seq<PendingView>> = seq![reassembler@];
    let ghost mut results: Seq<AdmissionView> = Seq::empty();
    assert(message_views(completed@) =~= released(results));
    loop
        invariant
            reassembler.wf(),
            envelopes_taken(seen, now_ms, states, results),
            states[0] == old(reassembler)@,
            states.last() == reassembler@,
            message_views(completed@) == released(results),
            start == grown_buffer(old(buffer)@, new_data@),
            spec_frames(start).0 == seen + spec_frames(buffer@).0,
            spec_frames(start).1 == spec_frames(buffer@).1,
            retransmit_view(retransmit@) == retransmit_requests(seen),
        decreases buffer@.len(),
    {
        if buffer.len() == 0 {
            assert(seen + spec_frames(buffer@).0 =~= seen);
            return InboundOutcome { completed, retransmit, unframed: None };
        }
        if buffer[0] != 36 {
            let rest = copy_range(buffer.as_slice(), 0, buffer.len());
            assert(rest@ =~= buffer@);
            assert(seen + spec_frames(buffer@).0 =~= seen);
            buffer.clear();
            return InboundOutcome { completed, retransmit, unframed: Some(rest) };
        }
        match parse_one_chunk_envelope(buffer.as_slice()) {
            ChunkEnvelopeParse::NeedMore => {
                assert(seen + spec_frames(buffer@).0 =~= seen);
                return InboundOutcome { completed, retransmit, unframed: None };
            },
            ChunkEnvelopeParse::Invalid => {
                assert(seen + spec_frames(buffer@).0 =~= seen);
                buffer.clear();
                return InboundOutcome { completed, retransmit, unframed: None };
            },
            ChunkEnvelopeParse::Complete { message_id, index, total, checksum, payload, consumed } => {
                let ghost env = spec_chunk_envelope(buffer@);
                let ghost before = buffer@;
                let remaining = copy_range(buffer.as_slice(), consumed, buffer.len());
                *buffer = remaining;
                assert(spec_frames(before).0 =~= seq![env] + spec_frames(buffer@).0);
                let ghost payload_view = payload@;
                let ghost message_view = message_id@;
                let admission = reassembler.add_chunk(message_id.as_str(), index, total, checksum, payload, now_ms);
                let ghost a = admission.admission_view();
                let ghost before_completed = completed@;
                match admission {
                    ChunkAdmission::Complete(message) => {
                        completed.push(message);
                    },
                    ChunkAdmission::RetransmitRequested => {
                        retransmit.push((message_id, index));
                    },
                    _ => {},
                }
                proof {
                    let seen2 = seen.push(env);
                    assert(seen2.drop_last() =~= seen);
                    assert(seen + (seq![env] + spec_frames(buffer@).0) =~= seen2 + spec_frames(buffer@).0);
                    let states2 = states.push(reassembler@);
                    let results2 = results.push(a);
                    assert(results2.drop_last() =~= results);
                    assert forall|j: int| 0 <= j < seen2.len() implies match #[trigger] seen2[j] {
                        EnvelopeView::Complete { message_id, index, total, checksum, payload, .. } => chunk_taken(
                            states2[j],
                            message_id,
                            index,
                            total,
                            checksum,
                            payload,
                            now_ms,
                            states2[j + 1],
                            results2[j],
                        ),
                        _ => true,
                    } by {
                        if j < seen.len() {
                            assert(seen2[j] == seen[j]);
                            assert(states2[j] == states[j]);
                            assert(states2[j + 1] == states[j + 1]);
                        }
                    }
                    assert(message_views(completed@) =~= released(results2));
                    seen = seen2;
                    states = states2;
                    results = results2;
                }
                assert(retransmit_view(retransmit@) =~= retransmit_requests(seen));
            },
        }
    }
}

} // verus!
