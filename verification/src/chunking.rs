//! Framing of companion-app messages into checksummed chunk envelopes, the
//! envelope parser, and the reassembly of chunked messages.
//!
//! Envelope layout: `[1 byte id_len][id_len bytes message id][2 bytes index BE]
//! [2 bytes total BE][4 bytes CRC32 BE][2 bytes payload_len BE][payload]`.
use vstd::prelude::*;
use vstd::string::*;
use vstd::utf8::*;
use crate::text::str_from_utf8;
use crate::bytes_util::{
    be16_bytes, be16_value, be32_bytes, be32_value, copy_range, extend_bytes, push_be16, push_be32,
    read_be16, read_be32,
};

verus! {

/// Maximum payload bytes carried by one outbound chunk.
pub const CHUNK_SIZE: usize = 2000;
/// Byte length of the textual UUID that identifies a chunked message.
pub const ENVELOPE_ID_LEN: usize = 36;
/// Bytes that precede the payload of an envelope.
pub const ENVELOPE_HEADER_LEN: usize = 47;
/// Largest chunk count an inbound envelope may announce.
pub const MAX_ENVELOPE_TOTAL: u16 = 1000;

/// What the parser concluded about the bytes at the front of a buffer.
pub enum ChunkEnvelopeParse {
    /// A whole envelope; `consumed` bytes belong to it.
    Complete {
        message_id: String,
        index: u16,
        total: u16,
        checksum: u32,
        payload: Vec<u8>,
        consumed: usize,
    },
    /// The buffer holds a prefix of an envelope.
    NeedMore,
    /// The buffer cannot start with a valid envelope.
    Invalid,
}

/// Mathematical meaning of a parse outcome.
pub enum EnvelopeView {
    Complete {
        message_id: Seq<char>,
        index: u16,
        total: u16,
        checksum: u32,
        payload: Seq<u8>,
        consumed: int,
    },
    NeedMore,
    Invalid,
}

impl View for ChunkEnvelopeParse {
    type V = EnvelopeView;

    open spec fn view(&self) -> EnvelopeView {
        match self {
            ChunkEnvelopeParse::Complete { message_id, index, total, checksum, payload, consumed } =>
                EnvelopeView::Complete {
                    message_id: message_id@,
                    index: *index,
                    total: *total,
                    checksum: *checksum,
                    payload: payload@,
                    consumed: *consumed as int,
                },
            ChunkEnvelopeParse::NeedMore => EnvelopeView::NeedMore,
            ChunkEnvelopeParse::Invalid => EnvelopeView::Invalid,
        }
    }
}

/// A message id is accepted when it has hyphens where a textual UUID has them.
pub open spec fn has_uuid_hyphens(id: Seq<char>) -> bool {
    &&& id.len() > 23
    &&& id[8] == '-'
    &&& id[13] == '-'
    &&& id[18] == '-'
    &&& id[23] == '-'
}

/// The outcome of reading one envelope from the front of `d`.
pub open spec fn spec_chunk_envelope(d: Seq<u8>) -> EnvelopeView {
    if d.len() == 0 {
        EnvelopeView::NeedMore
    } else if d[0] != 36 {
        EnvelopeView::Invalid
    } else if d.len() < 47 {
        EnvelopeView::NeedMore
    } else if !valid_utf8(d.subrange(1, 37)) {
        EnvelopeView::Invalid
    } else if !has_uuid_hyphens(decode_utf8(d.subrange(1, 37))) {
        EnvelopeView::Invalid
    } else {
        let index = be16_value(d[37], d[38]);
        let total = be16_value(d[39], d[40]);
        let checksum = be32_value(d[41], d[42], d[43], d[44]);
        let payload_len = be16_value(d[45], d[46]) as int;
        if total == 0 || index >= total || total > 1000 {
            EnvelopeView::Invalid
        } else if d.len() < 47 + payload_len {
            EnvelopeView::NeedMore
        } else {
            EnvelopeView::Complete {
                message_id: decode_utf8(d.subrange(1, 37)),
                index,
                total,
                checksum,
                payload: d.subrange(47, 47 + payload_len),
                consumed: 47 + payload_len,
            }
        }
    }
}

/// Reads one chunk envelope from the front of `data`.
pub fn parse_one_chunk_envelope(data: &[u8]) -> (res: ChunkEnvelopeParse)
    ensures
        res@ == spec_chunk_envelope(data@),
{
    if data.len() == 0 {
        return ChunkEnvelopeParse::NeedMore;
    }
    let id_len = data[0] as usize;
    if id_len != ENVELOPE_ID_LEN {
        return ChunkEnvelopeParse::Invalid;
    }
    if data.len() < ENVELOPE_HEADER_LEN {
        return ChunkEnvelopeParse::NeedMore;
    }
    let message_id = match str_from_utf8(&data[1..37]) {
        Some(text) => text,
        None => return ChunkEnvelopeParse::Invalid,
    };
    let n = message_id.unicode_len();
    if n <= 23 || message_id.get_char(8) != '-' || message_id.get_char(13) != '-'
        || message_id.get_char(18) != '-' || message_id.get_char(23) != '-'
    {
        return ChunkEnvelopeParse::Invalid;
    }
    let index = read_be16(data[37], data[38]);
    let total = read_be16(data[39], data[40]);
    let checksum = read_be32(data[41], data[42], data[43], data[44]);
    let payload_len = read_be16(data[45], data[46]) as usize;
    if total == 0 || index >= total || total > MAX_ENVELOPE_TOTAL {
        return ChunkEnvelopeParse::Invalid;
    }
    let total_needed = ENVELOPE_HEADER_LEN + payload_len;
    if data.len() < total_needed {
        return ChunkEnvelopeParse::NeedMore;
    }
    let payload = copy_range(data, ENVELOPE_HEADER_LEN, total_needed);
    ChunkEnvelopeParse::Complete {
        message_id: message_id.to_owned(),
        index,
        total,
        checksum,
        payload,
        consumed: total_needed,
    }
}


/// The CRC-32 (IEEE) checksum that `crc32fast::hash` computes over `bytes`.
pub uninterp spec fn crc32_of(bytes: Seq<u8>) -> u32;

/// `crc32fast::hash`: a pure function of the bytes, named by `crc32_of`.
#[verifier::external_body]
pub(crate) fn crc32_hash(bytes: &[u8]) -> (sum: u32)
    ensures
        sum == crc32_of(bytes@),
{
    crc32fast::hash(bytes)
}

/// Number of payload pieces `data.chunks(CHUNK_SIZE)` yields for `len` bytes.
pub open spec fn piece_count(len: nat) -> nat {
    if len == 0 {
        0
    } else {
        ((len + 1999) / 2000) as nat
    }
}

/// The chunk count announced in every envelope of a message of `len` bytes.
pub open spec fn announced_total(len: nat) -> nat {
    if len == 0 {
        1
    } else {
        piece_count(len)
    }
}

/// The `i`-th payload piece of `data`.
pub open spec fn piece(data: Seq<u8>, i: int) -> Seq<u8> {
    let end = if (i + 1) * 2000 < data.len() { (i + 1) * 2000 } else { data.len() as int };
    data.subrange(i * 2000, end)
}

/// The bytes of one envelope.
pub open spec fn envelope_bytes(id: Seq<u8>, index: u16, total: u16, checksum: u32, payload: Seq<u8>) -> Seq<u8> {
    seq![id.len() as u8] + id + be16_bytes(index) + be16_bytes(total) + be32_bytes(checksum)
        + be16_bytes(payload.len() as u16) + payload
}

/// The envelopes that frame `data` under the message id `id`.
pub open spec fn spec_chunks(data: Seq<u8>, id: Seq<u8>) -> Seq<Seq<u8>> {
    Seq::new(
        piece_count(data.len()),
        |i: int|
            envelope_bytes(
                id,
                i as u16,
                announced_total(data.len()) as u16,
                crc32_of(piece(data, i)),
                piece(data, i),
            ),
    )
}

/// Frames `data` into envelopes of at most `CHUNK_SIZE` payload bytes that all
/// carry `message_id`.
pub fn create_chunks_with_id(data: &[u8], message_id: &[u8]) -> (chunks: Vec<Vec<u8>>)
    ensures
        chunks@.len() == piece_count(data@.len()),
        forall|i: int| 0 <= i < chunks@.len() ==> #[trigger] chunks@[i]@ == spec_chunks(data@, message_id@)[i],
{
    let len = data.len();
    let total_chunks: usize = if len == 0 { 1 } else { (len - 1) / CHUNK_SIZE + 1 };
    assert(total_chunks == announced_total(len as nat));
    let count: usize = if len == 0 { 0 } else { (len - 1) / CHUNK_SIZE + 1 };
    assert(count == piece_count(len as nat));
    let mut chunks: Vec<Vec<u8>> = Vec::new();
    let mut idx: usize = 0;
    while idx < count
        invariant
            len == data@.len(),
            total_chunks == announced_total(len as nat),
            count == piece_count(len as nat),
            idx <= count,
            chunks@.len() == idx,
            forall|j: int| 0 <= j < idx ==> #[trigger] chunks@[j]@ == spec_chunks(data@, message_id@)[j],
        decreases count - idx,
    {
        let start = idx * CHUNK_SIZE;
        let end = if len - start < CHUNK_SIZE { len } else { start + CHUNK_SIZE };
        let payload = &data[start..end];
        assert(payload@ == piece(data@, idx as int));
        let checksum = crc32_hash(payload);
        let mut buffer: Vec<u8> = Vec::with_capacity(ENVELOPE_HEADER_LEN + payload.len());
        buffer.push(message_id.len() as u8);
        extend_bytes(&mut buffer, message_id);
        push_be16(&mut buffer, idx as u16);
        push_be16(&mut buffer, total_chunks as u16);
        push_be32(&mut buffer, checksum);
        push_be16(&mut buffer, payload.len() as u16);
        extend_bytes(&mut buffer, payload);
        assert(buffer@ =~= spec_chunks(data@, message_id@)[idx as int]);
        chunks.push(buffer);
        idx = idx + 1;
    }
    chunks
}


/// The shape of a hyphenated textual UUID: 36 ASCII bytes with hyphens at
/// offsets 8, 13, 18 and 23.
pub open spec fn is_uuid_text(id: Seq<u8>) -> bool {
    &&& id.len() == 36
    &&& forall|i: int| 0 <= i < 36 ==> #[trigger] id[i] < 128
    &&& id[8] == 45 && id[13] == 45 && id[18] == 45 && id[23] == 45
}

/// The characters that ASCII bytes stand for.
pub open spec fn ascii_chars(bytes: Seq<u8>) -> Seq<char> {
    Seq::new(bytes.len(), |i: int| bytes[i] as char)
}

/// ASCII bytes are valid UTF-8 and decode one character per byte.
pub proof fn lemma_ascii_utf8(bytes: Seq<u8>)
    requires
        forall|i: int| 0 <= i < bytes.len() ==> #[trigger] bytes[i] < 128,
    ensures
        valid_utf8(bytes),
        decode_utf8(bytes) == ascii_chars(bytes),
    decreases bytes.len(),
{
    if bytes.len() > 0 {
        let b0 = bytes[0];
        assert(b0 < 128);
        assert((b0 & 0x7f) == b0) by (bit_vector)
            requires
                b0 < 128,
        ;
        let rest = bytes.subrange(1, bytes.len() as int);
        assert(pop_first_scalar(bytes) == rest);
        assert forall|i: int| 0 <= i < rest.len() implies #[trigger] rest[i] < 128 by {
            assert(rest[i] == bytes[i + 1]);
        }
        lemma_ascii_utf8(rest);
        assert(decode_utf8(bytes) =~= ascii_chars(bytes));
    }
}

/// The `i`-th pieces of `data`, concatenated for `i` below `n`.
pub open spec fn concat_pieces(data: Seq<u8>, n: nat) -> Seq<u8>
    decreases n,
{
    if n == 0 {
        Seq::empty()
    } else {
        concat_pieces(data, (n - 1) as nat) + piece(data, n - 1)
    }
}

/// Joining the payload pieces in index order gives back the framed data.
pub proof fn lemma_pieces_rebuild_data(data: Seq<u8>)
    ensures
        concat_pieces(data, piece_count(data.len())) == data,
{
    lemma_concat_pieces_prefix(data, piece_count(data.len()));
    assert(data.subrange(0, data.len() as int) =~= data);
}

/// The first `n` pieces joined are the first `n * CHUNK_SIZE` bytes (or all
/// of them).
pub proof fn lemma_concat_pieces_prefix(data: Seq<u8>, n: nat)
    requires
        n <= piece_count(data.len()),
    ensures
        concat_pieces(data, n) == data.subrange(
            0,
            if n * 2000 < data.len() { (n * 2000) as int } else { data.len() as int },
        ),
    decreases n,
{
    if n > 0 {
        lemma_concat_pieces_prefix(data, (n - 1) as nat);
        assert(concat_pieces(data, n) =~= data.subrange(
            0,
            if n * 2000 < data.len() { (n * 2000) as int } else { data.len() as int },
        ));
    }
}

/// Every envelope produced for a message of at most 1000 pieces parses back
/// to its id, index, total, checksum and payload, consuming all its bytes.
pub proof fn lemma_chunk_envelope_round_trip(data: Seq<u8>, id: Seq<u8>, i: int)
    requires
        is_uuid_text(id),
        0 <= i < piece_count(data.len()),
        piece_count(data.len()) <= 1000,
    ensures
        spec_chunk_envelope(spec_chunks(data, id)[i]) == (EnvelopeView::Complete {
            message_id: ascii_chars(id),
            index: i as u16,
            total: piece_count(data.len()) as u16,
            checksum: crc32_of(piece(data, i)),
            payload: piece(data, i),
            consumed: spec_chunks(data, id)[i].len() as int,
        }),
{
    let env = spec_chunks(data, id)[i];
    let p = piece(data, i);
    let total = piece_count(data.len()) as u16;
    let crc = crc32_of(p);
    assert(p.len() <= 2000);
    assert(env.len() == 47 + p.len());
    assert(env.subrange(1, 37) =~= id);
    lemma_ascii_utf8(id);
    lemma_be16_round_trip(i as u16);
    lemma_be16_round_trip(total);
    lemma_be16_round_trip(p.len() as u16);
    lemma_be32_round_trip(crc);
    assert(env[37] == be16_bytes(i as u16)[0] && env[38] == be16_bytes(i as u16)[1]);
    assert(env[39] == be16_bytes(total)[0] && env[40] == be16_bytes(total)[1]);
    assert(env[41] == be32_bytes(crc)[0] && env[42] == be32_bytes(crc)[1]);
    assert(env[43] == be32_bytes(crc)[2] && env[44] == be32_bytes(crc)[3]);
    assert(env[45] == be16_bytes(p.len() as u16)[0] && env[46] == be16_bytes(p.len() as u16)[1]);
    assert(env.subrange(47, 47 + p.len() as int) =~= p);
}

/// An envelope is read only once all of it has arrived: every proper prefix
/// of a complete envelope (one that takes exactly its bytes) reads as
/// needing more.
pub proof fn lemma_envelope_prefix_needs_more(e: Seq<u8>, k: int)
    requires
        spec_chunk_envelope(e) matches EnvelopeView::Complete { consumed, .. } && consumed == e.len(),
        0 <= k < e.len(),
    ensures
        spec_chunk_envelope(e.subrange(0, k)) == EnvelopeView::NeedMore,
{
    let p = e.subrange(0, k);
    if k >= 47 {
        assert(p.subrange(1, 37) =~= e.subrange(1, 37));
        assert(p[0] == e[0]);
        assert(p[37] == e[37] && p[38] == e[38] && p[39] == e[39] && p[40] == e[40]);
        assert(p[45] == e[45] && p[46] == e[46]);
    } else if k > 0 {
        assert(p[0] == e[0]);
    }
}

/// Bytes that do not start with an envelope's id length are no envelope.
pub proof fn lemma_non_envelope_invalid(d: Seq<u8>)
    requires
        d.len() > 0,
        d[0] != 36,
    ensures
        spec_chunk_envelope(d) == EnvelopeView::Invalid,
{
}

/// Each envelope that frames a message reads back whole, and none of its
/// proper prefixes reads as anything but needing more.
pub proof fn lemma_chunk_prefixes_need_more(data: Seq<u8>, id: Seq<u8>, i: int, k: int)
    requires
        is_uuid_text(id),
        0 <= i < piece_count(data.len()),
        piece_count(data.len()) <= 1000,
        0 <= k < spec_chunks(data, id)[i].len(),
    ensures
        spec_chunk_envelope(spec_chunks(data, id)[i].subrange(0, k)) == EnvelopeView::NeedMore,
{
    lemma_chunk_envelope_round_trip(data, id, i);
    lemma_envelope_prefix_needs_more(spec_chunks(data, id)[i], k);
}

/// Big-endian bytes of a 16-bit value read back to the value.
pub proof fn lemma_be16_round_trip(x: u16)
    ensures
        be16_value(be16_bytes(x)[0], be16_bytes(x)[1]) == x,
{
    assert(x / 256 < 256);
    assert(((x / 256) as u8) as int == x / 256);
    assert(((x % 256) as u8) as int == x % 256);
}

/// Big-endian bytes of a 32-bit value read back to the value.
#[verifier::spinoff_prover]
#[verifier::rlimit(30)]
pub proof fn lemma_be32_round_trip(x: u32)
    ensures
        be32_value(be32_bytes(x)[0], be32_bytes(x)[1], be32_bytes(x)[2], be32_bytes(x)[3]) == x,
{
    assert(x / 0x100_0000 < 256);
    assert(((x / 0x100_0000) as u8) as int == x / 0x100_0000);
    assert((((x / 0x1_0000) % 256) as u8) as int == (x / 0x1_0000) % 256);
    assert((((x / 256) % 256) as u8) as int == (x / 256) % 256);
    assert(((x % 256) as u8) as int == x % 256);
}


/// `uuid::Uuid::new_v4().to_string()`. The value is random; uuid formats it
/// (its `Display` is the hyphenated lower-hex form) as 36 ASCII characters
/// with hyphens at offsets 8, 13, 18 and 23 and lower-case hexadecimal
/// digits elsewhere; the version digit (offset 14) is `4` and the variant
/// digit (offset 19) one of `8`, `9`, `a`, `b`. The other digits are left to
/// chance.
#[verifier::external_body]
pub(crate) fn random_uuid_text() -> (text: String)
    ensures
        text@.len() == 36,
        is_ascii_chars(text@),
        text@[8] == '-' && text@[13] == '-' && text@[18] == '-' && text@[23] == '-',
        forall|i: int|
            0 <= i < 36 && i != 8 && i != 13 && i != 18 && i != 23 ==> ('0' <= #[trigger] text@[i] <= '9'
                || 'a' <= text@[i] <= 'f'),
        text@[14] == '4',
        text@[19] == '8' || text@[19] == '9' || text@[19] == 'a' || text@[19] == 'b',
{
    uuid::Uuid::new_v4().to_string()
}

/// ASCII upper-casing of one byte.
pub open spec fn ascii_upper_byte(b: u8) -> u8 {
    if 97 <= b <= 122 {
        (b - 32) as u8
    } else {
        b
    }
}

/// Upper-cases the ASCII letters of `bytes`, leaving every other byte alone.
pub fn ascii_uppercase_bytes(bytes: &[u8]) -> (out: Vec<u8>)
    ensures
        out@ == Seq::new(bytes@.len(), |i: int| ascii_upper_byte(bytes@[i])),
{
    let mut out: Vec<u8> = Vec::with_capacity(bytes.len());
    let mut i: usize = 0;
    while i < bytes.len()
        invariant
            i <= bytes@.len(),
            out@ == Seq::new(i as nat, |j: int| ascii_upper_byte(bytes@[j])),
        decreases bytes@.len() - i,
    {
        let b = bytes[i];
        let up = if 97 <= b && b <= 122 { b - 32 } else { b };
        out.push(up);
        i = i + 1;
        assert(out@ =~= Seq::new(i as nat, |j: int| ascii_upper_byte(bytes@[j])));
    }
    out
}

/// The byte contents of a list of envelopes.
pub open spec fn chunk_views(chunks: Seq<Vec<u8>>) -> Seq<Seq<u8>> {
    chunks.map_values(|c: Vec<u8>| c@)
}

/// An upper-case hexadecimal digit, as an ASCII byte.
pub open spec fn is_upper_hex_byte(b: u8) -> bool {
    (48 <= b <= 57) || (65 <= b <= 70)
}

/// A hyphenated version-4 UUID (of the standard variant) in upper-case
/// hexadecimal.
pub open spec fn is_upper_uuid_text(id: Seq<u8>) -> bool {
    &&& is_uuid_text(id)
    &&& forall|i: int|
        0 <= i < 36 && i != 8 && i != 13 && i != 18 && i != 23 ==> is_upper_hex_byte(#[trigger] id[i])
    &&& id[14] == 52
    &&& (id[19] == 56 || id[19] == 57 || id[19] == 65 || id[19] == 66)
}

/// Frames `data` for the companion app under a fresh random message id: the
/// upper-cased text of a version-4 UUID.
pub fn create_chunks(data: &[u8]) -> (chunks: Vec<Vec<u8>>)
    ensures
        exists|id: Seq<u8>|
            is_upper_uuid_text(id) && chunk_views(chunks@) == #[trigger] spec_chunks(data@, id),
{
    let text = random_uuid_text();
    let text_bytes = text.as_str().as_bytes();
    proof {
        is_ascii_chars_encode_utf8(text@);
    }
    let id = ascii_uppercase_bytes(text_bytes);
    assert(is_uuid_text(id@)) by {
        assert forall|i: int| 0 <= i < 36 implies #[trigger] id@[i] < 128 by {
            assert(text_bytes@[i] == text@[i] as u8);
        }
        assert(text_bytes@[8] == 45u8);
        assert(text_bytes@[13] == 45u8);
        assert(text_bytes@[18] == 45u8);
        assert(text_bytes@[23] == 45u8);
    }
    assert(is_upper_uuid_text(id@)) by {
        assert forall|i: int| 0 <= i < 36 && i != 8 && i != 13 && i != 18 && i != 23 implies is_upper_hex_byte(
            #[trigger] id@[i],
        ) by {
            assert(text_bytes@[i] == text@[i] as u8);
            assert('0' <= text@[i] <= '9' || 'a' <= text@[i] <= 'f');
        }
        assert(text_bytes@[14] == text@[14] as u8);
        assert(text_bytes@[19] == text@[19] as u8);
    }
    let chunks = create_chunks_with_id(data, &id);
    assert(chunk_views(chunks@) =~= spec_chunks(data@, id@));
    chunks
}

} // verus!
