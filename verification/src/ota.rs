//! Pull-based OTA transfer over the companion link: how large a window the
//! daemon asks for, the order of the windows, and how a transfer response is
//! turned into bytes.
use vstd::prelude::*;
use vstd::string::*;
use crate::search::lemma_first_index_at;
use crate::base64_codec::{base64_decode, base64_standard_decoded};
use crate::events::{call_error_view, bool_field, field_bool, opt_chars, field_text, field_u64, string_field, u64_field};
use crate::json::{
    items_view, key_is, member, members_view, no_members, push_member, text_of, u64_of, Json, JsonNumber, JsonView,
    NumberView,
};

verus! {

/// Window size used when the phone cannot answer in binary chunks.
pub const OTA_LEGACY_PULL_SIZE: u32 = 1800;
/// Largest window the daemon ever asks for (256 KiB).
pub const OTA_MAX_PULL_WINDOW_SIZE: u32 = 262144;
/// Windows after which the puller pauses briefly.
pub const OTA_PULL_BURST_CHUNKS: u64 = 16;
/// Attempts made for one transfer window.
pub const OTA_TRANSFER_MAX_ATTEMPTS: u64 = 3;

/// What the phone announced about a downloaded OTA package.
pub struct OtaPackageReady {
    pub update_id: String,
    pub version: String,
    pub size: u32,
    pub expected_sha256: String,
    pub resume_from_offset: u32,
    pub max_transfer_chunk_size: Option<u32>,
    pub supports_chunked_transfer_response: Option<bool>,
    pub transfer_data_encoding: Option<String>,
}

/// The text `msgpack_binary`.
pub open spec fn msgpack_binary() -> Seq<char> {
    seq!['m', 's', 'g', 'p', 'a', 'c', 'k', '_', 'b', 'i', 'n', 'a', 'r', 'y']
}

/// Whether the phone can answer a transfer in binary chunks.
pub open spec fn answers_binary_chunks(ready: OtaPackageReady) -> bool {
    ready.supports_chunked_transfer_response == Some(true) && (ready.transfer_data_encoding matches Some(e)
        && e@ == msgpack_binary())
}

/// The window size to pull with: the legacy size unless the phone answers in
/// binary chunks, in which case its announced chunk size (when positive)
/// capped at 256 KiB.
pub open spec fn pull_window_for(ready: OtaPackageReady) -> u32 {
    if !answers_binary_chunks(ready) {
        OTA_LEGACY_PULL_SIZE
    } else {
        match ready.max_transfer_chunk_size {
            Some(s) => if s == 0 {
                OTA_LEGACY_PULL_SIZE
            } else if s > OTA_MAX_PULL_WINDOW_SIZE {
                OTA_MAX_PULL_WINDOW_SIZE
            } else {
                s
            },
            None => OTA_LEGACY_PULL_SIZE,
        }
    }
}

/// The window size to pull the package with.
pub fn advertised_ota_pull_window(ready: &OtaPackageReady) -> (w: u32)
    ensures
        w == pull_window_for(*ready),
{
    let binary = match &ready.transfer_data_encoding {
        Some(e) => crate::text::str_eq(e.as_str(), "msgpack_binary"),
        None => false,
    };
    proof {
        reveal_strlit("msgpack_binary");
        assert("msgpack_binary"@ =~= msgpack_binary());
    }
    let chunked = match ready.supports_chunked_transfer_response {
        Some(b) => b,
        None => false,
    };
    if !chunked || !binary {
        return OTA_LEGACY_PULL_SIZE;
    }
    match ready.max_transfer_chunk_size {
        Some(s) => if s == 0 {
            OTA_LEGACY_PULL_SIZE
        } else if s > OTA_MAX_PULL_WINDOW_SIZE {
            OTA_MAX_PULL_WINDOW_SIZE
        } else {
            s
        },
        None => OTA_LEGACY_PULL_SIZE,
    }
}

/// Why a package announcement was refused.
#[derive(Clone, Copy, Debug, PartialEq, Eq, Structural)]
pub enum OtaReadyError {
    /// The phone reported a download state other than `download_success`.
    NotReady,
    MissingUpdateId,
    MissingVersion,
    /// The target version is not one the device may install.
    UnsafeVersion,
    MissingSize,
    /// The announced transfer chunk size does not fit in 32 bits.
    ChunkSizeTooLarge,
    /// The package size does not fit in 32 bits.
    PackageTooLarge,
}

/// The package size: `size`, or else `expected_size` (either spelling).
pub open spec fn announced_size(p: JsonView) -> Option<u64> {
    match field_u64(p, "size"@, "size"@) {
        Some(s) => Some(s),
        None => field_u64(p, "expected_size"@, "expectedSize"@),
    }
}

/// The package digest: `expected_sha256`, else `sha256`, else `hash`, else
/// empty.
pub open spec fn announced_sha256(p: JsonView) -> Seq<char> {
    match field_text(p, "expected_sha256"@, "expectedSha256"@) {
        Some(h) => h,
        None => match field_text(p, "sha256"@, "sha256"@) {
            Some(h) => h,
            None => match field_text(p, "hash"@, "hash"@) {
                Some(h) => h,
                None => ""@,
            },
        },
    }
}

/// A character a target version may hold: an ASCII letter or digit, `.`,
/// `+`, `-` or `_`.
pub open spec fn is_version_char(c: char) -> bool {
    ('0' <= c <= '9') || ('a' <= c <= 'z') || ('A' <= c <= 'Z') || c == '.' || c == '+' || c == '-' || c == '_'
}

/// A version the device may be asked to install: non-empty, of version
/// characters only (so no white space or control characters).
pub open spec fn safe_target_version(v: Seq<char>) -> bool {
    v.len() > 0 && forall|i: int| 0 <= i < v.len() ==> is_version_char(#[trigger] v[i])
}

/// Whether `version` may be installed (see `safe_target_version`).
pub fn is_safe_target_version(version: &str) -> (safe: bool)
    ensures
        safe == safe_target_version(version@),
{
    let chars = crate::text::str_chars(version);
    if chars.len() == 0 {
        return false;
    }
    let mut i: usize = 0;
    while i < chars.len()
        invariant
            chars@ == version@,
            i <= chars@.len(),
            forall|j: int| 0 <= j < i ==> is_version_char(#[trigger] chars@[j]),
        decreases chars@.len() - i,
    {
        let c = chars[i];
        if !(('0' <= c && c <= '9') || ('a' <= c && c <= 'z') || ('A' <= c && c <= 'Z') || c == '.' || c == '+'
            || c == '-' || c == '_') {
            assert(!is_version_char(version@[i as int]));
            return false;
        }
        i = i + 1;
    }
    true
}

/// The first check a package announcement fails, in the order they are
/// made.
pub open spec fn ota_ready_error(p: JsonView) -> Option<OtaReadyError> {
    if (match member(p, "state"@) {
        Some(v) => text_of(v) matches Some(s) && s != "download_success"@,
        None => false,
    }) {
        Some(OtaReadyError::NotReady)
    } else if field_text(p, "update_id"@, "updateId"@) is None {
        Some(OtaReadyError::MissingUpdateId)
    } else if field_text(p, "version"@, "version"@) is None {
        Some(OtaReadyError::MissingVersion)
    } else if !safe_target_version(field_text(p, "version"@, "version"@).unwrap()) {
        Some(OtaReadyError::UnsafeVersion)
    } else if announced_size(p) is None {
        Some(OtaReadyError::MissingSize)
    } else if field_u64(p, "max_transfer_chunk_size"@, "maxTransferChunkSize"@) matches Some(c) && c
        > u32::MAX {
        Some(OtaReadyError::ChunkSizeTooLarge)
    } else if announced_size(p).unwrap() > u32::MAX {
        Some(OtaReadyError::PackageTooLarge)
    } else {
        None
    }
}

/// An accepted announcement holds what the phone sent: the resume offset
/// (0 when absent) is capped at `u32::MAX`.
pub open spec fn ready_from(p: JsonView, ready: OtaPackageReady) -> bool {
    &&& Some(ready.update_id@) == field_text(p, "update_id"@, "updateId"@)
    &&& Some(ready.version@) == field_text(p, "version"@, "version"@)
    &&& Some(ready.size as u64) == announced_size(p)
    &&& ready.expected_sha256@ == announced_sha256(p)
    &&& ready.resume_from_offset == match field_u64(p, "resume_from_offset"@, "resumeFromOffset"@) {
        Some(o) => if o > u32::MAX {
            u32::MAX
        } else {
            o as u32
        },
        None => 0,
    }
    &&& match field_u64(p, "max_transfer_chunk_size"@, "maxTransferChunkSize"@) {
        Some(c) => ready.max_transfer_chunk_size == Some(c as u32),
        None => ready.max_transfer_chunk_size is None,
    }
    &&& ready.supports_chunked_transfer_response == field_bool(
        p,
        "supports_chunked_transfer_response"@,
        "supportsChunkedTransferResponse"@,
    )
    &&& opt_chars(ready.transfer_data_encoding) == field_text(
        p,
        "transfer_data_encoding"@,
        "transferDataEncoding"@,
    )
}

/// The text of the version a package announcement names.
pub fn announced_version(params: &Json) -> (v: Option<String>)
    ensures
        opt_chars(v) == field_text(params@, "version"@, "version"@),
{
    string_field(params, "version", "version")
}

/// Reads a package announcement (`ota.package_ready`), under either spelling
/// of each field, refusing a target version the device may not install.
/// Refused exactly when a check fails, with the first failure.
pub fn parse_ota_package_ready(params: &Json) -> (r: Result<OtaPackageReady, OtaReadyError>)
    ensures
        match r {
            Ok(ready) => ota_ready_error(params@) is None && ready_from(params@, ready),
            Err(e) => ota_ready_error(params@) == Some(e),
        },
{
    match params.get("state") {
        Some(v) => match v.as_str() {
            Some(state) => if !crate::text::str_eq(state, "download_success") {
                return Err(OtaReadyError::NotReady);
            },
            None => {},
        },
        None => {},
    }
    let update_id = match string_field(params, "update_id", "updateId") {
        Some(u) => u,
        None => return Err(OtaReadyError::MissingUpdateId),
    };
    let version = match string_field(params, "version", "version") {
        Some(v) => v,
        None => return Err(OtaReadyError::MissingVersion),
    };
    if !is_safe_target_version(version.as_str()) {
        return Err(OtaReadyError::UnsafeVersion);
    }
    let size = match u64_field(params, "size", "size") {
        Some(s) => s,
        None => match u64_field(params, "expected_size", "expectedSize") {
            Some(s) => s,
            None => return Err(OtaReadyError::MissingSize),
        },
    };
    let expected_sha256 = match string_field(params, "expected_sha256", "expectedSha256") {
        Some(h) => h,
        None => match string_field(params, "sha256", "sha256") {
            Some(h) => h,
            None => match string_field(params, "hash", "hash") {
                Some(h) => h,
                None => "".to_owned(),
            },
        },
    };
    let resume_from_offset: u32 = match u64_field(params, "resume_from_offset", "resumeFromOffset") {
        Some(o) => if o > 0xffff_ffffu64 {
            0xffff_ffffu32
        } else {
            o as u32
        },
        None => 0,
    };
    let max_transfer_chunk_size = match u64_field(params, "max_transfer_chunk_size", "maxTransferChunkSize") {
        Some(c) => if c > 0xffff_ffffu64 {
            return Err(OtaReadyError::ChunkSizeTooLarge);
        } else {
            Some(c as u32)
        },
        None => None,
    };
    let supports_chunked_transfer_response = bool_field(
        params,
        "supports_chunked_transfer_response",
        "supportsChunkedTransferResponse",
    );
    let transfer_data_encoding = string_field(params, "transfer_data_encoding", "transferDataEncoding");
    if size > 0xffff_ffffu64 {
        return Err(OtaReadyError::PackageTooLarge);
    }
    Ok(OtaPackageReady {
        update_id,
        version,
        size: size as u32,
        expected_sha256,
        resume_from_offset,
        max_transfer_chunk_size,
        supports_chunked_transfer_response,
        transfer_data_encoding,
    })
}

/// Progress of a pull: the next offset to ask for, the package size and the
/// window size.
pub struct OtaPullPlan {
    pub offset: u64,
    pub total: u64,
    pub window: u64,
}

/// The window size actually used: the requested one clamped to
/// `1..=OTA_MAX_PULL_WINDOW_SIZE`.
pub open spec fn clamped_window(requested: u32) -> u64 {
    if requested < 1 {
        1
    } else if requested > OTA_MAX_PULL_WINDOW_SIZE {
        OTA_MAX_PULL_WINDOW_SIZE as u64
    } else {
        requested as u64
    }
}

/// The bytes the window at `offset` asks for.
pub open spec fn window_size_at(offset: u64, total: u64, window: u64) -> u64 {
    if total - offset < window {
        (total - offset) as u64
    } else {
        window
    }
}

/// Windows completed once the transfer reaches `offset`, rounded up.
pub open spec fn windows_done(offset: u64, window: u64) -> int {
    (offset + window - 1) / (window as int)
}

impl OtaPullPlan {
    /// The invariant: the window is in range and the offset within the package.
    pub open spec fn wf(&self) -> bool {
        &&& 1 <= self.window <= OTA_MAX_PULL_WINDOW_SIZE
        &&& self.offset <= self.total
        &&& self.total <= u32::MAX
    }

    /// A pull of a `size`-byte package resuming at the device's offset (never
    /// past the end) with windows of `transfer_window_size`.
    pub fn new(size: u32, resume_from_offset: u32, transfer_window_size: u32) -> (p: OtaPullPlan)
        ensures
            p.wf(),
            p.total == size,
            p.offset == if resume_from_offset < size { resume_from_offset } else { size },
            p.window == clamped_window(transfer_window_size),
    {
        let window: u64 = if transfer_window_size < 1 {
            1
        } else if transfer_window_size > OTA_MAX_PULL_WINDOW_SIZE {
            OTA_MAX_PULL_WINDOW_SIZE as u64
        } else {
            transfer_window_size as u64
        };
        let total = size as u64;
        let offset = if (resume_from_offset as u64) < total { resume_from_offset as u64 } else { total };
        OtaPullPlan { offset, total, window }
    }

    /// Whether everything was received before: then only an empty final
    /// chunk is delivered.
    pub fn is_complete(&self) -> (done: bool)
        ensures
            done == (self.offset == self.total),
    {
        self.offset == self.total
    }

    /// The next window to ask for, as (offset, size), while bytes remain.
    pub fn next_window(&self) -> (w: Option<(u64, u64)>)
        requires
            self.wf(),
        ensures
            self.offset < self.total ==> w == Some((self.offset, window_size_at(self.offset, self.total, self.window))),
            self.offset >= self.total ==> w is None,
    {
        if self.offset >= self.total {
            return None;
        }
        let remaining = self.total - self.offset;
        let size = if remaining < self.window { remaining } else { self.window };
        Some((self.offset, size))
    }

    /// Records that the window at the current offset arrived in full.
    /// Returns whether it was the last one and, if not, whether the puller
    /// pauses (after every sixteenth window) before the next request.
    pub fn record_window(&mut self) -> (r: (bool, bool))
        requires
            old(self).wf(),
            old(self).offset < old(self).total,
        ensures
            final(self).wf(),
            final(self).total == old(self).total,
            final(self).window == old(self).window,
            final(self).offset == old(self).offset + window_size_at(old(self).offset, old(self).total, old(self).window),
            r.0 == (final(self).offset >= final(self).total),
            r.1 == (!r.0 && windows_done(final(self).offset, final(self).window) % (OTA_PULL_BURST_CHUNKS as int) == 0),
    {
        let remaining = self.total - self.offset;
        let size = if remaining < self.window { remaining } else { self.window };
        self.offset = self.offset + size;
        let last = self.offset >= self.total;
        let completed = (self.offset + self.window - 1) / self.window;
        let pause = !last && completed % OTA_PULL_BURST_CHUNKS == 0;
        (last, pause)
    }
}

/// The parameters of the `device.ota.transfer` call asking for `size` bytes
/// at `offset` of the package `update_id` (version `version`).
pub open spec fn transfer_params_view(update_id: Seq<char>, version: Seq<char>, offset: u64, size: u64) -> JsonView {
    JsonView::Object(
        seq![
            ("updateId"@, JsonView::Str(update_id)),
            ("update_id"@, JsonView::Str(update_id)),
            ("name"@, JsonView::Str("nocturne-os"@)),
            ("offset"@, JsonView::Number(NumberView::PosInt(offset))),
            ("size"@, JsonView::Number(NumberView::PosInt(size))),
            ("version"@, JsonView::Str(version)),
        ],
    )
}

/// The parameters of the call that pulls one window (see
/// `transfer_params_view`).
pub fn ota_transfer_params(update_id: &str, version: &str, offset: u64, size: u64) -> (params: Json)
    ensures
        params@ == transfer_params_view(update_id@, version@, offset, size),
{
    let mut m = no_members();
    push_member(&mut m, "updateId", Json::Str(update_id.to_owned()));
    push_member(&mut m, "update_id", Json::Str(update_id.to_owned()));
    push_member(&mut m, "name", Json::Str("nocturne-os".to_owned()));
    push_member(&mut m, "offset", Json::Number(JsonNumber::PosInt(offset)));
    push_member(&mut m, "size", Json::Number(JsonNumber::PosInt(size)));
    push_member(&mut m, "version", Json::Str(version.to_owned()));
    let ghost expected = transfer_params_view(update_id@, version@, offset, size);
    assert(JsonView::Object(members_view(m@)) =~= expected) by {
        assert(members_view(m@) =~= seq![
            ("updateId"@, JsonView::Str(update_id@)),
            ("update_id"@, JsonView::Str(update_id@)),
            ("name"@, JsonView::Str("nocturne-os"@)),
            ("offset"@, JsonView::Number(NumberView::PosInt(offset))),
            ("size"@, JsonView::Number(NumberView::PosInt(size))),
            ("version"@, JsonView::Str(version@)),
        ]);
    }
    Json::Object(m)
}

/// The failure an app RPC's result reports: the text of its `__error`
/// member, when it has one.
pub fn app_rpc_error(result: &Json) -> (e: Option<String>)
    ensures
        opt_chars(e) == match member(result@, "__error"@) {
            Some(v) => text_of(v),
            None => None,
        },
{
    match result.get("__error") {
        Some(v) => match v.as_str() {
            Some(t) => Some(t.to_owned()),
            None => None,
        },
        None => None,
    }
}

/// A call that the phone answered with an error fails with that error: the
/// result handed to the waiting call (`pending_call_error`) reads back, through
/// `app_rpc_error`, as exactly the phone's error text.
pub proof fn lemma_call_error_reported(error: Seq<char>)
    ensures
        match member(call_error_view(error), "__error"@) {
            Some(v) => text_of(v) == Some(error),
            None => false,
        },
{
    let ms = seq![("__error"@, JsonView::Str(error))];
    assert(key_is("__error"@)(ms[0]));
    lemma_first_index_at(ms, key_is("__error"@), 0);
}

/// The offsets of the windows pulled from `offset` to `total`.
pub open spec fn window_offsets(offset: u64, total: u64, window: u64) -> Seq<u64>
    decreases total - offset,
{
    if window == 0 || offset >= total {
        Seq::empty()
    } else {
        seq![offset] + window_offsets((offset + window_size_at(offset, total, window)) as u64, total, window)
    }
}

/// A pull covers the package exactly: from the resume offset, windows follow
/// one another without gap or overlap, every window but the last is full, and
/// there are `ceil((total - offset) / window)` of them.
pub proof fn lemma_pull_windows_tile(offset: u64, total: u64, window: u64)
    requires
        window >= 1,
        offset <= total,
    ensures
        window_offsets(offset, total, window).len() == (total - offset + window - 1) / (window as int),
        forall|i: int| 0 <= i < window_offsets(offset, total, window).len() ==> #[trigger] window_offsets(
            offset,
            total,
            window,
        )[i] == offset + i * window,
    decreases total - offset,
{
    if offset < total {
        let size = window_size_at(offset, total, window);
        let next = (offset + size) as u64;
        lemma_pull_windows_tile(next, total, window);
        let rest = window_offsets(next, total, window);
        if size < window {
            assert(next == total);
            assert(rest.len() == 0);
            assert((total - offset + window - 1) / (window as int) == 1) by (nonlinear_arith)
                requires
                    0 < total - offset < window,
            {
            }
        } else {
            assert((total - offset + window - 1) / (window as int) == (total - next + window - 1) / (window as int) + 1)
                by (nonlinear_arith)
                requires
                    next == offset + window,
                    window >= 1,
            {
            }
            assert forall|i: int| 0 <= i < rest.len() implies #[trigger] rest[i] == offset + (i + 1) * window by {
                assert(rest[i] == next + i * window);
                assert(next + i * window == offset + (i + 1) * window) by (nonlinear_arith)
                    requires
                        next == offset + window,
                {
                }
            }
        }
        let all = window_offsets(offset, total, window);
        assert(all == seq![offset] + rest);
        assert forall|i: int| 0 <= i < all.len() implies #[trigger] all[i] == offset + i * window by {
            if i > 0 {
                assert(all[i] == rest[i - 1]);
                assert(offset + i * window == offset + ((i - 1) + 1) * window);
            }
        }
    } else {
        assert((total - offset + window - 1) / (window as int) == 0) by (nonlinear_arith)
            requires
                total - offset == 0,
                window >= 1,
        {
        }
    }
}

/// How long to wait before attempt `attempt + 1` of a window after attempt
/// `attempt` (counted from 1) failed: 250 ms times the attempt, or `None`
/// when that was the last attempt.
pub fn transfer_retry_delay_ms(attempt: u64) -> (d: Option<u64>)
    requires
        attempt >= 1,
    ensures
        attempt >= OTA_TRANSFER_MAX_ATTEMPTS ==> d is None,
        attempt < OTA_TRANSFER_MAX_ATTEMPTS ==> d == Some((250 * attempt) as u64),
{
    if attempt >= OTA_TRANSFER_MAX_ATTEMPTS {
        None
    } else {
        Some(250 * attempt)
    }
}

/// Why a transfer response was refused.
#[derive(Clone, Copy, Debug, PartialEq, Eq, Structural)]
pub enum TransferError {
    MissingData,
    InvalidBase64,
    InvalidByteValue,
    ByteOutOfRange,
    UnsupportedData,
    /// The window came back with another length than asked for.
    SizeMismatch,
}


/// The first element of `values` that is not a byte: `None` when all are.
pub open spec fn first_bad_value(values: Seq<Option<u64>>) -> Option<TransferError>
    decreases values.len(),
{
    if values.len() == 0 {
        None
    } else {
        match values[0] {
            None => Some(TransferError::InvalidByteValue),
            Some(v) => if v > 255 {
                Some(TransferError::ByteOutOfRange)
            } else {
                first_bad_value(values.drop_first())
            },
        }
    }
}

/// The bytes an array of byte values stands for.
pub open spec fn value_bytes(values: Seq<Option<u64>>) -> Seq<u8> {
    values.map_values(|v: Option<u64>| match v {
        Some(b) => b as u8,
        None => 0u8,
    })
}

/// Each element of an array as a non-negative integer, if it is one.
pub open spec fn byte_values(items: Seq<JsonView>) -> Seq<Option<u64>> {
    items.map_values(|v: JsonView| u64_of(v))
}

/// What a transfer response decodes to: its `data` member, as base64 text
/// or as an array of byte values.
pub open spec fn spec_transfer_bytes(result: JsonView) -> Result<Seq<u8>, TransferError> {
    match member(result, "data"@) {
        None => Err(TransferError::MissingData),
        Some(JsonView::Str(s)) => match base64_standard_decoded(vstd::utf8::encode_utf8(s)) {
            Some(b) => Ok(b),
            None => Err(TransferError::InvalidBase64),
        },
        Some(JsonView::Array(items)) => match first_bad_value(byte_values(items)) {
            Some(e) => Err(e),
            None => Ok(value_bytes(byte_values(items))),
        },
        Some(_) => Err(TransferError::UnsupportedData),
    }
}

proof fn lemma_first_bad_value_prefix(values: Seq<Option<u64>>, i: int)
    requires
        0 <= i < values.len(),
        first_bad_value(values.take(i)) is None,
    ensures
        values[i] matches Some(v) && v <= 255 ==> first_bad_value(values.take(i + 1)) is None,
        values[i] is None ==> first_bad_value(values.take(i + 1)) == Some(TransferError::InvalidByteValue),
        values[i] matches Some(v) && v > 255 ==> first_bad_value(values.take(i + 1)) == Some(
            TransferError::ByteOutOfRange,
        ),
    decreases i,
{
    assert(values.take(i + 1)[0] == values[0]);
    if i > 0 {
        assert(values.take(i)[0] == values[0]);
        assert(values.take(i).drop_first() =~= values.drop_first().take(i - 1));
        assert(values.take(i + 1).drop_first() =~= values.drop_first().take(i));
        assert(values.drop_first()[i - 1] == values[i]);
        lemma_first_bad_value_prefix(values.drop_first(), i - 1);
    } else {
        assert(values.take(1).drop_first() =~= Seq::<Option<u64>>::empty());
        assert(first_bad_value(Seq::<Option<u64>>::empty()) is None);
    }
}

proof fn lemma_first_bad_value_extends(values: Seq<Option<u64>>, i: int)
    requires
        0 <= i <= values.len(),
        first_bad_value(values.take(i)) is Some,
    ensures
        first_bad_value(values) == first_bad_value(values.take(i)),
    decreases i,
{
    if i > 0 {
        assert(values.take(i)[0] == values[0]);
        match values[0] {
            None => {
            },
            Some(v) => {
                if v <= 255 {
                    assert(values.take(i).drop_first() =~= values.drop_first().take(i - 1));
                    lemma_first_bad_value_extends(values.drop_first(), i - 1);
                }
            },
        }
    }
}

/// Decodes the `data` of a transfer response: base64 text or an array of
/// byte values.
pub fn transfer_result_bytes(result: &Json) -> (r: Result<Vec<u8>, TransferError>)
    ensures
        match (r, spec_transfer_bytes(result@)) {
            (Ok(b), Ok(s)) => b@ == s,
            (Err(e), Err(f)) => e == f,
            _ => false,
        },
{
    match result.get("data") {
        None => Err(TransferError::MissingData),
        Some(data) => match data {
            Json::Str(s) => {
                let bytes = s.as_str().as_bytes();
                match base64_decode(bytes) {
                    Some(v) => Ok(v),
                    None => Err(TransferError::InvalidBase64),
                }
            },
            Json::Array(items) => {
                let ghost values = byte_values(items_view(items@));
                let mut out: Vec<u8> = Vec::new();
                let mut i: usize = 0;
                while i < items.len()
                    invariant
                        values == byte_values(items_view(items@)),
                        spec_transfer_bytes(result@) == match first_bad_value(values) {
                            Some(e) => Err(e),
                            None => Ok(value_bytes(values)),
                        },
                        values.len() == items@.len(),
                        i <= items@.len(),
                        first_bad_value(values.take(i as int)) is None,
                        out@ == value_bytes(values.take(i as int)),
                    decreases items@.len() - i,
                {
                    proof {
                        lemma_first_bad_value_prefix(values, i as int);
                        assert(values[i as int] == u64_of(items[i as int]@));
                    }
                    match items[i].as_u64() {
                        None => {
                            proof {
                                lemma_first_bad_value_extends(values, i + 1);
                            }
                            return Err(TransferError::InvalidByteValue);
                        },
                        Some(v) => {
                            if v > 255 {
                                proof {
                                    lemma_first_bad_value_extends(values, i + 1);
                                }
                                return Err(TransferError::ByteOutOfRange);
                            }
                            out.push(v as u8);
                        },
                    }
                    i = i + 1;
                    assert(out@ =~= value_bytes(values.take(i as int)));
                }
                assert(values.take(i as int) =~= values);
                Ok(out)
            },
            _ => Err(TransferError::UnsupportedData),
        },
    }
}

/// A window's bytes, accepted only with the length that was asked for.
pub fn checked_window(bytes: Vec<u8>, size: u64) -> (r: Result<Vec<u8>, TransferError>)
    ensures
        bytes@.len() == size ==> (r matches Ok(b) && b@ == bytes@),
        bytes@.len() != size ==> r == Err::<Vec<u8>, TransferError>(TransferError::SizeMismatch),
{
    if bytes.len() as u64 != size {
        return Err(TransferError::SizeMismatch);
    }
    Ok(bytes)
}

} // verus!
