//! Apple Notification Center Service wire formats: Notification Source
//! frames, Control Point commands and Data Source responses, and the small
//! policies of the ANCS monitor.
use vstd::prelude::*;
use vstd::string::*;
use vstd::utf8::*;
use crate::address::{same_address, Address};
use crate::bytes_util::{extend_bytes, le16_value, le32_value, push_le16, push_le32, read_le32, read_le16};
use crate::text::{
    concat, decimal_chars, decimal_string, lossy_text, str_eq, str_from_utf8, string_from_utf8_lossy,
    trim, trimmed,
};
use crate::bytes_util::bytes_equal;

verus! {

broadcast use {encode_utf8_decode_utf8, decode_utf8_encode_utf8};

pub const COMMAND_GET_NOTIFICATION_ATTRIBUTES: u8 = 0;
pub const COMMAND_GET_APP_ATTRIBUTES: u8 = 1;

pub const ATTR_APP_IDENTIFIER: u8 = 0;
pub const ATTR_TITLE: u8 = 1;
pub const ATTR_SUBTITLE: u8 = 2;
pub const ATTR_MESSAGE: u8 = 3;
pub const ATTR_DATE: u8 = 5;
pub const ATTR_POSITIVE_ACTION_LABEL: u8 = 6;
pub const ATTR_NEGATIVE_ACTION_LABEL: u8 = 7;
pub const APP_ATTR_DISPLAY_NAME: u8 = 0;

pub const EVENT_ADDED: u8 = 0;
pub const EVENT_MODIFIED: u8 = 1;
pub const EVENT_REMOVED: u8 = 2;

pub const FLAG_SILENT: u8 = 1;
pub const FLAG_IMPORTANT: u8 = 2;
pub const FLAG_PRE_EXISTING: u8 = 4;

pub const TITLE_MAX: u16 = 256;
pub const SUBTITLE_MAX: u16 = 256;
pub const MESSAGE_MAX: u16 = 1024;

/// ANCS notification categories.
#[derive(Clone, Copy, Debug, PartialEq, Eq)]
pub enum NotificationCategory {
    Other,
    IncomingCall,
    MissedCall,
    Voicemail,
    Social,
    Schedule,
    Email,
    News,
    HealthAndFitness,
    BusinessAndFinance,
    Location,
    Entertainment,
}

/// The category an ANCS category code stands for.
pub open spec fn category_of(value: u8) -> NotificationCategory {
    if value == 1 {
        NotificationCategory::IncomingCall
    } else if value == 2 {
        NotificationCategory::MissedCall
    } else if value == 3 {
        NotificationCategory::Voicemail
    } else if value == 4 {
        NotificationCategory::Social
    } else if value == 5 {
        NotificationCategory::Schedule
    } else if value == 6 {
        NotificationCategory::Email
    } else if value == 7 {
        NotificationCategory::News
    } else if value == 8 {
        NotificationCategory::HealthAndFitness
    } else if value == 9 {
        NotificationCategory::BusinessAndFinance
    } else if value == 10 {
        NotificationCategory::Location
    } else if value == 11 {
        NotificationCategory::Entertainment
    } else {
        NotificationCategory::Other
    }
}

impl NotificationCategory {
    /// The category an ANCS category code stands for (unknown codes are `Other`).
    pub fn from_code(value: u8) -> (c: NotificationCategory)
        ensures
            c == category_of(value),
    {
        match value {
            1 => NotificationCategory::IncomingCall,
            2 => NotificationCategory::MissedCall,
            3 => NotificationCategory::Voicemail,
            4 => NotificationCategory::Social,
            5 => NotificationCategory::Schedule,
            6 => NotificationCategory::Email,
            7 => NotificationCategory::News,
            8 => NotificationCategory::HealthAndFitness,
            9 => NotificationCategory::BusinessAndFinance,
            10 => NotificationCategory::Location,
            11 => NotificationCategory::Entertainment,
            _ => NotificationCategory::Other,
        }
    }

    /// The snake-case name used in the UI category (`ios.<name>`).
    pub fn as_str(self) -> (name: &'static str)
        ensures
            name@ == category_name(self),
    {
        match self {
            NotificationCategory::Other => "other",
            NotificationCategory::IncomingCall => "incoming_call",
            NotificationCategory::MissedCall => "missed_call",
            NotificationCategory::Voicemail => "voicemail",
            NotificationCategory::Social => "social",
            NotificationCategory::Schedule => "schedule",
            NotificationCategory::Email => "email",
            NotificationCategory::News => "news",
            NotificationCategory::HealthAndFitness => "health_and_fitness",
            NotificationCategory::BusinessAndFinance => "business_and_finance",
            NotificationCategory::Location => "location",
            NotificationCategory::Entertainment => "entertainment",
        }
    }
}

/// The name of a category.
pub open spec fn category_name(c: NotificationCategory) -> Seq<char> {
    match c {
        NotificationCategory::Other => "other"@,
        NotificationCategory::IncomingCall => "incoming_call"@,
        NotificationCategory::MissedCall => "missed_call"@,
        NotificationCategory::Voicemail => "voicemail"@,
        NotificationCategory::Social => "social"@,
        NotificationCategory::Schedule => "schedule"@,
        NotificationCategory::Email => "email"@,
        NotificationCategory::News => "news"@,
        NotificationCategory::HealthAndFitness => "health_and_fitness"@,
        NotificationCategory::BusinessAndFinance => "business_and_finance"@,
        NotificationCategory::Location => "location"@,
        NotificationCategory::Entertainment => "entertainment"@,
    }
}

impl From<u8> for NotificationCategory {
    fn from(value: u8) -> (c: NotificationCategory) {
        NotificationCategory::from_code(value)
    }
}

impl vstd::std_specs::convert::FromSpecImpl<u8> for NotificationCategory {
    open spec fn obeys_from_spec() -> bool {
        true
    }

    open spec fn from_spec(value: u8) -> NotificationCategory {
        category_of(value)
    }
}

/// A Notification Source event.
#[derive(Clone, Copy, Debug)]
pub struct NotificationMeta {
    pub event_id: u8,
    pub flags: u8,
    pub category: NotificationCategory,
    pub uid: u32,
}

/// The Notification Source event a frame encodes, when it is long enough.
pub open spec fn spec_notification_meta(frame: Seq<u8>) -> Option<NotificationMeta> {
    if frame.len() >= 8 {
        Some(NotificationMeta {
            event_id: frame[0],
            flags: frame[1],
            category: category_of(frame[2]),
            uid: le32_value(frame[4], frame[5], frame[6], frame[7]),
        })
    } else {
        None
    }
}

impl NotificationMeta {
    /// Reads a Notification Source frame: event id, flags, category, category
    /// count, then the little-endian notification UID. Shorter frames are
    /// rejected; bytes past the eighth are ignored.
    pub fn parse(frame: &[u8]) -> (meta: Option<NotificationMeta>)
        ensures
            meta == spec_notification_meta(frame@),
            meta is Some <==> frame@.len() >= 8,
            meta matches Some(m) ==> {
                &&& m.event_id == frame@[0]
                &&& m.flags == frame@[1]
                &&& m.category == category_of(frame@[2])
                &&& m.uid == le32_value(frame@[4], frame@[5], frame@[6], frame@[7])
            },
    {
        if frame.len() >= 8 {
            Some(NotificationMeta {
                event_id: frame[0],
                flags: frame[1],
                category: NotificationCategory::from_code(frame[2]),
                uid: read_le32(frame[4], frame[5], frame[6], frame[7]),
            })
        } else {
            None
        }
    }
}

/// The little-endian bytes of a 16-bit value.
pub open spec fn le16_bytes(v: u16) -> Seq<u8> {
    seq![(v % 256) as u8, (v / 256) as u8]
}

/// The little-endian bytes of a 32-bit value.
pub open spec fn le32_bytes(v: u32) -> Seq<u8> {
    seq![(v % 256) as u8, ((v / 256) % 256) as u8, ((v / 0x1_0000) % 256) as u8, (v / 0x100_0000) as u8]
}

/// The Get Notification Attributes command for `uid`: app identifier, title
/// (max 256), subtitle (max 256), message (max 1024), both action labels,
/// and the date last.
pub open spec fn notification_attributes_command(uid: u32) -> Seq<u8> {
    seq![COMMAND_GET_NOTIFICATION_ATTRIBUTES] + le32_bytes(uid) + seq![ATTR_APP_IDENTIFIER, ATTR_TITLE]
        + le16_bytes(TITLE_MAX) + seq![ATTR_SUBTITLE] + le16_bytes(SUBTITLE_MAX) + seq![ATTR_MESSAGE]
        + le16_bytes(MESSAGE_MAX) + seq![ATTR_POSITIVE_ACTION_LABEL, ATTR_NEGATIVE_ACTION_LABEL, ATTR_DATE]
}

/// Builds the Get Notification Attributes command for `uid`.
pub fn build_get_notification_attributes(uid: u32) -> (command: Vec<u8>)
    ensures
        command@ == notification_attributes_command(uid),
{
    let mut command: Vec<u8> = Vec::with_capacity(20);
    command.push(COMMAND_GET_NOTIFICATION_ATTRIBUTES);
    push_le32(&mut command, uid);
    command.push(ATTR_APP_IDENTIFIER);
    command.push(ATTR_TITLE);
    push_le16(&mut command, TITLE_MAX);
    command.push(ATTR_SUBTITLE);
    push_le16(&mut command, SUBTITLE_MAX);
    command.push(ATTR_MESSAGE);
    push_le16(&mut command, MESSAGE_MAX);
    command.push(ATTR_POSITIVE_ACTION_LABEL);
    command.push(ATTR_NEGATIVE_ACTION_LABEL);
    command.push(ATTR_DATE);
    assert(command@ =~= notification_attributes_command(uid));
    command
}

/// Builds the Get App Attributes command asking for the display name of
/// `bundle_id`: the command byte, the UTF-8 bundle id, a NUL, the attribute.
pub fn build_get_app_attributes(bundle_id: &str) -> (command: Vec<u8>)
    ensures
        command@ == seq![COMMAND_GET_APP_ATTRIBUTES] + bundle_id.spec_bytes() + seq![0u8, APP_ATTR_DISPLAY_NAME],
{
    let mut command: Vec<u8> = Vec::new();
    command.push(COMMAND_GET_APP_ATTRIBUTES);
    extend_bytes(&mut command, bundle_id.as_bytes());
    command.push(0);
    command.push(APP_ATTR_DISPLAY_NAME);
    assert(command@ =~= seq![COMMAND_GET_APP_ATTRIBUTES] + bundle_id.spec_bytes() + seq![0u8, APP_ATTR_DISPLAY_NAME]);
    command
}

/// The attribute at `index`: id, value and the index after it.
pub open spec fn spec_attribute(buf: Seq<u8>, index: int) -> Option<(u8, Seq<u8>, int)> {
    if index < 0 || index + 3 > buf.len() {
        None
    } else {
        let len = le16_value(buf[index + 1], buf[index + 2]) as int;
        if index + 3 + len > buf.len() {
            None
        } else {
            Some((buf[index], buf.subrange(index + 3, index + 3 + len), index + 3 + len))
        }
    }
}

/// Reads one attribute (`[id][len LE16][value]`) at `index`.
pub fn parse_attribute(buffer: &[u8], index: usize) -> (attr: Option<(u8, &[u8], usize)>)
    ensures
        match spec_attribute(buffer@, index as int) {
            None => attr is None,
            Some((id, value, next)) => attr matches Some((a, v, n)) && a == id && v@ == value && n == next,
        },
{
    if index > buffer.len() || buffer.len() - index < 3 {
        return None;
    }
    let attribute = buffer[index];
    let length = read_le16(buffer[index + 1], buffer[index + 2]) as usize;
    let value_start = index + 3;
    if length > buffer.len() - value_start {
        return None;
    }
    let value_end = value_start + length;
    Some((attribute, &buffer[value_start..value_end], value_end))
}

/// Text fields of a notification.
pub struct NotificationFields {
    pub app_identifier: Option<String>,
    pub title: Option<String>,
    pub subtitle: Option<String>,
    pub message: Option<String>,
}

/// Model of the text fields of a notification.
pub struct FieldsView {
    pub app_identifier: Option<Seq<char>>,
    pub title: Option<Seq<char>>,
    pub subtitle: Option<Seq<char>>,
    pub message: Option<Seq<char>>,
}

pub open spec fn opt_text(o: Option<String>) -> Option<Seq<char>> {
    match o {
        Some(s) => Some(s@),
        None => None,
    }
}

impl View for NotificationFields {
    type V = FieldsView;

    open spec fn view(&self) -> FieldsView {
        FieldsView {
            app_identifier: opt_text(self.app_identifier),
            title: opt_text(self.title),
            subtitle: opt_text(self.subtitle),
            message: opt_text(self.message),
        }
    }
}

impl Default for NotificationFields {
    fn default() -> (f: NotificationFields)
        ensures
            f@ == no_fields(),
    {
        NotificationFields { app_identifier: None, title: None, subtitle: None, message: None }
    }
}

pub open spec fn no_fields() -> FieldsView {
    FieldsView { app_identifier: None, title: None, subtitle: None, message: None }
}

/// Reads attributes from `index` on into `f` until the date attribute, which
/// ends the response; `None` when the buffer ends first.
pub open spec fn spec_notification_attrs(buf: Seq<u8>, index: int, f: FieldsView) -> Option<(FieldsView, int)>
    decreases buf.len() - index,
{
    if index < 0 || index >= buf.len() {
        None
    } else {
        match spec_attribute(buf, index) {
            None => None,
            Some((id, value, next)) => {
                if next <= index {
                    None
                } else {
                    let text = lossy_text(value);
                    if id == ATTR_DATE {
                        Some((f, next))
                    } else if id == ATTR_APP_IDENTIFIER {
                        spec_notification_attrs(buf, next, FieldsView { app_identifier: Some(text), ..f })
                    } else if id == ATTR_TITLE {
                        spec_notification_attrs(buf, next, FieldsView { title: Some(text), ..f })
                    } else if id == ATTR_SUBTITLE {
                        spec_notification_attrs(buf, next, FieldsView { subtitle: Some(text), ..f })
                    } else if id == ATTR_MESSAGE {
                        spec_notification_attrs(buf, next, FieldsView { message: Some(text), ..f })
                    } else {
                        spec_notification_attrs(buf, next, f)
                    }
                }
            },
        }
    }
}

/// The notification response for `uid` at the front of `buf`: fields and the
/// bytes it takes.
pub open spec fn spec_notification_response(buf: Seq<u8>, uid: u32) -> Option<(FieldsView, int)> {
    if buf.len() < 5 || buf[0] != COMMAND_GET_NOTIFICATION_ATTRIBUTES {
        None
    } else if le32_value(buf[1], buf[2], buf[3], buf[4]) != uid {
        None
    } else {
        spec_notification_attrs(buf, 5, no_fields())
    }
}

/// Reads a Get Notification Attributes response for `expected_uid` from the
/// front of `buffer`. `None` until the date attribute (requested last) has
/// arrived, or when the header names another command or UID.
pub fn parse_notification_response(buffer: &[u8], expected_uid: u32) -> (parsed: Option<(NotificationFields, usize)>)
    ensures
        match spec_notification_response(buffer@, expected_uid) {
            None => parsed is None,
            Some((f, n)) => parsed matches Some((fields, consumed)) && fields@ == f && consumed == n,
        },
{
    if buffer.len() < 5 || buffer[0] != COMMAND_GET_NOTIFICATION_ATTRIBUTES {
        return None;
    }
    let uid = read_le32(buffer[1], buffer[2], buffer[3], buffer[4]);
    if uid != expected_uid {
        return None;
    }
    let mut fields = NotificationFields::default();
    let mut index: usize = 5;
    while index < buffer.len()
        invariant
            5 <= index,
            spec_notification_attrs(buffer@, index as int, fields@) == spec_notification_response(buffer@, expected_uid),
        decreases buffer@.len() - index,
    {
        let (attribute, value, next) = match parse_attribute(buffer, index) {
            Some(a) => a,
            None => return None,
        };
        let text = string_from_utf8_lossy(value);
        if attribute == ATTR_DATE {
            return Some((fields, next));
        } else if attribute == ATTR_APP_IDENTIFIER {
            fields.app_identifier = Some(text);
        } else if attribute == ATTR_TITLE {
            fields.title = Some(text);
        } else if attribute == ATTR_SUBTITLE {
            fields.subtitle = Some(text);
        } else if attribute == ATTR_MESSAGE {
            fields.message = Some(text);
        }
        index = next;
    }
    None
}

proof fn lemma_attribute_prefix(buf: Seq<u8>, extra: Seq<u8>, index: int)
    requires
        spec_attribute(buf, index) is Some,
    ensures
        spec_attribute(buf + extra, index) == spec_attribute(buf, index),
        spec_attribute(buf, index)->Some_0.2 <= buf.len(),
{
    let b2 = buf + extra;
    assert(b2[index] == buf[index]);
    assert(b2[index + 1] == buf[index + 1]);
    assert(b2[index + 2] == buf[index + 2]);
    let len = le16_value(buf[index + 1], buf[index + 2]) as int;
    assert(b2.subrange(index + 3, index + 3 + len) =~= buf.subrange(index + 3, index + 3 + len));
}

proof fn lemma_notification_attrs_prefix(buf: Seq<u8>, extra: Seq<u8>, index: int, f: FieldsView)
    requires
        spec_notification_attrs(buf, index, f) is Some,
    ensures
        spec_notification_attrs(buf + extra, index, f) == spec_notification_attrs(buf, index, f),
        spec_notification_attrs(buf, index, f)->Some_0.1 <= buf.len(),
    decreases buf.len() - index,
{
    lemma_attribute_prefix(buf, extra, index);
    let (id, value, next) = spec_attribute(buf, index)->Some_0;
    let text = lossy_text(value);
    if id == ATTR_DATE {
    } else if id == ATTR_APP_IDENTIFIER {
        lemma_notification_attrs_prefix(buf, extra, next, FieldsView { app_identifier: Some(text), ..f });
    } else if id == ATTR_TITLE {
        lemma_notification_attrs_prefix(buf, extra, next, FieldsView { title: Some(text), ..f });
    } else if id == ATTR_SUBTITLE {
        lemma_notification_attrs_prefix(buf, extra, next, FieldsView { subtitle: Some(text), ..f });
    } else if id == ATTR_MESSAGE {
        lemma_notification_attrs_prefix(buf, extra, next, FieldsView { message: Some(text), ..f });
    } else {
        lemma_notification_attrs_prefix(buf, extra, next, f);
    }
}

/// A notification response is read only up to its date attribute: once the
/// front of `buf` holds a complete response for `uid`, that response takes no
/// more than `buf`, and bytes arriving after it change neither its fields nor
/// the bytes it takes.
pub proof fn lemma_notification_response_prefix(buf: Seq<u8>, extra: Seq<u8>, uid: u32)
    requires
        spec_notification_response(buf, uid) is Some,
    ensures
        spec_notification_response(buf + extra, uid) == spec_notification_response(buf, uid),
        spec_notification_response(buf, uid)->Some_0.1 <= buf.len(),
{
    let b2 = buf + extra;
    assert(b2[0] == buf[0] && b2[1] == buf[1] && b2[2] == buf[2] && b2[3] == buf[3] && b2[4] == buf[4]);
    lemma_notification_attrs_prefix(buf, extra, 5, no_fields());
}

/// Index of the first NUL in `buf` at or after `from`.
pub open spec fn first_nul_from(buf: Seq<u8>, from: int) -> Option<int>
    decreases buf.len() - from,
{
    if from < 0 || from >= buf.len() {
        None
    } else if buf[from] == 0 {
        Some(from)
    } else {
        first_nul_from(buf, from + 1)
    }
}

fn find_nul_from(buf: &[u8], from: usize) -> (t: Option<usize>)
    requires
        from <= buf@.len(),
    ensures
        match first_nul_from(buf@, from as int) {
            None => t is None,
            Some(k) => t matches Some(i) && i as int == k,
        },
        t matches Some(k) ==> from <= k < buf@.len(),
{
    let mut i = from;
    while i < buf.len()
        invariant
            from <= i <= buf@.len(),
            first_nul_from(buf@, i as int) == first_nul_from(buf@, from as int),
        decreases buf@.len() - i,
    {
        if buf[i] == 0 {
            return Some(i);
        }
        i = i + 1;
    }
    None
}

/// The app response for `bundle` at the front of `buf`: display name and the
/// bytes it takes.
pub open spec fn spec_app_response(buf: Seq<u8>, bundle: Seq<char>) -> Option<(Seq<char>, int)> {
    if buf.len() == 0 || buf[0] != COMMAND_GET_APP_ATTRIBUTES {
        None
    } else {
        match first_nul_from(buf, 1) {
            None => None,
            Some(t) => {
                let id_bytes = buf.subrange(1, t);
                if !valid_utf8(id_bytes) || decode_utf8(id_bytes) != bundle {
                    None
                } else {
                    match spec_attribute(buf, t + 1) {
                        Some((id, value, next)) => if id == APP_ATTR_DISPLAY_NAME {
                            Some((lossy_text(value), next))
                        } else {
                            None
                        },
                        None => None,
                    }
                }
            },
        }
    }
}

/// Reads a Get App Attributes response for `expected_bundle_id` from the
/// front of `buffer`: the NUL-terminated bundle id must match, and the
/// display-name attribute must be complete.
pub fn parse_app_response(buffer: &[u8], expected_bundle_id: &str) -> (parsed: Option<(String, usize)>)
    ensures
        match spec_app_response(buffer@, expected_bundle_id@) {
            None => parsed is None,
            Some((name, n)) => parsed matches Some((text, consumed)) && text@ == name && consumed == n,
        },
{
    if buffer.len() == 0 || buffer[0] != COMMAND_GET_APP_ATTRIBUTES {
        return None;
    }
    let terminator = match find_nul_from(buffer, 1) {
        Some(t) => t,
        None => return None,
    };
    let id_slice = &buffer[1..terminator];
    let bundle_id = match str_from_utf8(id_slice) {
        Some(text) => text,
        None => return None,
    };
    if !str_eq(bundle_id, expected_bundle_id) {
        return None;
    }
    let (attribute, value, next) = match parse_attribute(buffer, terminator + 1) {
        Some(a) => a,
        None => return None,
    };
    if attribute != APP_ATTR_DISPLAY_NAME {
        return None;
    }
    Some((string_from_utf8_lossy(value), next))
}

/// An attribute fetch waiting for, or awaiting, its Control Point write.
pub enum PendingRequest {
    Notification { meta: NotificationMeta, attempts: u8 },
    App { bundle_id: String, attempts: u8 },
}

/// The attempt count of a request.
pub open spec fn request_attempts(r: PendingRequest) -> u8 {
    match r {
        PendingRequest::Notification { attempts, .. } => attempts,
        PendingRequest::App { attempts, .. } => attempts,
    }
}

impl PendingRequest {
    /// How many writes of this request have failed.
    pub fn attempts(&self) -> (n: u8)
        ensures
            n == request_attempts(*self),
    {
        match self {
            PendingRequest::Notification { attempts, .. } => *attempts,
            PendingRequest::App { attempts, .. } => *attempts,
        }
    }

    /// The same request with one more attempt (saturating at 255).
    pub fn increment_attempts(self) -> (r: PendingRequest)
        ensures
            request_attempts(r) == if request_attempts(self) == 255 { 255 } else { request_attempts(self) + 1 },
            match (self, r) {
                (PendingRequest::Notification { meta: m1, .. }, PendingRequest::Notification { meta: m2, .. }) => m1 == m2,
                (PendingRequest::App { bundle_id: b1, .. }, PendingRequest::App { bundle_id: b2, .. }) => b1@ == b2@,
                _ => false,
            },
    {
        match self {
            PendingRequest::Notification { meta, attempts } => PendingRequest::Notification {
                meta,
                attempts: if attempts == 255 { 255 } else { attempts + 1 },
            },
            PendingRequest::App { bundle_id, attempts } => PendingRequest::App {
                bundle_id,
                attempts: if attempts == 255 { 255 } else { attempts + 1 },
            },
        }
    }
}

/// Whether the bytes received so far answer `request`: `None` while too few
/// bytes have arrived to tell.
pub open spec fn spec_header_matches(request: PendingRequest, buf: Seq<u8>) -> Option<bool> {
    match request {
        PendingRequest::Notification { meta, .. } => if buf.len() < 5 {
            None
        } else {
            Some(buf[0] == COMMAND_GET_NOTIFICATION_ATTRIBUTES && le32_value(buf[1], buf[2], buf[3], buf[4]) == meta.uid)
        },
        PendingRequest::App { bundle_id, .. } => if buf.len() == 0 {
            None
        } else if buf[0] != COMMAND_GET_APP_ATTRIBUTES {
            Some(false)
        } else {
            match first_nul_from(buf, 1) {
                None => None,
                Some(t) => Some(valid_utf8(buf.subrange(1, t)) && decode_utf8(buf.subrange(1, t)) == bundle_id@),
            }
        },
    }
}

/// Checks the header of a Data Source response against the in-flight request.
pub fn response_header_matches(request: &PendingRequest, buffer: &[u8]) -> (m: Option<bool>)
    ensures
        m == spec_header_matches(*request, buffer@),
{
    match request {
        PendingRequest::Notification { meta, .. } => {
            if buffer.len() < 5 {
                return None;
            }
            let uid = read_le32(buffer[1], buffer[2], buffer[3], buffer[4]);
            Some(buffer[0] == COMMAND_GET_NOTIFICATION_ATTRIBUTES && uid == meta.uid)
        },
        PendingRequest::App { bundle_id, .. } => {
            if buffer.len() == 0 {
                return None;
            }
            if buffer[0] != COMMAND_GET_APP_ATTRIBUTES {
                return Some(false);
            }
            let terminator = match find_nul_from(buffer, 1) {
                Some(t) => t,
                None => return None,
            };
            match str_from_utf8(&buffer[1..terminator]) {
                Some(text) => Some(str_eq(text, bundle_id.as_str())),
                None => Some(false),
            }
        },
    }
}

/// A text field with surrounding white space removed, or `None` when nothing
/// is left.
pub open spec fn spec_nonempty(value: Option<Seq<char>>) -> Option<Seq<char>> {
    match value {
        Some(v) => if trimmed(v).len() > 0 { Some(trimmed(v)) } else { None },
        None => None,
    }
}

/// Trims a text field, dropping it when it is blank.
pub fn nonempty(value: Option<String>) -> (r: Option<String>)
    ensures
        opt_text(r) == spec_nonempty(opt_text(value)),
{
    match value {
        Some(v) => {
            let t = trim(v.as_str());
            if t.unicode_len() > 0 {
                Some(t.to_owned())
            } else {
                None
            }
        },
        None => None,
    }
}

/// The UI notification id for an ANCS UID: `ancs:<decimal uid>`.
pub fn notification_id(uid: u32) -> (id: String)
    ensures
        id@ == "ancs:"@ + decimal_chars(uid as nat),
{
    let digits = decimal_string(uid as u64);
    concat("ancs:", digits.as_str())
}

/// Index of the last `.` in `s` strictly before `end`, or -1.
pub open spec fn last_dot_before(s: Seq<char>, end: int) -> int
    decreases end,
{
    if end <= 0 {
        -1
    } else if s[end - 1] == '.' {
        end - 1
    } else {
        last_dot_before(s, end - 1)
    }
}

/// The display fallback for a bundle id: its last dot-separated part, or
/// `iPhone` when that part is empty.
pub open spec fn spec_bundle_fallback_name(bundle: Seq<char>) -> Seq<char> {
    let part = bundle.subrange(last_dot_before(bundle, bundle.len() as int) + 1, bundle.len() as int);
    if part.len() == 0 {
        "iPhone"@
    } else {
        part
    }
}

proof fn lemma_last_dot_bounds(s: Seq<char>, end: int)
    requires
        0 <= end <= s.len(),
    ensures
        -1 <= last_dot_before(s, end) < end,
    decreases end,
{
    if end > 0 && s[end - 1] != '.' {
        lemma_last_dot_bounds(s, end - 1);
    }
}

/// The name shown for a notification whose app name is unknown.
pub fn bundle_fallback_name(bundle_id: &str) -> (name: String)
    ensures
        name@ == spec_bundle_fallback_name(bundle_id@),
{
    let n = bundle_id.unicode_len();
    let mut end: usize = n;
    while end > 0 && bundle_id.get_char(end - 1) != '.'
        invariant
            n == bundle_id@.len(),
            end <= n,
            last_dot_before(bundle_id@, end as int) == last_dot_before(bundle_id@, n as int),
        decreases end,
    {
        end = end - 1;
    }
    proof {
        lemma_last_dot_bounds(bundle_id@, n as int);
    }
    assert(last_dot_before(bundle_id@, n as int) + 1 == end as int);
    let part = bundle_id.substring_char(end, n);
    if part.unicode_len() == 0 {
        "iPhone".to_owned()
    } else {
        part.to_owned()
    }
}

/// The autonomous monitor follows an iPhone only when exactly one connected
/// device exposes ANCS: no candidate gives `Ok(None)`, several give the count.
pub fn unique_autonomous_candidate<T: Copy>(candidates: Vec<T>) -> (r: Result<Option<T>, usize>)
    ensures
        candidates@.len() == 0 ==> r == Ok::<Option<T>, usize>(None),
        candidates@.len() == 1 ==> r == Ok::<Option<T>, usize>(Some(candidates@[0])),
        candidates@.len() > 1 ==> r == Err::<Option<T>, usize>(candidates@.len() as usize),
{
    if candidates.len() == 0 {
        Ok(None)
    } else if candidates.len() == 1 {
        Ok(Some(candidates[0]))
    } else {
        Err(candidates.len())
    }
}

/// A discovery result counts only while that discovery is still the one in
/// flight.
pub fn is_current_discovery_result(result_generation: u64, current_generation: u64, discovery_in_flight: bool) -> (current: bool)
    ensures
        current == (discovery_in_flight && result_generation == current_generation),
{
    discovery_in_flight && result_generation == current_generation
}

/// A removed BlueZ device ends the session when it is any of the session's
/// address forms: identity, LE link, or object path address.
pub fn removed_device_matches_session(removed: Address, address: Address, le_address: Address, object_address: Address) -> (m: bool)
    ensures
        m == (removed.bytes() == address.bytes() || removed.bytes() == le_address.bytes()
            || removed.bytes() == object_address.bytes()),
{
    same_address(&removed, &address) || same_address(&removed, &le_address) || same_address(&removed, &object_address)
}

} // verus!
