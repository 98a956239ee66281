//! The ANCS client's request machinery: which attribute fetches are queued,
//! the one in flight, how Data Source fragments are collected into a
//! response, and how failed or stale fetches are retried or dropped. The
//! GATT writes, notifications and timers stay with the caller, which reports
//! each outcome here.
use vstd::prelude::*;
use std::collections::VecDeque;
use crate::ancs::{
    build_get_app_attributes, build_get_notification_attributes, parse_app_response,
    parse_notification_response, response_header_matches, spec_app_response, spec_header_matches,
    spec_notification_response, notification_attributes_command, FieldsView, NotificationFields,
    NotificationMeta, PendingRequest, APP_ATTR_DISPLAY_NAME, COMMAND_GET_APP_ATTRIBUTES, EVENT_ADDED,
    EVENT_MODIFIED, EVENT_REMOVED,
};
use vstd::utf8::encode_utf8;
use vstd::string::*;
use crate::bytes_util::extend_bytes;
use crate::notification_board::{
    after_app_name, after_fields, after_forget, after_remove, shows_after_app_name, show_on,
    shows_view, BoardView, NotificationBoard, NotificationShow,
};

verus! {

/// Most fetches kept waiting.
pub const PENDING_QUEUE_CAP: usize = 64;
/// Most Data Source bytes collected for one response.
pub const DATA_BUFFER_CAP: usize = 8192;
/// Writes tried per fetch.
pub const FETCH_ATTEMPTS: u8 = 3;

/// Model of a fetch.
pub enum RequestView {
    Notification { meta: NotificationMeta, attempts: u8 },
    App { bundle_id: Seq<char>, attempts: u8 },
}

/// The model of a fetch.
pub open spec fn request_view(r: PendingRequest) -> RequestView {
    match r {
        PendingRequest::Notification { meta, attempts } => RequestView::Notification { meta, attempts },
        PendingRequest::App { bundle_id, attempts } => RequestView::App { bundle_id: bundle_id@, attempts },
    }
}

/// The models of a sequence of fetches.
pub open spec fn requests_view(s: Seq<PendingRequest>) -> Seq<RequestView> {
    s.map_values(|r: PendingRequest| request_view(r))
}

/// Whether `r` fetches the notification `uid`.
pub open spec fn fetches_uid(r: RequestView, uid: u32) -> bool {
    r matches RequestView::Notification { meta, .. } && meta.uid == uid
}

/// `queue` without the fetches of notification `uid`, order kept.
pub open spec fn without_uid(queue: Seq<RequestView>, uid: u32) -> Seq<RequestView>
    decreases queue.len(),
{
    if queue.len() == 0 {
        Seq::empty()
    } else {
        let rest = without_uid(queue.drop_last(), uid);
        if fetches_uid(queue.last(), uid) {
            rest
        } else {
            rest.push(queue.last())
        }
    }
}

/// The index of the first notification fetch in `queue`, or -1.
pub open spec fn first_notification_fetch(queue: Seq<RequestView>) -> int
    decreases queue.len(),
{
    if queue.len() == 0 {
        -1
    } else if queue[0] is Notification {
        0
    } else {
        let rest = first_notification_fetch(queue.drop_first());
        if rest < 0 {
            -1
        } else {
            rest + 1
        }
    }
}

/// `queue` with room made for one more fetch: at the cap, the oldest
/// notification fetch goes.
pub open spec fn make_room(queue: Seq<RequestView>) -> Seq<RequestView> {
    if queue.len() >= PENDING_QUEUE_CAP && first_notification_fetch(queue) >= 0 {
        queue.remove(first_notification_fetch(queue))
    } else {
        queue
    }
}

/// What happened to a fetch that failed (its write failed, its response was
/// invalid, or it timed out), in the model: counted, then dropped when its
/// notification was removed meanwhile or it ran out of attempts, else put
/// first in line.
pub open spec fn after_failure(pending: Seq<RequestView>, tombstoned: Set<u32>, r: RequestView) -> (
    Seq<RequestView>,
    Set<u32>,
) {
    let counted = counted_view(r);
    match counted {
        RequestView::Notification { meta, attempts } => if tombstoned.contains(meta.uid) {
            (pending, tombstoned.remove(meta.uid))
        } else if attempts < FETCH_ATTEMPTS {
            (seq![counted] + pending, tombstoned)
        } else {
            (pending, tombstoned)
        },
        RequestView::App { attempts, .. } => if attempts < FETCH_ATTEMPTS {
            (seq![counted] + pending, tombstoned)
        } else {
            (pending, tombstoned)
        },
    }
}

/// A fetch with one more attempt counted (saturating).
pub open spec fn counted_view(r: RequestView) -> RequestView {
    match r {
        RequestView::Notification { meta, attempts } => RequestView::Notification {
            meta,
            attempts: if attempts == 255 { 255 } else { (attempts + 1) as u8 },
        },
        RequestView::App { bundle_id, attempts } => RequestView::App {
            bundle_id,
            attempts: if attempts == 255 { 255 } else { (attempts + 1) as u8 },
        },
    }
}

/// The Get App Attributes command for `bundle_id`.
pub open spec fn app_attributes_command(bundle_id: Seq<char>) -> Seq<u8> {
    seq![COMMAND_GET_APP_ATTRIBUTES] + encode_utf8(bundle_id) + seq![0u8, APP_ATTR_DISPLAY_NAME]
}

/// Model of the client's request state.
#[verifier::ext_equal]
pub struct ClientView {
    pub pending: Seq<RequestView>,
    pub in_flight: Option<RequestView>,
    pub buffer: Seq<u8>,
    pub tombstoned: Set<u32>,
}

/// The fetch state of an ANCS session: queued fetches, the one in flight,
/// the Data Source bytes collected for it, and the notifications removed
/// while their fetch was in flight.
pub struct FetchQueue {
    pending: VecDeque<PendingRequest>,
    in_flight: Option<PendingRequest>,
    data_buffer: Vec<u8>,
    tombstoned_uids: Vec<u32>,
}

impl View for FetchQueue {
    type V = ClientView;

    closed spec fn view(&self) -> ClientView {
        ClientView {
            pending: requests_view(self.pending@),
            in_flight: match self.in_flight {
                Some(r) => Some(request_view(r)),
                None => None,
            },
            buffer: self.data_buffer@,
            tombstoned: self.tombstoned_uids@.to_set(),
        }
    }
}

/// What a Notification Source frame did.
#[derive(Clone, Copy, Debug, PartialEq, Eq, Structural)]
pub enum SourceOutcome {
    /// Malformed frame or unknown event; nothing changed.
    Ignored,
    /// The notification was removed on the phone; the UI should drop it.
    Removed(u32),
    /// A fetch of the notification's attributes was queued.
    Queued(u32),
}

/// What a Data Source fragment did.
pub enum DataOutcome {
    /// No fetch was in flight; the bytes were discarded.
    Unsolicited,
    /// The response is not complete yet.
    Waiting,
    /// The bytes cannot answer the fetch in flight; it was retried, or
    /// dropped (then given back when its attempts ran out).
    Invalid(Option<PendingRequest>),
    /// The notification fetch in flight was answered.
    Notification(NotificationMeta, NotificationFields),
    /// The app-name fetch in flight was answered.
    AppName(String, String),
}

/// Model of a set of UIDs held in a vector.
proof fn lemma_remove_value_set(v: Seq<u32>, x: u32, i: int)
    requires
        v.no_duplicates(),
        0 <= i < v.len(),
        v[i] == x,
    ensures
        v.remove(i).to_set() == v.to_set().remove(x),
        v.remove(i).no_duplicates(),
{
    assert(v.remove(i).to_set() =~= v.to_set().remove(x)) by {
        assert forall|y: u32| v.remove(i).to_set().contains(y) <==> v.to_set().remove(x).contains(y) by {
            if v.remove(i).to_set().contains(y) {
                let k = choose|k: int| 0 <= k < v.remove(i).len() && v.remove(i)[k] == y;
                if k < i {
                    assert(v[k] == y);
                    assert(k != i);
                } else {
                    assert(v[k + 1] == y);
                }
                assert(y != x);
                assert(v.contains(y));
            }
            if v.to_set().remove(x).contains(y) {
                let k = choose|k: int| 0 <= k < v.len() && v[k] == y;
                assert(k != i);
                if k < i {
                    assert(v.remove(i)[k] == y);
                } else {
                    assert(v.remove(i)[k - 1] == y);
                }
                assert(v.remove(i).contains(y));
            }
        }
    }
}

proof fn lemma_without_uid_step(queue: Seq<RequestView>, uid: u32, i: int)
    requires
        0 <= i < queue.len(),
    ensures
        without_uid(queue.take(i + 1), uid) == if fetches_uid(queue[i], uid) {
            without_uid(queue.take(i), uid)
        } else {
            without_uid(queue.take(i), uid).push(queue[i])
        },
{
    assert(queue.take(i + 1).drop_last() =~= queue.take(i));
    assert(queue.take(i + 1).last() == queue[i]);
}

proof fn lemma_first_notification_fetch_at(queue: Seq<RequestView>, k: int)
    requires
        0 <= k <= queue.len(),
        forall|j: int| 0 <= j < k ==> !(#[trigger] queue[j] is Notification),
    ensures
        k < queue.len() && queue[k] is Notification ==> first_notification_fetch(queue) == k,
        k == queue.len() ==> first_notification_fetch(queue) == -1,
    decreases k,
{
    if k > 0 {
        assert forall|j: int| 0 <= j < k - 1 implies !(#[trigger] queue.drop_first()[j] is Notification) by {
            assert(queue.drop_first()[j] == queue[j + 1]);
        }
        lemma_first_notification_fetch_at(queue.drop_first(), k - 1);
        assert(!(queue[0] is Notification));
        if k < queue.len() {
            assert(queue.drop_first()[k - 1] == queue[k]);
        }
    }
}

proof fn lemma_first_notification_fetch_bounds(queue: Seq<RequestView>)
    ensures
        -1 <= first_notification_fetch(queue) < queue.len(),
        first_notification_fetch(queue) >= 0 ==> queue[first_notification_fetch(queue)] is Notification,
    decreases queue.len(),
{
    if queue.len() > 0 && !(queue[0] is Notification) {
        lemma_first_notification_fetch_bounds(queue.drop_first());
        let r = first_notification_fetch(queue.drop_first());
        if r >= 0 {
            assert(queue[r + 1] == queue.drop_first()[r]);
        }
    }
}

/// The fetch queue after a Notification Source event for `meta` that adds or
/// modifies a notification: earlier fetches of it are replaced by one new
/// fetch at the back, making room at the cap.
pub open spec fn queue_fetch(pending: Seq<RequestView>, meta: NotificationMeta) -> Seq<RequestView> {
    make_room(without_uid(pending, meta.uid)).push(RequestView::Notification { meta, attempts: 0 })
}

/// How collected Data Source bytes answer the fetch `r` in flight:
/// `Some(true)` when a whole response has arrived, `Some(false)` when they
/// cannot answer it, `None` while incomplete.
pub open spec fn response_state(r: RequestView, buf: Seq<u8>) -> Option<bool> {
    if buf.len() > DATA_BUFFER_CAP || spec_header_matches_view(r, buf) == Some(false) {
        Some(false)
    } else {
        match r {
            RequestView::Notification { meta, .. } => if spec_notification_response(buf, meta.uid) is Some {
                Some(true)
            } else {
                None
            },
            RequestView::App { bundle_id, .. } => if spec_app_response(buf, bundle_id) is Some {
                Some(true)
            } else {
                None
            },
        }
    }
}

/// `spec_header_matches` over the model of a fetch.
pub open spec fn spec_header_matches_view(r: RequestView, buf: Seq<u8>) -> Option<bool> {
    match r {
        RequestView::Notification { meta, attempts } => spec_header_matches(
            PendingRequest::Notification { meta, attempts },
            buf,
        ),
        RequestView::App { bundle_id, .. } => if buf.len() == 0 {
            None
        } else if buf[0] != COMMAND_GET_APP_ATTRIBUTES {
            Some(false)
        } else {
            match crate::ancs::first_nul_from(buf, 1) {
                None => None,
                Some(t) => Some(vstd::utf8::valid_utf8(buf.subrange(1, t)) && vstd::utf8::decode_utf8(
                    buf.subrange(1, t),
                ) == bundle_id),
            }
        },
    }
}

fn is_notification_fetch(r: &PendingRequest) -> (b: bool)
    ensures
        b == request_view(*r) is Notification,
{
    match r {
        PendingRequest::Notification { .. } => true,
        PendingRequest::App { .. } => false,
    }
}

impl FetchQueue {
    /// The client's invariant: tombstones are held once each.
    pub closed spec fn wf(&self) -> bool {
        self.tombstoned_uids@.no_duplicates()
    }

    /// A fresh session: nothing queued, in flight or buffered.
    pub fn new() -> (c: FetchQueue)
        ensures
            c.wf(),
            c@.pending.len() == 0,
            c@.in_flight is None,
            c@.buffer.len() == 0,
            c@.tombstoned.is_empty(),
    {
        let c = FetchQueue {
            pending: VecDeque::new(),
            in_flight: None,
            data_buffer: Vec::new(),
            tombstoned_uids: Vec::new(),
        };
        assert(c@.pending =~= Seq::<RequestView>::empty());
        assert(c@.tombstoned =~= Set::<u32>::empty());
        c
    }

    /// Whether a fetch can be written now: none in flight and one queued.
    pub fn can_pump(&self) -> (b: bool)
        ensures
            b == (self@.in_flight is None && self@.pending.len() > 0),
    {
        self.in_flight.is_none() && self.pending.len() > 0
    }

    fn tombstone_index(&self, uid: u32) -> (i: Option<usize>)
        ensures
            match i {
                Some(k) => k < self.tombstoned_uids@.len() && self.tombstoned_uids@[k as int] == uid,
                None => !self.tombstoned_uids@.contains(uid),
            },
    {
        let mut k: usize = 0;
        while k < self.tombstoned_uids.len()
            invariant
                k <= self.tombstoned_uids@.len(),
                forall|j: int| 0 <= j < k ==> self.tombstoned_uids@[j] != uid,
            decreases self.tombstoned_uids@.len() - k,
        {
            if self.tombstoned_uids[k] == uid {
                return Some(k);
            }
            k = k + 1;
        }
        None
    }

    /// Drops the tombstone of `uid`; returns whether there was one.
    pub fn take_tombstone(&mut self, uid: u32) -> (had: bool)
        requires
            old(self).wf(),
        ensures
            final(self).wf(),
            had == old(self)@.tombstoned.contains(uid),
            final(self)@.tombstoned == old(self)@.tombstoned.remove(uid),
            final(self)@.pending == old(self)@.pending,
            final(self)@.in_flight == old(self)@.in_flight,
            final(self)@.buffer == old(self)@.buffer,
    {
        match self.tombstone_index(uid) {
            Some(k) => {
                proof {
                    lemma_remove_value_set(self.tombstoned_uids@, uid, k as int);
                }
                self.tombstoned_uids.remove(k);
                true
            },
            None => {
                assert(self@.tombstoned =~= old(self)@.tombstoned.remove(uid));
                false
            },
        }
    }

    /// Marks `uid` as removed while its fetch is in flight.
    fn add_tombstone(&mut self, uid: u32)
        requires
            old(self).wf(),
        ensures
            final(self).wf(),
            final(self)@.tombstoned == old(self)@.tombstoned.insert(uid),
            final(self)@.pending == old(self)@.pending,
            final(self)@.in_flight == old(self)@.in_flight,
            final(self)@.buffer == old(self)@.buffer,
    {
        match self.tombstone_index(uid) {
            Some(k) => {
                assert(self@.tombstoned =~= old(self)@.tombstoned.insert(uid));
            },
            None => {
                let ghost before = self.tombstoned_uids@;
                self.tombstoned_uids.push(uid);
                proof {
                    before.lemma_push_to_set_commute(uid);
                    assert(self.tombstoned_uids@ == before.push(uid));
                }
                assert(self@.tombstoned =~= old(self)@.tombstoned.insert(uid));
            },
        }
    }

    /// Removes every queued fetch of notification `uid`, order kept.
    fn drop_queued_uid(&mut self, uid: u32)
        requires
            old(self).wf(),
        ensures
            final(self).wf(),
            final(self)@.pending == without_uid(old(self)@.pending, uid),
            final(self)@.in_flight == old(self)@.in_flight,
            final(self)@.buffer == old(self)@.buffer,
            final(self)@.tombstoned == old(self)@.tombstoned,
    {
        let ghost q = self@.pending;
        let n = self.pending.len();
        let mut kept: VecDeque<PendingRequest> = VecDeque::new();
        let mut i: usize = 0;
        assert(q.take(0) =~= Seq::<RequestView>::empty());
        while i < n
            invariant
                n == q.len(),
                i <= n,
                requests_view(self.pending@) == q.subrange(i as int, n as int),
                requests_view(kept@) == without_uid(q.take(i as int), uid),
                self.wf(),
                self@.in_flight == old(self)@.in_flight,
                self@.buffer == old(self)@.buffer,
                self@.tombstoned == old(self)@.tombstoned,
            decreases n - i,
        {
            let ghost before = self.pending@;
            assert(before.len() > 0) by {
                assert(requests_view(before).len() == before.len());
            }
            let r = match self.pending.pop_front() {
                Some(r) => r,
                None => {
                    assert(false);
                    return;
                },
            };
            assert(request_view(r) == q[i as int]) by {
                assert(requests_view(before)[0] == q[i as int]);
            }
            proof {
                lemma_without_uid_step(q, uid, i as int);
            }
            let drop = match &r {
                PendingRequest::Notification { meta, .. } => meta.uid == uid,
                PendingRequest::App { .. } => false,
            };
            if !drop {
                kept.push_back(r);
            }
            let ghost old_i = i;
            i = i + 1;
            assert forall|j: int| 0 <= j < self.pending@.len() implies #[trigger] requests_view(self.pending@)[j] == q.subrange(i as int, n as int)[j] by {
                assert(self.pending@[j] == before[j + 1]);
                assert(requests_view(before).len() == before.len());
                assert(before.len() == n - old_i);
                assert(requests_view(before)[j + 1] == request_view(before[j + 1]));
                assert(requests_view(before)[j + 1] == q.subrange(old_i as int, n as int)[j + 1]);
                assert(q.subrange(old_i as int, n as int)[j + 1] == q[old_i + 1 + j]);
            }
            assert(requests_view(self.pending@) =~= q.subrange(i as int, n as int));
            assert(requests_view(kept@) =~= without_uid(q.take(i as int), uid));
        }
        assert(q.take(n as int) =~= q);
        self.pending = kept;
    }

    /// At the cap, drops the oldest queued notification fetch.
    fn make_room(&mut self)
        requires
            old(self).wf(),
        ensures
            final(self).wf(),
            final(self)@.pending == make_room(old(self)@.pending),
            final(self)@.in_flight == old(self)@.in_flight,
            final(self)@.buffer == old(self)@.buffer,
            final(self)@.tombstoned == old(self)@.tombstoned,
    {
        if self.pending.len() < PENDING_QUEUE_CAP {
            return;
        }
        let ghost q = self@.pending;
        let mut k: usize = 0;
        while k < self.pending.len() && !is_notification_fetch(&self.pending[k])
            invariant
                k <= q.len(),
                q == self@.pending,
                forall|j: int| 0 <= j < k ==> !(#[trigger] q[j] is Notification),
            decreases q.len() - k,
        {
            k = k + 1;
        }
        proof {
            lemma_first_notification_fetch_at(q, k as int);
        }
        if k < self.pending.len() {
            let ghost before = self.pending@;
            let _ = self.pending.remove(k);
            assert(self@.pending =~= q.remove(k as int));
        }
    }

    /// Acts on a Notification Source frame: a removal tombstones the fetch
    /// in flight for that notification and drops its queued fetches; an
    /// addition or modification queues one fresh fetch at the back.
    pub fn on_notification_source(&mut self, frame: &[u8]) -> (outcome: SourceOutcome)
        requires
            old(self).wf(),
        ensures
            final(self).wf(),
            final(self)@.in_flight == old(self)@.in_flight,
            final(self)@.buffer == old(self)@.buffer,
            match crate::ancs::spec_notification_meta(frame@) {
                None => outcome == SourceOutcome::Ignored && final(self)@ == old(self)@,
                Some(meta) => if meta.event_id == EVENT_REMOVED {
                    &&& outcome == SourceOutcome::Removed(meta.uid)
                    &&& final(self)@.pending == without_uid(old(self)@.pending, meta.uid)
                    &&& final(self)@.tombstoned == if (old(self)@.in_flight matches Some(r) && fetches_uid(r, meta.uid)) {
                        old(self)@.tombstoned.insert(meta.uid)
                    } else {
                        old(self)@.tombstoned
                    }
                } else if meta.event_id == EVENT_ADDED || meta.event_id == EVENT_MODIFIED {
                    &&& outcome == SourceOutcome::Queued(meta.uid)
                    &&& final(self)@.pending == queue_fetch(old(self)@.pending, meta)
                    &&& final(self)@.tombstoned == old(self)@.tombstoned.remove(meta.uid)
                } else {
                    outcome == SourceOutcome::Ignored && final(self)@ == old(self)@
                },
            },
    {
        let meta = match NotificationMeta::parse(frame) {
            Some(m) => m,
            None => return SourceOutcome::Ignored,
        };
        if meta.event_id == EVENT_REMOVED {
            let in_flight_matches = match &self.in_flight {
                Some(PendingRequest::Notification { meta: queued, .. }) => queued.uid == meta.uid,
                _ => false,
            };
            if in_flight_matches {
                self.add_tombstone(meta.uid);
            }
            self.drop_queued_uid(meta.uid);
            return SourceOutcome::Removed(meta.uid);
        }
        if meta.event_id != EVENT_ADDED && meta.event_id != EVENT_MODIFIED {
            return SourceOutcome::Ignored;
        }
        let _ = self.take_tombstone(meta.uid);
        self.drop_queued_uid(meta.uid);
        self.make_room();
        let ghost before = self@.pending;
        self.pending.push_back(PendingRequest::Notification { meta, attempts: 0 });
        assert(self@.pending =~= before.push(RequestView::Notification { meta, attempts: 0 }));
        SourceOutcome::Queued(meta.uid)
    }

    /// Collects a Data Source fragment for the fetch in flight. Without one
    /// the bytes are discarded. Bytes that cannot answer it (or more than
    /// `DATA_BUFFER_CAP`) make it fail; a whole response completes it, and
    /// bytes after the response are discarded.
    pub fn on_data_source(&mut self, fragment: &[u8]) -> (outcome: DataOutcome)
        requires
            old(self).wf(),
        ensures
            final(self).wf(),
            ({
                let buf = old(self)@.buffer + fragment@;
                match old(self)@.in_flight {
                    None => outcome is Unsolicited && final(self)@.buffer.len() == 0 && final(self)@.pending == old(
                        self,
                    )@.pending && final(self)@.in_flight is None && final(self)@.tombstoned == old(self)@.tombstoned,
                    Some(r) => match response_state(r, buf) {
                        Some(false) => (outcome matches DataOutcome::Invalid(d) && (d matches Some(q) ==> request_view(q)
                            == counted_view(r)) && match counted_view(r) {
                            RequestView::App { attempts, .. } => (d is Some) == (attempts >= FETCH_ATTEMPTS),
                            RequestView::Notification { meta, attempts } => (d is Some) == (!old(
                                self,
                            )@.tombstoned.contains(meta.uid) && attempts >= FETCH_ATTEMPTS),
                        }) && final(self)@.buffer.len() == 0 && final(self)@.in_flight is None
                            && (final(self)@.pending, final(self)@.tombstoned) == after_failure(
                            old(self)@.pending,
                            old(self)@.tombstoned,
                            r,
                        ),
                        None => outcome is Waiting && final(self)@.buffer == buf && final(self)@.in_flight == old(
                            self,
                        )@.in_flight && final(self)@.pending == old(self)@.pending && final(self)@.tombstoned == old(
                            self,
                        )@.tombstoned,
                        Some(true) => final(self)@.buffer.len() == 0 && final(self)@.in_flight is None
                            && final(self)@.pending == old(self)@.pending && final(self)@.tombstoned == old(self)@.tombstoned
                            && match r {
                            RequestView::Notification { meta, .. } => outcome matches DataOutcome::Notification(m, f) && m
                                == meta && Some((f@, spec_notification_response(buf, meta.uid)->Some_0.1))
                                == spec_notification_response(buf, meta.uid),
                            RequestView::App { bundle_id, .. } => outcome matches DataOutcome::AppName(b, name) && b@
                                == bundle_id && Some((name@, spec_app_response(buf, bundle_id)->Some_0.1))
                                == spec_app_response(buf, bundle_id),
                        },
                    },
                }
            }),
    {
        extend_bytes(&mut self.data_buffer, fragment);
        let header = match &self.in_flight {
            None => {
                self.data_buffer.clear();
                return DataOutcome::Unsolicited;
            },
            Some(request) => response_header_matches(request, self.data_buffer.as_slice()),
        };
        let too_long = self.data_buffer.len() > DATA_BUFFER_CAP;
        let mismatch = match header {
            Some(false) => true,
            _ => false,
        };
        if too_long || mismatch {
            self.data_buffer.clear();
            let request = match self.in_flight.take() {
                Some(r) => r,
                None => {
                    return DataOutcome::Invalid(None);
                },
            };
            let dropped = self.retry_or_drop(request);
            return DataOutcome::Invalid(dropped);
        }
        let parsed = match &self.in_flight {
            Some(PendingRequest::Notification { meta, .. }) => match parse_notification_response(
                self.data_buffer.as_slice(),
                meta.uid,
            ) {
                Some((fields, consumed)) => Some(DataOutcome::Notification(*meta, fields)),
                None => None,
            },
            Some(PendingRequest::App { bundle_id, .. }) => match parse_app_response(
                self.data_buffer.as_slice(),
                bundle_id.as_str(),
            ) {
                Some((name, consumed)) => Some(DataOutcome::AppName(bundle_id.clone(), name)),
                None => None,
            },
            None => None,
        };
        match parsed {
            None => DataOutcome::Waiting,
            Some(outcome) => {
                self.in_flight = None;
                self.data_buffer.clear();
                outcome
            },
        }
    }

    /// Counts a failed attempt of `request` and retries it first in line, or
    /// drops it when its notification was removed meanwhile or it has had
    /// `FETCH_ATTEMPTS` attempts. Returns the request when it was dropped
    /// after its attempts ran out (the caller forgets a dropped app-name
    /// fetch).
    pub fn retry_or_drop(&mut self, request: PendingRequest) -> (dropped: Option<PendingRequest>)
        requires
            old(self).wf(),
        ensures
            final(self).wf(),
            (final(self)@.pending, final(self)@.tombstoned) == after_failure(
                old(self)@.pending,
                old(self)@.tombstoned,
                request_view(request),
            ),
            final(self)@.in_flight == old(self)@.in_flight,
            final(self)@.buffer == old(self)@.buffer,
            dropped matches Some(d) ==> request_view(d) == counted_view(request_view(request)),
            match counted_view(request_view(request)) {
                RequestView::App { attempts, .. } => (dropped is Some) == (attempts >= FETCH_ATTEMPTS),
                RequestView::Notification { meta, attempts } => (dropped is Some) == (!old(
                    self,
                )@.tombstoned.contains(meta.uid) && attempts >= FETCH_ATTEMPTS),
            },
    {
        let request = request.increment_attempts();
        let removed = match &request {
            PendingRequest::Notification { meta, .. } => self.take_tombstone(meta.uid),
            PendingRequest::App { .. } => false,
        };
        if removed {
            return None;
        }
        if request.attempts() < FETCH_ATTEMPTS {
            let ghost before = self.pending@;
            self.pending.push_front(request);
            assert(self@.pending =~= seq![request_view(request)] + old(self)@.pending);
            return None;
        }
        Some(request)
    }

    /// Takes the next queued fetch for writing, with its Control Point command.
    pub fn next_request(&mut self) -> (r: Option<(PendingRequest, Vec<u8>)>)
        requires
            old(self).wf(),
        ensures
            final(self).wf(),
            old(self)@.pending.len() == 0 ==> r is None && final(self)@ == old(self)@,
            old(self)@.pending.len() > 0 ==> (r matches Some((req, cmd)) && request_view(req) == old(self)@.pending[0]
                && final(self)@.pending == old(self)@.pending.drop_first() && final(self)@.in_flight == old(
                self,
            )@.in_flight && final(self)@.buffer == old(self)@.buffer && final(self)@.tombstoned == old(
                self,
            )@.tombstoned && cmd@ == match req {
                PendingRequest::Notification { meta, .. } => notification_attributes_command(meta.uid),
                PendingRequest::App { bundle_id, .. } => app_attributes_command(bundle_id@),
            }),
    {
        match self.pending.pop_front() {
            Some(req) => {
                assert(self@.pending =~= old(self)@.pending.drop_first());
                let cmd = match &req {
                    PendingRequest::Notification { meta, .. } => build_get_notification_attributes(meta.uid),
                    PendingRequest::App { bundle_id, .. } => build_get_app_attributes(bundle_id.as_str()),
                };
                Some((req, cmd))
            },
            None => {
                assert(self@.pending =~= old(self)@.pending);
                None
            },
        }
    }

    /// Queues a fetch of the display name of `bundle_id`, first in line.
    pub fn request_app_name(&mut self, bundle_id: String)
        requires
            old(self).wf(),
        ensures
            final(self).wf(),
            final(self)@.pending == seq![RequestView::App { bundle_id: bundle_id@, attempts: 0 }] + old(self)@.pending,
            final(self)@.in_flight == old(self)@.in_flight,
            final(self)@.buffer == old(self)@.buffer,
            final(self)@.tombstoned == old(self)@.tombstoned,
    {
        let ghost b = bundle_id@;
        self.pending.push_front(PendingRequest::App { bundle_id, attempts: 0 });
        assert(self@.pending =~= seq![RequestView::App { bundle_id: b, attempts: 0 }] + old(self)@.pending);
    }

    /// The Control Point write of `request` succeeded: it is now in flight.
    pub fn write_succeeded(&mut self, request: PendingRequest)
        ensures
            final(self)@.in_flight == Some(request_view(request)),
            final(self)@.pending == old(self)@.pending,
            final(self)@.buffer == old(self)@.buffer,
            final(self)@.tombstoned == old(self)@.tombstoned,
            final(self).wf() == old(self).wf(),
    {
        self.in_flight = Some(request);
    }

    /// The fetch in flight timed out: its bytes are discarded and it is
    /// retried or dropped.
    pub fn on_fetch_timeout(&mut self) -> (dropped: Option<PendingRequest>)
        requires
            old(self).wf(),
        ensures
            final(self).wf(),
            old(self)@.in_flight is None ==> final(self)@ == old(self)@ && dropped is None,
            old(self)@.in_flight matches Some(r) ==> final(self)@.in_flight is None && final(self)@.buffer.len() == 0
                && (final(self)@.pending, final(self)@.tombstoned) == after_failure(
                old(self)@.pending,
                old(self)@.tombstoned,
                r,
            ) && (dropped matches Some(d) ==> request_view(d) == counted_view(r)) && match counted_view(r) {
                RequestView::App { attempts, .. } => (dropped is Some) == (attempts >= FETCH_ATTEMPTS),
                RequestView::Notification { meta, attempts } => (dropped is Some) == (!old(
                    self,
                )@.tombstoned.contains(meta.uid) && attempts >= FETCH_ATTEMPTS),
            },
    {
        match self.in_flight.take() {
            Some(request) => {
                self.data_buffer.clear();
                self.retry_or_drop(request)
            },
            None => None,
        }
    }
}

/// The board once a fetch that failed was dropped: a dropped app-name
/// fetch is forgotten.
pub open spec fn board_after_drop(b: BoardView, pending: Seq<RequestView>, tombstoned: Set<u32>, r: RequestView) -> BoardView {
    match counted_view(r) {
        RequestView::App { bundle_id, attempts } => if attempts < FETCH_ATTEMPTS {
            b
        } else {
            after_forget(b, bundle_id)
        },
        RequestView::Notification { .. } => b,
    }
}

/// An ANCS session: its fetches and the notifications it shows.
pub struct AncsClient {
    pub fetches: FetchQueue,
    pub board: NotificationBoard,
}

impl AncsClient {
    /// Both parts are well formed.
    pub open spec fn wf(&self) -> bool {
        self.fetches.wf() && self.board.wf()
    }

    /// A fresh session.
    pub fn new() -> (c: AncsClient)
        ensures
            c.wf(),
            c.fetches@.pending.len() == 0,
            c.fetches@.in_flight is None,
            c.board@.active.len() == 0,
    {
        AncsClient { fetches: FetchQueue::new(), board: NotificationBoard::new() }
    }

    /// Acts on a Notification Source frame; a removal also takes the
    /// notification off the board (the caller tells the UI).
    pub fn on_notification_source(&mut self, frame: &[u8]) -> (outcome: SourceOutcome)
        requires
            old(self).wf(),
        ensures
            final(self).wf(),
            match crate::ancs::spec_notification_meta(frame@) {
                None => outcome == SourceOutcome::Ignored && final(self).fetches@ == old(self).fetches@
                    && final(self).board@ == old(self).board@,
                Some(meta) => if meta.event_id == EVENT_REMOVED {
                    &&& outcome == SourceOutcome::Removed(meta.uid)
                    &&& final(self).fetches@.pending == without_uid(old(self).fetches@.pending, meta.uid)
                    &&& final(self).fetches@.in_flight == old(self).fetches@.in_flight
                    &&& final(self).fetches@.tombstoned == if (old(self).fetches@.in_flight matches Some(r)
                        && fetches_uid(r, meta.uid)) {
                        old(self).fetches@.tombstoned.insert(meta.uid)
                    } else {
                        old(self).fetches@.tombstoned
                    }
                    &&& final(self).board@ == after_remove(old(self).board@, meta.uid)
                } else if meta.event_id == EVENT_ADDED || meta.event_id == EVENT_MODIFIED {
                    &&& outcome == SourceOutcome::Queued(meta.uid)
                    &&& final(self).fetches@.pending == queue_fetch(old(self).fetches@.pending, meta)
                    &&& final(self).fetches@.in_flight == old(self).fetches@.in_flight
                    &&& final(self).fetches@.tombstoned == old(self).fetches@.tombstoned.remove(meta.uid)
                    &&& final(self).board@ == old(self).board@
                } else {
                    outcome == SourceOutcome::Ignored && final(self).fetches@ == old(self).fetches@
                        && final(self).board@ == old(self).board@
                },
            },
            final(self).fetches@.buffer == old(self).fetches@.buffer,
    {
        let outcome = self.fetches.on_notification_source(frame);
        match outcome {
            SourceOutcome::Removed(uid) => self.board.remove_uid(uid),
            _ => {},
        }
        outcome
    }

    /// Forgets a dropped fetch of an app's name.
    fn forget_dropped(&mut self, dropped: Option<PendingRequest>)
        requires
            old(self).wf(),
        ensures
            final(self).wf(),
            final(self).fetches@ == old(self).fetches@,
            final(self).board@ == match dropped {
                Some(PendingRequest::App { bundle_id, .. }) => after_forget(old(self).board@, bundle_id@),
                _ => old(self).board@,
            },
    {
        match dropped {
            Some(PendingRequest::App { bundle_id, .. }) => self.board.forget_app_request(bundle_id.as_str()),
            _ => {},
        }
    }

    /// The Control Point write of `request` failed: it is retried or dropped.
    pub fn write_failed(&mut self, request: PendingRequest)
        requires
            old(self).wf(),
        ensures
            final(self).wf(),
            (final(self).fetches@.pending, final(self).fetches@.tombstoned) == after_failure(
                old(self).fetches@.pending,
                old(self).fetches@.tombstoned,
                request_view(request),
            ),
            final(self).fetches@.in_flight == old(self).fetches@.in_flight,
            final(self).fetches@.buffer == old(self).fetches@.buffer,
            final(self).board@ == board_after_drop(
                old(self).board@,
                old(self).fetches@.pending,
                old(self).fetches@.tombstoned,
                request_view(request),
            ),
    {
        let dropped = self.fetches.retry_or_drop(request);
        self.forget_dropped(dropped);
    }

    /// The fetch in flight timed out.
    pub fn on_fetch_timeout(&mut self)
        requires
            old(self).wf(),
        ensures
            final(self).wf(),
            old(self).fetches@.in_flight is None ==> final(self).fetches@ == old(self).fetches@ && final(self).board@
                == old(self).board@,
            old(self).fetches@.in_flight matches Some(r) ==> {
                &&& final(self).fetches@.in_flight is None
                &&& final(self).fetches@.buffer.len() == 0
                &&& (final(self).fetches@.pending, final(self).fetches@.tombstoned) == after_failure(
                    old(self).fetches@.pending,
                    old(self).fetches@.tombstoned,
                    r,
                )
                &&& final(self).board@ == board_after_drop(
                    old(self).board@,
                    old(self).fetches@.pending,
                    old(self).fetches@.tombstoned,
                    r,
                )
            },
    {
        let dropped = self.fetches.on_fetch_timeout();
        self.forget_dropped(dropped);
    }

    /// Collects a Data Source fragment and acts on a completed response: a
    /// notification is shown (unless it was removed meanwhile) and its app's
    /// name fetched when unknown; an app's name re-titles its notifications.
    /// Returns the notifications to show, in order.
    pub fn on_data_source(&mut self, fragment: &[u8], now_ms: u64) -> (shows: Vec<NotificationShow>)
        requires
            old(self).wf(),
        ensures
            final(self).wf(),
            ({
                let buf = old(self).fetches@.buffer + fragment@;
                let f0 = old(self).fetches@;
                let b0 = old(self).board@;
                let f1 = final(self).fetches@;
                let b1 = final(self).board@;
                match f0.in_flight {
                    None => shows@.len() == 0 && b1 == b0 && f1.buffer.len() == 0 && f1.in_flight is None
                        && f1.pending == f0.pending && f1.tombstoned == f0.tombstoned,
                    Some(r) => match response_state(r, buf) {
                        None => shows@.len() == 0 && b1 == b0 && f1.buffer == buf && f1.in_flight == f0.in_flight
                            && f1.pending == f0.pending && f1.tombstoned == f0.tombstoned,
                        Some(false) => shows@.len() == 0 && f1.buffer.len() == 0 && f1.in_flight is None && (
                        f1.pending, f1.tombstoned) == after_failure(f0.pending, f0.tombstoned, r) && b1
                            == board_after_drop(b0, f0.pending, f0.tombstoned, r),
                        Some(true) => f1.buffer.len() == 0 && f1.in_flight is None && match r {
                            RequestView::Notification { meta, .. } => {
                                let fields = spec_notification_response(buf, meta.uid)->Some_0.0;
                                if f0.tombstoned.contains(meta.uid) {
                                    &&& shows@.len() == 0
                                    &&& b1 == b0
                                    &&& f1.pending == f0.pending
                                    &&& f1.tombstoned == f0.tombstoned.remove(meta.uid)
                                } else {
                                    &&& shows_view(shows@) == seq![show_on(b0, meta, fields, now_ms)]
                                    &&& b1 == after_fields(b0, meta, fields).0
                                    &&& f1.tombstoned == f0.tombstoned
                                    &&& f1.pending == match after_fields(b0, meta, fields).1 {
                                        Some(x) => seq![RequestView::App { bundle_id: x, attempts: 0 }] + f0.pending,
                                        None => f0.pending,
                                    }
                                }
                            },
                            RequestView::App { bundle_id, .. } => {
                                let name = spec_app_response(buf, bundle_id)->Some_0.0;
                                &&& shows_view(shows@) == shows_after_app_name(b0, bundle_id, name, now_ms)
                                &&& b1 == after_app_name(b0, bundle_id, name)
                                &&& f1.pending == f0.pending
                                &&& f1.tombstoned == f0.tombstoned
                            },
                        },
                    },
                }
            }),
    {
        let outcome = self.fetches.on_data_source(fragment);
        match outcome {
            DataOutcome::Unsolicited => Vec::new(),
            DataOutcome::Waiting => Vec::new(),
            DataOutcome::Invalid(dropped) => {
                self.forget_dropped(dropped);
                Vec::new()
            },
            DataOutcome::Notification(meta, fields) => {
                if self.fetches.take_tombstone(meta.uid) {
                    return Vec::new();
                }
                let (show, fetch) = self.board.handle_notification_fields(meta, fields, now_ms);
                match fetch {
                    Some(b) => self.fetches.request_app_name(b),
                    None => {},
                }
                let mut shows: Vec<NotificationShow> = Vec::new();
                shows.push(show);
                assert(shows_view(shows@) =~= seq![show@]);
                shows
            },
            DataOutcome::AppName(bundle, name) => self.board.handle_app_name(bundle.as_str(), name.as_str(), now_ms),
        }
    }

    /// Ends the session's notifications; returns the UIDs to take off the UI.
    pub fn clear_active(&mut self) -> (ids: Vec<u32>)
        requires
            old(self).wf(),
        ensures
            final(self).wf(),
            ids@.to_set() == old(self).board@.active_ids,
            ids@.no_duplicates(),
            final(self).board@.active.len() == 0,
            final(self).board@.active_ids.is_empty(),
            final(self).fetches@ == old(self).fetches@,
    {
        self.board.clear_active()
    }
}

} // verus!
