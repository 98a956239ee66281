//! Where the phone's replies go: a reply to a call the daemon is waiting on
//! goes to that call alone (and the call stops waiting); otherwise the
//! request it answers is looked up among the UI requests forwarded to the
//! phone, the method calls whose results the daemon acts on, and the artwork
//! fetches.
use vstd::prelude::*;
use crate::events::{call_error_view, member_text, opt_chars, pending_call_error};
use crate::json::{copy_json, owned_view, Json};
use crate::search::{first_index, lemma_first_index_at, lemma_first_index_is_first};
use crate::text::str_eq;

verus! {

/// Whether an entry is keyed by `k`.
pub open spec fn key_of(k: Seq<char>) -> spec_fn((Seq<char>, Seq<char>)) -> bool {
    |e: (Seq<char>, Seq<char>)| e.0 == k
}

/// Whether an id is `k`.
pub open spec fn id_of(k: Seq<char>) -> spec_fn(Seq<char>) -> bool {
    |e: Seq<char>| e == k
}

/// The value kept under `k`.
pub open spec fn lookup(s: Seq<(Seq<char>, Seq<char>)>, k: Seq<char>) -> Option<Seq<char>> {
    let i = first_index(s, key_of(k));
    if i >= 0 {
        Some(s[i].1)
    } else {
        None
    }
}

/// The entries without the one under `k`.
pub open spec fn without_key(s: Seq<(Seq<char>, Seq<char>)>, k: Seq<char>) -> Seq<(Seq<char>, Seq<char>)> {
    let i = first_index(s, key_of(k));
    if i >= 0 {
        s.remove(i)
    } else {
        s
    }
}

/// The entries with `k` mapped to `v`: the entry under `k` takes the value,
/// or a new entry goes at the end.
pub open spec fn with_key(s: Seq<(Seq<char>, Seq<char>)>, k: Seq<char>, v: Seq<char>) -> Seq<(Seq<char>, Seq<char>)> {
    let i = first_index(s, key_of(k));
    if i >= 0 {
        s.update(i, (k, v))
    } else {
        s.push((k, v))
    }
}

/// Whether `k` is among the ids.
pub open spec fn holds_id(s: Seq<Seq<char>>, k: Seq<char>) -> bool {
    first_index(s, id_of(k)) >= 0
}

/// The ids without `k`.
pub open spec fn without_id_text(s: Seq<Seq<char>>, k: Seq<char>) -> Seq<Seq<char>> {
    let i = first_index(s, id_of(k));
    if i >= 0 {
        s.remove(i)
    } else {
        s
    }
}

/// Model of the requests the daemon is waiting to see answered.
pub struct TrackerView {
    /// Calls the daemon made and is waiting on, by id.
    pub calls: Seq<Seq<char>>,
    /// UI requests forwarded to the phone, by id.
    pub websocket: Seq<Seq<char>>,
    /// Method calls whose result the daemon acts on: id and method.
    pub methods: Seq<(Seq<char>, Seq<char>)>,
    /// Artwork fetches: id and URL.
    pub images: Seq<(Seq<char>, Seq<char>)>,
}

/// The requests the daemon is waiting to see answered.
pub struct ReplyTracker {
    calls: Vec<String>,
    websocket: Vec<String>,
    methods: Vec<(String, String)>,
    images: Vec<(String, String)>,
}

/// The texts of the ids.
pub open spec fn ids_view(v: Seq<String>) -> Seq<Seq<char>> {
    v.map_values(|s: String| s@)
}

/// The texts of the entries.
pub open spec fn pairs_view(v: Seq<(String, String)>) -> Seq<(Seq<char>, Seq<char>)> {
    v.map_values(|p: (String, String)| (p.0@, p.1@))
}

impl View for ReplyTracker {
    type V = TrackerView;

    closed spec fn view(&self) -> TrackerView {
        TrackerView {
            calls: ids_view(self.calls@),
            websocket: ids_view(self.websocket@),
            methods: pairs_view(self.methods@),
            images: pairs_view(self.images@),
        }
    }
}

/// Where a result goes.
pub struct ResultRoute {
    /// What the waiting call receives, when the daemon is waiting on it
    /// (then the result goes nowhere else).
    pub call_reply: Option<Json>,
    /// It answers `device.time.get`: set the clock from it.
    pub set_time: bool,
    /// It answers the artwork fetch of this URL.
    pub image_url: Option<String>,
    /// The artwork to cache for that URL: the result's `data` text.
    pub image_data: Option<String>,
    /// Back to the UI client that asked.
    pub to_websocket: bool,
}

/// Where an error reply goes.
pub struct ErrorRoute {
    /// What the waiting call receives, `{"__error": <error>}`, when the
    /// daemon is waiting on it (then the error goes nowhere else).
    pub call_reply: Option<Json>,
    /// Back to the UI client that asked.
    pub to_websocket: bool,
}

fn find_key(v: &Vec<(String, String)>, k: &str) -> (r: Option<usize>)
    ensures
        match r {
            Some(i) => i < v@.len() && first_index(pairs_view(v@), key_of(k@)) == i,
            None => first_index(pairs_view(v@), key_of(k@)) == -1,
        },
{
    let ghost s = pairs_view(v@);
    let mut i: usize = 0;
    while i < v.len()
        invariant
            i <= v@.len(),
            s == pairs_view(v@),
            forall|j: int| 0 <= j < i ==> !(#[trigger] key_of(k@)(s[j])),
        decreases v@.len() - i,
    {
        if str_eq(v[i].0.as_str(), k) {
            proof {
                assert(key_of(k@)(s[i as int]));
                lemma_first_index_at(s, key_of(k@), i as int);
            }
            return Some(i);
        }
        assert(!key_of(k@)(s[i as int]));
        i = i + 1;
    }
    proof {
        lemma_first_index_at(s, key_of(k@), i as int);
    }
    None
}

fn find_id(v: &Vec<String>, k: &str) -> (r: Option<usize>)
    ensures
        match r {
            Some(i) => i < v@.len() && first_index(ids_view(v@), id_of(k@)) == i,
            None => first_index(ids_view(v@), id_of(k@)) == -1,
        },
{
    let ghost s = ids_view(v@);
    let mut i: usize = 0;
    while i < v.len()
        invariant
            i <= v@.len(),
            s == ids_view(v@),
            forall|j: int| 0 <= j < i ==> !(#[trigger] id_of(k@)(s[j])),
        decreases v@.len() - i,
    {
        if str_eq(v[i].as_str(), k) {
            proof {
                assert(id_of(k@)(s[i as int]));
                lemma_first_index_at(s, id_of(k@), i as int);
            }
            return Some(i);
        }
        assert(!id_of(k@)(s[i as int]));
        i = i + 1;
    }
    proof {
        lemma_first_index_at(s, id_of(k@), i as int);
    }
    None
}

/// Maps `k` to `v` among the entries.
fn put_key(entries: &mut Vec<(String, String)>, k: &str, v: String)
    ensures
        pairs_view(final(entries)@) == with_key(pairs_view(old(entries)@), k@, v@),
{
    let ghost before = pairs_view(entries@);
    let ghost vv = v@;
    match find_key(entries, k) {
        Some(i) => {
            entries.set(i, (k.to_owned(), v));
            assert(pairs_view(entries@) =~= before.update(i as int, (k@, vv)));
        },
        None => {
            entries.push((k.to_owned(), v));
            assert(pairs_view(entries@) =~= before.push((k@, vv)));
        },
    }
}

/// Takes the entry under `k` out, giving its value.
fn take_key(entries: &mut Vec<(String, String)>, k: &str) -> (value: Option<String>)
    ensures
        opt_chars(value) == lookup(pairs_view(old(entries)@), k@),
        pairs_view(final(entries)@) == without_key(pairs_view(old(entries)@), k@),
{
    let ghost before = pairs_view(entries@);
    match find_key(entries, k) {
        Some(i) => {
            let (_, v) = entries.remove(i);
            assert(pairs_view(entries@) =~= before.remove(i as int));
            Some(v)
        },
        None => None,
    }
}

/// Takes the id `k` out, saying whether it was there.
fn take_id(ids: &mut Vec<String>, k: &str) -> (was: bool)
    ensures
        was == holds_id(ids_view(old(ids)@), k@),
        ids_view(final(ids)@) == without_id_text(ids_view(old(ids)@), k@),
{
    let ghost before = ids_view(ids@);
    match find_id(ids, k) {
        Some(i) => {
            ids.remove(i);
            assert(ids_view(ids@) =~= before.remove(i as int));
            true
        },
        None => false,
    }
}

/// No two entries share a key.
pub open spec fn unique_keys(s: Seq<(Seq<char>, Seq<char>)>) -> bool {
    forall|i: int, j: int| 0 <= i < j < s.len() ==> (#[trigger] s[i]).0 != (#[trigger] s[j]).0
}

/// Each request is recorded at most once in each table.
pub open spec fn tracker_wf(v: TrackerView) -> bool {
    &&& v.calls.no_duplicates()
    &&& v.websocket.no_duplicates()
    &&& unique_keys(v.methods)
    &&& unique_keys(v.images)
}

proof fn lemma_ids_push(s: Seq<Seq<char>>, k: Seq<char>)
    requires
        s.no_duplicates(),
    ensures
        !holds_id(s, k) ==> s.push(k).no_duplicates(),
{
    lemma_first_index_is_first(s, id_of(k));
    if !holds_id(s, k) {
        assert forall|i: int, j: int|
            0 <= i < s.push(k).len() && 0 <= j < s.push(k).len() && i != j implies s.push(k)[i] != s.push(k)[j] by {
            if j == s.len() {
                assert(!id_of(k)(s[i]));
            } else if i == s.len() {
                assert(!id_of(k)(s[j]));
            }
        }
    }
}

proof fn lemma_ids_remove(s: Seq<Seq<char>>, k: Seq<char>)
    requires
        s.no_duplicates(),
    ensures
        without_id_text(s, k).no_duplicates(),
        !holds_id(without_id_text(s, k), k),
{
    lemma_first_index_is_first(s, id_of(k));
    let i = first_index(s, id_of(k));
    let r = without_id_text(s, k);
    if i >= 0 {
        assert forall|a: int, b: int| 0 <= a < r.len() && 0 <= b < r.len() && a != b implies r[a] != r[b] by {
            let a2 = if a < i { a } else { a + 1 };
            let b2 = if b < i { b } else { b + 1 };
            assert(r[a] == s[a2] && r[b] == s[b2]);
        }
        lemma_first_index_is_first(r, id_of(k));
        if first_index(r, id_of(k)) != -1 {
            let m = first_index(r, id_of(k));
            let m2 = if m < i { m } else { m + 1 };
            assert(r[m] == s[m2]);
            assert(s[m2] == s[i]);
        }
    } else {
        lemma_first_index_is_first(r, id_of(k));
    }
}

proof fn lemma_keys_put(s: Seq<(Seq<char>, Seq<char>)>, k: Seq<char>, v: Seq<char>)
    requires
        unique_keys(s),
    ensures
        unique_keys(with_key(s, k, v)),
{
    lemma_first_index_is_first(s, key_of(k));
    let r = with_key(s, k, v);
    assert forall|a: int, b: int| 0 <= a < b < r.len() implies (#[trigger] r[a]).0 != (#[trigger] r[b]).0 by {
        let i = first_index(s, key_of(k));
        if i >= 0 {
            if a == i {
                assert(r[b] == s[b]);
            } else if b == i {
                assert(r[a] == s[a]);
            } else {
                assert(r[a] == s[a] && r[b] == s[b]);
            }
        } else {
            if b == s.len() {
                assert(!key_of(k)(s[a]));
            } else {
                assert(r[a] == s[a] && r[b] == s[b]);
            }
        }
    }
}

proof fn lemma_keys_take(s: Seq<(Seq<char>, Seq<char>)>, k: Seq<char>)
    requires
        unique_keys(s),
    ensures
        unique_keys(without_key(s, k)),
        lookup(without_key(s, k), k) is None,
{
    lemma_first_index_is_first(s, key_of(k));
    let i = first_index(s, key_of(k));
    let r = without_key(s, k);
    if i >= 0 {
        assert forall|a: int, b: int| 0 <= a < b < r.len() implies (#[trigger] r[a]).0 != (#[trigger] r[b]).0 by {
            let a2 = if a < i { a } else { a + 1 };
            let b2 = if b < i { b } else { b + 1 };
            assert(r[a] == s[a2] && r[b] == s[b2]);
        }
        lemma_first_index_is_first(r, key_of(k));
        if first_index(r, key_of(k)) != -1 {
            let m = first_index(r, key_of(k));
            let m2 = if m < i { m } else { m + 1 };
            assert(r[m] == s[m2]);
            if m2 < i {
                assert(s[m2].0 != s[i].0);
            } else {
                assert(s[i].0 != s[m2].0);
            }
        }
    } else {
        lemma_first_index_is_first(r, key_of(k));
    }
}

impl ReplyTracker {
    /// Nothing awaited.
    pub fn new() -> (t: ReplyTracker)
        ensures
            tracker_wf(t@),
            t@.calls == Seq::<Seq<char>>::empty(),
            t@.websocket == Seq::<Seq<char>>::empty(),
            t@.methods == Seq::<(Seq<char>, Seq<char>)>::empty(),
            t@.images == Seq::<(Seq<char>, Seq<char>)>::empty(),
    {
        let t = ReplyTracker { calls: Vec::new(), websocket: Vec::new(), methods: Vec::new(), images: Vec::new() };
        assert(t@.calls =~= Seq::<Seq<char>>::empty());
        assert(t@.websocket =~= Seq::<Seq<char>>::empty());
        assert(t@.methods =~= Seq::<(Seq<char>, Seq<char>)>::empty());
        assert(t@.images =~= Seq::<(Seq<char>, Seq<char>)>::empty());
        t
    }

    /// Notes that the daemon made the call `id` and waits on its reply.
    pub fn await_call(&mut self, id: &str)
        requires
            tracker_wf(old(self)@),
        ensures
            tracker_wf(final(self)@),
            final(self)@.calls == if holds_id(old(self)@.calls, id@) {
                old(self)@.calls
            } else {
                old(self)@.calls.push(id@)
            },
            final(self)@.websocket == old(self)@.websocket,
            final(self)@.methods == old(self)@.methods,
            final(self)@.images == old(self)@.images,
    {
        proof {
            lemma_ids_push(self@.calls, id@);
        }
        if find_id(&self.calls, id).is_none() {
            let ghost before = self@.calls;
            self.calls.push(id.to_owned());
            assert(self@.calls =~= before.push(id@));
        }
    }

    /// Stops waiting on the call `id` (it timed out or could not be sent);
    /// says whether it was awaited.
    pub fn cancel_call(&mut self, id: &str) -> (was: bool)
        requires
            tracker_wf(old(self)@),
        ensures
            tracker_wf(final(self)@),
            !holds_id(final(self)@.calls, id@),
            was == holds_id(old(self)@.calls, id@),
            final(self)@.calls == without_id_text(old(self)@.calls, id@),
            final(self)@.websocket == old(self)@.websocket,
            final(self)@.methods == old(self)@.methods,
            final(self)@.images == old(self)@.images,
    {
        proof {
            lemma_ids_remove(self@.calls, id@);
        }
        take_id(&mut self.calls, id)
    }

    /// Notes that the request `id` came from a UI client.
    pub fn mark_as_websocket_message(&mut self, id: &str)
        requires
            tracker_wf(old(self)@),
        ensures
            tracker_wf(final(self)@),
            final(self)@.websocket == if holds_id(old(self)@.websocket, id@) {
                old(self)@.websocket
            } else {
                old(self)@.websocket.push(id@)
            },
            final(self)@.calls == old(self)@.calls,
            final(self)@.methods == old(self)@.methods,
            final(self)@.images == old(self)@.images,
    {
        proof {
            lemma_ids_push(self@.websocket, id@);
        }
        if find_id(&self.websocket, id).is_none() {
            let ghost before = self@.websocket;
            self.websocket.push(id.to_owned());
            assert(self@.websocket =~= before.push(id@));
        }
    }

    /// Notes that the request `id` calls `method`.
    pub fn mark_method_for_message(&mut self, id: &str, method: String)
        requires
            tracker_wf(old(self)@),
        ensures
            tracker_wf(final(self)@),
            final(self)@.methods == with_key(old(self)@.methods, id@, method@),
            final(self)@.calls == old(self)@.calls,
            final(self)@.websocket == old(self)@.websocket,
            final(self)@.images == old(self)@.images,
    {
        proof {
            lemma_keys_put(self@.methods, id@, method@);
        }
        put_key(&mut self.methods, id, method);
    }

    /// Notes that the request `id` fetches the artwork at `url`.
    pub fn mark_as_image_request(&mut self, id: &str, url: String)
        requires
            tracker_wf(old(self)@),
        ensures
            tracker_wf(final(self)@),
            final(self)@.images == with_key(old(self)@.images, id@, url@),
            final(self)@.calls == old(self)@.calls,
            final(self)@.websocket == old(self)@.websocket,
            final(self)@.methods == old(self)@.methods,
    {
        proof {
            lemma_keys_put(self@.images, id@, url@);
        }
        put_key(&mut self.images, id, url);
    }

    /// Routes the result for request `id`. When the daemon waits on the call
    /// `id`, the call stops waiting and receives the result, and nothing else
    /// changes. Otherwise each record of the request is taken out: a
    /// `device.time.get` call sets the clock, an artwork fetch caches the
    /// result's `data` text, and a UI request gets the result back.
    pub fn on_result(&mut self, id: &str, result: &Json) -> (r: ResultRoute)
        requires
            tracker_wf(old(self)@),
        ensures
            tracker_wf(final(self)@),
            !holds_id(final(self)@.calls, id@),
            holds_id(old(self)@.calls, id@) ==> {
                &&& owned_view(r.call_reply) == Some(result@)
                &&& !r.set_time && r.image_url is None && r.image_data is None && !r.to_websocket
                &&& final(self)@.calls == without_id_text(old(self)@.calls, id@)
                &&& final(self)@.websocket == old(self)@.websocket
                &&& final(self)@.methods == old(self)@.methods
                &&& final(self)@.images == old(self)@.images
            },
            !holds_id(old(self)@.calls, id@) ==> {
                &&& r.call_reply is None
                &&& final(self)@.calls == old(self)@.calls
                &&& r.set_time == (lookup(old(self)@.methods, id@) == Some("device.time.get"@))
                &&& final(self)@.methods == without_key(old(self)@.methods, id@)
                &&& opt_chars(r.image_url) == lookup(old(self)@.images, id@)
                &&& opt_chars(r.image_data) == if lookup(old(self)@.images, id@) is Some {
                    member_text(result@, "data"@)
                } else {
                    None
                }
                &&& final(self)@.images == without_key(old(self)@.images, id@)
                &&& r.to_websocket == holds_id(old(self)@.websocket, id@)
                &&& final(self)@.websocket == without_id_text(old(self)@.websocket, id@)
            },
    {
        proof {
            lemma_ids_remove(self@.calls, id@);
            lemma_keys_take(self@.methods, id@);
            lemma_keys_take(self@.images, id@);
            lemma_ids_remove(self@.websocket, id@);
        }
        if take_id(&mut self.calls, id) {
            return ResultRoute {
                call_reply: Some(copy_json(result)),
                set_time: false,
                image_url: None,
                image_data: None,
                to_websocket: false,
            };
        }
        assert(ids_view(self.calls@) == old(self)@.calls);
        let method = take_key(&mut self.methods, id);
        let set_time = match &method {
            Some(m) => str_eq(m.as_str(), "device.time.get"),
            None => false,
        };
        let image_url = take_key(&mut self.images, id);
        let image_data = match &image_url {
            Some(_) => match result.get("data") {
                Some(d) => match d.as_str() {
                    Some(t) => Some(t.to_owned()),
                    None => None,
                },
                None => None,
            },
            None => None,
        };
        let to_websocket = take_id(&mut self.websocket, id);
        ResultRoute { call_reply: None, set_time, image_url, image_data, to_websocket }
    }

    /// Routes the error reply `error` for request `id`: when the daemon
    /// waits on the call `id`, the call stops waiting and receives
    /// `{"__error": error}`, and nothing else changes; otherwise the error
    /// goes back to the UI client that asked, if any.
    pub fn on_error(&mut self, id: &str, error: &str) -> (r: ErrorRoute)
        requires
            tracker_wf(old(self)@),
        ensures
            tracker_wf(final(self)@),
            !holds_id(final(self)@.calls, id@),
            holds_id(old(self)@.calls, id@) ==> owned_view(r.call_reply) == Some(call_error_view(error@))
                && !r.to_websocket && final(self)@.calls == without_id_text(old(self)@.calls, id@)
                && final(self)@.websocket == old(self)@.websocket,
            !holds_id(old(self)@.calls, id@) ==> r.call_reply is None && final(self)@.calls == old(self)@.calls
                && r.to_websocket == holds_id(old(self)@.websocket, id@) && final(self)@.websocket
                == without_id_text(old(self)@.websocket, id@),
            final(self)@.methods == old(self)@.methods,
            final(self)@.images == old(self)@.images,
    {
        proof {
            lemma_ids_remove(self@.calls, id@);
            lemma_ids_remove(self@.websocket, id@);
        }
        if take_id(&mut self.calls, id) {
            return ErrorRoute { call_reply: Some(pending_call_error(error)), to_websocket: false };
        }
        let to_websocket = take_id(&mut self.websocket, id);
        ErrorRoute { call_reply: None, to_websocket }
    }
}

} // verus!
