//! The iPhone notifications shown on the device: how an ANCS notification
//! becomes a UI notification, which notifications are on screen, and the
//! cache of app display names used to title them.
use vstd::prelude::*;
use vstd::string::*;
use crate::ancs::{
    bundle_fallback_name, category_name, nonempty, notification_id,
    spec_bundle_fallback_name, spec_nonempty, FieldsView, NotificationFields, NotificationMeta,
    FLAG_IMPORTANT, FLAG_PRE_EXISTING, FLAG_SILENT,
};
use crate::search::{first_index, lemma_first_index_at};
use crate::text::{concat, decimal_chars, str_eq, trim, trimmed};

verus! {

/// A notification as the UI shows it (`notification.show`).
pub struct NotificationShow {
    pub id: String,
    pub title: String,
    pub body: String,
    pub subtitle: Option<String>,
    pub category: String,
    pub timestamp_ms: u64,
    pub app_bundle_id: String,
    pub app_name: Option<String>,
    pub silent: bool,
    pub important: bool,
    pub pre_existing: bool,
}

/// Model of a shown notification.
pub struct ShowView {
    pub id: Seq<char>,
    pub title: Seq<char>,
    pub body: Seq<char>,
    pub subtitle: Option<Seq<char>>,
    pub category: Seq<char>,
    pub timestamp_ms: u64,
    pub app_bundle_id: Seq<char>,
    pub app_name: Option<Seq<char>>,
    pub silent: bool,
    pub important: bool,
    pub pre_existing: bool,
}

/// The text of an optional string.
pub open spec fn opt_chars(o: Option<String>) -> Option<Seq<char>> {
    match o {
        Some(s) => Some(s@),
        None => None,
    }
}

impl View for NotificationShow {
    type V = ShowView;

    open spec fn view(&self) -> ShowView {
        ShowView {
            id: self.id@,
            title: self.title@,
            body: self.body@,
            subtitle: opt_chars(self.subtitle),
            category: self.category@,
            timestamp_ms: self.timestamp_ms,
            app_bundle_id: self.app_bundle_id@,
            app_name: opt_chars(self.app_name),
            silent: self.silent,
            important: self.important,
            pre_existing: self.pre_existing,
        }
    }
}

/// The text `ios.`.
pub open spec fn ios_prefix() -> Seq<char> {
    seq!['i', 'o', 's', '.']
}

/// How a notification is shown: titled by its title, else the app's name,
/// else the last part of the bundle id; its message (or nothing) as body;
/// its category as `ios.<category>`; its flags unpacked.
pub open spec fn show_for(meta: NotificationMeta, fields: FieldsView, bundle: Seq<char>, app_name: Option<Seq<char>>, now_ms: u64) -> ShowView {
    ShowView {
        id: "ancs:"@ + decimal_chars(meta.uid as nat),
        title: match spec_nonempty(fields.title) {
            Some(t) => t,
            None => match app_name {
                Some(n) => n,
                None => spec_bundle_fallback_name(bundle),
            },
        },
        body: match spec_nonempty(fields.message) {
            Some(b) => b,
            None => Seq::empty(),
        },
        subtitle: spec_nonempty(fields.subtitle),
        category: ios_prefix() + category_name(meta.category),
        timestamp_ms: now_ms,
        app_bundle_id: bundle,
        app_name,
        silent: meta.flags & FLAG_SILENT != 0,
        important: meta.flags & FLAG_IMPORTANT != 0,
        pre_existing: meta.flags & FLAG_PRE_EXISTING != 0,
    }
}

fn copy_opt(o: &Option<String>) -> (c: Option<String>)
    ensures
        opt_chars(c) == opt_chars(*o),
{
    match o {
        Some(s) => Some(s.clone()),
        None => None,
    }
}

/// The UI notification for an ANCS notification of `bundle_id`, whose app
/// is called `app_name` when known, stamped `now_ms`.
pub fn notification_show(
    meta: NotificationMeta,
    fields: &NotificationFields,
    bundle_id: &str,
    app_name: Option<&str>,
    now_ms: u64,
) -> (show: NotificationShow)
    ensures
        show@ == show_for(
            meta,
            fields@,
            bundle_id@,
            match app_name {
                Some(n) => Some(n@),
                None => None,
            },
            now_ms,
        ),
{
    let id = notification_id(meta.uid);
    let title = match nonempty(copy_opt(&fields.title)) {
        Some(t) => t,
        None => match app_name {
            Some(n) => n.to_owned(),
            None => bundle_fallback_name(bundle_id),
        },
    };
    let subtitle = nonempty(copy_opt(&fields.subtitle));
    let body = match nonempty(copy_opt(&fields.message)) {
        Some(b) => b,
        None => String::new(),
    };
    proof {
        reveal_strlit("ios.");
    }
    let category = concat("ios.", meta.category.as_str());
    assert("ios."@ =~= ios_prefix());
    let show = NotificationShow {
        id,
        title,
        body,
        subtitle,
        category,
        timestamp_ms: now_ms,
        app_bundle_id: bundle_id.to_owned(),
        app_name: match app_name {
            Some(n) => Some(n.to_owned()),
            None => None,
        },
        silent: meta.flags & FLAG_SILENT != 0,
        important: meta.flags & FLAG_IMPORTANT != 0,
        pre_existing: meta.flags & FLAG_PRE_EXISTING != 0,
    };
    assert(show@.body =~= show_for(
        meta,
        fields@,
        bundle_id@,
        match app_name {
            Some(n) => Some(n@),
            None => None,
        },
        now_ms,
    ).body);
    show
}

proof fn lemma_remove_from_set<T>(v: Seq<T>, x: T, i: int)
    requires
        v.no_duplicates(),
        0 <= i < v.len(),
        v[i] == x,
    ensures
        v.remove(i).to_set() == v.to_set().remove(x),
        v.remove(i).no_duplicates(),
{
    assert(v.remove(i).to_set() =~= v.to_set().remove(x)) by {
        assert forall|y: T| v.remove(i).to_set().contains(y) <==> v.to_set().remove(x).contains(y) by {
            if v.remove(i).to_set().contains(y) {
                let k = choose|k: int| 0 <= k < v.remove(i).len() && v.remove(i)[k] == y;
                if k < i {
                    assert(v[k] == y);
                } else {
                    assert(v[k + 1] == y);
                }
                assert(v.contains(y));
            }
            if v.to_set().remove(x).contains(y) {
                let k = choose|k: int| 0 <= k < v.len() && v[k] == y;
                assert(k != i);
                if k < i {
                    assert(v.remove(i)[k] == y);
                } else {
                    assert(v.remove(i)[k - 1] == y);
                }
                assert(v.remove(i).contains(y));
            }
        }
    }
}

/// A notification on screen, with the bundle it was shown for.
pub struct ActiveNotification {
    pub bundle_id: String,
    pub meta: NotificationMeta,
    pub fields: NotificationFields,
}

/// Model of a notification on screen.
pub struct ActiveView {
    pub bundle_id: Seq<char>,
    pub meta: NotificationMeta,
    pub fields: FieldsView,
}

/// The model of a notification on screen.
pub open spec fn active_view(a: ActiveNotification) -> ActiveView {
    ActiveView { bundle_id: a.bundle_id@, meta: a.meta, fields: a.fields@ }
}

/// The models of the notifications on screen.
pub open spec fn actives_view(s: Seq<ActiveNotification>) -> Seq<ActiveView> {
    s.map_values(|a: ActiveNotification| active_view(a))
}

/// The texts of an app-name table.
pub open spec fn names_view(s: Seq<(String, String)>) -> Seq<(Seq<char>, Seq<char>)> {
    s.map_values(|e: (String, String)| (e.0@, e.1@))
}

/// The texts of a list of bundle ids.
pub open spec fn strings_view(s: Seq<String>) -> Seq<Seq<char>> {
    s.map_values(|e: String| e@)
}

/// Model of the board.
#[verifier::ext_equal]
pub struct BoardView {
    /// Known app names, by bundle id.
    pub app_names: Seq<(Seq<char>, Seq<char>)>,
    /// Bundles whose name is being fetched.
    pub app_requests: Set<Seq<char>>,
    /// Notifications on screen, by UID.
    pub active: Seq<ActiveView>,
    /// UIDs shown to the UI since the last clear.
    pub active_ids: Set<u32>,
}

/// The notifications shown on the device and the app names known.
pub struct NotificationBoard {
    app_names: Vec<(String, String)>,
    app_requests: Vec<String>,
    active: Vec<ActiveNotification>,
    active_ids: Vec<u32>,
}

impl View for NotificationBoard {
    type V = BoardView;

    closed spec fn view(&self) -> BoardView {
        BoardView {
            app_names: names_view(self.app_names@),
            app_requests: strings_view(self.app_requests@).to_set(),
            active: actives_view(self.active@),
            active_ids: self.active_ids@.to_set(),
        }
    }
}

/// Whether a table entry is the one of `bundle`.
pub open spec fn key_is(bundle: Seq<char>) -> spec_fn((Seq<char>, Seq<char>)) -> bool {
    |e: (Seq<char>, Seq<char>)| e.0 == bundle
}

/// Whether a notification on screen has the UID `uid`.
pub open spec fn uid_is(uid: u32) -> spec_fn(ActiveView) -> bool {
    |e: ActiveView| e.meta.uid == uid
}

/// The name known for `bundle`: the first entry for it.
pub open spec fn lookup_name(names: Seq<(Seq<char>, Seq<char>)>, bundle: Seq<char>) -> Option<Seq<char>> {
    let i = first_index(names, key_is(bundle));
    if i >= 0 {
        Some(names[i].1)
    } else {
        None
    }
}

/// The table with `bundle` named `name`: its entry replaced in place, or a
/// new entry at the end.
pub open spec fn upsert_name(names: Seq<(Seq<char>, Seq<char>)>, bundle: Seq<char>, name: Seq<char>) -> Seq<(Seq<char>, Seq<char>)> {
    let i = first_index(names, key_is(bundle));
    if i >= 0 {
        names.update(i, (bundle, name))
    } else {
        names.push((bundle, name))
    }
}

/// The notifications on screen with `a` recorded: the entry of its UID
/// replaced in place, or a new entry at the end.
pub open spec fn upsert_active(active: Seq<ActiveView>, a: ActiveView) -> Seq<ActiveView> {
    let i = first_index(active, uid_is(a.meta.uid));
    if i >= 0 {
        active.update(i, a)
    } else {
        active.push(a)
    }
}

/// The notifications on screen without those of `uid`.
pub open spec fn without_active(active: Seq<ActiveView>, uid: u32) -> Seq<ActiveView>
    decreases active.len(),
{
    if active.len() == 0 {
        Seq::empty()
    } else {
        let rest = without_active(active.drop_last(), uid);
        if active.last().meta.uid == uid {
            rest
        } else {
            rest.push(active.last())
        }
    }
}

/// The notifications of `bundle` shown again once its app is known to be
/// called `name`, in screen order.
pub open spec fn renamed_shows(active: Seq<ActiveView>, bundle: Seq<char>, name: Seq<char>, now_ms: u64) -> Seq<ShowView>
    decreases active.len(),
{
    if active.len() == 0 {
        Seq::empty()
    } else {
        let rest = renamed_shows(active.drop_last(), bundle, name, now_ms);
        let a = active.last();
        if a.bundle_id == bundle {
            rest.push(show_for(a.meta, a.fields, bundle, Some(name), now_ms))
        } else {
            rest
        }
    }
}

/// The UIDs of the notifications of `bundle` on screen.
pub open spec fn uids_of_bundle(active: Seq<ActiveView>, bundle: Seq<char>) -> Set<u32> {
    Set::new(|u: u32| exists|i: int| 0 <= i < active.len() && active[i].bundle_id == bundle && active[i].meta.uid == u)
}

/// The models of shown notifications.
pub open spec fn shows_view(s: Seq<NotificationShow>) -> Seq<ShowView> {
    s.map_values(|n: NotificationShow| n@)
}

/// The text `unknown`.
pub open spec fn unknown_bundle() -> Seq<char> {
    seq!['u', 'n', 'k', 'n', 'o', 'w', 'n']
}

/// The bundle a notification belongs to: its app identifier, or `unknown`
/// when that is missing or empty.
pub open spec fn bundle_of(fields: FieldsView) -> Seq<char> {
    match fields.app_identifier {
        Some(a) => if a.len() > 0 {
            a
        } else {
            unknown_bundle()
        },
        None => unknown_bundle(),
    }
}

/// The board once the notification `meta` with `fields` is shown, and the
/// bundle whose name is to be fetched, if any.
pub open spec fn after_fields(b: BoardView, meta: NotificationMeta, fields: FieldsView) -> (BoardView, Option<Seq<char>>) {
    let bundle = bundle_of(fields);
    let fetch = lookup_name(b.app_names, bundle) is None && !b.app_requests.contains(bundle);
    (
        BoardView {
            app_names: b.app_names,
            app_requests: if fetch {
                b.app_requests.insert(bundle)
            } else {
                b.app_requests
            },
            active: upsert_active(b.active, ActiveView { bundle_id: bundle, meta, fields }),
            active_ids: b.active_ids.insert(meta.uid),
        },
        if fetch {
            Some(bundle)
        } else {
            None
        },
    )
}

/// How the notification `meta` with `fields` is shown on board `b`.
pub open spec fn show_on(b: BoardView, meta: NotificationMeta, fields: FieldsView, now_ms: u64) -> ShowView {
    show_for(meta, fields, bundle_of(fields), lookup_name(b.app_names, bundle_of(fields)), now_ms)
}

/// The board once the app `bundle` is known to be called `display`
/// (before trimming).
pub open spec fn after_app_name(b: BoardView, bundle: Seq<char>, display: Seq<char>) -> BoardView {
    let t = trimmed(display);
    BoardView {
        app_names: if t.len() > 0 {
            upsert_name(b.app_names, bundle, t)
        } else {
            b.app_names
        },
        app_requests: b.app_requests.remove(bundle),
        active: b.active,
        active_ids: if t.len() > 0 {
            b.active_ids.union(uids_of_bundle(b.active, bundle))
        } else {
            b.active_ids
        },
    }
}

/// The notifications shown again once the app `bundle` is known to be
/// called `display`.
pub open spec fn shows_after_app_name(b: BoardView, bundle: Seq<char>, display: Seq<char>, now_ms: u64) -> Seq<ShowView> {
    let t = trimmed(display);
    if t.len() > 0 {
        renamed_shows(b.active, bundle, t, now_ms)
    } else {
        Seq::empty()
    }
}

/// The board once the notification `uid` was removed on the phone.
pub open spec fn after_remove(b: BoardView, uid: u32) -> BoardView {
    BoardView {
        app_names: b.app_names,
        app_requests: b.app_requests,
        active: without_active(b.active, uid),
        active_ids: b.active_ids.remove(uid),
    }
}

/// The board once the name fetch of `bundle` was dropped.
pub open spec fn after_forget(b: BoardView, bundle: Seq<char>) -> BoardView {
    BoardView {
        app_names: b.app_names,
        app_requests: b.app_requests.remove(bundle),
        active: b.active,
        active_ids: b.active_ids,
    }
}

impl NotificationBoard {
    /// Fetches in progress and shown UIDs are held once each.
    pub closed spec fn wf(&self) -> bool {
        &&& strings_view(self.app_requests@).no_duplicates()
        &&& self.active_ids@.no_duplicates()
    }

    /// Nothing shown, no names known.
    pub fn new() -> (b: NotificationBoard)
        ensures
            b.wf(),
            b@.app_names.len() == 0,
            b@.app_requests.is_empty(),
            b@.active.len() == 0,
            b@.active_ids.is_empty(),
    {
        let b = NotificationBoard {
            app_names: Vec::new(),
            app_requests: Vec::new(),
            active: Vec::new(),
            active_ids: Vec::new(),
        };
        assert(b@.app_names =~= Seq::<(Seq<char>, Seq<char>)>::empty());
        assert(strings_view(b.app_requests@) =~= Seq::<Seq<char>>::empty());
        assert(b@.app_requests =~= Set::<Seq<char>>::empty());
        assert(b@.active =~= Seq::<ActiveView>::empty());
        assert(b@.active_ids =~= Set::<u32>::empty());
        b
    }

    fn name_index(&self, bundle: &str) -> (i: Option<usize>)
        ensures
            match i {
                Some(k) => k as int == first_index(self@.app_names, key_is(bundle@)) && k < self.app_names@.len(),
                None => first_index(self@.app_names, key_is(bundle@)) == -1,
            },
    {
        let ghost names = self@.app_names;
        let mut k: usize = 0;
        while k < self.app_names.len()
            invariant
                k <= self.app_names@.len(),
                names == names_view(self.app_names@),
                forall|j: int| 0 <= j < k ==> !key_is(bundle@)(#[trigger] names[j]),
            decreases self.app_names@.len() - k,
        {
            if str_eq(self.app_names[k].0.as_str(), bundle) {
                proof {
                    lemma_first_index_at(names, key_is(bundle@), k as int);
                }
                return Some(k);
            }
            k = k + 1;
        }
        proof {
            lemma_first_index_at(names, key_is(bundle@), k as int);
        }
        None
    }

    fn active_index(&self, uid: u32) -> (i: Option<usize>)
        ensures
            match i {
                Some(k) => k as int == first_index(self@.active, uid_is(uid)) && k < self.active@.len(),
                None => first_index(self@.active, uid_is(uid)) == -1,
            },
    {
        let ghost active = self@.active;
        let mut k: usize = 0;
        while k < self.active.len()
            invariant
                k <= self.active@.len(),
                active == actives_view(self.active@),
                forall|j: int| 0 <= j < k ==> !uid_is(uid)(#[trigger] active[j]),
            decreases self.active@.len() - k,
        {
            if self.active[k].meta.uid == uid {
                proof {
                    lemma_first_index_at(active, uid_is(uid), k as int);
                }
                return Some(k);
            }
            k = k + 1;
        }
        proof {
            lemma_first_index_at(active, uid_is(uid), k as int);
        }
        None
    }

    fn request_index(&self, bundle: &str) -> (i: Option<usize>)
        ensures
            match i {
                Some(k) => k < self.app_requests@.len() && self.app_requests@[k as int]@ == bundle@,
                None => !self@.app_requests.contains(bundle@),
            },
    {
        let mut k: usize = 0;
        while k < self.app_requests.len()
            invariant
                k <= self.app_requests@.len(),
                forall|j: int| 0 <= j < k ==> (#[trigger] self.app_requests@[j])@ != bundle@,
            decreases self.app_requests@.len() - k,
        {
            if str_eq(self.app_requests[k].as_str(), bundle) {
                return Some(k);
            }
            k = k + 1;
        }
        assert(!strings_view(self.app_requests@).contains(bundle@)) by {
            if strings_view(self.app_requests@).contains(bundle@) {
                let j = choose|j: int| 0 <= j < strings_view(self.app_requests@).len() && strings_view(self.app_requests@)[j] == bundle@;
                assert(self.app_requests@[j]@ == bundle@);
            }
        }
        None
    }

    fn id_index(&self, uid: u32) -> (i: Option<usize>)
        ensures
            match i {
                Some(k) => k < self.active_ids@.len() && self.active_ids@[k as int] == uid,
                None => !self@.active_ids.contains(uid),
            },
    {
        let mut k: usize = 0;
        while k < self.active_ids.len()
            invariant
                k <= self.active_ids@.len(),
                forall|j: int| 0 <= j < k ==> self.active_ids@[j] != uid,
            decreases self.active_ids@.len() - k,
        {
            if self.active_ids[k] == uid {
                return Some(k);
            }
            k = k + 1;
        }
        None
    }

    /// Records that `uid` was shown.
    fn insert_id(&mut self, uid: u32)
        requires
            old(self).wf(),
        ensures
            final(self).wf(),
            final(self)@.active_ids == old(self)@.active_ids.insert(uid),
            final(self)@.active == old(self)@.active,
            final(self)@.app_names == old(self)@.app_names,
            final(self)@.app_requests == old(self)@.app_requests,
    {
        match self.id_index(uid) {
            Some(_) => {
                assert(self@.active_ids =~= old(self)@.active_ids.insert(uid));
            },
            None => {
                let ghost before = self.active_ids@;
                self.active_ids.push(uid);
                proof {
                    before.lemma_push_to_set_commute(uid);
                }
                assert(self@.active_ids =~= old(self)@.active_ids.insert(uid));
            },
        }
    }

    /// Forgets a notification removed on the phone.
    pub fn remove_uid(&mut self, uid: u32)
        requires
            old(self).wf(),
        ensures
            final(self).wf(),
            final(self)@ == after_remove(old(self)@, uid),
    {
        match self.id_index(uid) {
            Some(k) => {
                proof {
                    lemma_remove_from_set(self.active_ids@, uid, k as int);
                }
                self.active_ids.remove(k);
            },
            None => {
                assert(self@.active_ids =~= old(self)@.active_ids.remove(uid));
            },
        }
        let ghost a = self@.active;
        let mut kept: Vec<ActiveNotification> = Vec::new();
        let mut rest: Vec<ActiveNotification> = Vec::new();
        std::mem::swap(&mut rest, &mut self.active);
        let n = rest.len();
        let mut i: usize = 0;
        assert(a.take(0) =~= Seq::<ActiveView>::empty());
        while i < n
            invariant
                n == a.len(),
                i <= n,
                actives_view(rest@) == a.subrange(i as int, n as int),
                actives_view(kept@) == without_active(a.take(i as int), uid),
            decreases n - i,
        {
            assert(rest@.len() > 0) by {
                assert(actives_view(rest@).len() == rest@.len());
            }
            let ghost before = rest@;
            let e = rest.remove(0);
            assert(active_view(e) == a[i as int]) by {
                assert(actives_view(before)[0] == active_view(before[0]));
            }
            assert(a.take(i + 1).drop_last() =~= a.take(i as int));
            assert(a.take(i + 1).last() == a[i as int]);
            if e.meta.uid != uid {
                kept.push(e);
            }
            let ghost old_i = i;
            i = i + 1;
            assert forall|j: int| 0 <= j < rest@.len() implies #[trigger] actives_view(rest@)[j] == a.subrange(i as int, n as int)[j] by {
                assert(rest@[j] == before[j + 1]);
                assert(actives_view(rest@)[j] == active_view(rest@[j]));
                assert(actives_view(before).len() == before.len());
                assert(before.len() == n - old_i);
                assert(actives_view(before)[j + 1] == active_view(before[j + 1]));
                assert(actives_view(before)[j + 1] == a.subrange(old_i as int, n as int)[j + 1]);
                assert(a.subrange(old_i as int, n as int)[j + 1] == a[old_i + 1 + j]);
            }
            assert(actives_view(before).len() == before.len());
            assert(actives_view(rest@).len() == rest@.len());
            assert(actives_view(rest@) =~= a.subrange(i as int, n as int));
            assert(actives_view(kept@) =~= without_active(a.take(i as int), uid));
        }
        assert(a.take(n as int) =~= a);
        self.active = kept;
    }
    /// Forgets a dropped app-name fetch.
    pub fn forget_app_request(&mut self, bundle_id: &str)
        requires
            old(self).wf(),
        ensures
            final(self).wf(),
            final(self)@ == after_forget(old(self)@, bundle_id@),
    {
        match self.request_index(bundle_id) {
            Some(k) => {
                let ghost before = self.app_requests@;
                proof {
                    assert(strings_view(before)[k as int] == bundle_id@);
                    lemma_remove_from_set(strings_view(before), bundle_id@, k as int);
                }
                self.app_requests.remove(k);
                assert(strings_view(self.app_requests@) =~= strings_view(before).remove(k as int));
            },
            None => {
                assert(self@.app_requests =~= old(self)@.app_requests.remove(bundle_id@));
            },
        }
    }

    /// Shows a notification whose attributes arrived: titled with the app's
    /// name when known, recorded as on screen under its UID, and, when the
    /// app's name is neither known nor being fetched, asks for it (returns
    /// the bundle to fetch).
    pub fn handle_notification_fields(&mut self, meta: NotificationMeta, fields: NotificationFields, now_ms: u64) -> (r: (
        NotificationShow,
        Option<String>,
    ))
        requires
            old(self).wf(),
        ensures
            final(self).wf(),
            final(self)@ == after_fields(old(self)@, meta, fields@).0,
            opt_chars(r.1) == after_fields(old(self)@, meta, fields@).1,
            r.0@ == show_on(old(self)@, meta, fields@, now_ms),
            ({
                let b = bundle_of(fields@);
                let n = lookup_name(old(self)@.app_names, b);
                &&& r.0@ == show_for(meta, fields@, b, n, now_ms)
                &&& final(self)@.active == upsert_active(
                    old(self)@.active,
                    ActiveView { bundle_id: b, meta, fields: fields@ },
                )
                &&& final(self)@.active_ids == old(self)@.active_ids.insert(meta.uid)
                &&& final(self)@.app_names == old(self)@.app_names
                &&& if n is None && !old(self)@.app_requests.contains(b) {
                    &&& r.1 matches Some(x) && x@ == b
                    &&& final(self)@.app_requests == old(self)@.app_requests.insert(b)
                } else {
                    &&& r.1 is None
                    &&& final(self)@.app_requests == old(self)@.app_requests
                }
            }),
    {
        let bundle: String = match &fields.app_identifier {
            Some(a) => if a.as_str().unicode_len() > 0 {
                a.clone()
            } else {
                "unknown".to_owned()
            },
            None => "unknown".to_owned(),
        };
        proof {
            reveal_strlit("unknown");
            assert("unknown"@ =~= unknown_bundle());
        }
        assert(bundle@ == bundle_of(fields@));
        let name_idx = self.name_index(bundle.as_str());
        let app_name: Option<String> = match name_idx {
            Some(k) => Some(self.app_names[k].1.clone()),
            None => None,
        };
        assert(opt_chars(app_name) == lookup_name(old(self)@.app_names, bundle@)) by {
            if let Some(k) = name_idx {
                assert(names_view(self.app_names@)[k as int] == (self.app_names@[k as int].0@, self.app_names@[k as int].1@));
            }
        }
        let show = match &app_name {
            Some(n) => notification_show(meta, &fields, bundle.as_str(), Some(n.as_str()), now_ms),
            None => notification_show(meta, &fields, bundle.as_str(), None, now_ms),
        };
        self.insert_id(meta.uid);
        let ghost entry = ActiveView { bundle_id: bundle@, meta, fields: fields@ };
        let ghost before = self.active@;
        match self.active_index(meta.uid) {
            Some(k) => {
                self.active.set(k, ActiveNotification { bundle_id: bundle.clone(), meta, fields });
                assert(actives_view(self.active@) =~= actives_view(before).update(k as int, entry));
            },
            None => {
                self.active.push(ActiveNotification { bundle_id: bundle.clone(), meta, fields });
                assert(actives_view(self.active@) =~= actives_view(before).push(entry));
            },
        }
        let fetch = if app_name.is_none() {
            match self.request_index(bundle.as_str()) {
                Some(k) => {
                    assert(strings_view(self.app_requests@)[k as int] == bundle@);
                    assert(self@.app_requests.contains(bundle@));
                    None
                },
                None => {
                    let ghost reqs = self.app_requests@;
                    self.app_requests.push(bundle.clone());
                    proof {
                        assert(strings_view(self.app_requests@) =~= strings_view(reqs).push(bundle@));
                        strings_view(reqs).lemma_push_to_set_commute(bundle@);
                    }
                    Some(bundle)
                },
            }
        } else {
            None
        };
        (show, fetch)
    }
    /// Records an app's display name once it arrives: the fetch is done and,
    /// when the trimmed name is not empty, it is remembered and every
    /// notification of that app on screen is shown again under it (returned
    /// in screen order).
    pub fn handle_app_name(&mut self, bundle_id: &str, display_name: &str, now_ms: u64) -> (shows: Vec<NotificationShow>)
        requires
            old(self).wf(),
        ensures
            final(self).wf(),
            final(self)@ == after_app_name(old(self)@, bundle_id@, display_name@),
            shows_view(shows@) == shows_after_app_name(old(self)@, bundle_id@, display_name@, now_ms),
            ({
                let t = trimmed(display_name@);
                if t.len() > 0 {
                    &&& final(self)@.app_names == upsert_name(old(self)@.app_names, bundle_id@, t)
                    &&& shows_view(shows@) == renamed_shows(old(self)@.active, bundle_id@, t, now_ms)
                    &&& final(self)@.active_ids == old(self)@.active_ids.union(
                        uids_of_bundle(old(self)@.active, bundle_id@),
                    )
                } else {
                    &&& final(self)@.app_names == old(self)@.app_names
                    &&& shows@.len() == 0
                    &&& final(self)@.active_ids == old(self)@.active_ids
                }
            }),
    {
        self.forget_app_request(bundle_id);
        let name = trim(display_name);
        let mut shows: Vec<NotificationShow> = Vec::new();
        if name.unicode_len() == 0 {
            return shows;
        }
        let ghost names = self@.app_names;
        match self.name_index(bundle_id) {
            Some(k) => {
                self.app_names.set(k, (bundle_id.to_owned(), name.to_owned()));
                assert(names_view(self.app_names@) =~= names.update(k as int, (bundle_id@, name@)));
            },
            None => {
                self.app_names.push((bundle_id.to_owned(), name.to_owned()));
                assert(names_view(self.app_names@) =~= names.push((bundle_id@, name@)));
            },
        }
        let ghost active = self@.active;
        let ghost ids0 = self@.active_ids;
        let n = self.active.len();
        let mut i: usize = 0;
        assert(active.take(0) =~= Seq::<ActiveView>::empty());
        assert(ids0.union(uids_of_bundle(active.take(0), bundle_id@)) =~= ids0);
        while i < n
            invariant
                n == active.len(),
                i <= n,
                self.wf(),
                self@.active == active,
                self@.app_names == upsert_name(names, bundle_id@, name@),
                self@.app_requests == old(self)@.app_requests.remove(bundle_id@),
                shows_view(shows@) == renamed_shows(active.take(i as int), bundle_id@, name@, now_ms),
                self@.active_ids == ids0.union(uids_of_bundle(active.take(i as int), bundle_id@)),
            decreases n - i,
        {
            let ghost a = active[i as int];
            assert(actives_view(self.active@)[i as int] == active_view(self.active@[i as int]));
            let meta = self.active[i].meta;
            let same = str_eq(self.active[i].bundle_id.as_str(), bundle_id);
            assert(active.take(i + 1).drop_last() =~= active.take(i as int));
            assert(active.take(i + 1).last() == a);
            if same {
                let show = notification_show(meta, &self.active[i].fields, bundle_id, Some(name), now_ms);
                let ghost before = shows@;
                shows.push(show);
                assert(shows_view(shows@) =~= shows_view(before).push(show@));
                self.insert_id(meta.uid);
            }
            let ghost old_i = i;
            i = i + 1;
            assert(uids_of_bundle(active.take(i as int), bundle_id@) =~= if same {
                uids_of_bundle(active.take(old_i as int), bundle_id@).insert(meta.uid)
            } else {
                uids_of_bundle(active.take(old_i as int), bundle_id@)
            }) by {
                assert forall|u: u32| uids_of_bundle(active.take(i as int), bundle_id@).contains(u) == (if same {
                    uids_of_bundle(active.take(old_i as int), bundle_id@).insert(meta.uid)
                } else {
                    uids_of_bundle(active.take(old_i as int), bundle_id@)
                }).contains(u) by {
                    let t1 = active.take(i as int);
                    let t0 = active.take(old_i as int);
                    if uids_of_bundle(t1, bundle_id@).contains(u) {
                        let j = choose|j: int| 0 <= j < t1.len() && t1[j].bundle_id == bundle_id@ && t1[j].meta.uid == u;
                        if j < old_i {
                            assert(t0[j] == t1[j]);
                        }
                    }
                    if uids_of_bundle(t0, bundle_id@).contains(u) {
                        let j = choose|j: int| 0 <= j < t0.len() && t0[j].bundle_id == bundle_id@ && t0[j].meta.uid == u;
                        assert(t1[j] == t0[j]);
                    }
                    if same && u == meta.uid {
                        assert(t1[old_i as int] == a);
                    }
                }
            }
            assert(self@.active_ids =~= ids0.union(uids_of_bundle(active.take(i as int), bundle_id@)));
        }
        assert(active.take(n as int) =~= active);
        shows
    }

    /// Ends the session's notifications: returns every UID shown (for the UI
    /// to remove) and forgets them all.
    pub fn clear_active(&mut self) -> (ids: Vec<u32>)
        requires
            old(self).wf(),
        ensures
            final(self).wf(),
            ids@.to_set() == old(self)@.active_ids,
            ids@.no_duplicates(),
            final(self)@.active.len() == 0,
            final(self)@.active_ids.is_empty(),
            final(self)@.app_names == old(self)@.app_names,
            final(self)@.app_requests == old(self)@.app_requests,
    {
        let mut ids: Vec<u32> = Vec::new();
        std::mem::swap(&mut ids, &mut self.active_ids);
        self.active.clear();
        assert(self@.active =~= Seq::<ActiveView>::empty());
        assert(self@.active_ids =~= Set::<u32>::empty());
        ids
    }
}

} // verus!
