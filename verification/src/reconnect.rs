//! Per-device bookkeeping keyed by Bluetooth address: when a device was last
//! paired, and how entries follow a device whose BlueZ object address turns
//! out to be a private alias of its canonical identity address.
use vstd::prelude::*;
use std::collections::HashMap;
use vstd::std_specs::hash::group_hash_axioms;
use crate::address::{
    address_chars, address_fields, address_text, lemma_address_text_reads_back, parse_address, Address,
};

verus! {

broadcast use group_hash_axioms;

/// The 48-bit value of an address, most significant byte first.
pub open spec fn address_value(a: Address) -> int {
    ((((a.0[0] as int * 256 + a.0[1]) * 256 + a.0[2]) * 256 + a.0[3]) * 256 + a.0[4]) * 256 + a.0[5]
}

/// The map key of an address: its 48-bit value.
pub fn address_key(a: Address) -> (k: u64)
    ensures
        k == address_value(a),
{
    let b = a.0;
    (((((b[0] as u64) * 256 + b[1] as u64) * 256 + b[2] as u64) * 256 + b[3] as u64) * 256 + b[4] as u64) * 256
        + b[5] as u64
}

/// Address keys are 48-bit values.
pub const ADDRESS_KEY_LIMIT: u64 = 0x1_0000_0000_0000;

/// The 48-bit value of six bytes, most significant first.
pub open spec fn bytes_value(b: Seq<u8>) -> int {
    ((((b[0] as int * 256 + b[1]) * 256 + b[2]) * 256 + b[3]) * 256 + b[4]) * 256 + b[5]
}

/// The address whose key is `k`.
pub open spec fn address_of_key(k: u64) -> Address {
    Address(
        [
            (k / 0x100_0000_0000) as u8,
            ((k / 0x1_0000_0000) % 256) as u8,
            ((k / 0x100_0000) % 256) as u8,
            ((k / 0x1_0000) % 256) as u8,
            ((k / 0x100) % 256) as u8,
            (k % 256) as u8,
        ],
    )
}

proof fn lemma_key_address(k: u64)
    requires
        k < ADDRESS_KEY_LIMIT,
    ensures
        address_value(address_of_key(k)) == k,
        address_of_key(k).bytes().len() == 6,
{
    let x = k as int;
    let t1 = x / 256;
    let t2 = x / 0x1_0000;
    let t3 = x / 0x100_0000;
    let t4 = x / 0x1_0000_0000;
    let t5 = x / 0x100_0000_0000;
    vstd::arithmetic::div_mod::lemma_fundamental_div_mod(x, 256);
    vstd::arithmetic::div_mod::lemma_fundamental_div_mod(t1, 256);
    vstd::arithmetic::div_mod::lemma_fundamental_div_mod(t2, 256);
    vstd::arithmetic::div_mod::lemma_fundamental_div_mod(t3, 256);
    vstd::arithmetic::div_mod::lemma_fundamental_div_mod(t4, 256);
    vstd::arithmetic::div_mod::lemma_div_denominator(x, 256, 256);
    vstd::arithmetic::div_mod::lemma_div_denominator(x, 0x1_0000, 256);
    vstd::arithmetic::div_mod::lemma_div_denominator(x, 0x100_0000, 256);
    vstd::arithmetic::div_mod::lemma_div_denominator(x, 0x1_0000_0000, 256);
    assert(t2 == t1 / 256);
    assert(t3 == t2 / 256);
    assert(t4 == t3 / 256);
    assert(t5 == t4 / 256);
    assert(t5 < 256) by {
        vstd::arithmetic::div_mod::lemma_div_is_ordered(x, 0x1_0000_0000_0000 - 1, 0x100_0000_0000);
    }
    let a = address_of_key(k);
    assert(a.0@.len() == 6);
    assert(a.0[0] == t5);
    assert(a.0[1] == t4 % 256);
    assert(a.0[2] == t3 % 256);
    assert(a.0[3] == t2 % 256);
    assert(a.0[4] == t1 % 256);
    assert(a.0[5] == x % 256);
}

/// The address whose key is `k`.
pub fn key_address(k: u64) -> (a: Address)
    requires
        k < ADDRESS_KEY_LIMIT,
    ensures
        a == address_of_key(k),
        address_value(a) == k,
{
    proof {
        lemma_key_address(k);
    }
    Address(
        [
            (k / 0x100_0000_0000) as u8,
            ((k / 0x1_0000_0000) % 256) as u8,
            ((k / 0x100_0000) % 256) as u8,
            ((k / 0x1_0000) % 256) as u8,
            ((k / 0x100) % 256) as u8,
            (k % 256) as u8,
        ],
    )
}

/// Records a pairing change of the device known as `object` (BlueZ object
/// address) and `canonical` (identity address): both keys are cleared and,
/// when paired, the canonical one stamped `changed_at`. Returns whether this
/// is a fresh pairing, one of a device that had no entry under either key.
pub fn update_recent_pairing(
    recent: &mut HashMap<u64, u64>,
    object: u64,
    canonical: u64,
    paired: bool,
    changed_at: u64,
) -> (fresh: bool)
    ensures
        final(recent)@ == if paired {
            old(recent)@.remove(object).remove(canonical).insert(canonical, changed_at)
        } else {
            old(recent)@.remove(object).remove(canonical)
        },
        fresh == (paired && !old(recent)@.contains_key(object) && !old(recent)@.contains_key(canonical)),
{
    let was_paired = recent.contains_key(&object) || recent.contains_key(&canonical);
    recent.remove(&object);
    recent.remove(&canonical);
    if paired {
        recent.insert(canonical, changed_at);
    }
    paired && !was_paired
}

/// Moves the pairing stamp of `old_key` to `canonical`, keeping the newer
/// stamp when both have one.
pub fn promote_recent_pairing(recent: &mut HashMap<u64, u64>, old_key: u64, canonical: u64)
    ensures
        old_key == canonical || !old(recent)@.contains_key(old_key) ==> final(recent)@ == old(recent)@,
        old_key != canonical && old(recent)@.contains_key(old_key) ==> final(recent)@ == old(recent)@.remove(
            old_key,
        ).insert(
            canonical,
            if old(recent)@.contains_key(canonical) && old(recent)@[canonical] > old(recent)@[old_key] {
                old(recent)@[canonical]
            } else {
                old(recent)@[old_key]
            },
        ),
{
    if old_key == canonical {
        return;
    }
    let old_stamp = match recent.remove(&old_key) {
        Some(t) => t,
        None => {
            return;
        },
    };
    let stamp = match recent.get(&canonical) {
        Some(t) => if *t > old_stamp { *t } else { old_stamp },
        None => old_stamp,
    };
    recent.insert(canonical, stamp);
}

/// Re-keys the entry of `old_key` under `canonical`. When `canonical` has an
/// entry already, that one wins and the old entry is dropped (returns
/// `false`); otherwise the entry, if any, moves (returns `true`).
pub fn promote_map_key<T>(entries: &mut HashMap<u64, T>, old_key: u64, canonical: u64) -> (moved: bool)
    ensures
        old_key == canonical ==> moved && final(entries)@ == old(entries)@,
        old_key != canonical && old(entries)@.contains_key(canonical) ==> !moved && final(entries)@ == old(
            entries,
        )@.remove(old_key),
        old_key != canonical && !old(entries)@.contains_key(canonical) ==> moved && final(entries)@ == if old(
            entries,
        )@.contains_key(old_key) {
            old(entries)@.remove(old_key).insert(canonical, old(entries)@[old_key])
        } else {
            old(entries)@
        },
{
    if old_key == canonical {
        return true;
    }
    if entries.contains_key(&canonical) {
        entries.remove(&old_key);
        return false;
    }
    match entries.remove(&old_key) {
        Some(entry) => {
            entries.insert(canonical, entry);
        },
        None => {
            assert(old(entries)@.remove(old_key) =~= old(entries)@);
        },
    }
    true
}

/// Why an adapter could not be brought up, as far as startup cares.
pub enum AdapterErrorKind {
    /// The adapter does not exist (yet).
    NotFound,
    /// The adapter is not ready.
    NotReady,
    /// A D-Bus error, by its error name.
    DBus(String),
    /// Anything else.
    Other,
}

/// Whether `name` is one of the D-Bus errors that BlueZ gives while it is
/// still starting.
pub open spec fn is_transient_dbus_error(name: Seq<char>) -> bool {
    name == "org.bluez.Error.Busy"@ || name == "org.freedesktop.DBus.Error.ServiceUnknown"@ || name
        == "org.freedesktop.DBus.Error.NameHasNoOwner"@
}

/// Whether an adapter error only means that BlueZ is still starting, so the
/// daemon should wait and retry.
pub fn is_transient_adapter_startup_error(kind: &AdapterErrorKind) -> (transient: bool)
    ensures
        transient == match kind {
            AdapterErrorKind::NotFound => true,
            AdapterErrorKind::NotReady => true,
            AdapterErrorKind::DBus(name) => is_transient_dbus_error(name@),
            AdapterErrorKind::Other => false,
        },
{
    match kind {
        AdapterErrorKind::NotFound => true,
        AdapterErrorKind::NotReady => true,
        AdapterErrorKind::DBus(name) => {
            let n = name.as_str();
            crate::text::str_eq(n, "org.bluez.Error.Busy") || crate::text::str_eq(
                n,
                "org.freedesktop.DBus.Error.ServiceUnknown",
            ) || crate::text::str_eq(n, "org.freedesktop.DBus.Error.NameHasNoOwner")
        },
        AdapterErrorKind::Other => false,
    }
}

/// Whether `s` is strictly ascending.
pub open spec fn strictly_ascending(s: Seq<u64>) -> bool {
    forall|i: int, j: int| 0 <= i < j < s.len() ==> s[i] < s[j]
}

/// The Macs known to run the Nocturne connector, by address key; kept in
/// ascending order, which is also the order in which they are persisted.
pub struct MacConnectorRegistry {
    peers: Vec<u64>,
}

impl View for MacConnectorRegistry {
    type V = Set<u64>;

    closed spec fn view(&self) -> Set<u64> {
        self.peers@.to_set()
    }
}

impl MacConnectorRegistry {
    /// Keys are held once each, in ascending order.
    pub closed spec fn wf(&self) -> bool {
        &&& strictly_ascending(self.peers@)
        &&& forall|i: int| 0 <= i < self.peers@.len() ==> #[trigger] self.peers@[i] < ADDRESS_KEY_LIMIT
    }

    /// The known keys in ascending order.
    pub closed spec fn sorted_keys(&self) -> Seq<u64> {
        self.peers@
    }

    /// No Macs known.
    pub fn new() -> (r: MacConnectorRegistry)
        ensures
            r.wf(),
            r@.is_empty(),
            r.sorted_keys() == Seq::<u64>::empty(),
    {
        let r = MacConnectorRegistry { peers: Vec::new() };
        assert(r@ =~= Set::<u64>::empty());
        assert(r.peers@ =~= Seq::<u64>::empty());
        r
    }

    /// The position where `key` is or would go.
    fn position(&self, key: u64) -> (p: usize)
        requires
            self.wf(),
        ensures
            p <= self.peers@.len(),
            forall|i: int| 0 <= i < p ==> self.peers@[i] < key,
            forall|i: int| p <= i < self.peers@.len() ==> self.peers@[i] >= key,
    {
        let mut p: usize = 0;
        while p < self.peers.len() && self.peers[p] < key
            invariant
                p <= self.peers@.len(),
                strictly_ascending(self.peers@),
                forall|i: int| 0 <= i < p ==> self.peers@[i] < key,
            decreases self.peers@.len() - p,
        {
            p = p + 1;
        }
        assert forall|i: int| p <= i < self.peers@.len() implies self.peers@[i] >= key by {
            if i > p {
                assert(self.peers@[p as int] < self.peers@[i]);
            }
        }
        p
    }

    /// Whether the Mac `key` is known.
    pub fn contains(&self, key: u64) -> (known: bool)
        requires
            self.wf(),
        ensures
            known == self@.contains(key),
    {
        let p = self.position(key);
        let known = p < self.peers.len() && self.peers[p] == key;
        assert(known == self.peers@.contains(key)) by {
            if self.peers@.contains(key) {
                let i = choose|i: int| 0 <= i < self.peers@.len() && self.peers@[i] == key;
                assert(i >= p);
                if i > p {
                    assert(self.peers@[p as int] < self.peers@[i]);
                }
            }
        }
        known
    }

    /// Learns the Mac `key`; returns whether it was new (and so must be
    /// persisted).
    pub fn remember(&mut self, key: u64) -> (added: bool)
        requires
            old(self).wf(),
            key < ADDRESS_KEY_LIMIT,
        ensures
            final(self).wf(),
            added == !old(self)@.contains(key),
            final(self)@ == old(self)@.insert(key),
    {
        let known = self.contains(key);
        if known {
            assert(self@ =~= old(self)@.insert(key));
            return false;
        }
        let p = self.position(key);
        let ghost before = self.peers@;
        self.peers.insert(p, key);
        assert(self.peers@ == before.insert(p as int, key));
        assert(strictly_ascending(self.peers@)) by {
            assert forall|i: int, j: int| 0 <= i < j < self.peers@.len() implies self.peers@[i] < self.peers@[j] by {
                if j < p {
                } else if j == p {
                } else if i < p {
                    assert(self.peers@[j] == before[j - 1]);
                } else if i == p {
                    assert(self.peers@[j] == before[j - 1]);
                    assert(before[j - 1] >= key);
                    assert(before[j - 1] != key) by {
                        assert(!before.contains(key));
                    }
                } else {
                    assert(self.peers@[i] == before[i - 1]);
                    assert(self.peers@[j] == before[j - 1]);
                }
            }
        }
        assert(self@ =~= old(self)@.insert(key)) by {
            assert forall|x: u64| self.peers@.contains(x) <==> (before.contains(x) || x == key) by {
                if self.peers@.contains(x) {
                    let i = choose|i: int| 0 <= i < self.peers@.len() && self.peers@[i] == x;
                    if i < p {
                        assert(before[i] == x);
                    } else if i > p {
                        assert(before[i - 1] == x);
                    }
                }
                if before.contains(x) {
                    let i = choose|i: int| 0 <= i < before.len() && before[i] == x;
                    if i < p {
                        assert(self.peers@[i] == x);
                    } else {
                        assert(self.peers@[i + 1] == x);
                    }
                }
                if x == key {
                    assert(self.peers@[p as int] == key);
                }
            }
        }
        true
    }

    /// Forgets the Macs `keys`; returns whether any was known (and so the
    /// registry must be persisted).
    pub fn forget(&mut self, keys: &[u64]) -> (changed: bool)
        requires
            old(self).wf(),
        ensures
            final(self).wf(),
            changed == exists|i: int| 0 <= i < keys@.len() && old(self)@.contains(#[trigger] keys@[i]),
            final(self)@ == old(self)@.difference(keys@.to_set()),
    {
        let mut changed = false;
        let mut i: usize = 0;
        while i < keys.len()
            invariant
                i <= keys@.len(),
                self.wf(),
                self@ == old(self)@.difference(keys@.take(i as int).to_set()),
                changed == exists|k: int| 0 <= k < i && old(self)@.contains(#[trigger] keys@[k]),
            decreases keys@.len() - i,
        {
            let key = keys[i];
            let p = self.position(key);
            let ghost before = self.peers@;
            let ghost set_before = self@;
            let present = p < self.peers.len() && self.peers[p] == key;
            if present {
                self.peers.remove(p);
                assert(strictly_ascending(self.peers@)) by {
                    assert forall|a: int, b: int| 0 <= a < b < self.peers@.len() implies self.peers@[a] < self.peers@[b] by {
                        if a < p && b >= p {
                            assert(self.peers@[b] == before[b + 1]);
                        } else if a >= p {
                            assert(self.peers@[a] == before[a + 1]);
                            assert(self.peers@[b] == before[b + 1]);
                        }
                    }
                }
                assert(self@ =~= set_before.remove(key)) by {
                    assert forall|x: u64| self.peers@.contains(x) <==> (before.contains(x) && x != key) by {
                        if self.peers@.contains(x) {
                            let j = choose|j: int| 0 <= j < self.peers@.len() && self.peers@[j] == x;
                            if j < p {
                                assert(before[j] == x);
                                assert(before[j] < before[p as int]);
                            } else {
                                assert(before[j + 1] == x);
                                assert(before[p as int] < before[j + 1]);
                            }
                        }
                        if before.contains(x) && x != key {
                            let j = choose|j: int| 0 <= j < before.len() && before[j] == x;
                            if j < p {
                                assert(self.peers@[j] == x);
                            } else {
                                assert(j != p);
                                assert(self.peers@[j - 1] == x);
                            }
                        }
                    }
                }
                changed = true;
            } else {
                assert(!set_before.contains(key)) by {
                    if before.contains(key) {
                        let j = choose|j: int| 0 <= j < before.len() && before[j] == key;
                        assert(j >= p);
                        if j > p {
                            assert(before[p as int] < before[j]);
                        }
                    }
                }
                assert(self@ =~= set_before.remove(key));
            }
            proof {
                assert(keys@.take(i + 1) =~= keys@.take(i as int).push(key));
                keys@.take(i as int).lemma_push_to_set_commute(key);
                assert(self@ =~= old(self)@.difference(keys@.take(i + 1).to_set()));
                if old(self)@.contains(key) && !set_before.contains(key) {
                    assert(keys@.take(i as int).to_set().contains(key));
                    let k = choose|k: int| 0 <= k < keys@.take(i as int).len() && keys@.take(i as int)[k] == key;
                    assert(keys@[k] == key);
                    assert(old(self)@.contains(keys@[k]));
                }
                if set_before.contains(key) {
                    assert(old(self)@.contains(key));
                }
            }
            i = i + 1;
        }
        assert(keys@.take(i as int) =~= keys@);
        changed
    }

    /// The known Macs in ascending order (the order they are persisted in).
    pub fn keys(&self) -> (keys: &Vec<u64>)
        requires
            self.wf(),
        ensures
            strictly_ascending(keys@),
            keys@.to_set() == self@,
            keys@ == self.sorted_keys(),
    {
        &self.peers
    }

    /// The registry as persisted: each known Mac's address as text, in
    /// ascending order.
    pub fn persisted_addresses(&self) -> (texts: Vec<String>)
        requires
            self.wf(),
        ensures
            texts_view(texts@) == key_texts(self.sorted_keys()),
    {
        let mut texts: Vec<String> = Vec::new();
        let mut i: usize = 0;
        while i < self.peers.len()
            invariant
                self.wf(),
                i <= self.peers@.len(),
                texts_view(texts@) == key_texts(self.peers@.take(i as int)),
            decreases self.peers@.len() - i,
        {
            let a = key_address(self.peers[i]);
            let t = address_text(&a);
            let ghost before = texts_view(texts@);
            texts.push(t);
            proof {
                let p = self.peers@.take(i as int);
                let p1 = self.peers@.take(i as int + 1);
                assert(p1 =~= p.push(self.peers@[i as int]));
                assert(texts_view(texts@) =~= before.push(address_chars(address_of_key(self.peers@[i as int]))));
                assert(key_texts(p1) =~= key_texts(p).push(address_chars(address_of_key(self.peers@[i as int]))));
            }
            i = i + 1;
        }
        assert(self.peers@.take(i as int) =~= self.peers@);
        texts
    }

    /// The registry a persisted address list describes: the addresses that
    /// read as addresses; others are ignored.
    pub fn from_persisted(addresses: &Vec<String>) -> (r: MacConnectorRegistry)
        ensures
            r.wf(),
            r@ == loaded_keys(texts_view(addresses@)),
    {
        let mut r = MacConnectorRegistry::new();
        let mut i: usize = 0;
        while i < addresses.len()
            invariant
                r.wf(),
                i <= addresses@.len(),
                r@ == loaded_keys(texts_view(addresses@.take(i as int))),
            decreases addresses@.len() - i,
        {
            let ghost before = r@;
            let ghost prefix = texts_view(addresses@.take(i as int));
            let ghost next = texts_view(addresses@.take(i + 1));
            assert(next =~= prefix.push(addresses@[i as int]@));
            match parse_address(addresses[i].as_str()) {
                Some(a) => {
                    let key = address_key(a);
                    proof {
                        lemma_address_value_bound(a);
                    }
                    r.remember(key);
                    assert(next[i as int] == addresses@[i as int]@);
                    assert(loads_as(next[i as int], key));
                    assert(r@ =~= loaded_keys(next)) by {
                        assert forall|k: u64| r@.contains(k) <==> loaded_keys(next).contains(k) by {
                            if r@.contains(k) && k != key {
                                let j = choose|j: int| 0 <= j < prefix.len() && #[trigger] loads_as(prefix[j], k);
                                assert(next[j] == prefix[j]);
                                assert(loads_as(next[j], k));
                            }
                            if loaded_keys(next).contains(k) {
                                let j = choose|j: int| 0 <= j < next.len() && #[trigger] loads_as(next[j], k);
                                if j < i {
                                    assert(prefix[j] == next[j]);
                                    assert(loads_as(prefix[j], k));
                                    assert(before.contains(k));
                                } else {
                                    assert(k == key);
                                }
                            }
                        }
                    }
                },
                None => {
                    assert(next[i as int] == addresses@[i as int]@);
                    assert(r@ =~= loaded_keys(next)) by {
                        assert forall|k: u64| r@.contains(k) <==> loaded_keys(next).contains(k) by {
                            if r@.contains(k) {
                                let j = choose|j: int| 0 <= j < prefix.len() && #[trigger] loads_as(prefix[j], k);
                                assert(next[j] == prefix[j]);
                                assert(loads_as(next[j], k));
                            }
                            if loaded_keys(next).contains(k) {
                                let j = choose|j: int| 0 <= j < next.len() && #[trigger] loads_as(next[j], k);
                                if j < i {
                                    assert(prefix[j] == next[j]);
                                    assert(loads_as(prefix[j], k));
                                } else {
                                    assert(!loads_as(next[i as int], k));
                                }
                            }
                        }
                    }
                },
            }
            i = i + 1;
        }
        assert(addresses@.take(i as int) =~= addresses@);
        r
    }
}

/// The text of each string.
pub open spec fn texts_view(texts: Seq<String>) -> Seq<Seq<char>> {
    texts.map_values(|t: String| t@)
}

/// Each key's address as text.
pub open spec fn key_texts(keys: Seq<u64>) -> Seq<Seq<char>> {
    keys.map_values(|k: u64| address_chars(address_of_key(k)))
}

/// Whether `text` reads as the address with key `k`.
pub open spec fn loads_as(text: Seq<char>, k: u64) -> bool {
    address_fields(text) matches Some(b) && bytes_value(b) == k
}

/// The keys of the texts that read as addresses.
pub open spec fn loaded_keys(texts: Seq<Seq<char>>) -> Set<u64> {
    Set::new(|k: u64| exists|j: int| 0 <= j < texts.len() && #[trigger] loads_as(texts[j], k))
}

proof fn lemma_address_value_bound(a: Address)
    ensures
        address_value(a) < ADDRESS_KEY_LIMIT,
        address_value(a) == bytes_value(a.bytes()),
{
    assert(a.0[0] <= 255 && a.0[1] <= 255 && a.0[2] <= 255 && a.0[3] <= 255 && a.0[4] <= 255 && a.0[5] <= 255);
    assert(address_value(a) < 0x1_0000_0000_0000) by (nonlinear_arith)
        requires
            0 <= a.0[0] <= 255,
            0 <= a.0[1] <= 255,
            0 <= a.0[2] <= 255,
            0 <= a.0[3] <= 255,
            0 <= a.0[4] <= 255,
            0 <= a.0[5] <= 255,
            address_value(a) == ((((a.0[0] as int * 256 + a.0[1]) * 256 + a.0[2]) * 256 + a.0[3]) * 256
                + a.0[4]) * 256 + a.0[5],
    ;
}

/// The known Macs survive a restart: the persisted registry loads back as
/// the same set of Macs.
pub proof fn lemma_persisted_registry_reloads(keys: Seq<u64>)
    requires
        forall|i: int| 0 <= i < keys.len() ==> #[trigger] keys[i] < ADDRESS_KEY_LIMIT,
    ensures
        loaded_keys(key_texts(keys)) == keys.to_set(),
{
    let texts = key_texts(keys);
    assert forall|k: u64| loaded_keys(texts).contains(k) <==> keys.to_set().contains(k) by {
        if keys.to_set().contains(k) {
            let i = choose|i: int| 0 <= i < keys.len() && keys[i] == k;
            lemma_key_address(k);
            lemma_address_value_bound(address_of_key(k));
            lemma_address_text_reads_back(address_of_key(k));
            assert(texts[i] == address_chars(address_of_key(k)));
            assert(bytes_value(address_of_key(k).bytes()) == k);
            assert(loads_as(texts[i], k));
        }
        if loaded_keys(texts).contains(k) {
            let j = choose|j: int| 0 <= j < texts.len() && #[trigger] loads_as(texts[j], k);
            lemma_key_address(keys[j]);
            lemma_address_value_bound(address_of_key(keys[j]));
            lemma_address_text_reads_back(address_of_key(keys[j]));
            assert(texts[j] == address_chars(address_of_key(keys[j])));
            assert(k == keys[j]);
            assert(keys.contains(keys[j]));
        }
    }
    assert(loaded_keys(texts) =~= keys.to_set());
}

} // verus!
