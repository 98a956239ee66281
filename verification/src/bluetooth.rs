//! Bluetooth device classification and connection bookkeeping: which peers
//! are iOS devices or Macs, how app messages are routed to serial sessions,
//! and how BlueZ's private and identity addresses are reconciled.
use vstd::prelude::*;
use vstd::string::*;
use crate::address::{same_address, Address};
use crate::events::{member_text, opt_chars};
use crate::json::{opt_view, Json, JsonView};
use crate::text::{
    ascii_lowercase, ascii_lowercase_chars, chars_contain, chars_equal_str, concat, contains_chars, str_chars, str_eq,
    to_lowercase, trim, trimmed, unicode_lowercase,
};

verus! {

/// RFCOMM channel of the macOS connector's probe service.
pub const MACOS_CONNECTOR_PROBE_CHANNEL: u8 = 3;

pub open spec fn opt_str(o: Option<&str>) -> Option<Seq<char>> {
    match o {
        Some(s) => Some(s@),
        None => None,
    }
}

/// Whether lower-cased text names a Mac.
pub open spec fn names_a_mac(lower: Seq<char>) -> bool {
    ||| contains_chars(lower, "macbook"@)
    ||| contains_chars(lower, "mac mini"@)
    ||| contains_chars(lower, "mac studio"@)
    ||| contains_chars(lower, "imac"@)
    ||| contains_chars(lower, "nocturne connector"@)
}

/// Whether a device name or alias names a Mac.
pub open spec fn label_names_a_mac(label: Option<Seq<char>>) -> bool {
    label matches Some(l) && names_a_mac(unicode_lowercase(l))
}

/// Whether Class of Device bits mark a computer (major class 1).
pub open spec fn class_is_computer(class: Option<u32>) -> bool {
    class matches Some(v) && (v >> 8u32) & 0x1f == 1
}

fn label_is_mac(label: Option<&str>) -> (b: bool)
    ensures
        b == label_names_a_mac(opt_str(label)),
{
    match label {
        Some(value) => {
            let lower = to_lowercase(value);
            let chars = str_chars(lower.as_str());
            chars_contain(&chars, "macbook") || chars_contain(&chars, "mac mini") || chars_contain(&chars, "mac studio")
                || chars_contain(&chars, "imac") || chars_contain(&chars, "nocturne connector")
        },
        None => false,
    }
}

/// Whether BlueZ metadata describes a computer: the `computer` icon, a
/// computer Class of Device, or a name or alias that names a Mac.
pub open spec fn describes_computer(
    icon: Option<Seq<char>>,
    class: Option<u32>,
    alias: Option<Seq<char>>,
    name: Option<Seq<char>>,
) -> bool {
    icon == Some("computer"@) || class_is_computer(class) || label_names_a_mac(alias) || label_names_a_mac(name)
}

/// A device is taken for a computer when its name or alias, lower-cased,
/// contains "macbook", "mac mini", "mac studio", "imac" or "nocturne
/// connector", whatever else its metadata says; with no such label, no
/// `computer` icon and no computer class, it is not.
pub proof fn lemma_mac_labels_identify_computers(
    icon: Option<Seq<char>>,
    class: Option<u32>,
    alias: Option<Seq<char>>,
    name: Option<Seq<char>>,
    label: Seq<char>,
)
    ensures
        ({
            let lower = unicode_lowercase(label);
            let mac_word = contains_chars(lower, "macbook"@) || contains_chars(lower, "mac mini"@)
                || contains_chars(lower, "mac studio"@) || contains_chars(lower, "imac"@)
                || contains_chars(lower, "nocturne connector"@);
            &&& (alias == Some(label) || name == Some(label)) && mac_word ==> describes_computer(icon, class, alias, name)
            &&& label_names_a_mac(Some(label)) == mac_word
        }),
        icon != Some("computer"@) && !class_is_computer(class) && !label_names_a_mac(alias) && !label_names_a_mac(name)
            ==> !describes_computer(icon, class, alias, name),
{
}

/// Whether BlueZ metadata describes a computer (see `describes_computer`).
pub fn metadata_identifies_computer(icon: Option<&str>, class: Option<u32>, alias: Option<&str>, name: Option<&str>) -> (b: bool)
    ensures
        b == describes_computer(opt_str(icon), class, opt_str(alias), opt_str(name)),
{
    let icon_is_computer = match icon {
        Some(i) => str_eq(i, "computer"),
        None => false,
    };
    let class_computer = match class {
        Some(value) => (value >> 8u32) & 0x1f == 1,
        None => false,
    };
    if icon_is_computer || class_computer {
        return true;
    }
    label_is_mac(alias) || label_is_mac(name)
}

/// Whether a device name marks an iOS device.
pub open spec fn spec_name_identifies_ios(value: Option<Seq<char>>) -> bool {
    value matches Some(name) && {
        let n = ascii_lowercase(trimmed(name));
        contains_chars(n, "iphone"@) || contains_chars(n, "ipad"@) || contains_chars(n, "ipod"@)
    }
}

/// Whether a device name marks an iPhone, iPad or iPod.
pub fn name_identifies_ios_device(value: Option<&str>) -> (b: bool)
    ensures
        b == spec_name_identifies_ios(opt_str(value)),
{
    match value {
        Some(name) => {
            let normalized = ascii_lowercase_chars(trim(name));
            chars_contain(&normalized, "iphone") || chars_contain(&normalized, "ipad") || chars_contain(&normalized, "ipod")
        },
        None => false,
    }
}

/// Whether metadata identifies a peer that speaks iAP2.
pub fn metadata_identifies_iap2_device(name: Option<&str>, alias: Option<&str>, cached_apple_service: bool) -> (b: bool)
    ensures
        b == (cached_apple_service || spec_name_identifies_ios(opt_str(name)) || spec_name_identifies_ios(opt_str(alias))),
{
    cached_apple_service || name_identifies_ios_device(name) || name_identifies_ios_device(alias)
}

/// What metadata says about dialing a device over iAP2.
#[derive(Clone, Copy, Debug, PartialEq, Eq, Structural)]
pub enum Iap2CandidateClassification {
    Candidate,
    Other,
    Incomplete,
}

/// A device is an iAP2 candidate when its metadata identifies one; otherwise
/// it is another kind of device once metadata is complete.
pub fn classify_iap2_metadata(
    name: Option<&str>,
    alias: Option<&str>,
    cached_apple_service: bool,
    metadata_ready: bool,
) -> (c: Iap2CandidateClassification)
    ensures
        c == if cached_apple_service || spec_name_identifies_ios(opt_str(name)) || spec_name_identifies_ios(opt_str(alias)) {
            Iap2CandidateClassification::Candidate
        } else if metadata_ready {
            Iap2CandidateClassification::Other
        } else {
            Iap2CandidateClassification::Incomplete
        },
{
    if metadata_identifies_iap2_device(name, alias, cached_apple_service) {
        Iap2CandidateClassification::Candidate
    } else if metadata_ready {
        Iap2CandidateClassification::Other
    } else {
        Iap2CandidateClassification::Incomplete
    }
}

/// Metadata is complete once BlueZ knows a name or has cached services.
pub fn iap2_metadata_is_ready(name: Option<&str>, cached_service_count: Option<usize>) -> (ready: bool)
    ensures
        ready == (name is Some || (cached_service_count matches Some(n) && n > 0)),
{
    name.is_some() || match cached_service_count {
        Some(count) => count > 0,
        None => false,
    }
}

/// Whether a device-type hint names an iOS device.
pub open spec fn spec_device_type_is_ios(t: Seq<char>) -> bool {
    let n = ascii_lowercase(trimmed(t));
    n == "ios"@ || n == "iphone"@ || n == "ipad"@ || n == "ipod"@
}

/// Whether a device-type hint names an iOS device.
pub fn device_type_identifies_ios(device_type: &str) -> (b: bool)
    ensures
        b == spec_device_type_is_ios(device_type@),
{
    let n = ascii_lowercase_chars(trim(device_type));
    chars_equal_str(&n, "ios") || chars_equal_str(&n, "iphone") || chars_equal_str(&n, "ipad") || chars_equal_str(&n, "ipod")
}

/// Whether a device-type hint or the probe channel names the macOS connector.
pub fn is_macos_connector_hint(channel: u8, device_type: &str) -> (b: bool)
    ensures
        b == (channel == MACOS_CONNECTOR_PROBE_CHANNEL || {
            let n = ascii_lowercase(trimmed(device_type@));
            n == "computer"@ || n == "mac"@ || n == "macos"@ || n == "macos_connector"@ || n == "macos-connector"@
        }),
{
    if channel == MACOS_CONNECTOR_PROBE_CHANNEL {
        return true;
    }
    let n = ascii_lowercase_chars(trim(device_type));
    chars_equal_str(&n, "computer") || chars_equal_str(&n, "mac") || chars_equal_str(&n, "macos")
        || chars_equal_str(&n, "macos_connector") || chars_equal_str(&n, "macos-connector")
}

/// iAP2 reconnection needs a pairing that is not blocked.
pub fn iap2_reconnect_allowed(paired: bool, blocked: bool) -> (allowed: bool)
    ensures
        allowed == (paired && !blocked),
{
    paired && !blocked
}

/// The route name of a serial-port session: `spp:<connection id>`.
pub fn spp_connection_route(connection_id: &str) -> (route: String)
    ensures
        route@ == "spp:"@ + connection_id@,
{
    concat("spp:", connection_id)
}

/// The text of `key` in an outbound message's JSON data (`decoded`, `None`
/// when the data is not JSON).
pub open spec fn routing_text(decoded: Option<JsonView>, key: Seq<char>) -> Option<Seq<char>> {
    match decoded {
        Some(d) => member_text(d, key),
        None => None,
    }
}

/// The text of a member of a message's data, when it is a string.
fn routing_member(decoded: Option<&Json>, key: &str) -> (r: Option<String>)
    ensures
        opt_chars(r) == routing_text(opt_view(decoded), key@),
{
    match decoded {
        Some(data) => match data.get(key) {
            Some(v) => match v.as_str() {
                Some(t) => Some(t.to_owned()),
                None => None,
            },
            None => None,
        },
        None => None,
    }
}

/// The peer (printed address) an app message is addressed to, named by
/// `_targetPeer` in its JSON data.
pub fn target_peer(decoded: Option<&Json>) -> (r: Option<String>)
    ensures
        opt_chars(r) == routing_text(opt_view(decoded), "_targetPeer"@),
{
    routing_member(decoded, "_targetPeer")
}

/// The session route an app message is addressed to, named by
/// `_targetConnection` in its JSON data.
pub fn target_connection(decoded: Option<&Json>) -> (r: Option<String>)
    ensures
        opt_chars(r) == routing_text(opt_view(decoded), "_targetConnection"@),
{
    routing_member(decoded, "_targetConnection")
}

/// Whether an app message goes to the session with `route` whose peer prints
/// as `peer`: a target connection decides alone; otherwise a target peer
/// must match; untargeted messages go everywhere.
pub fn should_route_message(target_connection: Option<&str>, target_peer: Option<&str>, route: &str, peer: &str) -> (b: bool)
    ensures
        b == match opt_str(target_connection) {
            Some(t) => t == route@,
            None => match opt_str(target_peer) {
                Some(p) => p == peer@,
                None => true,
            },
        },
{
    if let Some(target) = target_connection {
        return str_eq(target, route);
    }
    match target_peer {
        Some(target) => str_eq(target, peer),
        None => true,
    }
}

/// Whether a candidate's identity address is `requested`.
pub open spec fn identity_is(c: (Address, Option<Address>), requested: Address) -> bool {
    c.1 matches Some(r) && r.bytes() == requested.bytes()
}

/// The BlueZ object to use for `requested`: an object whose own address
/// matches wins over one whose identity address matches; the result pairs the
/// object address with the canonical (identity) address.
pub open spec fn spec_select_device_address(requested: Address, candidates: Seq<(Address, Option<Address>)>) -> Option<(Address, Address)> {
    if exists|i: int| 0 <= i < candidates.len() && (#[trigger] candidates[i]).0.bytes() == requested.bytes() {
        let i = choose|i: int| 0 <= i < candidates.len() && (#[trigger] candidates[i]).0.bytes() == requested.bytes()
            && forall|j: int| 0 <= j < i ==> (#[trigger] candidates[j]).0.bytes() != requested.bytes();
        Some((candidates[i].0, match candidates[i].1 { Some(r) => r, None => candidates[i].0 }))
    } else if exists|i: int| 0 <= i < candidates.len() && identity_is(#[trigger] candidates[i], requested) {
        let i = choose|i: int| 0 <= i < candidates.len() && identity_is(#[trigger] candidates[i], requested)
            && forall|j: int| 0 <= j < i ==> !identity_is(#[trigger] candidates[j], requested);
        Some((candidates[i].0, match candidates[i].1 { Some(r) => r, None => candidates[i].0 }))
    } else {
        None
    }
}

/// Picks the BlueZ object for `requested` among (object, identity) pairs.
pub fn select_device_address(requested: Address, candidates: &[(Address, Option<Address>)]) -> (r: Option<(Address, Address)>)
    ensures
        r == spec_select_device_address(requested, candidates@),
{
    let mut i: usize = 0;
    while i < candidates.len()
        invariant
            i <= candidates@.len(),
            forall|j: int| 0 <= j < i ==> (#[trigger] candidates@[j]).0.bytes() != requested.bytes(),
        decreases candidates@.len() - i,
    {
        let (object_address, remote_address) = candidates[i];
        if same_address(&object_address, &requested) {
            let ghost k = choose|k: int| 0 <= k < candidates@.len() && (#[trigger] candidates@[k]).0.bytes() == requested.bytes()
                && forall|j: int| 0 <= j < k ==> (#[trigger] candidates@[j]).0.bytes() != requested.bytes();
            assert(k == i) by {
                if k < i {
                } else if k > i {
                    assert(candidates@[i as int].0.bytes() == requested.bytes());
                }
            }
            let canonical = match remote_address {
                Some(r) => r,
                None => object_address,
            };
            return Some((object_address, canonical));
        }
        i = i + 1;
    }
    let mut i: usize = 0;
    while i < candidates.len()
        invariant
            i <= candidates@.len(),
            forall|j: int| 0 <= j < candidates@.len() ==> (#[trigger] candidates@[j]).0.bytes() != requested.bytes(),
            forall|j: int| 0 <= j < i ==> !identity_is(#[trigger] candidates@[j], requested),
        decreases candidates@.len() - i,
    {
        let (object_address, remote_address) = candidates[i];
        if let Some(remote) = remote_address {
            if same_address(&remote, &requested) {
                let ghost k = choose|k: int| 0 <= k < candidates@.len() && identity_is(#[trigger] candidates@[k], requested)
                    && forall|j: int| 0 <= j < k ==> !identity_is(#[trigger] candidates@[j], requested);
                assert(k == i) by {
                    if k < i {
                    } else if k > i {
                        assert(identity_is(candidates@[i as int], requested));
                    }
                }
                return Some((object_address, remote));
            }
        }
        i = i + 1;
    }
    None
}

/// A generic (serial or iAP2 EA) app connection and its sender.
pub struct GenericConnection<Tx> {
    pub connection_id: String,
    pub device_address: Address,
    pub tx: Tx,
}

/// Drops the connection `connection_id` and reports whether `device` still
/// has another connection.
pub fn remove_generic_connection<Tx>(connections: &mut Vec<GenericConnection<Tx>>, connection_id: &str, device: Address) -> (still_connected: bool)
    ensures
        forall|i: int| 0 <= i < final(connections)@.len() ==> (#[trigger] final(connections)@[i]).connection_id@ != connection_id@,
        forall|i: int| 0 <= i < final(connections)@.len() ==> old(connections)@.contains(#[trigger] final(connections)@[i]),
        forall|i: int| 0 <= i < old(connections)@.len() && (#[trigger] old(connections)@[i]).connection_id@ != connection_id@
            ==> final(connections)@.contains(old(connections)@[i]),
        still_connected == exists|i: int| 0 <= i < final(connections)@.len()
            && (#[trigger] final(connections)@[i]).device_address.bytes() == device.bytes(),
{
    let ghost initial = connections@;
    let mut i: usize = 0;
    while i < connections.len()
        invariant
            i <= connections@.len(),
            forall|k: int| 0 <= k < i ==> (#[trigger] connections@[k]).connection_id@ != connection_id@,
            forall|k: int| 0 <= k < connections@.len() ==> initial.contains(#[trigger] connections@[k]),
            forall|k: int| 0 <= k < initial.len() && (#[trigger] initial[k]).connection_id@ != connection_id@
                ==> connections@.contains(initial[k]),
            initial == old(connections)@,
        decreases connections@.len() - i,
    {
        if str_eq(connections[i].connection_id.as_str(), connection_id) {
            let ghost before = connections@;
            let _removed = connections.remove(i);
            assert forall|k: int| 0 <= k < initial.len() && (#[trigger] initial[k]).connection_id@ != connection_id@
                implies connections@.contains(initial[k]) by {
                let m = choose|m: int| 0 <= m < before.len() && before[m] == initial[k];
                if m < i {
                    assert(connections@[m] == initial[k]);
                } else if m > i {
                    assert(connections@[m - 1] == initial[k]);
                }
            }
            assert forall|k: int| 0 <= k < connections@.len() implies initial.contains(#[trigger] connections@[k]) by {
                if k < i {
                    assert(connections@[k] == before[k]);
                } else {
                    assert(connections@[k] == before[k + 1]);
                }
            }
        } else {
            i = i + 1;
        }
    }
    let mut j: usize = 0;
    while j < connections.len()
        invariant
            j <= connections@.len(),
            forall|k: int| 0 <= k < j ==> (#[trigger] connections@[k]).device_address.bytes() != device.bytes(),
            forall|k: int| 0 <= k < connections@.len() ==> (#[trigger] connections@[k]).connection_id@ != connection_id@,
            forall|k: int| 0 <= k < connections@.len() ==> initial.contains(#[trigger] connections@[k]),
            forall|k: int| 0 <= k < initial.len() && (#[trigger] initial[k]).connection_id@ != connection_id@
                ==> connections@.contains(initial[k]),
            initial == old(connections)@,
        decreases connections@.len() - j,
    {
        if same_address(&connections[j].device_address, &device) {
            return true;
        }
        j = j + 1;
    }
    false
}

} // verus!
