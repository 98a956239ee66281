//! Bluetooth pairing agent state: the single pending numeric-comparison
//! request, the events shown to the UI, and how a finished pairing or a
//! cancellation clears it.
use vstd::prelude::*;
use vstd::string::*;
use crate::text::{
    ascii_lowercase, chars_eq_ignore_ascii_case, eq_ignore_ascii_case, occurs_at, str_chars,
    str_eq,
};

verus! {

/// Largest passkey that a six-digit comparison code can show.
pub const MAX_COMPARISON_PASSKEY: u32 = 999_999;

/// An event of the pairing agent, as sent to the UI.
pub struct AgentEvent {
    pub event: Option<String>,
    pub device: Option<String>,
    pub address: Option<String>,
    pub name: Option<String>,
    pub pin: Option<String>,
    pub pincode: Option<String>,
    pub kind: Option<String>,
    pub passkey: Option<u32>,
    pub entered: Option<u32>,
    pub uuid: Option<String>,
    pub accepted: Option<bool>,
    pub request_id: Option<String>,
}

/// The text of an optional string.
pub open spec fn opt_chars(o: Option<String>) -> Option<Seq<char>> {
    match o {
        Some(s) => Some(s@),
        None => None,
    }
}

/// An event named `name` with every other field empty.
pub open spec fn is_bare_event(e: AgentEvent, name: Seq<char>) -> bool {
    &&& opt_chars(e.event) == Some(name)
    &&& e.device is None
    &&& e.address is None
    &&& e.name is None
    &&& e.pin is None
    &&& e.pincode is None
    &&& e.kind is None
    &&& e.passkey is None
    &&& e.entered is None
    &&& e.uuid is None
    &&& e.accepted is None
    &&& e.request_id is None
}

fn copy_opt(o: &Option<String>) -> (c: Option<String>)
    ensures
        opt_chars(c) == opt_chars(*o),
{
    match o {
        Some(s) => Some(s.clone()),
        None => None,
    }
}

/// An event named `event` with no other field set.
pub fn agent_event(event: &str) -> (e: AgentEvent)
    ensures
        is_bare_event(e, event@),
{
    AgentEvent {
        event: Some(String::from_str(event)),
        device: None,
        address: None,
        name: None,
        pin: None,
        pincode: None,
        kind: None,
        passkey: None,
        entered: None,
        uuid: None,
        accepted: None,
        request_id: None,
    }
}

/// An event named `event` about the BlueZ device object `device`, with the
/// device's address and alias as BlueZ reported them.
pub fn device_event(event: &str, device: &str, address: Option<String>, name: Option<String>) -> (e: AgentEvent)
    ensures
        opt_chars(e.event) == Some(event@),
        opt_chars(e.device) == Some(device@),
        opt_chars(e.address) == opt_chars(address),
        opt_chars(e.name) == opt_chars(name),
        e.pin is None && e.pincode is None && e.kind is None && e.passkey is None,
        e.entered is None && e.uuid is None && e.accepted is None && e.request_id is None,
{
    let mut result = agent_event(event);
    result.device = Some(String::from_str(device));
    result.address = address;
    result.name = name;
    result
}

/// The text of `cancel`.
pub open spec fn cancel_name() -> Seq<char> {
    seq!['c', 'a', 'n', 'c', 'e', 'l']
}

/// The event that withdraws `pending` from the UI: a `cancel` that carries
/// the request id and the device of the request.
pub open spec fn is_clear_event_for(e: AgentEvent, pending: AgentEvent) -> bool {
    &&& opt_chars(e.event) == Some(cancel_name())
    &&& opt_chars(e.request_id) == opt_chars(pending.request_id)
    &&& opt_chars(e.device) == opt_chars(pending.device)
    &&& e.address is None
    &&& e.name is None
    &&& e.pin is None
    &&& e.pincode is None
    &&& e.kind is None
    &&& e.passkey is None
    &&& e.entered is None
    &&& e.uuid is None
    &&& e.accepted is None
}

/// The `cancel` event for a pending request.
pub fn clear_event(pending: &AgentEvent) -> (e: AgentEvent)
    ensures
        is_clear_event_for(e, *pending),
{
    let mut e = agent_event("cancel");
    proof {
        reveal_strlit("cancel");
    }
    assert("cancel"@ =~= cancel_name());
    e.request_id = copy_opt(&pending.request_id);
    e.device = copy_opt(&pending.device);
    e
}

/// The marker before the address in a BlueZ device object path.
pub open spec fn dev_marker() -> Seq<char> {
    seq!['/', 'd', 'e', 'v', '_']
}

/// The last position at or before `i` where `needle` occurs in `hay`, or -1.
pub open spec fn last_occurrence_upto(hay: Seq<char>, needle: Seq<char>, i: int) -> int
    decreases i + 1,
{
    if i < 0 {
        -1
    } else if occurs_at(hay, needle, i) {
        i
    } else {
        last_occurrence_upto(hay, needle, i - 1)
    }
}

/// What follows the last `/dev_` in a device path (`rsplit_once`).
pub open spec fn dev_suffix(path: Seq<char>) -> Option<Seq<char>> {
    let k = last_occurrence_upto(path, dev_marker(), path.len() - 5);
    if k >= 0 {
        Some(path.subrange(k + 5, path.len() as int))
    } else {
        None
    }
}

/// `_` replaced by `:`, as in a path segment turned into an address.
pub open spec fn underscores_to_colons(s: Seq<char>) -> Seq<char> {
    s.map_values(|c: char| if c == '_' { ':' } else { c })
}

/// Whether a request was made for the device `address`: its address field
/// names it, or its object path ends in it (ASCII case ignored both ways).
pub open spec fn event_matches_device(event: AgentEvent, address: Seq<char>) -> bool {
    ||| (event.address matches Some(a) && eq_ignore_ascii_case(a@, address))
    ||| (event.device matches Some(d) && dev_suffix(d@) matches Some(v) && eq_ignore_ascii_case(
        underscores_to_colons(v),
        address,
    ))
}

proof fn lemma_last_occurrence_found(hay: Seq<char>, needle: Seq<char>, i: int)
    ensures
        last_occurrence_upto(hay, needle, i) >= 0 ==> occurs_at(hay, needle, last_occurrence_upto(hay, needle, i)),
    decreases i + 1,
{
    if i >= 0 && !occurs_at(hay, needle, i) {
        lemma_last_occurrence_found(hay, needle, i - 1);
    }
}

fn rfind_dev_marker(path: &Vec<char>) -> (k: Option<usize>)
    ensures
        match k {
            Some(i) => i as int == last_occurrence_upto(path@, dev_marker(), path@.len() - 5) && i + 5 <= path@.len(),
            None => last_occurrence_upto(path@, dev_marker(), path@.len() - 5) < 0,
        },
{
    let n = path.len();
    if n < 5 {
        return None;
    }
    let mut k: usize = n - 5;
    loop
        invariant
            n == path@.len(),
            k + 5 <= n,
            last_occurrence_upto(path@, dev_marker(), n - 5) == last_occurrence_upto(path@, dev_marker(), k as int),
        decreases k,
    {
        if path[k] == '/' && path[k + 1] == 'd' && path[k + 2] == 'e' && path[k + 3] == 'v' && path[k + 4] == '_' {
            assert(path@.subrange(k as int, k + 5) =~= dev_marker());
            return Some(k);
        }
        assert(!occurs_at(path@, dev_marker(), k as int)) by {
            if path@.subrange(k as int, k + 5) == dev_marker() {
                assert(path@[k as int] == path@.subrange(k as int, k + 5)[0]);
                assert(path@[k + 1] == path@.subrange(k as int, k + 5)[1]);
                assert(path@[k + 2] == path@.subrange(k as int, k + 5)[2]);
                assert(path@[k + 3] == path@.subrange(k as int, k + 5)[3]);
                assert(path@[k + 4] == path@.subrange(k as int, k + 5)[4]);
            }
        }
        if k == 0 {
            assert(last_occurrence_upto(path@, dev_marker(), -1) == -1);
            return None;
        }
        k = k - 1;
    }
}

/// Whether the request `event` was for the device `address`.
pub fn matches_device(event: &AgentEvent, address: &str) -> (m: bool)
    ensures
        m == event_matches_device(*event, address@),
{
    let wanted = str_chars(address);
    let by_address = match &event.address {
        Some(a) => {
            let chars = str_chars(a.as_str());
            chars_eq_ignore_ascii_case(&chars, &wanted)
        },
        None => false,
    };
    if by_address {
        return true;
    }
    match &event.device {
        Some(d) => {
            let path = str_chars(d.as_str());
            match rfind_dev_marker(&path) {
                Some(k) => {
                    proof {
                        lemma_last_occurrence_found(path@, dev_marker(), path@.len() - 5);
                    }
                    let mut tail: Vec<char> = Vec::new();
                    let n = path.len();
                    assert(k + 5 <= n);
                    let mut i: usize = k + 5;
                    while i < path.len()
                        invariant
                            k + 5 <= i <= path@.len(),
                            tail@ == underscores_to_colons(path@.subrange(k + 5, i as int)),
                        decreases path@.len() - i,
                    {
                        let c = path[i];
                        tail.push(if c == '_' { ':' } else { c });
                        i = i + 1;
                        assert(tail@ =~= underscores_to_colons(path@.subrange(k + 5, i as int)));
                    }
                    chars_eq_ignore_ascii_case(&tail, &wanted)
                },
                None => false,
            }
        },
        None => false,
    }
}

/// The decimal digit char for `d < 10`.
pub open spec fn digit_char(d: nat) -> char {
    (d + 48) as char
}

/// A passkey as the six-digit code shown to the user, leading zeroes kept
/// (`{:06}`).
pub open spec fn comparison_code(p: nat) -> Seq<char> {
    seq![
        digit_char(p / 100000 % 10),
        digit_char(p / 10000 % 10),
        digit_char(p / 1000 % 10),
        digit_char(p / 100 % 10),
        digit_char(p / 10 % 10),
        digit_char(p % 10),
    ]
}

/// The numeric value of the digit chars `s`.
pub open spec fn digits_value(s: Seq<char>) -> int
    decreases s.len(),
{
    if s.len() == 0 {
        0
    } else {
        digits_value(s.drop_last()) * 10 + (s.last() as int - 48)
    }
}

/// The six-digit text of a passkey up to `MAX_COMPARISON_PASSKEY`.
pub fn comparison_pin(passkey: u32) -> (pin: String)
    requires
        passkey <= MAX_COMPARISON_PASSKEY,
    ensures
        pin@ == comparison_code(passkey as nat),
{
    let digits: [u8; 6] = [
        (passkey / 100000 % 10) as u8 + 48,
        (passkey / 10000 % 10) as u8 + 48,
        (passkey / 1000 % 10) as u8 + 48,
        (passkey / 100 % 10) as u8 + 48,
        (passkey / 10 % 10) as u8 + 48,
        (passkey % 10) as u8 + 48,
    ];
    let pin = crate::text::ascii_string(digits.as_slice());
    assert(pin@ =~= comparison_code(passkey as nat));
    pin
}

/// The comparison code reads back as the passkey: six digits whose decimal
/// value is the passkey, for every passkey the agent accepts.
pub proof fn lemma_comparison_code_reads_back(p: nat)
    requires
        p <= MAX_COMPARISON_PASSKEY,
    ensures
        comparison_code(p).len() == 6,
        forall|i: int| 0 <= i < 6 ==> '0' <= #[trigger] comparison_code(p)[i] <= '9',
        digits_value(comparison_code(p)) == p,
{
    let c = comparison_code(p);
    assert forall|d: nat| d < 10 implies #[trigger] digit_char(d) as int == d + 48 by {}
    assert forall|i: int| 0 <= i < 6 implies '0' <= #[trigger] c[i] <= '9' by {}
    let d0 = p / 100000 % 10;
    let d1 = p / 10000 % 10;
    let d2 = p / 1000 % 10;
    let d3 = p / 100 % 10;
    let d4 = p / 10 % 10;
    let d5 = p % 10;
    let t1 = c.take(1);
    let t2 = c.take(2);
    let t3 = c.take(3);
    let t4 = c.take(4);
    let t5 = c.take(5);
    assert(t1.drop_last() =~= Seq::<char>::empty());
    assert(digits_value(Seq::<char>::empty()) == 0);
    assert(t1.last() == digit_char(d0));
    assert(digit_char(d0) as int == d0 + 48);
    assert(digits_value(t1) == digits_value(t1.drop_last()) * 10 + (t1.last() as int - 48));
    assert(digits_value(t1) == d0);
    assert(t2.drop_last() =~= t1);
    assert(t2.last() == digit_char(d1));
    assert(digits_value(t2) == d0 * 10 + d1);
    assert(t3.drop_last() =~= t2);
    assert(t3.last() == digit_char(d2));
    assert(digits_value(t3) == (d0 * 10 + d1) * 10 + d2);
    assert(t4.drop_last() =~= t3);
    assert(t4.last() == digit_char(d3));
    assert(digits_value(t4) == ((d0 * 10 + d1) * 10 + d2) * 10 + d3);
    assert(t5.drop_last() =~= t4);
    assert(t5.last() == digit_char(d4));
    assert(digits_value(t5) == (((d0 * 10 + d1) * 10 + d2) * 10 + d3) * 10 + d4);
    assert(c.drop_last() =~= t5);
    assert(c.last() == digit_char(d5));
    assert(digits_value(c) == ((((d0 * 10 + d1) * 10 + d2) * 10 + d3) * 10 + d4) * 10 + d5);
    assert(((((d0 * 10 + d1) * 10 + d2) * 10 + d3) * 10 + d4) * 10 + d5 == p) by (nonlinear_arith)
        requires
            p <= 999_999,
            d0 == p / 100000 % 10,
            d1 == p / 10000 % 10,
            d2 == p / 1000 % 10,
            d3 == p / 100 % 10,
            d4 == p / 10 % 10,
            d5 == p % 10,
    {
    }
}

/// Why the agent refused a request.
#[derive(Clone, Copy, Debug, PartialEq, Eq, Structural)]
pub enum AgentError {
    /// Only matching-code pairing is supported (PIN entry, passkey entry and
    /// codes of more than six digits are refused).
    MatchingCodeRequired,
    /// Another comparison is still waiting for the user.
    AnotherRequestActive,
}

/// The text of `request_confirmation`.
pub open spec fn request_confirmation_name() -> Seq<char> {
    seq!['r', 'e', 'q', 'u', 'e', 's', 't', '_', 'c', 'o', 'n', 'f', 'i', 'r', 'm', 'a', 't', 'i', 'o', 'n']
}

/// The text of `bluetooth_pin`.
pub open spec fn bluetooth_pin_kind() -> Seq<char> {
    seq!['b', 'l', 'u', 'e', 't', 'o', 'o', 't', 'h', '_', 'p', 'i', 'n']
}

/// The comparison request shown for `device` (its address and alias as
/// BlueZ reported them) with request id `request_id`.
pub open spec fn is_comparison_event(
    e: AgentEvent,
    device: Seq<char>,
    passkey: u32,
    address: Option<Seq<char>>,
    name: Option<Seq<char>>,
    request_id: Seq<char>,
) -> bool {
    &&& opt_chars(e.event) == Some(request_confirmation_name())
    &&& opt_chars(e.device) == Some(device)
    &&& opt_chars(e.address) == address
    &&& opt_chars(e.name) == name
    &&& opt_chars(e.kind) == Some(bluetooth_pin_kind())
    &&& opt_chars(e.pin) == Some(comparison_code(passkey as nat))
    &&& opt_chars(e.request_id) == Some(request_id)
    &&& e.pincode is None
    &&& e.passkey is None
    &&& e.entered is None
    &&& e.uuid is None
    &&& e.accepted is None
}

/// The comparison request for `device` under a given request id; passkeys
/// that need more than six digits are refused.
pub fn comparison_event_with_id(
    device: &str,
    passkey: u32,
    address: Option<String>,
    name: Option<String>,
    request_id: String,
) -> (r: Result<AgentEvent, AgentError>)
    ensures
        passkey > MAX_COMPARISON_PASSKEY ==> r == Err::<AgentEvent, AgentError>(AgentError::MatchingCodeRequired),
        passkey <= MAX_COMPARISON_PASSKEY ==> (r matches Ok(e) && is_comparison_event(
            e,
            device@,
            passkey,
            opt_chars(address),
            opt_chars(name),
            request_id@,
        )),
{
    if passkey > MAX_COMPARISON_PASSKEY {
        return Err(AgentError::MatchingCodeRequired);
    }
    let mut e = agent_event("request_confirmation");
    proof {
        reveal_strlit("request_confirmation");
        reveal_strlit("bluetooth_pin");
    }
    e.device = Some(String::from_str(device));
    e.address = address;
    e.name = name;
    e.kind = Some(String::from_str("bluetooth_pin"));
    e.pin = Some(comparison_pin(passkey));
    e.request_id = Some(request_id);
    assert("request_confirmation"@ =~= request_confirmation_name());
    assert("bluetooth_pin"@ =~= bluetooth_pin_kind());
    Ok(e)
}

/// The comparison request for `device` under a fresh random request id
/// (a version-4 UUID in its 36-character text form).
pub fn comparison_event(device: &str, passkey: u32, address: Option<String>, name: Option<String>) -> (r: Result<AgentEvent, AgentError>)
    ensures
        passkey > MAX_COMPARISON_PASSKEY ==> r == Err::<AgentEvent, AgentError>(AgentError::MatchingCodeRequired),
        passkey <= MAX_COMPARISON_PASSKEY ==> (r matches Ok(e) && exists|id: Seq<char>|
            id.len() == 36 && #[trigger] is_comparison_event(e, device@, passkey, opt_chars(address), opt_chars(name), id)),
{
    let id = crate::chunking::random_uuid_text();
    let ghost id_chars = id@;
    let r = comparison_event_with_id(device, passkey, address, name, id);
    proof {
        if passkey <= MAX_COMPARISON_PASSKEY {
            let e = r->Ok_0;
            assert(is_comparison_event(e, device@, passkey, opt_chars(address), opt_chars(name), id_chars));
        }
    }
    r
}

/// The one comparison request awaiting the user, if any.
pub struct PairingSlot {
    pub pending: Option<AgentEvent>,
}

impl PairingSlot {
    /// Nothing pending.
    pub fn new() -> (s: PairingSlot)
        ensures
            s.pending is None,
    {
        PairingSlot { pending: None }
    }
}

/// Two events with the same text in every field.
pub open spec fn same_event(a: AgentEvent, b: AgentEvent) -> bool {
    &&& opt_chars(a.event) == opt_chars(b.event)
    &&& opt_chars(a.device) == opt_chars(b.device)
    &&& opt_chars(a.address) == opt_chars(b.address)
    &&& opt_chars(a.name) == opt_chars(b.name)
    &&& opt_chars(a.pin) == opt_chars(b.pin)
    &&& opt_chars(a.pincode) == opt_chars(b.pincode)
    &&& opt_chars(a.kind) == opt_chars(b.kind)
    &&& a.passkey == b.passkey
    &&& a.entered == b.entered
    &&& opt_chars(a.uuid) == opt_chars(b.uuid)
    &&& a.accepted == b.accepted
    &&& opt_chars(a.request_id) == opt_chars(b.request_id)
}

/// A copy of an event.
pub fn copy_event(e: &AgentEvent) -> (c: AgentEvent)
    ensures
        same_event(c, *e),
{
    AgentEvent {
        event: copy_opt(&e.event),
        device: copy_opt(&e.device),
        address: copy_opt(&e.address),
        name: copy_opt(&e.name),
        pin: copy_opt(&e.pin),
        pincode: copy_opt(&e.pincode),
        kind: copy_opt(&e.kind),
        passkey: e.passkey,
        entered: e.entered,
        uuid: copy_opt(&e.uuid),
        accepted: e.accepted,
        request_id: copy_opt(&e.request_id),
    }
}

/// A copy of the pending request, if any.
pub fn pending_request(slot: &PairingSlot) -> (r: Option<AgentEvent>)
    ensures
        slot.pending is None ==> r is None,
        slot.pending matches Some(p) ==> (r matches Some(e) && same_event(e, p)),
{
    match &slot.pending {
        Some(p) => Some(copy_event(p)),
        None => None,
    }
}

/// Whether `pending` carries the request id `request_id`.
pub open spec fn has_request_id(pending: AgentEvent, request_id: Seq<char>) -> bool {
    opt_chars(pending.request_id) == Some(request_id)
}

/// Makes `event` the pending request, unless one is pending already.
pub fn begin_request(slot: &mut PairingSlot, event: AgentEvent) -> (r: Result<(), AgentError>)
    ensures
        old(slot).pending is Some ==> r == Err::<(), AgentError>(AgentError::AnotherRequestActive)
            && final(slot).pending == old(slot).pending,
        old(slot).pending is None ==> r is Ok && final(slot).pending == Some(event),
{
    if slot.pending.is_some() {
        return Err(AgentError::AnotherRequestActive);
    }
    slot.pending = Some(event);
    Ok(())
}

/// Takes the pending request if it has the id `request_id` (its timeout
/// fired); otherwise leaves it.
pub fn take_pending(slot: &mut PairingSlot, request_id: &str) -> (taken: Option<AgentEvent>)
    ensures
        (old(slot).pending matches Some(p) && has_request_id(p, request_id@)) ==> taken == old(slot).pending
            && final(slot).pending is None,
        !(old(slot).pending matches Some(p) && has_request_id(p, request_id@)) ==> taken is None
            && final(slot).pending == old(slot).pending,
{
    let matches = match &slot.pending {
        Some(p) => match &p.request_id {
            Some(id) => str_eq(id.as_str(), request_id),
            None => false,
        },
        None => false,
    };
    if matches {
        slot.pending.take()
    } else {
        None
    }
}

/// Drops the pending request (the agent was released or the request
/// cancelled) and returns the `cancel` event to send for it.
pub fn cancel_current(slot: &mut PairingSlot) -> (cleared: Option<AgentEvent>)
    ensures
        final(slot).pending is None,
        old(slot).pending is None ==> cleared is None,
        old(slot).pending matches Some(p) ==> (cleared matches Some(e) && is_clear_event_for(e, p)),
{
    match slot.pending.take() {
        Some(p) => Some(clear_event(&p)),
        None => None,
    }
}

/// Ends the pending request when the device `address` finished pairing,
/// returning the `cancel` event to send; a request for another device stays.
pub fn pairing_finished(slot: &mut PairingSlot, address: &str) -> (cleared: Option<AgentEvent>)
    ensures
        (old(slot).pending matches Some(p) && event_matches_device(p, address@)) ==> (final(slot).pending is None
            && (cleared matches Some(e) && is_clear_event_for(e, old(slot).pending->Some_0))),
        !(old(slot).pending matches Some(p) && event_matches_device(p, address@)) ==> cleared is None
            && final(slot).pending == old(slot).pending,
{
    let finished = match &slot.pending {
        Some(p) => matches_device(p, address),
        None => false,
    };
    if finished {
        cancel_current(slot)
    } else {
        None
    }
}

} // verus!
