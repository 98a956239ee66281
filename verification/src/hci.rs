//! Controller connection lists (`HCIGETCONNLIST`): which links are LE and
//! which are classic, so ANCS and the legacy advertiser can coordinate.
use vstd::prelude::*;
use crate::address::Address;
use crate::bytes_util::{be16_value, le16_value};

verus! {

/// Link type the controller reports for an LE ACL link.
pub const LE_LINK: u8 = 0x80;
/// Number of entries the connection-list request asks for.
pub const CONN_LIST_MAX: usize = 16;
/// Size of one `hci_conn_info` entry.
pub const CONN_INFO_SIZE: usize = 16;
/// Offset of the device address within an entry.
pub const CONN_INFO_BDADDR_OFFSET: usize = 2;
/// Offset of the link type within an entry.
pub const CONN_INFO_TYPE_OFFSET: usize = 8;

/// One controller connection.
#[derive(Clone, Copy, Debug, PartialEq, Eq)]
pub struct HciConnection {
    /// Device address in controller (little-endian) byte order.
    pub wire_address: [u8; 6],
    pub link_type: u8,
}

/// Why a connection list could not be read.
#[derive(Clone, Copy, Debug, PartialEq, Eq)]
pub enum ConnectionListError {
    /// Fewer than four header bytes.
    HeaderTruncated,
    /// The header announces more entries than the buffer holds.
    EntriesTruncated,
}

/// Whether `conns` are exactly the first `count` entries of `buf`.
pub open spec fn entries_match(conns: Seq<HciConnection>, buf: Seq<u8>, count: int) -> bool {
    &&& conns.len() == count
    &&& forall|i: int| 0 <= i < count ==> {
        let start = 4 + i * 16;
        &&& (#[trigger] conns[i]).wire_address@ == buf.subrange(start + 2, start + 8)
        &&& conns[i].link_type == buf[start + 8]
    }
}

/// `u16::from_ne_bytes`: which of the two byte orders applies is the
/// target's; only that it is one of them is stated.
#[verifier::external_body]
fn u16_from_ne_bytes(b0: u8, b1: u8) -> (n: u16)
    ensures
        n == le16_value(b0, b1) || n == be16_value(b0, b1),
{
    u16::from_ne_bytes([b0, b1])
}

/// Reads `count` entries after the four header bytes.
pub fn parse_connection_entries(buffer: &[u8], count: usize) -> (r: Result<Vec<HciConnection>, ConnectionListError>)
    ensures
        buffer@.len() < 4 ==> r == Err::<Vec<HciConnection>, ConnectionListError>(ConnectionListError::HeaderTruncated),
        buffer@.len() >= 4 && count > (buffer@.len() - 4) / 16 ==> r == Err::<Vec<HciConnection>, ConnectionListError>(
            ConnectionListError::EntriesTruncated,
        ),
        buffer@.len() >= 4 && count <= (buffer@.len() - 4) / 16 ==> (r matches Ok(conns) && entries_match(conns@, buffer@, count as int)),
{
    if buffer.len() < 4 {
        return Err(ConnectionListError::HeaderTruncated);
    }
    let available = (buffer.len() - 4) / CONN_INFO_SIZE;
    if count > available {
        return Err(ConnectionListError::EntriesTruncated);
    }
    let mut connections: Vec<HciConnection> = Vec::with_capacity(count);
    let mut index: usize = 0;
    while index < count
        invariant
            4 <= buffer@.len(),
            count <= (buffer@.len() - 4) / 16,
            index <= count,
            entries_match(connections@, buffer@, index as int),
        decreases count - index,
    {
        assert(index * 16 + 16 <= buffer@.len() - 4) by (nonlinear_arith)
            requires
                index < count,
                count <= (buffer@.len() - 4) / 16,
                buffer@.len() >= 4,
        ;
        assert(buffer.len() == buffer@.len());
        let start = 4 + index * 16;
        let o = start + CONN_INFO_BDADDR_OFFSET;
        let wire_address: [u8; 6] = [buffer[o], buffer[o + 1], buffer[o + 2], buffer[o + 3], buffer[o + 4], buffer[o + 5]];
        assert(wire_address@ =~= buffer@.subrange(start + 2, start + 8));
        connections.push(HciConnection { wire_address, link_type: buffer[start + CONN_INFO_TYPE_OFFSET] });
        index = index + 1;
    }
    Ok(connections)
}

/// Reads a connection list: a header whose third and fourth bytes hold the
/// entry count in the machine's byte order, then 16-byte entries.
pub fn parse_connection_list(buffer: &[u8]) -> (r: Result<Vec<HciConnection>, ConnectionListError>)
    ensures
        buffer@.len() < 4 <==> r == Err::<Vec<HciConnection>, ConnectionListError>(ConnectionListError::HeaderTruncated),
        r matches Ok(conns) ==> conns@.len() <= (buffer@.len() - 4) / 16 && entries_match(conns@, buffer@, conns@.len() as int)
            && (conns@.len() == le16_value(buffer@[2], buffer@[3]) || conns@.len() == be16_value(buffer@[2], buffer@[3])),
        r == Err::<Vec<HciConnection>, ConnectionListError>(ConnectionListError::EntriesTruncated) ==> buffer@.len() >= 4
            && (le16_value(buffer@[2], buffer@[3]) > (buffer@.len() - 4) / 16 || be16_value(buffer@[2], buffer@[3]) > (
            buffer@.len() - 4) / 16),
{
    if buffer.len() < 4 {
        return Err(ConnectionListError::HeaderTruncated);
    }
    let count = u16_from_ne_bytes(buffer[2], buffer[3]) as usize;
    parse_connection_entries(buffer, count)
}

/// The address bytes in the controller's (reversed) order.
pub open spec fn wire_order(address: Address) -> Seq<u8> {
    Seq::new(6, |i: int| address.0@[5 - i])
}

/// Whether there is an LE link to `address`.
pub fn le_acl_connected(connections: &Vec<HciConnection>, address: Address) -> (connected: bool)
    ensures
        connected == exists|i: int| 0 <= i < connections@.len() && (#[trigger] connections@[i]).link_type == LE_LINK
            && connections@[i].wire_address@ == wire_order(address),
{
    let wire: [u8; 6] = [address.0[5], address.0[4], address.0[3], address.0[2], address.0[1], address.0[0]];
    assert(wire@ =~= wire_order(address));
    let mut i: usize = 0;
    while i < connections.len()
        invariant
            i <= connections@.len(),
            wire@ == wire_order(address),
            forall|k: int| 0 <= k < i ==> !((#[trigger] connections@[k]).link_type == LE_LINK
                && connections@[k].wire_address@ == wire_order(address)),
        decreases connections@.len() - i,
    {
        let c = connections[i];
        if c.link_type == LE_LINK {
            let mut same = true;
            let mut j: usize = 0;
            while j < 6
                invariant
                    j <= 6,
                    c.wire_address@.len() == 6,
                    wire@.len() == 6,
                    same == forall|k: int| 0 <= k < j ==> c.wire_address@[k] == wire@[k],
                decreases 6 - j,
            {
                if c.wire_address[j] != wire[j] {
                    same = false;
                }
                j = j + 1;
            }
            if same {
                assert(c.wire_address@ =~= wire@);
                return true;
            }
            assert(c.wire_address@ != wire@) by {
                if c.wire_address@ == wire@ {
                    assert(forall|k: int| 0 <= k < 6 ==> c.wire_address@[k] == wire@[k]);
                }
            }
        }
        i = i + 1;
    }
    false
}

/// Whether any LE link is up.
pub fn any_le_acl_connected(connections: &Vec<HciConnection>) -> (connected: bool)
    ensures
        connected == exists|i: int| 0 <= i < connections@.len() && (#[trigger] connections@[i]).link_type == LE_LINK,
{
    let mut i: usize = 0;
    while i < connections.len()
        invariant
            i <= connections@.len(),
            forall|k: int| 0 <= k < i ==> (#[trigger] connections@[k]).link_type != LE_LINK,
        decreases connections@.len() - i,
    {
        if connections[i].link_type == LE_LINK {
            return true;
        }
        i = i + 1;
    }
    false
}

/// Whether every char of `s` is an ASCII digit.
pub open spec fn all_digits(s: Seq<char>) -> bool {
    forall|i: int| 0 <= i < s.len() ==> '0' <= #[trigger] s[i] <= '9'
}

/// The value of decimal digits.
pub open spec fn digits_value(s: Seq<char>) -> int
    decreases s.len(),
{
    if s.len() == 0 {
        0
    } else {
        digits_value(s.drop_last()) * 10 + (s.last() as int - '0' as int)
    }
}

/// `u16::from_str`: an optional `+` then at least one digit, within range.
pub open spec fn parsed_u16(s: Seq<char>) -> Option<u16> {
    let digits = if s.len() > 0 && s[0] == '+' { s.drop_first() } else { s };
    if digits.len() > 0 && all_digits(digits) && digits_value(digits) <= u16::MAX {
        Some(digits_value(digits) as u16)
    } else {
        None
    }
}

/// The controller index of an adapter named `hci<N>`.
pub open spec fn spec_adapter_index(name: Seq<char>) -> Option<u16> {
    if name.len() >= 3 && name[0] == 'h' && name[1] == 'c' && name[2] == 'i' {
        parsed_u16(name.subrange(3, name.len() as int))
    } else {
        None
    }
}

proof fn lemma_digits_value_nonneg(s: Seq<char>)
    requires
        all_digits(s),
    ensures
        digits_value(s) >= 0,
    decreases s.len(),
{
    if s.len() > 0 {
        lemma_digits_value_nonneg(s.drop_last());
    }
}

/// The controller index of an adapter name such as `hci0`; `None` for other
/// names.
pub fn adapter_index(name: &str) -> (index: Option<u16>)
    ensures
        index == spec_adapter_index(name@),
{
    let chars = crate::text::str_chars(name);
    let n = chars.len();
    if n < 3 || chars[0] != 'h' || chars[1] != 'c' || chars[2] != 'i' {
        return None;
    }
    let ghost rest = name@.subrange(3, n as int);
    let mut start: usize = 3;
    if n > 3 && chars[3] == '+' {
        start = 4;
    }
    let ghost digits = name@.subrange(start as int, n as int);
    assert(digits == if rest.len() > 0 && rest[0] == '+' { rest.drop_first() } else { rest });
    if start == n {
        return None;
    }
    assert(spec_adapter_index(name@) == (if digits.len() > 0 && all_digits(digits) && digits_value(digits) <= u16::MAX {
        Some(digits_value(digits) as u16)
    } else {
        None
    }));
    let mut value: u32 = 0;
    let mut i: usize = start;
    while i < n
        invariant
            chars@ == name@,
            n == chars@.len(),
            start < n,
            start <= i <= n,
            digits == name@.subrange(start as int, n as int),
            spec_adapter_index(name@) == (if digits.len() > 0 && all_digits(digits) && digits_value(digits) <= u16::MAX {
                Some(digits_value(digits) as u16)
            } else {
                None
            }),
            all_digits(digits.take(i - start)),
            value == digits_value(digits.take(i - start)),
            value <= u16::MAX,
        decreases n - i,
    {
        let c = chars[i];
        if c < '0' || c > '9' {
            assert(!all_digits(digits)) by {
                assert(digits[i - start] == c);
            }
            return None;
        }
        let d = (c as u32) - ('0' as u32);
        let ghost prefix = digits.take(i - start);
        assert(digits.take(i - start + 1).drop_last() =~= prefix);
        assert(digits.take(i - start + 1).last() == c);
        if value > 6553 || (value == 6553 && d > 5) {
            proof {
                lemma_digits_value_nonneg(prefix);
            }
            assert(digits_value(digits.take(i - start + 1)) > u16::MAX);
            assert(!(all_digits(digits) && digits_value(digits) <= u16::MAX)) by {
                if all_digits(digits) {
                    lemma_digits_prefix_bound(digits, i - start + 1);
                }
            }
            return None;
        }
        value = value * 10 + d;
        i = i + 1;
        assert(all_digits(digits.take(i - start)));
    }
    assert(digits.take(n - start) =~= digits);
    Some(value as u16)
}

proof fn lemma_digits_prefix_bound(s: Seq<char>, k: int)
    requires
        all_digits(s),
        0 <= k <= s.len(),
    ensures
        digits_value(s) >= digits_value(s.take(k)),
    decreases s.len() - k,
{
    if k < s.len() {
        lemma_digits_prefix_bound(s, k + 1);
        assert(s.take(k + 1).drop_last() =~= s.take(k));
        assert(all_digits(s.take(k + 1)));
        lemma_digits_value_nonneg(s.take(k));
        assert(s.take(k + 1).last() == s[k]);
        assert(digits_value(s.take(k + 1)) >= digits_value(s.take(k))) by (nonlinear_arith)
            requires
                digits_value(s.take(k + 1)) == digits_value(s.take(k)) * 10 + (s[k] as int - '0' as int),
                digits_value(s.take(k)) >= 0,
                '0' <= s[k] <= '9',
        {
        }
    } else {
        assert(s.take(k) =~= s);
    }
}

} // verus!
