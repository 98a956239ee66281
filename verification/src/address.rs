//! Bluetooth device addresses.
use vstd::prelude::*;
use crate::text::{ascii_string, str_chars};

verus! {

/// A 48-bit Bluetooth device address, most significant byte first (the order
/// in which it is written as `AA:BB:CC:DD:EE:FF`).
#[derive(Clone, Copy, Debug, PartialEq, Eq)]
pub struct Address(pub [u8; 6]);

impl Address {
    /// The address bytes.
    pub open spec fn bytes(self) -> Seq<u8> {
        self.0@
    }
}

/// Whether two addresses are the same.
pub fn same_address(a: &Address, b: &Address) -> (same: bool)
    ensures
        same == (a.bytes() == b.bytes()),
{
    let mut i: usize = 0;
    while i < 6
        invariant
            i <= 6,
            a.0@.len() == 6,
            b.0@.len() == 6,
            forall|k: int| 0 <= k < i ==> a.0@[k] == b.0@[k],
        decreases 6 - i,
    {
        if a.0[i] != b.0[i] {
            return false;
        }
        i = i + 1;
    }
    assert(a.0@ =~= b.0@);
    true
}

/// The ASCII code of the upper-case hexadecimal digit for `n` (below 16).
pub open spec fn hex_code(n: u8) -> u8 {
    if n < 10 {
        (n + 48) as u8
    } else {
        (n + 55) as u8
    }
}

/// The ASCII codes of an address written `AA:BB:CC:DD:EE:FF`: each byte as
/// two upper-case hexadecimal digits, most significant byte first, joined by
/// colons.
pub open spec fn address_codes(a: Address) -> Seq<u8> {
    let b = a.bytes();
    seq![
        hex_code(b[0] / 16), hex_code(b[0] % 16), 58u8,
        hex_code(b[1] / 16), hex_code(b[1] % 16), 58u8,
        hex_code(b[2] / 16), hex_code(b[2] % 16), 58u8,
        hex_code(b[3] / 16), hex_code(b[3] % 16), 58u8,
        hex_code(b[4] / 16), hex_code(b[4] % 16), 58u8,
        hex_code(b[5] / 16), hex_code(b[5] % 16),
    ]
}

/// An address as text, `AA:BB:CC:DD:EE:FF`.
pub open spec fn address_chars(a: Address) -> Seq<char> {
    Seq::new(17, |i: int| address_codes(a)[i] as char)
}

/// Appends a byte's two upper-case hexadecimal digits.
fn push_byte_hex(out: &mut Vec<u8>, b: u8)
    ensures
        final(out)@ == old(out)@ + seq![hex_code(b / 16), hex_code(b % 16)],
{
    let hi = b / 16;
    let lo = b % 16;
    out.push(if hi < 10 { hi + 48 } else { hi + 55 });
    out.push(if lo < 10 { lo + 48 } else { lo + 55 });
    assert(out@ =~= old(out)@ + seq![hex_code(b / 16), hex_code(b % 16)]);
}

/// The address as text, `AA:BB:CC:DD:EE:FF` (how a Bluetooth address
/// displays).
pub fn address_text(a: &Address) -> (s: String)
    ensures
        s@ == address_chars(*a),
{
    let mut out: Vec<u8> = Vec::with_capacity(17);
    push_byte_hex(&mut out, a.0[0]);
    out.push(58);
    push_byte_hex(&mut out, a.0[1]);
    out.push(58);
    push_byte_hex(&mut out, a.0[2]);
    out.push(58);
    push_byte_hex(&mut out, a.0[3]);
    out.push(58);
    push_byte_hex(&mut out, a.0[4]);
    out.push(58);
    push_byte_hex(&mut out, a.0[5]);
    assert(out@ =~= address_codes(*a));
    assert forall|i: int| 0 <= i < out@.len() implies #[trigger] out@[i] < 128 by {}
    let s = ascii_string(out.as_slice());
    assert(s@ =~= address_chars(*a));
    s
}

/// The value of a hexadecimal digit, in either case.
pub open spec fn hex_digit_value(c: char) -> Option<int> {
    if '0' <= c <= '9' {
        Some(c as int - 48)
    } else if 'a' <= c <= 'f' {
        Some(c as int - 87)
    } else if 'A' <= c <= 'F' {
        Some(c as int - 55)
    } else {
        None
    }
}

/// Whether every char of `s` is a hexadecimal digit.
pub open spec fn all_hex(s: Seq<char>) -> bool {
    forall|i: int| 0 <= i < s.len() ==> #[trigger] hex_digit_value(s[i]) is Some
}

/// The value of hexadecimal digits, most significant first.
pub open spec fn hex_value(s: Seq<char>) -> int
    decreases s.len(),
{
    if s.len() == 0 {
        0
    } else {
        hex_value(s.drop_last()) * 16 + match hex_digit_value(s.last()) {
            Some(d) => d,
            None => 0,
        }
    }
}

/// `u8::from_str_radix(s, 16)`: an optional `+`, then at least one
/// hexadecimal digit, of value at most 255.
pub open spec fn parsed_hex_u8(s: Seq<char>) -> Option<u8> {
    let digits = if s.len() > 0 && s[0] == '+' { s.drop_first() } else { s };
    if digits.len() > 0 && all_hex(digits) && hex_value(digits) <= 255 {
        Some(hex_value(digits) as u8)
    } else {
        None
    }
}

/// The pieces of `s` between colons, as `str::split(':')` yields them
/// (always at least one).
pub open spec fn colon_fields(s: Seq<char>) -> Seq<Seq<char>>
    decreases s.len(),
{
    if s.len() == 0 {
        seq![Seq::<char>::empty()]
    } else {
        let f = colon_fields(s.drop_last());
        if s.last() == ':' {
            f.push(Seq::<char>::empty())
        } else {
            f.update(f.len() - 1, f.last().push(s.last()))
        }
    }
}

/// The bytes of an address written as six colon-separated hexadecimal
/// fields (how a Bluetooth address is read from text).
pub open spec fn address_fields(s: Seq<char>) -> Option<Seq<u8>> {
    let f = colon_fields(s);
    if f.len() == 6 && forall|k: int| 0 <= k < 6 ==> #[trigger] parsed_hex_u8(f[k]) is Some {
        Some(Seq::new(6, |k: int| parsed_hex_u8(f[k])->Some_0))
    } else {
        None
    }
}

proof fn lemma_colon_fields_nonempty(s: Seq<char>)
    ensures
        colon_fields(s).len() >= 1,
    decreases s.len(),
{
    if s.len() > 0 {
        lemma_colon_fields_nonempty(s.drop_last());
    }
}

proof fn lemma_hex_prefix_bound(s: Seq<char>, k: int)
    requires
        all_hex(s),
        0 <= k <= s.len(),
    ensures
        hex_value(s) >= hex_value(s.take(k)) >= 0,
    decreases s.len() - k,
{
    if k < s.len() {
        lemma_hex_prefix_bound(s, k + 1);
        assert(s.take(k + 1).drop_last() =~= s.take(k));
        assert(s.take(k + 1).last() == s[k]);
        assert(hex_digit_value(s[k]) is Some);
    } else {
        assert(s.take(k) =~= s);
        lemma_hex_nonneg(s);
    }
}

proof fn lemma_hex_nonneg(s: Seq<char>)
    requires
        all_hex(s),
    ensures
        hex_value(s) >= 0,
    decreases s.len(),
{
    if s.len() > 0 {
        assert(all_hex(s.drop_last())) by {
            assert forall|i: int| 0 <= i < s.drop_last().len() implies #[trigger] hex_digit_value(s.drop_last()[i]) is Some by {
                assert(s.drop_last()[i] == s[i]);
            }
        }
        lemma_hex_nonneg(s.drop_last());
        assert(hex_digit_value(s[s.len() - 1]) is Some);
    }
}

/// `u8::from_str_radix(field, 16)`.
fn parse_hex_u8(field: &Vec<char>) -> (r: Option<u8>)
    ensures
        r == parsed_hex_u8(field@),
{
    let n = field.len();
    let mut start: usize = 0;
    if n > 0 && field[0] == '+' {
        start = 1;
    }
    let ghost digits = field@.subrange(start as int, n as int);
    assert(digits =~= if field@.len() > 0 && field@[0] == '+' { field@.drop_first() } else { field@ });
    if start == n {
        return None;
    }
    assert(parsed_hex_u8(field@) == if all_hex(digits) && hex_value(digits) <= 255 {
        Some(hex_value(digits) as u8)
    } else {
        None
    });
    let mut value: u32 = 0;
    let mut i: usize = start;
    while i < n
        invariant
            n == field@.len(),
            parsed_hex_u8(field@) == if all_hex(digits) && hex_value(digits) <= 255 {
                Some(hex_value(digits) as u8)
            } else {
                None
            },
            start < n,
            start <= i <= n,
            digits == field@.subrange(start as int, n as int),
            all_hex(digits.take(i - start)),
            value == hex_value(digits.take(i - start)),
            value <= 255,
        decreases n - i,
    {
        let c = field[i];
        let d: u32 = if '0' <= c && c <= '9' {
            (c as u32) - 48
        } else if 'a' <= c && c <= 'f' {
            (c as u32) - 87
        } else if 'A' <= c && c <= 'F' {
            (c as u32) - 55
        } else {
            assert(!all_hex(digits)) by {
                assert(digits[i - start] == c);
            }
            return None;
        };
        let ghost prefix = digits.take(i - start);
        assert(digits.take(i - start + 1).drop_last() =~= prefix);
        assert(digits.take(i - start + 1).last() == c);
        assert(hex_value(digits.take(i - start + 1)) == value * 16 + d);
        assert(all_hex(digits.take(i - start + 1))) by {
            assert forall|j: int| 0 <= j < i - start + 1 implies #[trigger] hex_digit_value(digits.take(i - start + 1)[j]) is Some by {
                if j < i - start {
                    assert(digits.take(i - start + 1)[j] == prefix[j]);
                }
            }
        }
        if value * 16 + d > 255 {
            assert(!(all_hex(digits) && hex_value(digits) <= 255)) by {
                if all_hex(digits) {
                    lemma_hex_prefix_bound(digits, i - start + 1);
                }
            }
            return None;
        }
        value = value * 16 + d;
        i = i + 1;
    }
    assert(digits.take(n - start) =~= digits);
    Some(value as u8)
}

/// The views of text fields.
pub open spec fn fields_view(fields: Seq<Vec<char>>) -> Seq<Seq<char>> {
    fields.map_values(|f: Vec<char>| f@)
}

/// Reads an address written as six colon-separated hexadecimal fields, as
/// `AA:BB:CC:DD:EE:FF` (either case; each field one or two digits, or more
/// with leading zeros, optionally after `+`).
pub fn parse_address(s: &str) -> (r: Option<Address>)
    ensures
        match r {
            Some(a) => address_fields(s@) == Some(a.bytes()),
            None => address_fields(s@) is None,
        },
{
    let cs = str_chars(s);
    let mut fields: Vec<Vec<char>> = Vec::new();
    let mut cur: Vec<char> = Vec::new();
    let mut i: usize = 0;
    assert(cs@.take(0) =~= Seq::<char>::empty());
    assert(fields_view(fields@).push(cur@) =~= colon_fields(cs@.take(0)));
    while i < cs.len()
        invariant
            cs@ == s@,
            i <= cs@.len(),
            fields_view(fields@).push(cur@) == colon_fields(cs@.take(i as int)),
        decreases cs@.len() - i,
    {
        let ghost before = fields_view(fields@).push(cur@);
        assert(cs@.take(i as int + 1).drop_last() =~= cs@.take(i as int));
        assert(cs@.take(i as int + 1).last() == cs@[i as int]);
        if cs[i] == ':' {
            let done = cur;
            fields.push(done);
            cur = Vec::new();
            assert(fields_view(fields@).push(cur@) =~= before.push(Seq::<char>::empty()));
        } else {
            let ghost old_cur = cur@;
            cur.push(cs[i]);
            assert(fields_view(fields@).push(cur@) =~= before.update(before.len() - 1, before.last().push(cs@[i as int])));
        }
        i = i + 1;
    }
    assert(cs@.take(i as int) =~= s@);
    let last = cur;
    fields.push(last);
    let ghost f = colon_fields(s@);
    assert(fields_view(fields@) == f);
    if fields.len() != 6 {
        return None;
    }
    let mut bytes: Vec<u8> = Vec::new();
    let mut k: usize = 0;
    while k < 6
        invariant
            fields@.len() == 6,
            fields_view(fields@) == f,
            f == colon_fields(s@),
            k <= 6,
            bytes@.len() == k,
            forall|j: int| 0 <= j < k ==> parsed_hex_u8(f[j]) == Some(#[trigger] bytes@[j]),
        decreases 6 - k,
    {
        assert(fields@[k as int]@ == f[k as int]);
        match parse_hex_u8(&fields[k]) {
            Some(b) => bytes.push(b),
            None => {
                return None;
            },
        }
        k = k + 1;
    }
    let a = Address([bytes[0], bytes[1], bytes[2], bytes[3], bytes[4], bytes[5]]);
    assert(a.bytes() =~= Seq::new(6, |j: int| parsed_hex_u8(f[j])->Some_0));
    Some(a)
}

/// A byte as two upper-case hexadecimal digits, as text.
pub open spec fn hex_pair(b: u8) -> Seq<char> {
    seq![hex_code(b / 16) as char, hex_code(b % 16) as char]
}

proof fn lemma_hex_code_reads_back(n: u8)
    requires
        n < 16,
    ensures
        hex_digit_value(hex_code(n) as char) == Some(n as int),
        hex_code(n) as char != ':',
        hex_code(n) as char != '+',
{
}

proof fn lemma_hex_pair_reads_back(b: u8)
    ensures
        parsed_hex_u8(hex_pair(b)) == Some(b),
        forall|i: int| 0 <= i < hex_pair(b).len() ==> #[trigger] hex_pair(b)[i] != ':',
{
    let p = hex_pair(b);
    lemma_hex_code_reads_back(b / 16);
    lemma_hex_code_reads_back(b % 16);
    assert(all_hex(p));
    assert(p.drop_last().drop_last() =~= Seq::<char>::empty());
    assert(hex_value(p.drop_last().drop_last()) == 0);
    assert(p.drop_last().last() == hex_code(b / 16) as char);
    assert(hex_value(p.drop_last()) == (b / 16) as int);
    assert(hex_value(p) == (b / 16) as int * 16 + (b % 16) as int);
}

proof fn lemma_colon_fields_no_colon(y: Seq<char>)
    requires
        forall|i: int| 0 <= i < y.len() ==> #[trigger] y[i] != ':',
    ensures
        colon_fields(y) == seq![y],
    decreases y.len(),
{
    if y.len() > 0 {
        lemma_colon_fields_no_colon(y.drop_last());
        assert(y.drop_last().push(y.last()) =~= y);
        assert(seq![y.drop_last()].update(0, y.drop_last().push(y.last())) =~= seq![y]);
    } else {
        assert(y =~= Seq::<char>::empty());
    }
}

proof fn lemma_colon_fields_append(x: Seq<char>, y: Seq<char>)
    requires
        forall|i: int| 0 <= i < y.len() ==> #[trigger] y[i] != ':',
    ensures
        colon_fields(x + seq![':'] + y) == colon_fields(x).push(y),
    decreases y.len(),
{
    let z = x + seq![':'] + y;
    if y.len() == 0 {
        assert(z =~= x.push(':'));
        assert(z.drop_last() =~= x);
        assert(y =~= Seq::<char>::empty());
    } else {
        lemma_colon_fields_append(x, y.drop_last());
        assert(z.drop_last() =~= x + seq![':'] + y.drop_last());
        assert(z.last() == y.last());
        lemma_colon_fields_nonempty(x);
        let f = colon_fields(x).push(y.drop_last());
        assert(y.drop_last().push(y.last()) =~= y);
        assert(f.update(f.len() - 1, f.last().push(y.last())) =~= colon_fields(x).push(y));
    }
}

/// An address written as text reads back as the same address.
pub proof fn lemma_address_text_reads_back(a: Address)
    ensures
        address_fields(address_chars(a)) == Some(a.bytes()),
{
    let b = a.bytes();
    let p0 = hex_pair(b[0]);
    let p1 = hex_pair(b[1]);
    let p2 = hex_pair(b[2]);
    let p3 = hex_pair(b[3]);
    let p4 = hex_pair(b[4]);
    let p5 = hex_pair(b[5]);
    let s1 = p0 + seq![':'] + p1;
    let s2 = s1 + seq![':'] + p2;
    let s3 = s2 + seq![':'] + p3;
    let s4 = s3 + seq![':'] + p4;
    let s5 = s4 + seq![':'] + p5;
    assert(address_chars(a) =~= s5);
    lemma_hex_pair_reads_back(b[0]);
    lemma_hex_pair_reads_back(b[1]);
    lemma_hex_pair_reads_back(b[2]);
    lemma_hex_pair_reads_back(b[3]);
    lemma_hex_pair_reads_back(b[4]);
    lemma_hex_pair_reads_back(b[5]);
    lemma_colon_fields_no_colon(p0);
    lemma_colon_fields_append(p0, p1);
    lemma_colon_fields_append(s1, p2);
    lemma_colon_fields_append(s2, p3);
    lemma_colon_fields_append(s3, p4);
    lemma_colon_fields_append(s4, p5);
    let f = colon_fields(s5);
    assert(f =~= seq![p0, p1, p2, p3, p4, p5]);
    assert(Seq::new(6, |k: int| parsed_hex_u8(f[k])->Some_0) =~= b);
}

} // verus!
