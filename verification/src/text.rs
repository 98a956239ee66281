//! Text helpers over `str`/`String` views (sequences of `char`).
use vstd::prelude::*;
use vstd::string::*;
use vstd::utf8::*;
use crate::bytes_util::bytes_equal;

verus! {

broadcast use {encode_utf8_decode_utf8, decode_utf8_encode_utf8};

/// Unicode `White_Space`, the set that `char::is_whitespace` and `str::trim` use.
pub open spec fn is_white_space(c: char) -> bool {
    ||| ('\t' <= c <= '\r')
    ||| c == ' '
    ||| c == '\u{85}'
    ||| c == '\u{a0}'
    ||| c == '\u{1680}'
    ||| ('\u{2000}' <= c <= '\u{200a}')
    ||| c == '\u{2028}'
    ||| c == '\u{2029}'
    ||| c == '\u{202f}'
    ||| c == '\u{205f}'
    ||| c == '\u{3000}'
}

/// Whether a char is white space (the `char::is_whitespace` set).
pub fn char_is_white_space(c: char) -> (b: bool)
    ensures
        b == is_white_space(c),
{
    ('\t' <= c && c <= '\r') || c == ' ' || c == '\u{85}' || c == '\u{a0}' || c == '\u{1680}'
        || ('\u{2000}' <= c && c <= '\u{200a}') || c == '\u{2028}' || c == '\u{2029}' || c == '\u{202f}'
        || c == '\u{205f}' || c == '\u{3000}'
}

/// Index of the first non-white-space char at or after `i` (or the length).
pub open spec fn skip_white_from(s: Seq<char>, i: int) -> int
    decreases s.len() - i,
{
    if i >= s.len() || i < 0 {
        s.len() as int
    } else if is_white_space(s[i]) {
        skip_white_from(s, i + 1)
    } else {
        i
    }
}

/// One past the last non-white-space char before `j` (or `lo`).
pub open spec fn skip_white_back(s: Seq<char>, lo: int, j: int) -> int
    decreases j - lo,
{
    if j <= lo {
        lo
    } else if is_white_space(s[j - 1]) {
        skip_white_back(s, lo, j - 1)
    } else {
        j
    }
}

/// `s` without leading and trailing white space, as `str::trim` documents.
pub open spec fn trimmed(s: Seq<char>) -> Seq<char> {
    let lo = skip_white_from(s, 0);
    s.subrange(lo, skip_white_back(s, lo, s.len() as int))
}

proof fn lemma_skip_white_from_bounds(s: Seq<char>, i: int)
    requires
        0 <= i <= s.len(),
    ensures
        i <= skip_white_from(s, i) <= s.len(),
    decreases s.len() - i,
{
    if i < s.len() && is_white_space(s[i]) {
        lemma_skip_white_from_bounds(s, i + 1);
    }
}

proof fn lemma_skip_white_back_bounds(s: Seq<char>, lo: int, j: int)
    requires
        0 <= lo <= j <= s.len(),
    ensures
        lo <= skip_white_back(s, lo, j) <= j,
    decreases j - lo,
{
    if j > lo && is_white_space(s[j - 1]) {
        lemma_skip_white_back_bounds(s, lo, j - 1);
    }
}

/// `str::trim`.
pub fn trim(s: &str) -> (t: &str)
    ensures
        t@ == trimmed(s@),
{
    let n = s.unicode_len();
    let mut lo: usize = 0;
    while lo < n && char_is_white_space(s.get_char(lo))
        invariant
            n == s@.len(),
            lo <= n,
            skip_white_from(s@, lo as int) == skip_white_from(s@, 0),
        decreases n - lo,
    {
        lo = lo + 1;
    }
    let mut hi: usize = n;
    while hi > lo && char_is_white_space(s.get_char(hi - 1))
        invariant
            n == s@.len(),
            lo <= hi <= n,
            lo as int == skip_white_from(s@, 0),
            skip_white_back(s@, lo as int, hi as int) == skip_white_back(s@, lo as int, n as int),
        decreases hi - lo,
    {
        hi = hi - 1;
    }
    s.substring_char(lo, hi)
}

/// ASCII lower-casing of one char.
pub open spec fn ascii_lower(c: char) -> char {
    if 'A' <= c <= 'Z' {
        ((c as u32) + 32) as char
    } else {
        c
    }
}

/// `s.to_ascii_lowercase()`, as chars.
pub open spec fn ascii_lowercase(s: Seq<char>) -> Seq<char> {
    s.map_values(|c: char| ascii_lower(c))
}

/// The chars of a string slice.
pub fn str_chars(s: &str) -> (v: Vec<char>)
    ensures
        v@ == s@,
{
    let n = s.unicode_len();
    let mut v: Vec<char> = Vec::with_capacity(n);
    let mut i: usize = 0;
    while i < n
        invariant
            n == s@.len(),
            i <= n,
            v@ == s@.subrange(0, i as int),
        decreases n - i,
    {
        v.push(s.get_char(i));
        i = i + 1;
        assert(v@ =~= s@.subrange(0, i as int));
    }
    assert(s@.subrange(0, n as int) =~= s@);
    v
}

/// ASCII lower-cased chars of a string slice (`to_ascii_lowercase`).
pub fn ascii_lowercase_chars(s: &str) -> (v: Vec<char>)
    ensures
        v@ == ascii_lowercase(s@),
{
    let n = s.unicode_len();
    let mut v: Vec<char> = Vec::with_capacity(n);
    let mut i: usize = 0;
    while i < n
        invariant
            n == s@.len(),
            i <= n,
            v@ == ascii_lowercase(s@.subrange(0, i as int)),
        decreases n - i,
    {
        let c = s.get_char(i);
        let l = if 'A' <= c && c <= 'Z' {
            char_from_ascii_lower(c)
        } else {
            c
        };
        v.push(l);
        i = i + 1;
        assert(v@ =~= ascii_lowercase(s@.subrange(0, i as int)));
    }
    assert(s@.subrange(0, n as int) =~= s@);
    v
}

fn char_from_ascii_lower(c: char) -> (l: char)
    requires
        'A' <= c <= 'Z',
    ensures
        l == ascii_lower(c),
{
    ((c as u8) + 32) as char
}

/// ASCII lower-casing of one char.
pub fn lower_ascii_char(c: char) -> (l: char)
    ensures
        l == ascii_lower(c),
{
    if 'A' <= c && c <= 'Z' {
        char_from_ascii_lower(c)
    } else {
        c
    }
}

/// `str::eq_ignore_ascii_case`, as chars: equal once ASCII letters are
/// lower-cased. (UTF-8 is injective and only ASCII bytes change, so this is
/// the byte-wise comparison std makes.)
pub open spec fn eq_ignore_ascii_case(a: Seq<char>, b: Seq<char>) -> bool {
    ascii_lowercase(a) == ascii_lowercase(b)
}

/// Whether two char sequences are equal ignoring ASCII case.
pub fn chars_eq_ignore_ascii_case(a: &Vec<char>, b: &Vec<char>) -> (same: bool)
    ensures
        same == eq_ignore_ascii_case(a@, b@),
{
    if a.len() != b.len() {
        assert(ascii_lowercase(a@).len() != ascii_lowercase(b@).len());
        return false;
    }
    let mut i: usize = 0;
    while i < a.len()
        invariant
            a@.len() == b@.len(),
            i <= a@.len(),
            forall|k: int| 0 <= k < i ==> ascii_lower(a@[k]) == ascii_lower(b@[k]),
        decreases a@.len() - i,
    {
        if lower_ascii_char(a[i]) != lower_ascii_char(b[i]) {
            assert(ascii_lowercase(a@)[i as int] != ascii_lowercase(b@)[i as int]);
            return false;
        }
        i = i + 1;
    }
    assert(ascii_lowercase(a@) =~= ascii_lowercase(b@));
    true
}

/// Whether `s` starts with `prefix` (`str::starts_with`).
pub fn has_prefix(s: &str, prefix: &str) -> (b: bool)
    ensures
        b == prefix@.is_prefix_of(s@),
{
    let n = s.unicode_len();
    let m = prefix.unicode_len();
    if m > n {
        return false;
    }
    let mut i: usize = 0;
    while i < m
        invariant
            n == s@.len(),
            m == prefix@.len(),
            m <= n,
            i <= m,
            forall|k: int| 0 <= k < i ==> s@[k] == prefix@[k],
        decreases m - i,
    {
        if s.get_char(i) != prefix.get_char(i) {
            return false;
        }
        i = i + 1;
    }
    assert(s@.subrange(0, m as int) =~= prefix@);
    true
}

/// Whether `needle` occurs in `hay` at position `i`.
pub open spec fn occurs_at(hay: Seq<char>, needle: Seq<char>, i: int) -> bool {
    0 <= i && i + needle.len() <= hay.len() && hay.subrange(i, i + needle.len()) == needle
}

/// Whether `needle` occurs in `hay`.
pub open spec fn contains_chars(hay: Seq<char>, needle: Seq<char>) -> bool {
    exists|i: int| occurs_at(hay, needle, i)
}

/// Whether the chars `hay` contain the text `needle`.
pub fn chars_contain(hay: &Vec<char>, needle: &str) -> (found: bool)
    ensures
        found == contains_chars(hay@, needle@),
{
    let pat = str_chars(needle);
    let m = pat.len();
    let n = hay.len();
    if m > n {
        assert forall|i: int| !occurs_at(hay@, needle@, i) by {}
        return false;
    }
    let mut i: usize = 0;
    while i <= n - m
        invariant
            pat@ == needle@,
            m == pat@.len(),
            n == hay@.len(),
            m <= n,
            i <= n - m + 1,
            forall|k: int| 0 <= k < i ==> !occurs_at(hay@, needle@, k),
        decreases n - m + 1 - i,
    {
        let mut j: usize = 0;
        while j < m && hay[i + j] == pat[j]
            invariant
                pat@ == needle@,
                m == pat@.len(),
                n == hay@.len(),
                i + m <= n,
                j <= m,
                forall|k: int| 0 <= k < j ==> hay@[i + k] == pat@[k],
            decreases m - j,
        {
            j = j + 1;
        }
        if j == m {
            assert(hay@.subrange(i as int, i + m) =~= needle@);
            assert(occurs_at(hay@, needle@, i as int));
            return true;
        }
        assert(!occurs_at(hay@, needle@, i as int)) by {
            if hay@.subrange(i as int, i + m) == needle@ {
                assert(hay@.subrange(i as int, i + m)[j as int] == hay@[i + j]);
            }
        }
        i = i + 1;
    }
    assert forall|k: int| !occurs_at(hay@, needle@, k) by {
        if 0 <= k < i {
        }
    }
    false
}

/// `s` with each occurrence of `pat` removed, scanning from the left and
/// resuming after each match (what `str::replace(pat, "")` returns).
pub open spec fn without_all(s: Seq<char>, pat: Seq<char>) -> Seq<char>
    decreases s.len(),
{
    if s.len() == 0 || pat.len() == 0 {
        s
    } else if occurs_at(s, pat, 0) {
        without_all(s.skip(pat.len() as int), pat)
    } else {
        seq![s[0]] + without_all(s.skip(1), pat)
    }
}

/// Whether `needle` occurs in `hay` at position `i`.
pub fn chars_occur_at(hay: &Vec<char>, needle: &Vec<char>, i: usize) -> (b: bool)
    ensures
        b == occurs_at(hay@, needle@, i as int),
{
    if i > hay.len() || needle.len() > hay.len() - i {
        return false;
    }
    let m = needle.len();
    let hl = hay.len();
    let mut j: usize = 0;
    while j < m
        invariant
            hl == hay@.len(),
            i + m <= hl,
            m == needle@.len(),
            j <= m,
            forall|k: int| 0 <= k < j ==> hay@[i + k] == needle@[k],
        decreases m - j,
    {
        if hay[i + j] != needle[j] {
            assert(hay@.subrange(i as int, i + m)[j as int] == hay@[i + j]);
            return false;
        }
        j = j + 1;
    }
    assert(hay@.subrange(i as int, i + m) =~= needle@);
    true
}

/// `s` with every occurrence of `pat` removed (`s.replace(pat, "")`).
pub fn remove_all(s: &str, pat: &str) -> (r: String)
    ensures
        r@ == without_all(s@, pat@),
{
    let hay = str_chars(s);
    let p = str_chars(pat);
    let n = hay.len();
    let m = p.len();
    let mut out = String::new();
    let mut i: usize = 0;
    assert(s@.skip(0) =~= s@);
    while i < n
        invariant
            hay@ == s@,
            p@ == pat@,
            n == s@.len(),
            m == pat@.len(),
            i <= n,
            without_all(s@, pat@) == out@ + without_all(s@.skip(i as int), pat@),
        decreases n - i,
    {
        let ghost t = s@.skip(i as int);
        let ghost before = out@;
        assert(t.len() > 0);
        let found = if m > 0 {
            chars_occur_at(&hay, &p, i)
        } else {
            false
        };
        if found {
            assert(t.subrange(0, m as int) =~= s@.subrange(i as int, i + m));
            assert(occurs_at(t, pat@, 0));
            assert(t.skip(m as int) =~= s@.skip(i + m));
            i = i + m;
        } else {
            assert(m > 0 ==> !occurs_at(t, pat@, 0)) by {
                if m > 0 && occurs_at(t, pat@, 0) {
                    assert(t.subrange(0, m as int) =~= s@.subrange(i as int, i + m));
                    assert(occurs_at(s@, pat@, i as int));
                }
            }
            let c = s.substring_char(i, i + 1);
            assert(c@ =~= seq![t[0]]);
            out.append(c);
            assert(t.skip(1) =~= s@.skip(i + 1));
            if m > 0 {
                assert(without_all(t, pat@) == seq![t[0]] + without_all(t.skip(1), pat@));
            } else {
                assert(without_all(t, pat@) == t);
                assert(without_all(t.skip(1), pat@) == t.skip(1));
                assert(t =~= seq![t[0]] + t.skip(1));
            }
            assert(before + (seq![t[0]] + without_all(t.skip(1), pat@)) =~= out@ + without_all(t.skip(1), pat@));
            i = i + 1;
        }
    }
    assert(s@.skip(i as int) =~= Seq::<char>::empty());
    assert(out@ + Seq::<char>::empty() =~= out@);
    out
}

/// Whether the chars `v` spell exactly the text `s`.
pub fn chars_equal_str(v: &Vec<char>, s: &str) -> (same: bool)
    ensures
        same == (v@ == s@),
{
    let n = s.unicode_len();
    if v.len() != n {
        return false;
    }
    let mut i: usize = 0;
    while i < n
        invariant
            n == s@.len(),
            n == v@.len(),
            i <= n,
            forall|k: int| 0 <= k < i ==> v@[k] == s@[k],
        decreases n - i,
    {
        if v[i] != s.get_char(i) {
            return false;
        }
        i = i + 1;
    }
    assert(v@ =~= s@);
    true
}

/// Whether two string slices hold the same text.
pub fn str_eq(a: &str, b: &str) -> (same: bool)
    ensures
        same == (a@ == b@),
{
    let same = bytes_equal(a.as_bytes(), b.as_bytes());
    proof {
        encode_utf8_decode_utf8(a@);
        encode_utf8_decode_utf8(b@);
    }
    same
}

/// `std::str::from_utf8`: documented to succeed exactly on valid UTF-8, and
/// then to view the same bytes as text.
#[verifier::external_body]
pub(crate) fn str_from_utf8(bytes: &[u8]) -> (text: Option<&str>)
    ensures
        text is Some <==> valid_utf8(bytes@),
        text matches Some(t) ==> t@ == decode_utf8(bytes@),
{
    std::str::from_utf8(bytes).ok()
}

/// The text `String::from_utf8_lossy` makes of `bytes`.
pub uninterp spec fn lossy_utf8(bytes: Seq<u8>) -> Seq<char>;

/// The text `String::from_utf8_lossy` makes of `bytes`: their decoding when
/// they are valid UTF-8.
pub open spec fn lossy_text(bytes: Seq<u8>) -> Seq<char> {
    if valid_utf8(bytes) {
        decode_utf8(bytes)
    } else {
        lossy_utf8(bytes)
    }
}

/// `String::from_utf8_lossy(..).into_owned()`: a pure function of the bytes,
/// named by `lossy_utf8`; on valid UTF-8 it is documented to borrow the input
/// unchanged, so it decodes it. Invalid sequences become U+FFFD (not stated).
#[verifier::external_body]
pub(crate) fn string_from_utf8_lossy(bytes: &[u8]) -> (text: String)
    ensures
        text@ == lossy_utf8(bytes@),
        text@ == lossy_text(bytes@),
{
    String::from_utf8_lossy(bytes).into_owned()
}

/// The text `str::to_lowercase` makes of `s` (full Unicode lower-casing).
pub uninterp spec fn unicode_lowercase(s: Seq<char>) -> Seq<char>;

/// `str::to_lowercase`: a pure function of the text, named by
/// `unicode_lowercase`.
#[verifier::external_body]
pub(crate) fn to_lowercase(s: &str) -> (lower: String)
    ensures
        lower@ == unicode_lowercase(s@),
{
    s.to_lowercase()
}

/// Text made of the given ASCII bytes.
pub fn ascii_string(bytes: &[u8]) -> (s: String)
    requires
        forall|i: int| 0 <= i < bytes@.len() ==> #[trigger] bytes@[i] < 128,
    ensures
        s@ == crate::chunking::ascii_chars(bytes@),
{
    proof {
        crate::chunking::lemma_ascii_utf8(bytes@);
    }
    match str_from_utf8(bytes) {
        Some(t) => t.to_owned(),
        None => String::new(),
    }
}

/// Decimal digits of `n`, most significant first.
pub open spec fn decimal_chars(n: nat) -> Seq<char>
    decreases n,
{
    if n < 10 {
        seq![(n + 48) as char]
    } else {
        decimal_chars(n / 10).push(((n % 10) + 48) as char)
    }
}

/// The decimal text of `n` (what `{}` formatting of an integer prints).
pub fn decimal_string(n: u64) -> (s: String)
    ensures
        s@ == decimal_chars(n as nat),
{
    let mut digits: Vec<u8> = Vec::new();
    let mut m = n;
    while m >= 10
        invariant
            decimal_chars(n as nat) == decimal_chars(m as nat) + Seq::new(digits@.len(), |i: int| digits@[digits@.len() - 1 - i] as char),
            forall|i: int| 0 <= i < digits@.len() ==> 48 <= #[trigger] digits@[i] < 58,
        decreases m,
    {
        let ghost old_digits = digits@;
        let ghost old_m = m;
        digits.push((m % 10) as u8 + 48);
        m = m / 10;
        assert(decimal_chars(old_m as nat) == decimal_chars(m as nat).push(((old_m % 10) + 48) as char));
        assert(Seq::new(digits@.len(), |i: int| digits@[digits@.len() - 1 - i] as char) =~=
            seq![((old_m % 10) + 48) as char] + Seq::new(old_digits.len(), |i: int| old_digits[old_digits.len() - 1 - i] as char));
    }
    digits.push(m as u8 + 48);
    let mut out: Vec<u8> = Vec::with_capacity(digits.len());
    let mut k: usize = digits.len();
    while k > 0
        invariant
            k <= digits@.len(),
            out@.len() == digits@.len() - k,
            forall|i: int| 0 <= i < out@.len() ==> out@[i] == digits@[digits@.len() - 1 - i],
            forall|i: int| 0 <= i < digits@.len() ==> 48 <= #[trigger] digits@[i] < 58,
        decreases k,
    {
        k = k - 1;
        out.push(digits[k]);
    }
    assert forall|i: int| 0 <= i < out@.len() implies #[trigger] out@[i] < 128 by {
        assert(out@[i] == digits@[digits@.len() - 1 - i]);
    }
    let s = ascii_string(out.as_slice());
    assert(s@ =~= decimal_chars(n as nat));
    s
}

/// `a` followed by `b`.
pub fn concat(a: &str, b: &str) -> (s: String)
    ensures
        s@ == a@ + b@,
{
    let mut s = String::from_str(a);
    s.append(b);
    s
}

} // verus!
