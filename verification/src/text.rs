//! Text building blocks shared by the formatters: character pushes, decimal and
//! hexadecimal rendering, display width and lower-casing.
use unicode_width::UnicodeWidthStr;
use vstd::prelude::*;

verus! {

/// Appends one character to a string (`String::push`).
#[verifier::external_body]
pub(crate) fn push_char(s: &mut String, c: char)
    ensures
        final(s)@ == old(s)@.push(c),
{
    s.push(c);
}

/// The digit character for a value below sixteen, lower-case.
pub open spec fn hex_digit_lower(d: nat) -> char {
    if d < 10 {
        ((d + 48) as u32) as char
    } else {
        ((d + 87) as u32) as char
    }
}

/// The digit character for a value below sixteen, upper-case.
pub open spec fn hex_digit_upper(d: nat) -> char {
    if d < 10 {
        ((d + 48) as u32) as char
    } else {
        ((d + 55) as u32) as char
    }
}

/// Decimal rendering of a natural number, without leading zeros.
pub open spec fn decimal(n: nat) -> Seq<char>
    decreases n,
{
    if n < 10 {
        seq![((n + 48) as u32) as char]
    } else {
        decimal(n / 10).push((((n % 10) + 48) as u32) as char)
    }
}

/// Lower-case hexadecimal rendering of a natural number, without leading zeros.
pub open spec fn hex_lower(n: nat) -> Seq<char>
    decreases n,
{
    if n < 16 {
        seq![hex_digit_lower(n)]
    } else {
        hex_lower(n / 16).push(hex_digit_lower(n % 16))
    }
}

fn digit_char(d: u64) -> (c: char)
    requires
        d < 10,
    ensures
        c == ((d + 48) as u32) as char,
{
    let v: u8 = (d as u8) + 48u8;
    v as char
}

fn hex_char_lower(d: u32) -> (c: char)
    requires
        d < 16,
    ensures
        c == hex_digit_lower(d as nat),
{
    if d < 10 {
        let v: u8 = (d as u8) + 48u8;
        v as char
    } else {
        let v: u8 = (d as u8) + 87u8;
        v as char
    }
}

/// Upper-case hexadecimal digit.
pub fn hex_char_upper(d: u8) -> (c: char)
    requires
        d < 16,
    ensures
        c == hex_digit_upper(d as nat),
{
    if d < 10 {
        let v: u8 = d + 48u8;
        v as char
    } else {
        let v: u8 = d + 55u8;
        v as char
    }
}

/// Appends the decimal rendering of `n`.
pub fn push_decimal(s: &mut String, n: u64)
    ensures
        final(s)@ == old(s)@ + decimal(n as nat),
    decreases n,
{
    if n < 10 {
        push_char(s, digit_char(n));
        assert(old(s)@.push(((n + 48) as u32) as char) =~= old(s)@ + decimal(n as nat));
    } else {
        push_decimal(s, n / 10);
        push_char(s, digit_char(n % 10));
        assert(final(s)@ =~= old(s)@ + decimal(n as nat));
    }
}

/// Decimal rendering of `n` as a new string.
pub fn decimal_string(n: u64) -> (r: String)
    ensures
        r@ == decimal(n as nat),
{
    let mut s = String::new();
    push_decimal(&mut s, n);
    assert(s@ =~= decimal(n as nat));
    s
}

/// Appends the lower-case hexadecimal rendering of `n`.
pub fn push_hex_lower(s: &mut String, n: u32)
    ensures
        final(s)@ == old(s)@ + hex_lower(n as nat),
    decreases n,
{
    if n < 16 {
        push_char(s, hex_char_lower(n));
        assert(old(s)@.push(hex_digit_lower(n as nat)) =~= old(s)@ + hex_lower(n as nat));
    } else {
        push_hex_lower(s, n / 16);
        push_char(s, hex_char_lower(n % 16));
        assert(final(s)@ =~= old(s)@ + hex_lower(n as nat));
    }
}

/// The terminal column width of a text, as `unicode-width` measures it.
pub uninterp spec fn str_width(s: Seq<char>) -> nat;

/// `UnicodeWidthStr::width`: the number of terminal columns the text takes,
/// by the crate's East-Asian-width tables. The contract says only that the
/// result is that width of the given text.
#[verifier::external_body]
pub(crate) fn display_width(s: &str) -> (w: usize)
    ensures
        w as nat == str_width(s@),
{
    s.width()
}

/// Lower-case mapping of a text, as `str::to_lowercase` computes it.
pub uninterp spec fn lowercase(s: Seq<char>) -> Seq<char>;

/// An ASCII text.
pub open spec fn is_ascii_text(s: Seq<char>) -> bool {
    forall|i: int| 0 <= i < s.len() ==> (#[trigger] s[i] as u32) < 128
}

/// ASCII lower-casing of a character: 'A'..='Z' become 'a'..='z'.
pub open spec fn ascii_lower_char(c: char) -> char {
    if 65 <= (c as u32) && (c as u32) <= 90 {
        ((c as u32) + 32) as char
    } else {
        c
    }
}

/// ASCII lower-casing of a text.
pub open spec fn ascii_lower(s: Seq<char>) -> Seq<char> {
    s.map_values(|c: char| ascii_lower_char(c))
}

/// `str::to_lowercase`: the Unicode lower-case mapping of the text. The
/// contract names the result; the character tables are not stated, except
/// that an ASCII text lower-cases as ASCII does (the Unicode lower case of
/// 'A'..='Z' is 'a'..='z', and other ASCII characters have none).
#[verifier::external_body]
pub(crate) fn to_lowercase(s: &str) -> (r: String)
    ensures
        r@ == lowercase(s@),
        is_ascii_text(s@) ==> r@ == ascii_lower(s@),
{
    s.to_lowercase()
}

/// Character-wise equality of two texts.
pub fn text_eq(a: &str, b: &str) -> (r: bool)
    ensures
        r == (a@ == b@),
{
    let n = a.unicode_len();
    let m = b.unicode_len();
    if n != m {
        return false;
    }
    let mut i: usize = 0;
    while i < n
        invariant
            n == a@.len(),
            m == b@.len(),
            n == m,
            i <= n,
            forall|j: int| 0 <= j < i ==> a@[j] == b@[j],
        decreases n - i,
    {
        if a.get_char(i) != b.get_char(i) {
            return false;
        }
        i = i + 1;
    }
    assert(a@ =~= b@);
    true
}

/// Appends `count` spaces.
pub fn push_spaces(s: &mut String, count: usize)
    ensures
        final(s)@ == old(s)@ + Seq::new(count as nat, |i: int| ' '),
{
    let mut i: usize = 0;
    while i < count
        invariant
            i <= count,
            s@ == old(s)@ + Seq::new(i as nat, |k: int| ' '),
        decreases count - i,
    {
        push_char(s, ' ');
        i = i + 1;
        assert(s@ =~= old(s)@ + Seq::new(i as nat, |k: int| ' '));
    }
}

/// A run of `n` spaces.
pub open spec fn spaces(n: nat) -> Seq<char> {
    Seq::new(n, |i: int| ' ')
}

} // verus!

verus! {

/// The texts of a sequence of strings.
pub open spec fn texts(v: Seq<String>) -> Seq<Seq<char>> {
    v.map_values(|s: String| s@)
}

/// Appends copies of all strings of `src`.
pub fn extend_strings(dst: &mut Vec<String>, src: &Vec<String>)
    ensures
        texts(final(dst)@) == texts(old(dst)@) + texts(src@),
{
    let n = src.len();
    let mut i: usize = 0;
    while i < n
        invariant
            n == src@.len(),
            i <= n,
            texts(dst@) == texts(old(dst)@) + texts(src@).take(i as int),
        decreases n - i,
    {
        let s = src[i].clone();
        let ghost prev = dst@;
        dst.push(s);
        assert(dst@ == prev.push(s));
        assert(texts(dst@) =~= texts(prev).push(s@));
        proof {
            assert(texts(src@).take(i + 1) =~= texts(src@).take(i as int).push(src@[i as int]@));
        }
        i = i + 1;
        assert(texts(dst@) =~= texts(old(dst)@) + texts(src@).take(i as int));
    }
    assert(texts(src@).take(n as int) =~= texts(src@));
}

} // verus!

verus! {

/// A text without its leading and trailing white space, as `str::trim` cuts it.
pub uninterp spec fn trimmed(s: Seq<char>) -> Seq<char>;

/// `str::trim`: the text without leading and trailing Unicode white space.
/// The contract names the result; the white-space table is not stated.
#[verifier::external_body]
pub(crate) fn trim(s: &str) -> (r: String)
    ensures
        r@ == trimmed(s@),
{
    s.trim().to_string()
}

/// Whether `p` begins `s`.
pub fn starts_with(s: &str, p: &str) -> (r: bool)
    ensures
        r == (p@.len() <= s@.len() && s@.take(p@.len() as int) == p@),
{
    let n = s.unicode_len();
    let m = p.unicode_len();
    if m > n {
        return false;
    }
    let mut i: usize = 0;
    while i < m
        invariant
            n == s@.len(),
            m == p@.len(),
            m <= n,
            i <= m,
            forall|j: int| 0 <= j < i ==> s@[j] == p@[j],
        decreases m - i,
    {
        if s.get_char(i) != p.get_char(i) {
            assert(s@.take(m as int)[i as int] != p@[i as int]);
            return false;
        }
        i = i + 1;
    }
    assert(s@.take(m as int) =~= p@);
    true
}

/// A lower-case hexadecimal digit.
pub open spec fn is_hex_digit_lower(c: char) -> bool {
    (48 <= (c as u32) && (c as u32) <= 57) || (97 <= (c as u32) && (c as u32) <= 102)
}

proof fn lemma_hex_digit(d: nat)
    requires
        d < 16,
    ensures
        is_hex_digit_lower(hex_digit_lower(d)),
{
    if d < 10 {
        assert((((d + 48) as u32) as char) as u32 == d + 48);
    } else {
        assert((((d + 87) as u32) as char) as u32 == d + 87);
    }
}

/// Every character of `hex_lower(n)` is a lower-case hexadecimal digit.
pub proof fn lemma_hex_lower_digits(n: nat)
    ensures
        hex_lower(n).len() >= 1,
        n >= 16 ==> hex_lower(n).len() >= 2,
        forall|i: int| 0 <= i < hex_lower(n).len() ==> is_hex_digit_lower(#[trigger] hex_lower(n)[i]),
    decreases n,
{
    if n >= 16 {
        lemma_hex_lower_digits(n / 16);
        lemma_hex_digit(n % 16);
        let h = hex_lower(n);
        assert(h == hex_lower(n / 16).push(hex_digit_lower(n % 16)));
        assert forall|i: int| 0 <= i < h.len() implies is_hex_digit_lower(#[trigger] h[i]) by {
            if i < h.len() - 1 {
                assert(h[i] == hex_lower(n / 16)[i]);
            }
        }
    } else {
        lemma_hex_digit(n);
    }
}

/// Distinct numbers have distinct hexadecimal renderings.
pub proof fn lemma_hex_lower_injective(n: nat, m: nat)
    requires
        hex_lower(n) == hex_lower(m),
    ensures
        n == m,
    decreases n,
{
    lemma_hex_lower_digits(n);
    lemma_hex_lower_digits(m);
    if n >= 16 && m >= 16 {
        let a = hex_lower(n);
        assert(a.drop_last() =~= hex_lower(n / 16));
        assert(hex_lower(m).drop_last() =~= hex_lower(m / 16));
        lemma_hex_lower_injective(n / 16, m / 16);
        assert(a.last() == hex_digit_lower(n % 16));
        assert(hex_lower(m).last() == hex_digit_lower(m % 16));
        assert(hex_digit_lower(n % 16) == hex_digit_lower(m % 16));
    } else if n < 16 && m < 16 {
        assert(hex_lower(n)[0] == hex_digit_lower(n));
        assert(hex_lower(m)[0] == hex_digit_lower(m));
    }
}

/// Every character of `decimal(n)` is a decimal digit.
pub proof fn lemma_decimal_digits(n: nat)
    ensures
        forall|i: int| 0 <= i < decimal(n).len() ==> 48 <= (#[trigger] decimal(n)[i] as u32) && (decimal(n)[i] as u32) <= 57,
    decreases n,
{
    if n >= 10 {
        lemma_decimal_digits(n / 10);
        let d = decimal(n);
        assert((((n % 10 + 48) as u32) as char) as u32 == n % 10 + 48);
        assert forall|i: int| 0 <= i < d.len() implies 48 <= (#[trigger] d[i] as u32) && (d[i] as u32) <= 57 by {
            if i < d.len() - 1 {
                assert(d[i] == decimal(n / 10)[i]);
            }
        }
    } else {
        assert((((n + 48) as u32) as char) as u32 == n + 48);
    }
}

} // verus!
