//! Cells of the long and tree listings, and the text transformations they use:
//! terminal-safe names, file URIs, hyperlinks and permission strings.
use vstd::prelude::*;
use crate::display::DisplayOptions;
use crate::display::size::{format_size, size_text};
use crate::fs::entry::Entry;
use crate::git::GitStatus;
use crate::text::{
    decimal, decimal_string, display_width, hex_char_upper, hex_digit_upper, hex_lower, is_hex_digit_lower,
    lemma_decimal_digits, lemma_hex_lower_digits, lemma_hex_lower_injective, push_char, push_hex_lower, str_width,
};
use crate::theme::Theme;
use crate::theme::colors::{
    is_dir_mode, is_executable_mode, is_styled, is_symlink_mode, mode_is_dir, mode_is_executable,
    mode_is_symlink, name_style, paint, TermColor,
};
use crate::theme::icons::icon_for;

verus! {

/// The columns of the long and tree listings.
#[derive(Clone, Copy, PartialEq, Eq, Structural, Debug, Hash)]
pub enum Column {
    Permissions,
    Links,
    Owner,
    Group,
    Size,
    Date,
    Name,
    Git,
}

// ---------------------------------------------------------------------------
// Terminal-safe text

/// A control character (Unicode general category Cc).
pub open spec fn is_control_char(c: char) -> bool {
    (c as u32) <= 0x1f || (0x7f <= (c as u32) && (c as u32) <= 0x9f)
}

/// A bidirectional formatting character.
pub open spec fn is_bidi_char(c: char) -> bool {
    let u = c as u32;
    u == 0x61c || u == 0x200e || u == 0x200f || (0x202a <= u && u <= 0x202e) || (0x2066 <= u
        && u <= 0x2069)
}

/// `char::escape_default`: `\t`, `\r`, `\n`, backslash-escaped quotes and
/// backslash, printable ASCII as is, everything else `\u{hex}`.
pub open spec fn escape_default(c: char) -> Seq<char> {
    if c == '\t' {
        seq!['\\', 't']
    } else if c == '\r' {
        seq!['\\', 'r']
    } else if c == '\n' {
        seq!['\\', 'n']
    } else if c == '\\' || c == '\'' || c == '"' {
        seq!['\\', c]
    } else if 0x20 <= (c as u32) && (c as u32) <= 0x7e {
        seq![c]
    } else {
        seq!['\\', 'u', '{'] + hex_lower(c as nat) + seq!['}']
    }
}

/// How one character of a name is shown.
pub open spec fn escape_char(c: char) -> Seq<char> {
    if is_control_char(c) || is_bidi_char(c) {
        escape_default(c)
    } else if c == '\\' {
        seq!['\\', '\\']
    } else {
        seq![c]
    }
}

/// A name with control and bidirectional characters escaped and backslashes
/// doubled.
pub open spec fn escape_text(s: Seq<char>) -> Seq<char>
    decreases s.len(),
{
    if s.len() == 0 {
        Seq::<char>::empty()
    } else {
        escape_text(s.drop_last()) + escape_char(s.last())
    }
}

fn push_escape_default(out: &mut String, c: char)
    ensures
        final(out)@ == old(out)@ + escape_default(c),
{
    if c == '\t' {
        push_char(out, '\\');
        push_char(out, 't');
    } else if c == '\r' {
        push_char(out, '\\');
        push_char(out, 'r');
    } else if c == '\n' {
        push_char(out, '\\');
        push_char(out, 'n');
    } else if c == '\\' || c == '\'' || c == '"' {
        push_char(out, '\\');
        push_char(out, c);
    } else if 0x20 <= (c as u32) && (c as u32) <= 0x7e {
        push_char(out, c);
    } else {
        push_char(out, '\\');
        push_char(out, 'u');
        push_char(out, '{');
        push_hex_lower(out, c as u32);
        push_char(out, '}');
    }
    assert(final(out)@ =~= old(out)@ + escape_default(c));
}

/// Escapes terminal controls and bidirectional formatting (`char::escape_default`)
/// and doubles backslashes, so that distinct names stay distinct and no name
/// can steer the terminal.
pub fn escape_terminal_text(text: &str) -> (r: String)
    ensures
        r@ == escape_text(text@),
{
    let n = text.unicode_len();
    let mut escaped = String::new();
    let mut i: usize = 0;
    while i < n
        invariant
            n == text@.len(),
            i <= n,
            escaped@ == escape_text(text@.subrange(0, i as int)),
        decreases n - i,
    {
        let ch = text.get_char(i);
        let u = ch as u32;
        let bidi = u == 0x61c || u == 0x200e || u == 0x200f || (0x202a <= u && u <= 0x202e) || (
        0x2066 <= u && u <= 0x2069);
        if u <= 0x1f || (0x7f <= u && u <= 0x9f) || bidi {
            push_escape_default(&mut escaped, ch);
        } else if ch == '\\' {
            push_char(&mut escaped, '\\');
            push_char(&mut escaped, '\\');
        } else {
            push_char(&mut escaped, ch);
        }
        proof {
            let next = text@.subrange(0, i + 1);
            assert(next.drop_last() =~= text@.subrange(0, i as int));
            assert(next.last() == ch);
            assert(escaped@ =~= escape_text(next));
        }
        i = i + 1;
    }
    assert(text@.subrange(0, n as int) =~= text@);
    escaped
}

/// No character that a terminal acts on: no control character and no
/// bidirectional formatting character.
pub open spec fn terminal_safe(s: Seq<char>) -> bool {
    forall|i: int| 0 <= i < s.len() ==> !is_control_char(#[trigger] s[i]) && !is_bidi_char(s[i])
}

/// A character shown as itself.
pub open spec fn shown_plain(c: char) -> bool {
    !is_control_char(c) && !is_bidi_char(c) && c != '\\'
}

/// The `\u{..}` form of a character.
pub open spec fn unicode_escape(c: char) -> Seq<char> {
    seq!['\\', 'u', '{'] + hex_lower(c as nat) + seq!['}']
}

/// The escape of a control or bidirectional character: `\t`, `\r`, `\n`, or
/// the `\u{..}` form.
proof fn lemma_escape_of_control(c: char)
    requires
        is_control_char(c) || is_bidi_char(c),
    ensures
        escape_char(c) == if c == '\t' {
            seq!['\\', 't']
        } else if c == '\r' {
            seq!['\\', 'r']
        } else if c == '\n' {
            seq!['\\', 'n']
        } else {
            unicode_escape(c)
        },
{
}

proof fn lemma_unicode_escape_shape(c: char)
    ensures
        unicode_escape(c).len() == hex_lower(c as nat).len() + 4,
        unicode_escape(c)[0] == '\\',
        unicode_escape(c)[1] == 'u',
        unicode_escape(c)[2] == '{',
        forall|i: int| 0 <= i < hex_lower(c as nat).len() ==> unicode_escape(c)[3 + i] == #[trigger] hex_lower(c as nat)[i],
        unicode_escape(c)[3 + hex_lower(c as nat).len() as int] == '}',
        forall|i: int| 0 <= i < hex_lower(c as nat).len() ==> is_hex_digit_lower(#[trigger] hex_lower(c as nat)[i]),
        hex_lower(c as nat).len() >= 1,
{
    lemma_hex_lower_digits(c as nat);
}

proof fn lemma_escape_char_safe(c: char)
    ensures
        terminal_safe(escape_char(c)),
        escape_char(c).len() >= 1,
{
    if is_control_char(c) || is_bidi_char(c) {
        lemma_escape_of_control(c);
        if c != '\t' && c != '\r' && c != '\n' {
            lemma_unicode_escape_shape(c);
            let e = unicode_escape(c);
            let h = hex_lower(c as nat);
            assert forall|i: int| 0 <= i < e.len() implies !is_control_char(#[trigger] e[i]) && !is_bidi_char(e[i]) by {
                if 3 <= i < 3 + h.len() {
                    assert(e[i] == h[i - 3]);
                    assert(is_hex_digit_lower(h[i - 3]));
                }
            }
        }
    }
}

/// Escaped text leaves the terminal alone: whatever a name holds, its escape
/// has no control character and no bidirectional formatting character.
pub proof fn escape_text_is_terminal_safe(s: Seq<char>)
    ensures
        terminal_safe(escape_text(s)),
    decreases s.len(),
{
    if s.len() > 0 {
        escape_text_is_terminal_safe(s.drop_last());
        lemma_escape_char_safe(s.last());
        let a = escape_text(s.drop_last());
        let b = escape_char(s.last());
        assert forall|i: int| 0 <= i < (a + b).len() implies !is_control_char(#[trigger] (a + b)[i]) && !is_bidi_char((a + b)[i]) by {
            if i >= a.len() {
                assert((a + b)[i] == b[i - a.len()]);
            } else {
                assert((a + b)[i] == a[i]);
            }
        }
    }
}

proof fn lemma_escape_text_first(s: Seq<char>)
    requires
        s.len() > 0,
    ensures
        escape_text(s) == escape_char(s[0]) + escape_text(s.drop_first()),
    decreases s.len(),
{
    if s.len() == 1 {
        assert(s.drop_last() =~= Seq::<char>::empty());
        assert(s.drop_first() =~= Seq::<char>::empty());
        assert(escape_text(s.drop_first()) =~= Seq::<char>::empty());
        assert(escape_text(s) =~= escape_char(s[0]));
    } else {
        lemma_escape_text_first(s.drop_last());
        assert(s.drop_last().drop_first() =~= s.drop_first().drop_last());
        assert(s.drop_first().last() == s.last());
        assert(s.drop_last()[0] == s[0]);
        assert(escape_text(s) =~= escape_char(s[0]) + escape_text(s.drop_first()));
    }
}

/// The escape of a character is never a proper beginning of the escape of
/// another, so a stream of escapes reads back one way only.
proof fn lemma_escape_char_prefix_free(c: char, d: char, x: Seq<char>, y: Seq<char>)
    requires
        escape_char(c) + x == escape_char(d) + y,
    ensures
        c == d,
        x == y,
{
    let st = escape_char(c) + x;
    let ec = escape_char(c);
    let ed = escape_char(d);
    lemma_escape_char_safe(c);
    lemma_escape_char_safe(d);
    assert(st[0] == ec[0]);
    assert(st[0] == ed[0]);
    if is_control_char(c) || is_bidi_char(c) {
        lemma_escape_of_control(c);
        lemma_unicode_escape_shape(c);
    }
    if is_control_char(d) || is_bidi_char(d) {
        lemma_escape_of_control(d);
        lemma_unicode_escape_shape(d);
    }
    if !shown_plain(c) && !shown_plain(d) {
        assert(st[1] == ec[1]);
        assert(st[1] == ed[1]);
        if (is_control_char(c) || is_bidi_char(c)) && (is_control_char(d) || is_bidi_char(d))
            && c != '\t' && c != '\r' && c != '\n' && d != '\t' && d != '\r' && d != '\n' {
            let hc = hex_lower(c as nat);
            let hd = hex_lower(d as nat);
            if hc.len() < hd.len() {
                assert(st[3 + hc.len() as int] == ec[3 + hc.len() as int]);
                assert(st[3 + hc.len() as int] == ed[3 + hc.len() as int]);
                assert(is_hex_digit_lower(hd[hc.len() as int]));
                assert(false);
            } else if hd.len() < hc.len() {
                assert(st[3 + hd.len() as int] == ec[3 + hd.len() as int]);
                assert(st[3 + hd.len() as int] == ed[3 + hd.len() as int]);
                assert(is_hex_digit_lower(hc[hd.len() as int]));
                assert(false);
            } else {
                assert forall|i: int| 0 <= i < hc.len() implies hc[i] == hd[i] by {
                    assert(st[3 + i] == ec[3 + i]);
                    assert(st[3 + i] == ed[3 + i]);
                }
                assert(hc =~= hd);
                lemma_hex_lower_injective(c as nat, d as nat);
            }
        }
    }
    assert(ec == ed);
    assert(x =~= st.subrange(ec.len() as int, st.len() as int));
    assert(y =~= (ed + y).subrange(ed.len() as int, st.len() as int));
}

/// Distinct names stay distinct: two names with the same escape are the
/// same name.
pub proof fn escape_text_is_injective(a: Seq<char>, b: Seq<char>)
    requires
        escape_text(a) == escape_text(b),
    ensures
        a == b,
    decreases a.len(),
{
    if a.len() == 0 {
        if b.len() > 0 {
            lemma_escape_text_first(b);
            lemma_escape_char_safe(b[0]);
        }
        assert(a =~= b);
    } else if b.len() == 0 {
        lemma_escape_text_first(a);
        lemma_escape_char_safe(a[0]);
    } else {
        lemma_escape_text_first(a);
        lemma_escape_text_first(b);
        lemma_escape_char_prefix_free(a[0], b[0], escape_text(a.drop_first()), escape_text(b.drop_first()));
        escape_text_is_injective(a.drop_first(), b.drop_first());
        assert(a =~= seq![a[0]] + a.drop_first());
        assert(b =~= seq![b[0]] + b.drop_first());
    }
}

/// The value of a lower-case hexadecimal digit.
pub open spec fn hex_lower_digit_value(c: char) -> nat {
    if 48 <= (c as u32) && (c as u32) <= 57 {
        (c as u32 - 48) as nat
    } else if 97 <= (c as u32) && (c as u32) <= 102 {
        (c as u32 - 87) as nat
    } else {
        0
    }
}

/// The number written by lower-case hexadecimal digits.
pub open spec fn hex_lower_value(h: Seq<char>) -> nat
    decreases h.len(),
{
    if h.len() == 0 {
        0
    } else {
        hex_lower_value(h.drop_last()) * 16 + hex_lower_digit_value(h.last())
    }
}

/// The position of the first '}' from `i` on, or the length when there is none.
pub open spec fn first_close(s: Seq<char>, i: int) -> int
    decreases s.len() - i,
{
    if i < 0 || i >= s.len() {
        s.len() as int
    } else if s[i] == '}' {
        i
    } else {
        first_close(s, i + 1)
    }
}

/// Reading escaped text back: `\\` gives a backslash, `\n`, `\r` and `\t`
/// their control characters, `\u{h}` the character with hexadecimal code `h`,
/// and any other character itself.
pub open spec fn unescape(s: Seq<char>) -> Seq<char>
    decreases s.len(),
{
    if s.len() == 0 {
        Seq::<char>::empty()
    } else if s[0] != '\\' || s.len() < 2 {
        seq![s[0]] + unescape(s.drop_first())
    } else if s[1] == '\\' {
        seq!['\\'] + unescape(s.skip(2))
    } else if s[1] == 'n' {
        seq!['\n'] + unescape(s.skip(2))
    } else if s[1] == 'r' {
        seq!['\r'] + unescape(s.skip(2))
    } else if s[1] == 't' {
        seq!['\t'] + unescape(s.skip(2))
    } else if s[1] == 'u' && s.len() >= 3 && s[2] == '{' && 3 <= first_close(s, 3) < s.len() {
        seq![(hex_lower_value(s.subrange(3, first_close(s, 3))) as u32) as char] + unescape(s.skip(first_close(s, 3) + 1))
    } else {
        seq![s[0]] + unescape(s.drop_first())
    }
}

proof fn lemma_hex_lower_value(n: nat)
    ensures
        hex_lower_value(hex_lower(n)) == n,
    decreases n,
{
    if n >= 16 {
        lemma_hex_lower_value(n / 16);
        let h = hex_lower(n);
        assert(h.drop_last() =~= hex_lower(n / 16));
        let d = n % 16;
        assert(h.last() == crate::text::hex_digit_lower(d));
        if d < 10 {
            assert((((d + 48) as u32) as char) as u32 == d + 48);
        } else {
            assert((((d + 87) as u32) as char) as u32 == d + 87);
        }
        assert(hex_lower_digit_value(h.last()) == d);
        assert(hex_lower_value(h) == hex_lower_value(h.drop_last()) * 16 + hex_lower_digit_value(h.last()));
        assert((n / 16) * 16 + n % 16 == n);
    } else {
        let h = hex_lower(n);
        assert(h.drop_last() =~= Seq::<char>::empty());
        assert(h.last() == crate::text::hex_digit_lower(n));
        if n < 10 {
            assert((((n + 48) as u32) as char) as u32 == n + 48);
        } else {
            assert((((n + 87) as u32) as char) as u32 == n + 87);
        }
        assert(hex_lower_digit_value(h.last()) == n);
        assert(hex_lower_value(h) == hex_lower_value(h.drop_last()) * 16 + hex_lower_digit_value(h.last()));
    }
}

proof fn lemma_first_close_at(s: Seq<char>, i: int, close: int)
    requires
        0 <= i <= close < s.len(),
        s[close] == '}',
        forall|j: int| i <= j < close ==> s[j] != '}',
    ensures
        first_close(s, i) == close,
    decreases close - i,
{
    if i < close {
        lemma_first_close_at(s, i + 1, close);
    }
}

proof fn lemma_unescape_code(c: char, x: Seq<char>)
    ensures
        unescape(escape_char(c) + x) == seq![c] + unescape(x),
{
    let e = escape_char(c);
    let s = e + x;
    lemma_escape_char_safe(c);
    if is_control_char(c) || is_bidi_char(c) {
        lemma_escape_of_control(c);
        if c == '\t' || c == '\r' || c == '\n' {
            assert(s.skip(2) =~= x);
        } else {
            lemma_unicode_escape_shape(c);
            let h = hex_lower(c as nat);
            let close: int = 3 + h.len() as int;
            assert(s[close] == e[close]);
            assert forall|j: int| 3 <= j < close implies s[j] != '}' by {
                assert(s[j] == e[j]);
                assert(e[j] == h[j - 3]);
                assert(is_hex_digit_lower(h[j - 3]));
            }
            lemma_first_close_at(s, 3, close);
            assert(s.subrange(3, close) =~= h);
            lemma_hex_lower_value(c as nat);
            vstd::utf8::char_u32_cast(c, c as u32);
            assert(s.skip(close + 1) =~= x);
        }
    } else if c == '\\' {
        assert(s.skip(2) =~= x);
    } else {
        assert(s.drop_first() =~= x);
    }
}

/// Escaped text reads back as the text it came from: `unescape` undoes
/// `escape_text` for every text.
pub proof fn unescape_undoes_escape(t: Seq<char>)
    ensures
        unescape(escape_text(t)) == t,
    decreases t.len(),
{
    if t.len() > 0 {
        lemma_escape_text_first(t);
        lemma_unescape_code(t[0], escape_text(t.drop_first()));
        unescape_undoes_escape(t.drop_first());
        assert(t =~= seq![t[0]] + t.drop_first());
    } else {
        assert(escape_text(t) =~= Seq::<char>::empty());
    }
}

// ---------------------------------------------------------------------------
// Hyperlinks

/// The OSC 8 hyperlink introducer, ESC "]8;;".
pub open spec fn osc8() -> Seq<char> {
    seq!['\x1b', ']', '8', ';', ';']
}

/// The string terminator, ESC '\'.
pub open spec fn string_terminator() -> Seq<char> {
    seq!['\x1b', '\\']
}

/// A text made a terminal hyperlink to `uri`.
pub open spec fn hyperlink(uri: Seq<char>, text: Seq<char>) -> Seq<char> {
    osc8() + uri + string_terminator() + text + osc8() + string_terminator()
}

fn push_osc8(s: &mut String)
    ensures
        final(s)@ == old(s)@ + osc8(),
{
    push_char(s, '\x1b');
    push_char(s, ']');
    push_char(s, '8');
    push_char(s, ';');
    push_char(s, ';');
    assert(final(s)@ =~= old(s)@ + osc8());
}

fn push_st(s: &mut String)
    ensures
        final(s)@ == old(s)@ + string_terminator(),
{
    push_char(s, '\x1b');
    push_char(s, '\\');
    assert(final(s)@ =~= old(s)@ + string_terminator());
}

/// Wraps `text` in an OSC 8 hyperlink to `uri`.
pub fn wrap_hyperlink(uri: &str, text: &str) -> (r: String)
    ensures
        r@ == hyperlink(uri@, text@),
{
    let mut s = String::new();
    push_osc8(&mut s);
    s.append(uri);
    push_st(&mut s);
    s.append(text);
    push_osc8(&mut s);
    push_st(&mut s);
    assert(s@ =~= hyperlink(uri@, text@));
    s
}

/// A byte kept as is in a file URI: letters, digits and `-._~/`.
pub open spec fn uri_safe(b: u8) -> bool {
    (65 <= b && b <= 90) || (97 <= b && b <= 122) || (48 <= b && b <= 57) || b == 45 || b == 46
        || b == 95 || b == 126 || b == 47
}

/// One path byte in a file URI: kept, or `%` and two upper-case hex digits.
pub open spec fn uri_byte(b: u8) -> Seq<char> {
    if uri_safe(b) {
        seq![b as char]
    } else {
        seq!['%', hex_digit_upper((b / 16) as nat), hex_digit_upper((b % 16) as nat)]
    }
}

/// The percent-encoded path bytes.
pub open spec fn uri_path(bs: Seq<u8>) -> Seq<char>
    decreases bs.len(),
{
    if bs.len() == 0 {
        Seq::<char>::empty()
    } else {
        uri_path(bs.drop_last()) + uri_byte(bs.last())
    }
}

/// The `file://` URI of a path.
pub open spec fn file_uri_text(bs: Seq<u8>) -> Seq<char> {
    seq!['f', 'i', 'l', 'e', ':', '/', '/'] + uri_path(bs)
}

/// Printable ASCII other than the space.
pub open spec fn visible_ascii(s: Seq<char>) -> bool {
    forall|i: int| 0 <= i < s.len() ==> 0x21 <= (#[trigger] s[i] as u32) && (s[i] as u32) <= 0x7e
}

proof fn lemma_uri_byte_visible(b: u8)
    ensures
        visible_ascii(uri_byte(b)),
{
    let e = uri_byte(b);
    if uri_safe(b) {
        assert(((b as char) as u32) == b as u32);
    } else {
        let hi = (b / 16) as nat;
        let lo = (b % 16) as nat;
        assert(hex_digit_upper(hi) as u32 == if hi < 10 { hi + 48 } else { hi + 55 });
        assert(hex_digit_upper(lo) as u32 == if lo < 10 { lo + 48 } else { lo + 55 });
        assert(e[1] == hex_digit_upper(hi));
        assert(e[2] == hex_digit_upper(lo));
    }
}

/// A file URI is printable ASCII without spaces, whatever bytes the path
/// holds, so that no path can end the hyperlink or steer the terminal.
pub proof fn file_uri_is_visible_ascii(bs: Seq<u8>)
    ensures
        visible_ascii(file_uri_text(bs)),
    decreases bs.len(),
{
    if bs.len() > 0 {
        file_uri_is_visible_ascii(bs.drop_last());
        lemma_uri_byte_visible(bs.last());
        let a = file_uri_text(bs.drop_last());
        let b = uri_byte(bs.last());
        assert(file_uri_text(bs) =~= a + b);
        assert forall|i: int| 0 <= i < (a + b).len() implies 0x21 <= (#[trigger] (a + b)[i] as u32) && ((a + b)[i] as u32) <= 0x7e by {
            if i >= a.len() {
                assert((a + b)[i] == b[i - a.len()]);
            } else {
                assert((a + b)[i] == a[i]);
            }
        }
    } else {
        let t = file_uri_text(bs);
        assert(t =~= seq!['f', 'i', 'l', 'e', ':', '/', '/']);
    }
}

/// The value of an upper-case hexadecimal digit.
pub open spec fn hex_value(c: char) -> nat {
    if 48 <= (c as u32) && (c as u32) <= 57 {
        (c as u32 - 48) as nat
    } else if 65 <= (c as u32) && (c as u32) <= 70 {
        (c as u32 - 55) as nat
    } else {
        0
    }
}

/// Percent-decoding: each `%` and the two hexadecimal digits after it give
/// one byte, every other character the byte of its code.
pub open spec fn percent_decode(s: Seq<char>) -> Seq<u8>
    decreases s.len(),
{
    if s.len() == 0 {
        Seq::<u8>::empty()
    } else if s.len() >= 3 && s[s.len() - 3] == '%' {
        percent_decode(s.subrange(0, s.len() - 3)).push((hex_value(s[s.len() - 2]) * 16 + hex_value(s[s.len() - 1])) as u8)
    } else {
        percent_decode(s.drop_last()).push(s.last() as u8)
    }
}

proof fn lemma_hex_value(d: nat)
    requires
        d < 16,
    ensures
        hex_value(hex_digit_upper(d)) == d,
        hex_digit_upper(d) != '%',
{
    if d < 10 {
        assert((((d + 48) as u32) as char) as u32 == d + 48);
    } else {
        assert((((d + 55) as u32) as char) as u32 == d + 55);
    }
}

proof fn lemma_uri_path_percent(bs: Seq<u8>)
    ensures
        forall|j: int| 0 <= j < uri_path(bs).len() && #[trigger] uri_path(bs)[j] == '%' ==> j + 3 <= uri_path(bs).len(),
    decreases bs.len(),
{
    if bs.len() > 0 {
        let rest = bs.drop_last();
        let b = bs.last();
        lemma_uri_path_percent(rest);
        let p = uri_path(rest);
        let e = uri_byte(b);
        assert(uri_path(bs) == p + e);
        if !uri_safe(b) {
            lemma_hex_value((b / 16) as nat);
            lemma_hex_value((b % 16) as nat);
        } else {
            assert(((b as char) as u32) == b as u32);
        }
        assert forall|j: int| 0 <= j < (p + e).len() && #[trigger] (p + e)[j] == '%' implies j + 3 <= (p + e).len() by {
            if j < p.len() {
                assert((p + e)[j] == p[j]);
            } else {
                assert((p + e)[j] == e[j - p.len()]);
            }
        }
    }
}

/// Decoding a file URI's path gives back the path's bytes, exactly.
pub proof fn file_uri_decodes_to_the_path(bs: Seq<u8>)
    ensures
        file_uri_text(bs) == seq!['f', 'i', 'l', 'e', ':', '/', '/'] + uri_path(bs),
        percent_decode(uri_path(bs)) == bs,
    decreases bs.len(),
{
    if bs.len() == 0 {
        assert(uri_path(bs) =~= Seq::<char>::empty());
    } else {
        let rest = bs.drop_last();
        let b = bs.last();
        file_uri_decodes_to_the_path(rest);
        lemma_uri_path_percent(rest);
        let p = uri_path(rest);
        let s = uri_path(bs);
        assert(s == p + uri_byte(b));
        if uri_safe(b) {
            assert(((b as char) as u32) == b as u32);
            assert(s =~= p.push(b as char));
            if s.len() >= 3 && s[s.len() - 3] == '%' {
                assert(s[s.len() - 3] == p[p.len() - 2]);
                assert(p[p.len() - 2] == '%');
            }
            assert(s.drop_last() =~= p);
            assert(((b as char) as u8) == b);
        } else {
            lemma_hex_value((b / 16) as nat);
            lemma_hex_value((b % 16) as nat);
            assert(s[s.len() - 3] == '%');
            assert(s.subrange(0, s.len() - 3) =~= p);
            assert(s[s.len() - 2] == hex_digit_upper((b / 16) as nat));
            assert(s[s.len() - 1] == hex_digit_upper((b % 16) as nat));
            assert((b / 16) as nat * 16 + (b % 16) as nat == b);
        }
        assert(bs =~= rest.push(b));
    }
}

/// A character a file URI keeps as is: letters, digits and `-._~/`.
pub open spec fn uri_unreserved(c: char) -> bool {
    let u = c as u32;
    (65 <= u && u <= 90) || (97 <= u && u <= 122) || (48 <= u && u <= 57) || u == 45 || u == 46 || u == 95
        || u == 126 || u == 47
}

/// An upper-case hexadecimal digit.
pub open spec fn is_upper_hex(c: char) -> bool {
    let u = c as u32;
    (48 <= u && u <= 57) || (65 <= u && u <= 70)
}

/// Every character of the encoded path is a letter, a digit or one of
/// `-._~/`, or a `%` that begins a triple with two upper-case hexadecimal
/// digits: the URI holds no control character, space or `#`.
pub proof fn file_uri_characters_are_unreserved_or_escapes(bs: Seq<u8>)
    ensures
        file_uri_text(bs) == seq!['f', 'i', 'l', 'e', ':', '/', '/'] + uri_path(bs),
        forall|j: int| 0 <= j < uri_path(bs).len() ==> uri_unreserved(#[trigger] uri_path(bs)[j]) || (uri_path(bs)[j]
            == '%' && j + 2 < uri_path(bs).len() && is_upper_hex(uri_path(bs)[j + 1]) && is_upper_hex(uri_path(bs)[j + 2])),
    decreases bs.len(),
{
    if bs.len() > 0 {
        let rest = bs.drop_last();
        let b = bs.last();
        file_uri_characters_are_unreserved_or_escapes(rest);
        let p = uri_path(rest);
        let e = uri_byte(b);
        let t = uri_path(bs);
        assert(t == p + e);
        if uri_safe(b) {
            assert(((b as char) as u32) == b as u32);
        } else {
            let hi = (b / 16) as nat;
            let lo = (b % 16) as nat;
            assert(hex_digit_upper(hi) as u32 == if hi < 10 { hi + 48 } else { hi + 55 });
            assert(hex_digit_upper(lo) as u32 == if lo < 10 { lo + 48 } else { lo + 55 });
        }
        assert forall|j: int| 0 <= j < t.len() implies uri_unreserved(#[trigger] t[j]) || (t[j] == '%' && j + 2
            < t.len() && is_upper_hex(t[j + 1]) && is_upper_hex(t[j + 2])) by {
            if j < p.len() {
                assert(t[j] == p[j]);
                if !uri_unreserved(p[j]) {
                    assert(t[j + 1] == p[j + 1]);
                    assert(t[j + 2] == p[j + 2]);
                }
            } else {
                assert(t[j] == e[j - p.len()]);
                if !uri_safe(b) && j == p.len() {
                    assert(t[j + 1] == e[1]);
                    assert(t[j + 2] == e[2]);
                }
            }
        }
    } else {
        assert(uri_path(bs) =~= Seq::<char>::empty());
    }
}

/// The `file://` URI of a path given by its bytes, percent-encoding every
/// byte but letters, digits and `-._~/`.
pub fn file_uri(path: &[u8]) -> (r: String)
    ensures
        r@ == file_uri_text(path@),
{
    let mut uri = String::new();
    push_char(&mut uri, 'f');
    push_char(&mut uri, 'i');
    push_char(&mut uri, 'l');
    push_char(&mut uri, 'e');
    push_char(&mut uri, ':');
    push_char(&mut uri, '/');
    push_char(&mut uri, '/');
    let n = path.len();
    let mut i: usize = 0;
    assert(path@.subrange(0, 0) =~= Seq::<u8>::empty());
    while i < n
        invariant
            n == path@.len(),
            i <= n,
            uri@ == seq!['f', 'i', 'l', 'e', ':', '/', '/'] + uri_path(path@.subrange(0, i as int)),
        decreases n - i,
    {
        let b = path[i];
        if (65 <= b && b <= 90) || (97 <= b && b <= 122) || (48 <= b && b <= 57) || b == 45 || b
            == 46 || b == 95 || b == 126 || b == 47 {
            push_char(&mut uri, b as char);
        } else {
            push_char(&mut uri, '%');
            push_char(&mut uri, hex_char_upper(b / 16));
            push_char(&mut uri, hex_char_upper(b % 16));
        }
        proof {
            let next = path@.subrange(0, i + 1);
            assert(next.drop_last() =~= path@.subrange(0, i as int));
            assert(next.last() == b);
            assert(uri@ =~= seq!['f', 'i', 'l', 'e', ':', '/', '/'] + uri_path(next));
        }
        i = i + 1;
    }
    assert(path@.subrange(0, n as int) =~= path@);
    uri
}

/// Whether an entry's name is made a hyperlink: never when hyperlinks are
/// off, else by kind — directories, symbolic links, executables, other files.
pub open spec fn hyperlinked(h: crate::config::HyperlinkConfig, mode: u32) -> bool {
    if !h.enabled {
        false
    } else if mode_is_dir(mode) {
        h.dirs
    } else if mode_is_symlink(mode) {
        h.symlinks
    } else if mode_is_executable(mode) {
        h.executables
    } else {
        h.files
    }
}

/// See `hyperlinked`.
pub fn should_hyperlink(options: &DisplayOptions, entry: &Entry) -> (r: bool)
    ensures
        r == hyperlinked(options.hyperlinks, entry.mode),
{
    if !options.hyperlinks.enabled {
        return false;
    }
    if is_dir_mode(entry.mode) {
        return options.hyperlinks.dirs;
    }
    if is_symlink_mode(entry.mode) {
        return options.hyperlinks.symlinks;
    }
    if is_executable_mode(entry.mode) {
        return options.hyperlinks.executables;
    }
    options.hyperlinks.files
}

// ---------------------------------------------------------------------------
// Permissions

/// The file-type letter of a mode.
pub open spec fn type_letter(mode: u32) -> char {
    let t = mode & 0o170000u32;
    if t == 0o040000u32 {
        'd'
    } else if t == 0o100000u32 {
        '-'
    } else if t == 0o120000u32 {
        'l'
    } else if t == 0o010000u32 {
        'p'
    } else if t == 0o140000u32 {
        's'
    } else if t == 0o020000u32 {
        'c'
    } else if t == 0o060000u32 {
        'b'
    } else {
        '?'
    }
}

/// The execute letter: with the set-id / sticky bit, 's'/'S' (user, group) or
/// 't'/'T' (others), upper case when the execute bit is off.
pub open spec fn exec_letter(exec: bool, special: bool, others: bool) -> char {
    if special {
        if others {
            if exec { 't' } else { 'T' }
        } else {
            if exec { 's' } else { 'S' }
        }
    } else {
        if exec { 'x' } else { '-' }
    }
}

/// The three letters of one permission class (`i` = 2 user, 1 group, 0 others).
pub open spec fn class_letters(mode: u32, i: u32) -> Seq<char> {
    let bits = (mode >> (i * 3)) & 7u32;
    let special = mode & (0o1000u32 << i) != 0;
    seq![
        if bits & 4u32 != 0 { 'r' } else { '-' },
        if bits & 2u32 != 0 { 'w' } else { '-' },
        exec_letter(bits & 1u32 != 0, special, i == 0),
    ]
}

/// The ten-letter permission string of `ls -l`.
pub open spec fn permissions_text(mode: u32) -> Seq<char> {
    seq![type_letter(mode)] + class_letters(mode, 2) + class_letters(mode, 1) + class_letters(
        mode,
        0,
    )
}

fn push_class(s: &mut String, mode: u32, i: u32)
    requires
        i <= 2,
    ensures
        final(s)@ == old(s)@ + class_letters(mode, i),
{
    let bits = (mode >> (i * 3)) & 7u32;
    push_char(s, if bits & 4u32 != 0 { 'r' } else { '-' });
    push_char(s, if bits & 2u32 != 0 { 'w' } else { '-' });
    let special = mode & (0o1000u32 << i) != 0;
    let exec = bits & 1u32 != 0;
    let c = if special {
        if i == 0 {
            if exec { 't' } else { 'T' }
        } else {
            if exec { 's' } else { 'S' }
        }
    } else {
        if exec { 'x' } else { '-' }
    };
    push_char(s, c);
    assert(final(s)@ =~= old(s)@ + class_letters(mode, i));
}

/// The permission string always has ten characters: the file type and three
/// letters for each of owner, group and others (so the column is ten wide).
pub proof fn permissions_are_ten_characters(mode: u32)
    ensures
        permissions_text(mode).len() == 10,
{
}

/// The permission string of a mode, such as "drwxr-xr-x" or "-rwsr-xr-x".
pub fn format_permissions(mode: u32) -> (r: String)
    ensures
        r@ == permissions_text(mode),
{
    let mut s = String::new();
    let t = mode & 0o170000u32;
    let c = if t == 0o040000u32 {
        'd'
    } else if t == 0o100000u32 {
        '-'
    } else if t == 0o120000u32 {
        'l'
    } else if t == 0o010000u32 {
        'p'
    } else if t == 0o140000u32 {
        's'
    } else if t == 0o020000u32 {
        'c'
    } else if t == 0o060000u32 {
        'b'
    } else {
        '?'
    };
    push_char(&mut s, c);
    push_class(&mut s, mode, 2);
    push_class(&mut s, mode, 1);
    push_class(&mut s, mode, 0);
    assert(s@ =~= permissions_text(mode));
    s
}

/// The color of one permission letter.
pub open spec fn permission_color(c: char) -> TermColor {
    if c == 'd' {
        TermColor::Blue
    } else if c == 'r' {
        TermColor::Yellow
    } else if c == 'w' {
        TermColor::Red
    } else if c == 'x' || c == 's' || c == 'S' || c == 't' || c == 'T' {
        TermColor::Green
    } else if c == 'l' || c == 'p' || c == 'c' || c == 'b' {
        TermColor::Cyan
    } else {
        TermColor::Grey
    }
}

fn permission_color_exec(c: char) -> (r: TermColor)
    ensures
        r == permission_color(c),
{
    if c == 'd' {
        TermColor::Blue
    } else if c == 'r' {
        TermColor::Yellow
    } else if c == 'w' {
        TermColor::Red
    } else if c == 'x' || c == 's' || c == 'S' || c == 't' || c == 'T' {
        TermColor::Green
    } else if c == 'l' || c == 'p' || c == 'c' || c == 'b' {
        TermColor::Cyan
    } else {
        TermColor::Grey
    }
}

/// The concatenation of a sequence of texts.
pub open spec fn concat(parts: Seq<Seq<char>>) -> Seq<char>
    decreases parts.len(),
{
    if parts.len() == 0 {
        Seq::<char>::empty()
    } else {
        concat(parts.drop_last()) + parts.last()
    }
}

/// `r` is the text with each character styled in its permission color.
pub open spec fn each_char_styled(r: Seq<char>, text: Seq<char>) -> bool {
    exists|parts: Seq<Seq<char>>|
        #![trigger concat(parts)]
        parts.len() == text.len() && r == concat(parts) && (forall|i: int|
            0 <= i < text.len() ==> is_styled(#[trigger] parts[i], seq![text[i]], permission_color(text[i]), false))
}

/// The permission string with each letter in its color.
pub fn format_permissions_colored(mode: u32) -> (r: String)
    ensures
        each_char_styled(r@, permissions_text(mode)),
{
    let plain = format_permissions(mode);
    let n = plain.as_str().unicode_len();
    let mut out = String::new();
    let ghost mut parts: Seq<Seq<char>> = Seq::empty();
    let mut i: usize = 0;
    while i < n
        invariant
            n == plain@.len(),
            plain@ == permissions_text(mode),
            i <= n,
            parts.len() == i,
            out@ == concat(parts),
            forall|k: int|
                0 <= k < i ==> is_styled(
                    #[trigger] parts[k],
                    seq![plain@[k]],
                    permission_color(plain@[k]),
                    false,
                ),
        decreases n - i,
    {
        let ch = plain.as_str().get_char(i);
        let mut one = String::new();
        push_char(&mut one, ch);
        let piece = paint(one.as_str(), permission_color_exec(ch));
        out.append(piece.as_str());
        proof {
            assert(one@ =~= seq![ch]);
            let old_parts = parts;
            parts = parts.push(piece@);
            assert(parts.drop_last() =~= old_parts);
        }
        i = i + 1;
    }
    proof {
        assert(each_char_styled(out@, permissions_text(mode))) by {
            assert(concat(parts) == out@);
        }
    }
    out
}

// ---------------------------------------------------------------------------
// Cells

/// One formatted cell: its text (possibly with escape sequences) and the
/// number of terminal columns it takes.
pub struct Cell {
    pub content: String,
    pub width: usize,
}

/// The symbol of a Git status.
pub open spec fn git_symbol(s: Option<GitStatus>) -> char {
    match s {
        Some(GitStatus::Modified) => 'M',
        Some(GitStatus::Added) => 'A',
        Some(GitStatus::Deleted) => 'D',
        Some(GitStatus::Untracked) => '?',
        Some(GitStatus::Ignored) => '!',
        None => ' ',
    }
}

/// The color of a Git status symbol.
pub open spec fn git_color(s: GitStatus) -> TermColor {
    match s {
        GitStatus::Modified => TermColor::Yellow,
        GitStatus::Added => TermColor::Green,
        GitStatus::Deleted => TermColor::Red,
        GitStatus::Untracked => TermColor::Blue,
        GitStatus::Ignored => TermColor::Grey,
    }
}

/// A sum of widths, capped at the largest `usize`.
pub open spec fn capped(n: int) -> int {
    if n > usize::MAX {
        usize::MAX as int
    } else {
        n
    }
}

/// Addition of widths capped at the largest `usize`.
pub open spec fn sat_add(a: int, b: int) -> int {
    capped(a + b)
}

/// `r` is `text`, colored when `color` is on.
pub open spec fn maybe_styled(r: Seq<char>, text: Seq<char>, color: bool, c: TermColor, bold: bool) -> bool {
    if color {
        is_styled(r, text, c, bold)
    } else {
        r == text
    }
}

/// The name shown for the user or group: the database name, else the id.
pub open spec fn id_name(name: Option<String>, id: u32) -> Seq<char> {
    match name {
        Some(n) => n@,
        None => decimal(id as nat),
    }
}

/// The icon text and its width before a name.
pub open spec fn icon_part(icons: bool, entry: Entry) -> (Seq<char>, int) {
    let icon = if icons { icon_for(entry.path@, mode_is_dir(entry.mode)) } else { Seq::<char>::empty() };
    if icon.len() == 0 {
        (Seq::<char>::empty(), 0)
    } else {
        (icon.push(' '), sat_add(str_width(icon) as int, 1))
    }
}

/// The classify suffix of a name.
pub open spec fn suffix_of(classify: bool, mode: u32) -> Seq<char> {
    if classify && mode_is_dir(mode) {
        seq!['/']
    } else {
        Seq::<char>::empty()
    }
}

/// The link-target part of a name: " -> " and the escaped target, colored
/// when colors are on; empty for entries that are not symbolic links.
pub open spec fn target_ok(options: DisplayOptions, entry: Entry, target: Seq<char>) -> bool {
    match entry.link_target {
        Some(t) => {
            &&& target.len() >= 4
            &&& target.take(4) == seq![' ', '-', '>', ' ']
            &&& maybe_styled(target.skip(4), escape_text(t@), options.color, TermColor::Cyan, false)
        },
        None => target == Seq::<char>::empty(),
    }
}

/// The columns the link-target part takes.
pub open spec fn target_width(entry: Entry) -> int {
    match entry.link_target {
        Some(t) => sat_add(str_width(escape_text(t@)) as int, 4),
        None => 0,
    }
}

/// The Name cell text for a given styled name and target part: icon, name,
/// classify suffix and target, in a hyperlink to the entry when hyperlinks
/// apply.
pub open spec fn name_content(options: DisplayOptions, entry: Entry, name: Seq<char>, target: Seq<char>) -> Seq<char> {
    let plain = icon_part(options.icons, entry).0 + name + suffix_of(options.classify, entry.mode) + target;
    if hyperlinked(options.hyperlinks, entry.mode) {
        hyperlink(file_uri_text(entry.abs_path@), plain)
    } else {
        plain
    }
}

/// The Name cell: its text (see `name_content`) with the escaped name styled
/// for its file type, and its width.
pub open spec fn name_cell_ok(options: DisplayOptions, entry: Entry, cell: Cell) -> bool {
    let safe = escape_text(entry.name@);
    &&& cell.width == sat_add(
        sat_add(sat_add(icon_part(options.icons, entry).1, str_width(safe) as int), suffix_of(options.classify, entry.mode).len() as int),
        target_width(entry),
    )
    &&& exists|name: Seq<char>, target: Seq<char>|
        #![trigger name_content(options, entry, name, target)]
        maybe_styled(name, safe, options.color, name_style(entry.mode).0, name_style(entry.mode).1)
            && target_ok(options, entry, target) && cell.content@ == name_content(options, entry, name, target)
}

/// What a cell of column `col` holds for an entry.
pub open spec fn cell_ok(options: DisplayOptions, col: Column, entry: Entry, cell: Cell) -> bool {
    match col {
        Column::Permissions => {
            &&& cell.width == 10
            &&& if options.color {
                each_char_styled(cell.content@, permissions_text(entry.mode))
            } else {
                cell.content@ == permissions_text(entry.mode)
            }
        },
        Column::Links => {
            &&& cell.content@ == decimal(entry.nlink as nat)
            &&& cell.width == decimal(entry.nlink as nat).len()
        },
        Column::Owner => {
            let n = id_name(entry.owner, entry.uid);
            &&& cell.width == vstd::utf8::encode_utf8(n).len() as usize
            &&& maybe_styled(cell.content@, n, options.color, TermColor::Yellow, false)
        },
        Column::Group => {
            let n = id_name(entry.group, entry.gid);
            &&& cell.width == vstd::utf8::encode_utf8(n).len() as usize
            &&& maybe_styled(cell.content@, n, options.color, TermColor::Yellow, false)
        },
        Column::Size => {
            let t = size_text(entry.size as nat);
            &&& cell.width == t.len()
            &&& maybe_styled(cell.content@, t, options.color, TermColor::Green, false)
        },
        Column::Date => {
            &&& cell.width == vstd::utf8::encode_utf8(entry.modified@).len() as usize
            &&& maybe_styled(cell.content@, entry.modified@, options.color, TermColor::Cyan, false)
        },
        Column::Git => {
            &&& cell.width == 1
            &&& match entry.git_status {
                Some(s) => maybe_styled(cell.content@, seq![git_symbol(entry.git_status)], options.color, git_color(s), false),
                None => cell.content@ == seq![' '],
            }
        },
        Column::Name => name_cell_ok(options, entry, cell),
    }
}

/// The width of an entry's grid name.
pub open spec fn grid_width_of(options: DisplayOptions, entry: Entry) -> int {
    sat_add(
        sat_add(icon_part(options.icons, entry).1, str_width(escape_text(entry.name@)) as int),
        suffix_of(options.classify, entry.mode).len() as int,
    )
}

/// The grid name of an entry: icon, styled escaped name and classify suffix,
/// in a hyperlink to the entry when hyperlinks apply; its width counts the
/// icon, the escaped name and the suffix.
pub open spec fn grid_entry_ok(options: DisplayOptions, entry: Entry, g: crate::display::grid::GridEntry) -> bool {
    let safe = escape_text(entry.name@);
    let suffix = suffix_of(options.classify, entry.mode);
    &&& g.display_width == grid_width_of(options, entry)
    &&& exists|name: Seq<char>|
        #![trigger name_content(options, entry, name, Seq::<char>::empty())]
        maybe_styled(name, safe, options.color, name_style(entry.mode).0, name_style(entry.mode).1)
            && g.display_name@ == {
            let plain = icon_part(options.icons, entry).0 + name + suffix;
            if hyperlinked(options.hyperlinks, entry.mode) {
                hyperlink(file_uri_text(entry.abs_path@), plain)
            } else {
                plain
            }
        } && name_content(options, entry, name, Seq::<char>::empty()) == g.display_name@
}

/// Options without colors, icons or hyperlinks.
pub open spec fn plain_options(o: DisplayOptions) -> bool {
    !o.color && !o.icons && !o.hyperlinks.enabled
}

/// The texts an entry takes from the system (user and group names, the
/// formatted date) have no character a terminal acts on.
pub open spec fn system_texts_safe(e: Entry) -> bool {
    &&& (e.owner matches Some(o) ==> terminal_safe(o@))
    &&& (e.group matches Some(g) ==> terminal_safe(g@))
    &&& terminal_safe(e.modified@)
}

/// Two safe texts make a safe text.
pub proof fn lemma_safe_concat(a: Seq<char>, b: Seq<char>)
    requires
        terminal_safe(a),
        terminal_safe(b),
    ensures
        terminal_safe(a + b),
{
    assert forall|i: int| 0 <= i < (a + b).len() implies !is_control_char(#[trigger] (a + b)[i]) && !is_bidi_char((a + b)[i]) by {
        if i < a.len() {
            assert((a + b)[i] == a[i]);
        } else {
            assert((a + b)[i] == b[i - a.len()]);
        }
    }
}

proof fn lemma_decimal_safe(n: nat)
    ensures
        terminal_safe(decimal(n)),
{
    lemma_decimal_digits(n);
}

proof fn lemma_id_name_safe(name: Option<String>, id: u32)
    requires
        name matches Some(o) ==> terminal_safe(o@),
    ensures
        terminal_safe(id_name(name, id)),
{
    lemma_decimal_safe(id as nat);
}

proof fn lemma_size_text_safe(size: nat)
    ensures
        terminal_safe(size_text(size)),
{
    let f = crate::display::size::f64_nearest(size);
    let k = crate::display::size::unit_from(f, 0);
    let d = crate::display::size::pow1024(k);
    if k == 0 {
        lemma_decimal_safe(f);
        lemma_safe_concat(decimal(f), seq![' ', 'B']);
    } else {
        let t = crate::display::size::round_tenths(f, d);
        lemma_decimal_safe(t / 10);
        let digit = (((t % 10) + 48) as u32) as char;
        assert(digit as u32 == (t % 10) + 48);
        let tail = seq!['.', digit, ' ', crate::display::size::unit_letter(k)];
        assert(terminal_safe(tail));
        lemma_safe_concat(decimal(t / 10), tail);
    }
}

/// Without colors, icons and hyperlinks, a cell holds nothing a terminal acts
/// on, given system texts that hold nothing of the kind.
pub proof fn lemma_plain_cell_safe(options: DisplayOptions, col: Column, entry: Entry, cell: Cell)
    requires
        cell_ok(options, col, entry, cell),
        plain_options(options),
        system_texts_safe(entry),
    ensures
        terminal_safe(cell.content@),
{
    match col {
        Column::Permissions => {
            assert(terminal_safe(permissions_text(entry.mode)));
        },
        Column::Links => {
            lemma_decimal_safe(entry.nlink as nat);
        },
        Column::Owner => {
            lemma_id_name_safe(entry.owner, entry.uid);
        },
        Column::Group => {
            lemma_id_name_safe(entry.group, entry.gid);
        },
        Column::Size => {
            lemma_size_text_safe(entry.size as nat);
        },
        Column::Date => {},
        Column::Git => {
            assert(terminal_safe(seq![git_symbol(entry.git_status)]));
        },
        Column::Name => {
            let safe = escape_text(entry.name@);
            escape_text_is_terminal_safe(entry.name@);
            let (name, target) = choose|name: Seq<char>, target: Seq<char>|
                #![trigger name_content(options, entry, name, target)]
                maybe_styled(name, safe, options.color, name_style(entry.mode).0, name_style(entry.mode).1)
                    && target_ok(options, entry, target) && cell.content@ == name_content(options, entry, name, target);
            let suffix = suffix_of(options.classify, entry.mode);
            assert(terminal_safe(suffix));
            assert(terminal_safe(target)) by {
                match entry.link_target {
                    Some(t) => {
                        escape_text_is_terminal_safe(t@);
                        assert(target =~= target.take(4) + target.skip(4));
                        assert(terminal_safe(target.take(4)));
                        lemma_safe_concat(target.take(4), target.skip(4));
                    },
                    None => {},
                }
            }
            assert(icon_part(options.icons, entry).0 =~= Seq::<char>::empty());
            lemma_safe_concat(safe, suffix);
            lemma_safe_concat(safe + suffix, target);
            assert(cell.content@ =~= safe + suffix + target);
        },
    }
}

/// The same options with the hyperlink master switch off.
pub open spec fn without_links(o: DisplayOptions) -> DisplayOptions {
    DisplayOptions { hyperlinks: crate::config::HyperlinkConfig { enabled: false, ..o.hyperlinks }, ..o }
}

/// A hyperlinked name is the plain name, label unchanged (so still escaped),
/// wrapped in a link to the percent-encoded path; it takes as many columns as
/// the plain name.
pub proof fn hyperlinked_name_wraps_the_plain_name(options: DisplayOptions, entry: Entry, name: Seq<char>, target: Seq<char>)
    requires
        hyperlinked(options.hyperlinks, entry.mode),
    ensures
        name_content(options, entry, name, target) == hyperlink(
            file_uri_text(entry.abs_path@),
            name_content(without_links(options), entry, name, target),
        ),
        forall|c: Cell, c0: Cell|
            name_cell_ok(options, entry, c) && name_cell_ok(without_links(options), entry, c0) ==> #[trigger] c.width
                == #[trigger] c0.width,
{
}

/// A hyperlinked Name cell is a plain Name cell, label unchanged (so still
/// escaped), wrapped in a link to the percent-encoded path, and as wide.
/// Without colors the plain cell is fixed, so the two cells match exactly;
/// with colors the label is one the plain cell may hold (the coloring may be
/// switched off between calls).
pub proof fn hyperlinked_cell_wraps_a_plain_cell(options: DisplayOptions, entry: Entry, c: Cell, c0: Cell)
    requires
        hyperlinked(options.hyperlinks, entry.mode),
        name_cell_ok(options, entry, c),
        name_cell_ok(without_links(options), entry, c0),
    ensures
        c.width == c0.width,
        !options.color ==> c.content@ == hyperlink(file_uri_text(entry.abs_path@), c0.content@),
        exists|name: Seq<char>, target: Seq<char>|
            #![trigger name_content(without_links(options), entry, name, target)]
            maybe_styled(name, escape_text(entry.name@), options.color, name_style(entry.mode).0, name_style(entry.mode).1)
                && target_ok(without_links(options), entry, target) && c.content@ == hyperlink(
                file_uri_text(entry.abs_path@),
                name_content(without_links(options), entry, name, target),
            ),
{
    let o0 = without_links(options);
    let safe = escape_text(entry.name@);
    let (name, target) = choose|name: Seq<char>, target: Seq<char>|
        #![trigger name_content(options, entry, name, target)]
        maybe_styled(name, safe, options.color, name_style(entry.mode).0, name_style(entry.mode).1)
            && target_ok(options, entry, target) && c.content@ == name_content(options, entry, name, target);
    assert(target_ok(o0, entry, target));
    assert(c.content@ == hyperlink(file_uri_text(entry.abs_path@), name_content(o0, entry, name, target)));
    if !options.color {
        let (n0, t0) = choose|name: Seq<char>, target: Seq<char>|
            #![trigger name_content(o0, entry, name, target)]
            maybe_styled(name, safe, o0.color, name_style(entry.mode).0, name_style(entry.mode).1)
                && target_ok(o0, entry, target) && c0.content@ == name_content(o0, entry, name, target);
        assert(n0 == name);
        match entry.link_target {
            Some(t) => {
                assert(target =~= target.take(4) + target.skip(4));
                assert(t0 =~= t0.take(4) + t0.skip(4));
                assert(target == t0);
            },
            None => {},
        }
        assert(!hyperlinked(o0.hyperlinks, entry.mode));
    }
}

/// The letter the Git column shows for a status: M, A, D, ? and ! for
/// Modified, Added, Deleted, Untracked and Ignored; a blank without one.
pub open spec fn status_letter(s: Option<GitStatus>) -> char {
    match s {
        Some(GitStatus::Modified) => 'M',
        Some(GitStatus::Added) => 'A',
        Some(GitStatus::Deleted) => 'D',
        Some(GitStatus::Untracked) => '?',
        Some(GitStatus::Ignored) => '!',
        None => ' ',
    }
}

/// A Git cell is one column wide and shows the status letter (M, A, D, ?, !),
/// colored when colors are on; entries with different statuses get different
/// cells.
pub proof fn git_cells_show_their_status(options: DisplayOptions, e1: Entry, c1: Cell, e2: Entry, c2: Cell)
    requires
        cell_ok(options, Column::Git, e1, c1),
        cell_ok(options, Column::Git, e2, c2),
    ensures
        c1.width == 1,
        !options.color ==> c1.content@ == seq![status_letter(e1.git_status)],
        e1.git_status is Some && options.color ==> exists|color: TermColor|
            #[trigger] is_styled(c1.content@, seq![status_letter(e1.git_status)], color, false),
        e1.git_status != e2.git_status ==> c1.content@ != c2.content@,
{
    if e1.git_status is Some && options.color {
        let s = e1.git_status->0;
        assert(is_styled(c1.content@, seq![status_letter(e1.git_status)], git_color(s), false));
    }
    if e1.git_status != e2.git_status && c1.content@ == c2.content@ {
        // Every form of the cell holds its letter at a fixed place: the only
        // character without color, after the color-setting sequence with it.
        let l1 = status_letter(e1.git_status);
        let l2 = status_letter(e2.git_status);
        assert(l1 != l2);
        let r = c1.content@;
        if !options.color {
            assert(c1.content@ == seq![l1]);
            assert(c2.content@ == seq![l2]);
            assert(seq![l1][0] == l1 && seq![l2][0] == l2);
        } else {
            if e1.git_status is Some && e2.git_status is Some {
                lemma_styled_letter(r, l1, git_color(e1.git_status->0));
                lemma_styled_letter(r, l2, git_color(e2.git_status->0));
                let i1 = choose|i: int| 0 <= i && i + 1 < r.len() && #[trigger] r[i] == 'm' && r[i + 1] == l1 && (forall|j: int| 0 <= j < i ==> r[j] != 'm');
                let i2 = choose|i: int| 0 <= i && i + 1 < r.len() && #[trigger] r[i] == 'm' && r[i + 1] == l2 && (forall|j: int| 0 <= j < i ==> r[j] != 'm');
                assert(!(i1 < i2));
                assert(!(i2 < i1));
            } else if e1.git_status is Some {
                lemma_styled_letter(r, l1, git_color(e1.git_status->0));
            } else {
                lemma_styled_letter(c2.content@, l2, git_color(e2.git_status->0));
            }
        }
    }
}

/// In a styled one-letter text the letter follows the first 'm' (the end of
/// the color-setting sequence).
proof fn lemma_styled_letter(r: Seq<char>, l: char, c: TermColor)
    requires
        is_styled(r, seq![l], c, false),
    ensures
        r.len() >= 4,
        exists|i: int| 0 <= i && i + 1 < r.len() && #[trigger] r[i] == 'm' && r[i + 1] == l && (forall|j: int| 0 <= j < i ==> r[j] != 'm'),
{
    if r == crate::theme::colors::styled(seq![l], c, false, true) {
        let f = crate::theme::colors::fg_set(c, true);
        let i = f.len() - 1;
        assert(r == f + seq![l] + crate::theme::colors::fg_reset(true));
        assert(r[i] == 'm');
        assert(r[i + 1] == l);
        assert forall|j: int| 0 <= j < i implies r[j] != 'm' by {
            assert(r[j] == f[j]);
        }
    } else {
        let f = crate::theme::colors::fg_set(c, false);
        assert(r == f + seq![l] + crate::theme::colors::fg_reset(false));
        assert(r[2] == 'm');
        assert(r[3] == l);
        assert forall|j: int| 0 <= j < 2 implies r[j] != 'm' by {
            assert(r[j] == f[j]);
        }
    }
}

/// Formats the cells of entries with a theme and display options.
pub struct ColumnFormatter<'a> {
    pub theme: &'a Theme,
    pub options: &'a DisplayOptions,
}

fn maybe_paint(text: String, color: bool, c: TermColor) -> (r: String)
    ensures
        maybe_styled(r@, text@, color, c, false),
{
    if !color {
        text
    } else {
        paint(text.as_str(), c)
    }
}

impl<'a> ColumnFormatter<'a> {
    /// The cell of column `col` for `entry` (see `cell_ok`).
    pub fn format_column(&self, col: Column, entry: &Entry) -> (r: Cell)
        ensures
            cell_ok(*self.options, col, *entry, r),
    {
        match col {
            Column::Permissions => {
                let content = if !self.options.color {
                    format_permissions(entry.mode)
                } else {
                    format_permissions_colored(entry.mode)
                };
                Cell { content, width: 10 }
            },
            Column::Links => {
                let content = decimal_string(entry.nlink);
                let width = content.as_str().unicode_len();
                Cell { content, width }
            },
            Column::Owner => {
                let owner_name = match &entry.owner {
                    Some(n) => n.clone(),
                    None => decimal_string(entry.uid as u64),
                };
                let width = owner_name.as_str().len();
                let content = maybe_paint(owner_name, self.options.color, TermColor::Yellow);
                Cell { content, width }
            },
            Column::Group => {
                let group_name = match &entry.group {
                    Some(n) => n.clone(),
                    None => decimal_string(entry.gid as u64),
                };
                let width = group_name.as_str().len();
                let content = maybe_paint(group_name, self.options.color, TermColor::Yellow);
                Cell { content, width }
            },
            Column::Size => {
                let size_text = format_size(entry.size);
                let width = size_text.as_str().unicode_len();
                let content = maybe_paint(size_text, self.options.color, TermColor::Green);
                Cell { content, width }
            },
            Column::Date => {
                let date_str = entry.modified.clone();
                let width = date_str.as_str().len();
                let content = maybe_paint(date_str, self.options.color, TermColor::Cyan);
                Cell { content, width }
            },
            Column::Git => {
                match entry.git_status {
                    Some(s) => {
                        let (symbol, color) = match s {
                            GitStatus::Modified => ('M', TermColor::Yellow),
                            GitStatus::Added => ('A', TermColor::Green),
                            GitStatus::Deleted => ('D', TermColor::Red),
                            GitStatus::Untracked => ('?', TermColor::Blue),
                            GitStatus::Ignored => ('!', TermColor::Grey),
                        };
                        let mut text = String::new();
                        push_char(&mut text, symbol);
                        assert(text@ =~= seq![git_symbol(entry.git_status)]);
                        let content = maybe_paint(text, self.options.color, color);
                        Cell { content, width: 1 }
                    },
                    None => {
                        let mut content = String::new();
                        push_char(&mut content, ' ');
                        assert(content@ =~= seq![' ']);
                        Cell { content, width: 1 }
                    },
                }
            },
            Column::Name => self.format_name(entry),
        }
    }

    fn icon_prefix(&self, entry: &Entry) -> (r: (String, usize))
        ensures
            r.0@ == icon_part(self.options.icons, *entry).0,
            r.1 as int == icon_part(self.options.icons, *entry).1,
    {
        let is_dir = is_dir_mode(entry.mode);
        let icon_str = if !self.options.icons {
            String::new()
        } else {
            self.theme.icons.get_icon(entry.path.as_str(), is_dir)
        };
        let icon_len = icon_str.as_str().unicode_len();
        let mut icon = String::new();
        if icon_len == 0 {
            assert(icon_str@ =~= Seq::<char>::empty());
            return (icon, 0);
        }
        let icon_width = display_width(icon_str.as_str()).saturating_add(1);
        icon.append(icon_str.as_str());
        push_char(&mut icon, ' ');
        assert(icon@ =~= icon_str@.push(' '));
        (icon, icon_width)
    }

    fn target_part(&self, entry: &Entry) -> (r: (String, usize))
        ensures
            target_ok(*self.options, *entry, r.0@),
            r.1 as int == target_width(*entry),
    {
        let mut target = String::new();
        match &entry.link_target {
            Some(t) => {
                let target_name = escape_terminal_text(t.as_str());
                push_char(&mut target, ' ');
                push_char(&mut target, '-');
                push_char(&mut target, '>');
                push_char(&mut target, ' ');
                let w = display_width(target_name.as_str()).saturating_add(4);
                let shown = maybe_paint(target_name, self.options.color, TermColor::Cyan);
                let ghost before = target@;
                target.append(shown.as_str());
                assert(target@.take(4) =~= seq![' ', '-', '>', ' ']);
                assert(target@.skip(4) =~= shown@);
                (target, w)
            },
            None => {
                assert(target@ =~= Seq::<char>::empty());
                (target, 0)
            },
        }
    }

    /// The grid entry of an entry (see `grid_entry_ok`).
    pub fn grid_entry(&self, entry: &Entry) -> (r: crate::display::grid::GridEntry)
        ensures
            grid_entry_ok(*self.options, *entry, r),
    {
        let (icon, icon_width) = self.icon_prefix(entry);
        let safe_name = escape_terminal_text(entry.name.as_str());
        let name = if !self.options.color {
            safe_name.clone()
        } else {
            self.theme.colors.colorize(safe_name.as_str(), entry.mode)
        };
        let classify_dir = self.options.classify && is_dir_mode(entry.mode);
        let suffix_width: usize = if classify_dir { 1 } else { 0 };
        let mut content = String::new();
        content.append(icon.as_str());
        content.append(name.as_str());
        if classify_dir {
            push_char(&mut content, '/');
        }
        proof {
            let suffix = suffix_of(self.options.classify, entry.mode);
            if classify_dir {
                assert(suffix =~= seq!['/']);
            } else {
                assert(suffix =~= Seq::<char>::empty());
            }
            assert(content@ =~= icon@ + name@ + suffix);
            assert(content@ =~= icon@ + name@ + suffix + Seq::<char>::empty());
        }
        let display_name = if should_hyperlink(self.options, entry) {
            let uri = file_uri(entry.abs_path.as_slice());
            wrap_hyperlink(uri.as_str(), content.as_str())
        } else {
            content
        };
        let display_width = icon_width.saturating_add(display_width(safe_name.as_str())).saturating_add(suffix_width);
        let r = crate::display::grid::GridEntry { display_name, display_width };
        assert(name_content(*self.options, *entry, name@, Seq::<char>::empty()) == r.display_name@);
        r
    }

    fn format_name(&self, entry: &Entry) -> (r: Cell)
        ensures
            name_cell_ok(*self.options, *entry, r),
    {
        let (icon, icon_width) = self.icon_prefix(entry);
        let safe_name = escape_terminal_text(entry.name.as_str());
        let name = if !self.options.color {
            safe_name.clone()
        } else {
            self.theme.colors.colorize(safe_name.as_str(), entry.mode)
        };
        let classify_dir = self.options.classify && is_dir_mode(entry.mode);
        let suffix_width: usize = if classify_dir { 1 } else { 0 };
        let (target, target_w) = self.target_part(entry);
        let mut content = String::new();
        content.append(icon.as_str());
        content.append(name.as_str());
        if classify_dir {
            push_char(&mut content, '/');
        }
        content.append(target.as_str());
        proof {
            let suffix = suffix_of(self.options.classify, entry.mode);
            if classify_dir {
                assert(suffix =~= seq!['/']);
            } else {
                assert(suffix =~= Seq::<char>::empty());
            }
            assert(content@ =~= icon@ + name@ + suffix + target@);
        }
        let content = if should_hyperlink(self.options, entry) {
            let uri = file_uri(entry.abs_path.as_slice());
            wrap_hyperlink(uri.as_str(), content.as_str())
        } else {
            content
        };
        let width = icon_width.saturating_add(display_width(safe_name.as_str())).saturating_add(
            suffix_width,
        ).saturating_add(target_w);
        let r = Cell { content, width };
        assert(r.content@ == name_content(*self.options, *entry, name@, target@));
        r
    }
}

} // verus!
