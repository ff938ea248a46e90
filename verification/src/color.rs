//! Hexadecimal colour codes: parsing, naming, normalising, and the history of recent colours.
use vstd::prelude::*;
use vstd::utf8::*;
use vstd::string::*;
use crate::text::{trim, push_char};

verus! {

broadcast use vstd::utf8::group_utf8_lib;

/// An sRGB colour with 8-bit channels, as written in a hexadecimal colour code.
#[derive(Clone, Copy, Debug, PartialEq, Eq, Structural)]
pub struct HexColor {
    pub red: u8,
    pub green: u8,
    pub blue: u8,
    pub alpha: u8,
}

/// The value of an ASCII byte as a base-16 digit (`0-9`, `a-f`, `A-F`).
pub open spec fn hex_digit_value(b: u8) -> Option<u8> {
    if 0x30 <= b <= 0x39 {
        Some((b - 0x30) as u8)
    } else if 0x61 <= b <= 0x66 {
        Some((b - 0x61 + 10) as u8)
    } else if 0x41 <= b <= 0x46 {
        Some((b - 0x41 + 10) as u8)
    } else {
        None
    }
}

/// The value of the two base-16 digits `b0 b1`, most significant first; `None` unless both are
/// hexadecimal digits.
pub open spec fn radix16_pair(b0: u8, b1: u8) -> Option<u8> {
    match (hex_digit_value(b0), hex_digit_value(b1)) {
        (Some(h), Some(l)) => Some((h * 16 + l) as u8),
        _ => None,
    }
}

/// The characters of a colour code that carry the digits: the input trimmed of white space,
/// with one leading `#` removed.
pub open spec fn hex_body(value: Seq<char>) -> Seq<char> {
    let t = crate::text::trim_chars(value);
    if t.len() > 0 && t[0] == '#' {
        t.drop_first()
    } else {
        t
    }
}

/// The UTF-8 bytes of the digit part of a colour code.
pub open spec fn hex_body_bytes(value: Seq<char>) -> Seq<u8> {
    encode_utf8(hex_body(value))
}

/// The number of two-digit channels in a digit part of `len` bytes.
pub open spec fn channel_count(len: nat) -> int {
    if len == 8 {
        4
    } else {
        3
    }
}

/// Channel `k` of the digit bytes `b`: bytes `2k` and `2k + 1` read in base 16.
pub open spec fn channel_value(b: Seq<u8>, k: int) -> Option<u8> {
    radix16_pair(b[2 * k], b[2 * k + 1])
}

/// Cutting channel `k` out of the digit bytes `b` would split a character in two.
pub open spec fn channel_cut_splits_char(b: Seq<u8>, k: int) -> bool {
    !is_char_boundary(b, 2 * k) || !is_char_boundary(b, 2 * k + 2)
}

/// Reading `value` as a colour code by byte positions would cut a character in two: the digit
/// part has 6 or 8 bytes, and some channel whose cut splits a character is reached, because all
/// channels before it read as numbers. Such codes read as no colour.
pub open spec fn hex_code_splits_char(value: Seq<char>) -> bool {
    let b = hex_body_bytes(value);
    &&& (b.len() == 6 || b.len() == 8)
    &&& exists|k: int|
        0 <= k < channel_count(b.len()) && #[trigger] channel_cut_splits_char(b, k) && forall|j: int|
            0 <= j < k ==> channel_value(b, j) is Some
}

/// The colour that a colour code denotes: six or eight digit bytes (after trimming and one
/// optional `#`), read in pairs as red, green, blue and, when there are eight, alpha (else 255).
/// A code whose channel cut would split a character denotes no colour.
pub open spec fn hex_color_of(value: Seq<char>) -> Option<HexColor> {
    let b = hex_body_bytes(value);
    if b.len() != 6 && b.len() != 8 {
        None
    } else if hex_code_splits_char(value) {
        None
    } else if channel_value(b, 0) is None || channel_value(b, 1) is None || channel_value(b, 2) is None
        || (b.len() == 8 && channel_value(b, 3) is None) {
        None
    } else {
        Some(
            HexColor {
                red: channel_value(b, 0)->0,
                green: channel_value(b, 1)->0,
                blue: channel_value(b, 2)->0,
                alpha: if b.len() == 8 {
                    channel_value(b, 3)->0
                } else {
                    255
                },
            },
        )
    }
}

fn hex_digit(b: u8) -> (r: Option<u8>)
    ensures
        r == hex_digit_value(b),
{
    if 0x30 <= b && b <= 0x39 {
        Some(b - 0x30)
    } else if 0x61 <= b && b <= 0x66 {
        Some(b - 0x61 + 10)
    } else if 0x41 <= b && b <= 0x46 {
        Some(b - 0x41 + 10)
    } else {
        None
    }
}

fn read_pair(b0: u8, b1: u8) -> (r: Option<u8>)
    ensures
        r == radix16_pair(b0, b1),
{
    match (hex_digit(b0), hex_digit(b1)) {
        (Some(h), Some(l)) => Some(h * 16 + l),
        _ => None,
    }
}

/// The digit part of a colour code: `value` trimmed, with one leading `#` removed.
fn hex_body_of(value: &str) -> (r: &str)
    ensures
        r@ == hex_body(value@),
{
    let t = trim(value);
    let n = t.unicode_len();
    if n > 0 && t.get_char(0) == '#' {
        let r = t.substring_char(1, n);
        assert(r@ =~= t@.drop_first());
        r
    } else {
        t
    }
}

/// Whether reading `value` by byte positions would cut one of its characters in two (such a code
/// reads as no colour).
pub fn hex_code_splits_a_char(value: &str) -> (r: bool)
    ensures
        r == hex_code_splits_char(value@),
{
    let body = hex_body_of(value);
    let bytes = body.as_bytes();
    let n = bytes.len();
    let ghost b = hex_body_bytes(value@);
    assert(bytes@ == b);
    if n != 6 && n != 8 {
        return false;
    }
    let count: usize = if n == 8 {
        4
    } else {
        3
    };
    let mut k: usize = 0;
    while k < count
        invariant
            n == b.len(),
            bytes@ == b,
            body.spec_bytes() == b,
            b == hex_body_bytes(value@),
            count == channel_count(b.len()),
            count <= 4,
            k <= count,
            n == 6 || n == 8,
            forall|j: int| 0 <= j < k ==> channel_value(b, j) is Some,
            forall|j: int| 0 <= j < k ==> !channel_cut_splits_char(b, j),
        decreases count - k,
    {
        if !body.is_char_boundary(2 * k) || !body.is_char_boundary(2 * k + 2) {
            assert(channel_cut_splits_char(b, k as int));
            return true;
        }
        if read_pair(bytes[2 * k], bytes[2 * k + 1]).is_none() {
            assert forall|k2: int|
                0 <= k2 < channel_count(b.len()) && #[trigger] channel_cut_splits_char(b, k2)
                implies !(forall|j: int| 0 <= j < k2 ==> channel_value(b, j) is Some) by {
                assert(k2 > k);
                assert(!(channel_value(b, k as int) is Some));
            }
            return false;
        }
        k = k + 1;
    }
    false
}

/// Reads a colour code such as `"#FF0000"` or `"00FF00FF"`: trimmed of white space, one optional
/// leading `#`, then six or eight base-16 digit bytes for red, green, blue and optional alpha.
/// Any other text, including a code whose channels would split a character, reads as `None`.
pub fn parse_hex_color(value: &str) -> (r: Option<HexColor>)
    ensures
        r == hex_color_of(value@),
{
    if hex_code_splits_a_char(value) {
        return None;
    }
    let body = hex_body_of(value);
    let bytes = body.as_bytes();
    let n = bytes.len();
    let ghost b = hex_body_bytes(value@);
    assert(bytes@ == b);
    if n != 6 && n != 8 {
        return None;
    }
    let red = match read_pair(bytes[0], bytes[1]) {
        Some(v) => v,
        None => return None,
    };
    let green = match read_pair(bytes[2], bytes[3]) {
        Some(v) => v,
        None => return None,
    };
    let blue = match read_pair(bytes[4], bytes[5]) {
        Some(v) => v,
        None => return None,
    };
    let alpha = if n == 8 {
        match read_pair(bytes[6], bytes[7]) {
            Some(v) => v,
            None => return None,
        }
    } else {
        255
    };
    Some(HexColor { red, green, blue, alpha })
}

/// The upper-case base-16 digit for `d < 16`.
pub open spec fn upper_hex_digit(d: u8) -> char {
    if d < 10 {
        (d + 0x30) as char
    } else {
        (d + 0x37) as char
    }
}

/// The two upper-case base-16 digits of `v`, most significant first.
pub open spec fn upper_hex_pair(v: u8) -> Seq<char> {
    seq![upper_hex_digit(v / 16), upper_hex_digit(v % 16)]
}

/// The colour code `#RRGGBB` of an opaque colour, with upper-case digits.
pub open spec fn rgb_hex_code(red: u8, green: u8, blue: u8) -> Seq<char> {
    seq!['#'] + upper_hex_pair(red) + upper_hex_pair(green) + upper_hex_pair(blue)
}

fn digit_char(d: u8) -> (c: char)
    requires
        d < 16,
    ensures
        c == upper_hex_digit(d),
{
    if d < 10 {
        (d + 0x30) as char
    } else {
        (d + 0x37) as char
    }
}

/// Writes `#RRGGBB` for the channels of an opaque colour, with upper-case digits.
pub fn rgb_hex_name(red: u8, green: u8, blue: u8) -> (r: String)
    ensures
        r@ == rgb_hex_code(red, green, blue),
{
    let mut s = String::new();
    push_char(&mut s, '#');
    push_char(&mut s, digit_char(red / 16));
    push_char(&mut s, digit_char(red % 16));
    push_char(&mut s, digit_char(green / 16));
    push_char(&mut s, digit_char(green % 16));
    push_char(&mut s, digit_char(blue / 16));
    push_char(&mut s, digit_char(blue % 16));
    assert(s@ =~= rgb_hex_code(red, green, blue));
    s
}

proof fn lemma_hex_digit_round_trip(d: u8)
    requires
        d < 16,
    ensures
        (upper_hex_digit(d) as u32) < 0x80,
        !crate::text::is_white_space(upper_hex_digit(d)),
        hex_digit_value(upper_hex_digit(d) as u8) == Some(d),
{
}

proof fn lemma_ascii_char_boundaries(chars: Seq<char>, i: int)
    requires
        is_ascii_chars(chars),
        0 <= i <= chars.len(),
    ensures
        is_char_boundary(encode_utf8(chars), i),
    decreases chars.len(),
{
    if i > 0 {
        let bytes = encode_utf8(chars);
        encode_utf8_first_scalar(chars);
        assert(pop_first_scalar(bytes) =~= encode_utf8(chars.drop_first()));
        assert(is_ascii_chars(chars.drop_first()));
        is_ascii_chars_encode_utf8(chars);
        lemma_ascii_char_boundaries(chars.drop_first(), i - 1);
    }
}

/// The value of the base-16 digit character `c`.
pub open spec fn digit_of(c: char) -> int {
    hex_digit_value(c as u8)->0 as int
}

/// Six or eight ASCII base-16 digits read as the colour whose channels are the digit pairs, most
/// significant digit first (alpha 255 when there are six), with or without a leading `#`.
pub proof fn lemma_hex_digits_read_with_or_without_hash(d: Seq<char>)
    requires
        d.len() == 6 || d.len() == 8,
        forall|i: int|
            0 <= i < d.len() ==> (#[trigger] d[i] as u32) < 0x80 && hex_digit_value(d[i] as u8) is Some,
    ensures
        hex_color_of(seq!['#'] + d) == hex_color_of(d),
        hex_color_of(d) == Some(
            HexColor {
                red: (digit_of(d[0]) * 16 + digit_of(d[1])) as u8,
                green: (digit_of(d[2]) * 16 + digit_of(d[3])) as u8,
                blue: (digit_of(d[4]) * 16 + digit_of(d[5])) as u8,
                alpha: if d.len() == 8 {
                    (digit_of(d[6]) * 16 + digit_of(d[7])) as u8
                } else {
                    255
                },
            },
        ),
{
    assert forall|i: int| 0 <= i < d.len() implies !crate::text::is_white_space(#[trigger] d[i])
        && d[i] != '#' && '\0' <= d[i] <= '\u{7f}' by {
        let u = d[i] as u32;
        char_u32_cast(d[i], u);
        assert('\0' <= (u as char) <= '\u{7f}');
    }
    assert(is_ascii_chars(d));
    assert(d.last() == d[d.len() - 1]);
    crate::text::lemma_trim_unchanged(d);
    let h = seq!['#'] + d;
    assert(h.last() == d.last());
    crate::text::lemma_trim_unchanged(h);
    assert(hex_body(d) == d);
    assert(hex_body(h) =~= d);
    lemma_ascii_code_splits_nothing(d);
    lemma_ascii_code_splits_nothing(h);
    is_ascii_chars_encode_utf8(d);
    let b = encode_utf8(d);
    assert(b.len() == d.len());
    assert forall|i: int| 0 <= i < d.len() implies #[trigger] b[i] == d[i] as u8 by {}
    assert(channel_value(b, 0) == Some((digit_of(d[0]) * 16 + digit_of(d[1])) as u8));
    assert(channel_value(b, 1) == Some((digit_of(d[2]) * 16 + digit_of(d[3])) as u8));
    assert(channel_value(b, 2) == Some((digit_of(d[4]) * 16 + digit_of(d[5])) as u8));
    if d.len() == 8 {
        assert(channel_value(b, 3) == Some((digit_of(d[6]) * 16 + digit_of(d[7])) as u8));
    }
}

/// A code reads as a colour only when its digit part is six or eight base-16 digits.
pub proof fn lemma_colour_codes_are_hex_digits(value: Seq<char>)
    requires
        hex_color_of(value) is Some,
    ensures
        hex_body(value).len() == 6 || hex_body(value).len() == 8,
        forall|i: int|
            0 <= i < hex_body(value).len() ==> (#[trigger] hex_body(value)[i] as u32) < 0x80
                && hex_digit_value(hex_body(value)[i] as u8) is Some,
{
    let b = hex_body(value);
    let bytes = hex_body_bytes(value);
    let n = bytes.len();
    assert forall|i: int| 0 <= i < n implies #[trigger] bytes[i] < 0x80 && hex_digit_value(
        bytes[i],
    ) is Some by {
        let k = i / 2;
        assert(channel_value(bytes, k) is Some);
        assert(i == 2 * k || i == 2 * k + 1);
    }
    lemma_ascii_bytes_come_from_ascii_chars(b);
    is_ascii_chars_encode_utf8(b);
    assert forall|i: int| 0 <= i < b.len() implies (#[trigger] b[i] as u32) < 0x80
        && hex_digit_value(b[i] as u8) is Some by {
        assert(b[i] as u8 == bytes[i]);
        assert('\0' <= b[i] <= '\u{7f}');
    }
}

/// A colour code whose digit part is ASCII never cuts a character in two.
pub proof fn lemma_ascii_code_splits_nothing(value: Seq<char>)
    requires
        is_ascii_chars(hex_body(value)),
    ensures
        !hex_code_splits_char(value),
{
    let body = hex_body(value);
    is_ascii_chars_encode_utf8(body);
    let b = hex_body_bytes(value);
    assert forall|k: int| 0 <= k < channel_count(b.len()) && (b.len() == 6 || b.len() == 8)
        implies !#[trigger] channel_cut_splits_char(b, k) by {
        lemma_ascii_char_boundaries(body, 2 * k);
        lemma_ascii_char_boundaries(body, 2 * k + 2);
    }
}

/// Every colour code written by `rgb_hex_name` reads back as the same opaque colour.
pub proof fn lemma_rgb_hex_code_reads_back(red: u8, green: u8, blue: u8)
    ensures
        hex_color_of(rgb_hex_code(red, green, blue)) == Some(
            HexColor { red, green, blue, alpha: 255 },
        ),
        !hex_code_splits_char(rgb_hex_code(red, green, blue)),
{
    let s = rgb_hex_code(red, green, blue);
    lemma_hex_digit_round_trip(red / 16);
    lemma_hex_digit_round_trip(red % 16);
    lemma_hex_digit_round_trip(green / 16);
    lemma_hex_digit_round_trip(green % 16);
    lemma_hex_digit_round_trip(blue / 16);
    lemma_hex_digit_round_trip(blue % 16);
    assert(s.len() == 7);
    assert(s.last() == upper_hex_digit(blue % 16));
    crate::text::lemma_trim_unchanged(s);
    let body = hex_body(s);
    assert(body =~= upper_hex_pair(red) + upper_hex_pair(green) + upper_hex_pair(blue));
    assert(is_ascii_chars(body));
    is_ascii_chars_encode_utf8(body);
    let b = hex_body_bytes(s);
    assert(b.len() == 6);
    assert(channel_value(b, 0) == Some(red));
    assert(channel_value(b, 1) == Some(green));
    assert(channel_value(b, 2) == Some(blue));
    lemma_ascii_code_splits_nothing(s);
}

/// `s` with every leading `#` removed.
pub open spec fn strip_leading_hashes(s: Seq<char>) -> Seq<char>
    decreases s.len(),
{
    if s.len() > 0 && s[0] == '#' {
        strip_leading_hashes(s.drop_first())
    } else {
        s
    }
}

/// What `str::to_uppercase` gives for `s`: its Unicode upper-case mapping.
pub uninterp spec fn uppercase_chars(s: Seq<char>) -> Seq<char>;

/// The Unicode upper-case form of `s` (`str::to_uppercase`).
#[verifier::external_body]
fn str_to_uppercase(s: &str) -> (r: String)
    ensures
        r@ == uppercase_chars(s@),
{
    s.to_uppercase()
}

/// The ASCII upper-case form of `c`: `a`-`z` become `A`-`Z`, every other character is kept.
pub open spec fn ascii_upper_char(c: char) -> char {
    if 0x61 <= (c as u32) <= 0x7A {
        ((c as u32) - 0x20) as char
    } else {
        c
    }
}

/// `s` with each character in ASCII upper case.
pub open spec fn ascii_upper(s: Seq<char>) -> Seq<char> {
    s.map_values(|c: char| ascii_upper_char(c))
}

fn ascii_upper_of(c: char) -> (r: char)
    ensures
        r == ascii_upper_char(c),
{
    let u = c as u32;
    if 0x61 <= u && u <= 0x7A {
        let b = (u - 0x20) as u8;
        assert(b as u32 == u - 0x20);
        b as char
    } else {
        c
    }
}

/// `s` with the ASCII letters `a`-`z` turned into `A`-`Z` and every other character kept.
fn ascii_uppercase(s: &str) -> (r: String)
    ensures
        r@ == ascii_upper(s@),
{
    let n = s.unicode_len();
    let mut r = String::new();
    let mut i: usize = 0;
    while i < n
        invariant
            n == s@.len(),
            i <= n,
            r@ == ascii_upper(s@).take(i as int),
        decreases n - i,
    {
        let c = s.get_char(i);
        push_char(&mut r, ascii_upper_of(c));
        assert(r@ =~= ascii_upper(s@).take(i + 1));
        i = i + 1;
    }
    assert(ascii_upper(s@).take(n as int) =~= ascii_upper(s@));
    r
}

/// The upper-case form of the digits of a colour code: for ASCII text the Unicode upper-case
/// mapping is the ASCII one (letters `a`-`z` to `A`-`Z`, all else kept), otherwise it is
/// `str::to_uppercase`'s.
pub open spec fn code_uppercase(s: Seq<char>) -> Seq<char> {
    if is_ascii_chars(s) {
        ascii_upper(s)
    } else {
        uppercase_chars(s)
    }
}

/// The normal form of a colour code: `#`, then the input trimmed of white space and of all
/// leading `#`, in upper case.
pub open spec fn normalized_hex_code(value: Seq<char>) -> Seq<char> {
    seq!['#'] + code_uppercase(strip_leading_hashes(crate::text::trim_chars(value)))
}

/// Puts a colour code in the form `#XXXXXX`: trimmed, leading `#` signs replaced by one, digits in
/// upper case.
pub fn normalize_hex(value: &str) -> (r: String)
    ensures
        r@ == normalized_hex_code(value@),
{
    let t = trim(value);
    let n = t.unicode_len();
    let mut i: usize = 0;
    assert(t@.subrange(0, n as int) =~= t@);
    while i < n && t.get_char(i) == '#'
        invariant
            n == t@.len(),
            i <= n,
            strip_leading_hashes(t@) == strip_leading_hashes(t@.subrange(i as int, n as int)),
        decreases n - i,
    {
        assert(t@.subrange(i as int, n as int).drop_first() =~= t@.subrange(i + 1, n as int));
        i = i + 1;
    }
    let rest = t.substring_char(i, n);
    assert(strip_leading_hashes(rest@) == rest@) by {
        if i < n {
            assert(rest@[0] == t@[i as int]);
        }
    }
    let upper = if rest.is_ascii() {
        ascii_uppercase(rest)
    } else {
        str_to_uppercase(rest)
    };
    let mut r = String::new();
    push_char(&mut r, '#');
    r.append(upper.as_str());
    assert(r@ =~= normalized_hex_code(value@));
    r
}

proof fn lemma_ascii_bytes_come_from_ascii_chars(chars: Seq<char>)
    requires
        forall|i: int| 0 <= i < encode_utf8(chars).len() ==> encode_utf8(chars)[i] < 0x80,
    ensures
        is_ascii_chars(chars),
    decreases chars.len(),
{
    if chars.len() > 0 {
        let c = chars[0] as u32;
        let rest = chars.drop_first();
        let e = encode_utf8(chars);
        assert(e =~= encode_scalar(c) + encode_utf8(rest));
        char_is_scalar(chars[0]);
        if !has_width_1_encoding(c) {
            assert(e[0] == encode_scalar(c)[0]);
            assert(forall|x: u32| #![auto] (0xC0u8 | ((x >> 6) & 0x1F) as u8) >= 0x80u8)
                by (bit_vector);
            assert(forall|x: u32| #![auto] (0xE0u8 | ((x >> 12) & 0x0F) as u8) >= 0x80u8)
                by (bit_vector);
            assert(forall|x: u32| #![auto] (0xF0u8 | ((x >> 18) & 0x7) as u8) >= 0x80u8)
                by (bit_vector);
            assert(false);
        }
        assert(encode_scalar(c).len() == 1);
        assert forall|i: int| 0 <= i < encode_utf8(rest).len() implies encode_utf8(rest)[i]
            < 0x80 by {
            assert(encode_utf8(rest)[i] == e[i + 1]);
        }
        lemma_ascii_bytes_come_from_ascii_chars(rest);
        assert forall|i: int| 0 <= i < chars.len() implies '\0' <= #[trigger] chars[i] <= '\u{7f}'
            by {
            if i > 0 {
                assert(chars[i] == rest[i - 1]);
                assert('\0' <= rest[i - 1] <= '\u{7f}');
            } else {
                let u = chars[i] as u32;
                assert(u < 0x80);
                char_u32_cast(chars[i], u);
                assert('\0' <= (u as char) <= '\u{7f}');
            }
        }
    }
}

proof fn lemma_upper_char_facts(c: char)
    requires
        (c as u32) < 0x80,
    ensures
        (ascii_upper_char(c) as u32) < 0x80,
        hex_digit_value(ascii_upper_char(c) as u8) == hex_digit_value(c as u8),
        (ascii_upper_char(c) == '#') == (c == '#'),
        !(0x61 <= (ascii_upper_char(c) as u32) <= 0x7A),
        ascii_upper_char(ascii_upper_char(c)) == ascii_upper_char(c),
        crate::text::is_white_space(ascii_upper_char(c)) == crate::text::is_white_space(c),
{
}

proof fn lemma_strip_leading_hashes_suffix(s: Seq<char>)
    ensures
        strip_leading_hashes(s).len() <= s.len(),
        strip_leading_hashes(s) == s.subrange(
            s.len() - strip_leading_hashes(s).len(),
            s.len() as int,
        ),
        strip_leading_hashes(s).len() > 0 ==> strip_leading_hashes(s)[0] != '#',
    decreases s.len(),
{
    if s.len() > 0 && s[0] == '#' {
        lemma_strip_leading_hashes_suffix(s.drop_first());
        let t = strip_leading_hashes(s.drop_first());
        assert(s.drop_first().subrange(s.len() - 1 - t.len(), s.len() - 1) =~= s.subrange(
            s.len() - t.len(),
            s.len() as int,
        ));
    } else {
        assert(s.subrange(0, s.len() as int) =~= s);
    }
}

proof fn lemma_upper_code_same_channels(b: Seq<char>)
    requires
        is_ascii_chars(b),
        b.len() == 6 || b.len() == 8,
        forall|i: int|
            0 <= i < b.len() ==> hex_digit_value(#[trigger] b[i] as u8) is Some,
    ensures
        is_ascii_chars(ascii_upper(b)),
        !crate::text::is_white_space(ascii_upper(b).last()),
        encode_utf8(ascii_upper(b)).len() == b.len(),
        forall|k: int|
            0 <= k < channel_count(b.len()) ==> #[trigger] channel_value(
                encode_utf8(ascii_upper(b)),
                k,
            ) == channel_value(encode_utf8(b), k),
{
    let u = ascii_upper(b);
    let n = b.len();
    assert forall|i: int| 0 <= i < n implies (#[trigger] u[i] as u32) < 0x80 && hex_digit_value(
        u[i] as u8,
    ) == hex_digit_value(b[i] as u8)
        && !crate::text::is_white_space(u[i]) by {
        assert('\0' <= b[i] <= '\u{7f}');
        lemma_upper_char_facts(b[i]);
        assert(u[i] == ascii_upper_char(b[i]));
    }
    assert(is_ascii_chars(u)) by {
        assert forall|i: int| 0 <= i < n implies '\0' <= #[trigger] u[i] <= '\u{7f}' by {
            assert((u[i] as u32) < 0x80);
        }
    }
    assert(u.last() == u[n - 1]);
    is_ascii_chars_encode_utf8(u);
    is_ascii_chars_encode_utf8(b);
    let ub = encode_utf8(u);
    let bb = encode_utf8(b);
    assert forall|k: int| 0 <= k < channel_count(n) implies #[trigger] channel_value(ub, k)
        == channel_value(bb, k) by {
        assert(ub[2 * k] == u[2 * k] as u8);
        assert(ub[2 * k + 1] == u[2 * k + 1] as u8);
        assert(bb[2 * k] == b[2 * k] as u8);
        assert(bb[2 * k + 1] == b[2 * k + 1] as u8);
    }
}

/// A colour code that reads as a colour reads as the same colour in its normal form.
pub proof fn lemma_normalized_code_reads_the_same(value: Seq<char>)
    requires
        hex_color_of(value) is Some,
    ensures
        hex_color_of(normalized_hex_code(value)) == hex_color_of(value),
{
    let t = crate::text::trim_chars(value);
    let b = hex_body(value);
    let bytes = hex_body_bytes(value);
    let n = bytes.len();
    assert(n == 6 || n == 8);
    assert(!hex_code_splits_char(value));
    assert forall|i: int| 0 <= i < n implies #[trigger] bytes[i] < 0x80 && (hex_digit_value(
        bytes[i],
    ) is Some) by {
        let k = i / 2;
        assert(channel_value(bytes, k) is Some);
        assert(i == 2 * k || i == 2 * k + 1);
    }
    lemma_ascii_bytes_come_from_ascii_chars(b);
    is_ascii_chars_encode_utf8(b);
    assert(b.len() == n);
    assert forall|i: int| 0 <= i < n implies hex_digit_value(#[trigger] b[i] as u8) is Some by {
        assert(b[i] as u8 == bytes[i]);
    }
    assert(b[0] as u8 == bytes[0]);
    assert(b[0] != '#');
    assert(strip_leading_hashes(b) == b);
    assert(strip_leading_hashes(t) == b) by {
        if t.len() > 0 && t[0] == '#' {
            assert(b == t.drop_first());
            assert(strip_leading_hashes(t) == strip_leading_hashes(t.drop_first()));
        } else {
            assert(b == t);
        }
    }
    lemma_upper_code_same_channels(b);
    let u = ascii_upper(b);
    let m = normalized_hex_code(value);
    assert(m == seq!['#'] + u);
    assert(m.last() == u.last());
    crate::text::lemma_trim_unchanged(m);
    assert(hex_body(m) =~= u);
    lemma_ascii_code_splits_nothing(m);
    let ub = hex_body_bytes(m);
    assert(ub == encode_utf8(u));
    assert(channel_value(ub, 0) == channel_value(bytes, 0));
    assert(channel_value(ub, 1) == channel_value(bytes, 1));
    assert(channel_value(ub, 2) == channel_value(bytes, 2));
    if n == 8 {
        assert(channel_value(ub, 3) == channel_value(bytes, 3));
    }
}

/// For ASCII input the normal form starts with a single `#`, holds no lower-case ASCII letter, and
/// is its own normal form.
pub proof fn lemma_normalized_code_is_normal(value: Seq<char>)
    requires
        is_ascii_chars(value),
    ensures
        normalized_hex_code(value)[0] == '#',
        normalized_hex_code(value).len() > 1 ==> normalized_hex_code(value)[1] != '#',
        forall|i: int|
            0 <= i < normalized_hex_code(value).len() ==> !(0x61 <= (
            #[trigger] normalized_hex_code(value)[i] as u32) <= 0x7A),
        normalized_hex_code(normalized_hex_code(value)) == normalized_hex_code(value),
{
    let t = crate::text::trim_chars(value);
    crate::text::lemma_trim_keeps_ascii(value);
    crate::text::lemma_trimmed_edges(value);
    lemma_strip_leading_hashes_suffix(t);
    let x = strip_leading_hashes(t);
    assert(is_ascii_chars(x)) by {
        assert forall|i: int| 0 <= i < x.len() implies '\0' <= #[trigger] x[i] <= '\u{7f}' by {
            assert(x[i] == t[t.len() - x.len() + i]);
        }
    }
    let u = ascii_upper(x);
    let m = normalized_hex_code(value);
    assert(m == seq!['#'] + u);
    assert forall|i: int| 0 <= i < u.len() implies (#[trigger] u[i] as u32) < 0x80 && !(0x61 <= (
    u[i] as u32) <= 0x7A) && ascii_upper_char(u[i]) == u[i] && (u[i] == '#') == (x[i] == '#')
        && crate::text::is_white_space(u[i]) == crate::text::is_white_space(x[i]) by {
        lemma_upper_char_facts(x[i]);
    }
    assert forall|i: int| 0 <= i < m.len() implies !(0x61 <= (#[trigger] m[i] as u32) <= 0x7A) by {
        if i > 0 {
            assert(m[i] == u[i - 1]);
        }
    }
    // The normal form needs no trimming: it starts with `#` and ends as the trimmed input does.
    if u.len() > 0 {
        assert(x.last() == t.last());
        assert(m.last() == u.last());
        crate::text::lemma_trim_unchanged(m);
    } else {
        assert(m =~= seq!['#']);
        crate::text::lemma_trim_unchanged(m);
    }
    assert(m.drop_first() =~= u);
    assert(strip_leading_hashes(m) == strip_leading_hashes(u));
    assert(strip_leading_hashes(u) == u) by {
        if u.len() > 0 {
            assert(u[0] != '#');
        }
    }
    assert(is_ascii_chars(u));
    assert(ascii_upper(u) =~= u);
}

/// The most colours that the history of recent colours keeps.
pub const HISTORY_LIMIT: usize = 15;

/// The characters of each entry of a list of strings.
pub open spec fn entries_of(h: Seq<String>) -> Seq<Seq<char>> {
    h.map_values(|e: String| e@)
}

/// `h` with every entry equal to `c` left out, the others in their order.
pub open spec fn without_entry(h: Seq<Seq<char>>, c: Seq<char>) -> Seq<Seq<char>>
    decreases h.len(),
{
    if h.len() == 0 {
        h
    } else {
        let r = without_entry(h.drop_last(), c);
        if h.last() == c {
            r
        } else {
            r.push(h.last())
        }
    }
}

/// The history after `c` is used: `c` first, then the earlier entries other than `c` in their
/// order, cut to `HISTORY_LIMIT` entries.
pub open spec fn history_after(h: Seq<Seq<char>>, c: Seq<char>) -> Seq<Seq<char>> {
    let r = seq![c] + without_entry(h, c);
    if r.len() > HISTORY_LIMIT {
        r.take(HISTORY_LIMIT as int)
    } else {
        r
    }
}

/// Records `color` as the most recent colour: any earlier copies of it leave the list, it goes in
/// front, and the list is cut to `HISTORY_LIMIT` entries.
pub fn add_color_to_history(history: &mut Vec<String>, color: &str)
    ensures
        entries_of(final(history)@) == history_after(entries_of(old(history)@), color@),
{
    let target = String::from_str(color);
    let mut kept: Vec<String> = Vec::new();
    let mut i: usize = 0;
    let n = history.len();
    assert(history@.take(0) =~= Seq::<String>::empty());
    assert(entries_of(kept@) =~= without_entry(entries_of(history@.take(0)), color@));
    while i < n
        invariant
            n == history.len(),
            i <= n,
            target@ == color@,
            entries_of(kept@) == without_entry(entries_of(history@.take(i as int)), color@),
        decreases n - i,
    {
        let ghost before = entries_of(history@.take(i as int));
        assert(entries_of(history@.take(i + 1)).drop_last() =~= before);
        assert(entries_of(history@.take(i + 1)).last() == history@[i as int]@);
        if !(history[i] == target) {
            kept.push(history[i].clone());
            assert(entries_of(kept@) =~= entries_of(kept@).drop_last().push(history@[i as int]@));
        }
        i = i + 1;
    }
    assert(history@.take(n as int) =~= history@);
    let ghost removed = entries_of(kept@);
    kept.insert(0, target);
    assert(entries_of(kept@) =~= seq![color@] + removed);
    kept.truncate(HISTORY_LIMIT);
    assert(entries_of(kept@) =~= history_after(entries_of(old(history)@), color@));
    *history = kept;
}

proof fn lemma_without_entry_facts(h: Seq<Seq<char>>, c: Seq<char>)
    ensures
        without_entry(h, c).len() <= h.len(),
        forall|i: int|
            0 <= i < without_entry(h, c).len() ==> #[trigger] without_entry(h, c)[i] != c
                && h.contains(without_entry(h, c)[i]),
        !h.contains(c) ==> without_entry(h, c) == h,
        (forall|i: int, j: int| 0 <= i < j < h.len() ==> h[i] != h[j]) ==> (forall|i: int, j: int|
            0 <= i < j < without_entry(h, c).len() ==> without_entry(h, c)[i] != without_entry(
                h,
                c,
            )[j]),
    decreases h.len(),
{
    if h.len() > 0 {
        let t = h.drop_last();
        lemma_without_entry_facts(t, c);
        let r = without_entry(t, c);
        assert forall|i: int| 0 <= i < without_entry(h, c).len() implies #[trigger] without_entry(
            h,
            c,
        )[i] != c && h.contains(without_entry(h, c)[i]) by {
            if i < r.len() {
                assert(t.contains(r[i]));
                let k = choose|k: int| 0 <= k < t.len() && t[k] == r[i];
                assert(h[k] == r[i]);
            } else {
                assert(h[h.len() - 1] == h.last());
            }
        }
        if !h.contains(c) {
            assert(!t.contains(c)) by {
                if t.contains(c) {
                    let k = choose|k: int| 0 <= k < t.len() && t[k] == c;
                    assert(h[k] == c);
                }
            }
            assert(h.last() != c) by {
                assert(h[h.len() - 1] == h.last());
            }
            assert(h =~= t.push(h.last()));
        }
        if forall|i: int, j: int| 0 <= i < j < h.len() ==> h[i] != h[j] {
            assert(forall|i: int, j: int| 0 <= i < j < t.len() ==> t[i] != t[j]) by {
                assert forall|i: int, j: int| 0 <= i < j < t.len() implies t[i] != t[j] by {
                    assert(t[i] == h[i] && t[j] == h[j]);
                }
            }
            assert forall|i: int, j: int|
                0 <= i < j < without_entry(h, c).len() implies without_entry(h, c)[i]
                != without_entry(h, c)[j] by {
                if j == r.len() && h.last() != c {
                    assert(t.contains(r[i]));
                    let k = choose|k: int| 0 <= k < t.len() && t[k] == r[i];
                    assert(h[k] == t[k]);
                    assert(h[h.len() - 1] == h.last());
                }
            }
        }
    }
}

proof fn lemma_without_entry_concat(a: Seq<Seq<char>>, b: Seq<Seq<char>>, c: Seq<char>)
    ensures
        without_entry(a + b, c) == without_entry(a, c) + without_entry(b, c),
    decreases b.len(),
{
    if b.len() == 0 {
        assert(a + b =~= a);
        assert(without_entry(a, c) + without_entry(b, c) =~= without_entry(a, c));
    } else {
        assert((a + b).drop_last() =~= a + b.drop_last());
        lemma_without_entry_concat(a, b.drop_last(), c);
        if b.last() != c {
            assert(without_entry(a, c) + without_entry(b.drop_last(), c).push(b.last())
                =~= (without_entry(a, c) + without_entry(b.drop_last(), c)).push(b.last()));
        }
    }
}

/// After a colour is used it is the first of the history, which holds at least one and at most
/// `HISTORY_LIMIT` entries, each of them the colour just used or an earlier entry.
pub proof fn lemma_history_front(h: Seq<Seq<char>>, c: Seq<char>)
    ensures
        history_after(h, c).len() >= 1,
        history_after(h, c).len() <= HISTORY_LIMIT,
        history_after(h, c)[0] == c,
        forall|i: int|
            0 < i < history_after(h, c).len() ==> #[trigger] history_after(h, c)[i] != c && h.contains(
                history_after(h, c)[i],
            ),
{
    lemma_without_entry_facts(h, c);
    let w = without_entry(h, c);
    assert forall|i: int| 0 < i < history_after(h, c).len() implies #[trigger] history_after(
        h,
        c,
    )[i] != c && h.contains(history_after(h, c)[i]) by {
        assert(history_after(h, c)[i] == w[i - 1]);
    }
}

proof fn lemma_without_entry_keeps_others(h: Seq<Seq<char>>, c: Seq<char>, i: int)
    requires
        0 <= i < h.len(),
        h[i] != c,
    ensures
        without_entry(h, c).contains(h[i]),
    decreases h.len(),
{
    let t = h.drop_last();
    if i < h.len() - 1 {
        lemma_without_entry_keeps_others(t, c, i);
        let r = without_entry(t, c);
        let k = choose|k: int| 0 <= k < r.len() && r[k] == t[i];
        assert(without_entry(h, c)[k] == r[k]);
    } else {
        assert(h.last() == h[i]);
        assert(without_entry(h, c).last() == h[i]);
    }
}

/// While the history has room, using a colour loses none of the other recent colours.
pub proof fn lemma_history_keeps_other_colours(h: Seq<Seq<char>>, c: Seq<char>, i: int)
    requires
        h.len() < HISTORY_LIMIT,
        0 <= i < h.len(),
        h[i] != c,
    ensures
        history_after(h, c).contains(h[i]),
{
    lemma_without_entry_keeps_others(h, c, i);
    lemma_without_entry_facts(h, c);
    let w = without_entry(h, c);
    let k = choose|k: int| 0 <= k < w.len() && w[k] == h[i];
    assert(history_after(h, c)[k + 1] == w[k]);
}

/// A new colour goes in front of the recent colours, which keep their order; the oldest falls
/// off once the history is full.
pub proof fn lemma_new_colour_goes_in_front(h: Seq<Seq<char>>, c: Seq<char>)
    requires
        forall|i: int| 0 <= i < h.len() ==> h[i] != c,
    ensures
        h.len() < HISTORY_LIMIT ==> history_after(h, c) == seq![c] + h,
        h.len() >= HISTORY_LIMIT ==> history_after(h, c) == (seq![c] + h).take(
            HISTORY_LIMIT as int,
        ),
{
    assert(!h.contains(c));
    lemma_without_entry_facts(h, c);
}

/// A history without repeated entries keeps none after a colour is used.
pub proof fn lemma_history_stays_distinct(h: Seq<Seq<char>>, c: Seq<char>)
    requires
        forall|i: int, j: int| 0 <= i < j < h.len() ==> h[i] != h[j],
    ensures
        forall|i: int, j: int|
            0 <= i < j < history_after(h, c).len() ==> history_after(h, c)[i] != history_after(
                h,
                c,
            )[j],
{
    lemma_without_entry_facts(h, c);
    let w = without_entry(h, c);
    let a = history_after(h, c);
    assert forall|i: int, j: int| 0 <= i < j < a.len() implies a[i] != a[j] by {
        assert(a[j] == w[j - 1]);
        if i > 0 {
            assert(a[i] == w[i - 1]);
        }
    }
}

/// Using the colour that was just used leaves the history as it is.
pub proof fn lemma_history_reuse_is_idempotent(h: Seq<Seq<char>>, c: Seq<char>)
    ensures
        history_after(history_after(h, c), c) == history_after(h, c),
{
    let w = without_entry(h, c);
    lemma_without_entry_facts(h, c);
    let a = history_after(h, c);
    let k = a.len();
    let tail = w.take(k - 1);
    assert(a =~= seq![c] + tail);
    assert(!tail.contains(c)) by {
        if tail.contains(c) {
            let m = choose|m: int| 0 <= m < tail.len() && tail[m] == c;
            assert(w[m] == c);
        }
    }
    lemma_without_entry_concat(seq![c], tail, c);
    lemma_without_entry_facts(tail, c);
    assert(without_entry(seq![c], c) =~= Seq::<Seq<char>>::empty()) by {
        assert(seq![c].drop_last() =~= Seq::<Seq<char>>::empty());
        assert(without_entry(Seq::<Seq<char>>::empty(), c) =~= Seq::<Seq<char>>::empty());
        assert(seq![c].last() == c);
    }
    assert(without_entry(a, c) =~= tail);
    assert(history_after(a, c) =~= a);
}

/// The text of the hexadecimal colour field.
#[derive(Clone, Debug)]
pub struct ColorInputBuffer {
    pub text: String,
}

impl Default for ColorInputBuffer {
    fn default() -> (r: Self)
        ensures
            r.text@ == "#CCB399"@,
    {
        ColorInputBuffer { text: String::from_str("#CCB399") }
    }
}

/// The colour picker: whether it and its list of recent colours are shown, and that list.
#[derive(Clone, Debug)]
pub struct ColorPickerState {
    pub is_open: bool,
    pub show_history: bool,
    pub history: Vec<String>,
}

impl Default for ColorPickerState {
    fn default() -> (r: Self)
        ensures
            !r.is_open,
            !r.show_history,
            r.history@.len() == 0,
    {
        ColorPickerState { is_open: false, show_history: false, history: Vec::new() }
    }
}

/// A colour picked on the colour wheel (opaque): it becomes the colour's name and the text of the
/// field as `#RRGGBB`, and goes to the front of the recent colours. Returns the colour to use.
pub fn pick_wheel_color(
    color_name: &mut String,
    input: &mut ColorInputBuffer,
    picker: &mut ColorPickerState,
    red: u8,
    green: u8,
    blue: u8,
) -> (r: HexColor)
    ensures
        r == (HexColor { red, green, blue, alpha: 255 }),
        final(color_name)@ == rgb_hex_code(red, green, blue),
        hex_color_of(final(color_name)@) == Some(r),
        final(input).text@ == rgb_hex_code(red, green, blue),
        entries_of(final(picker).history@) == history_after(
            entries_of(old(picker).history@),
            rgb_hex_code(red, green, blue),
        ),
        final(picker).is_open == old(picker).is_open,
        final(picker).show_history == old(picker).show_history,
{
    let name = rgb_hex_name(red, green, blue);
    proof {
        lemma_rgb_hex_code_reads_back(red, green, blue);
    }
    *color_name = name.clone();
    input.text = name.clone();
    add_color_to_history(&mut picker.history, name.as_str());
    HexColor { red, green, blue, alpha: 255 }
}

/// Text typed into the hexadecimal field. The field shows what was typed; when it reads as a
/// colour, its normal form becomes the colour's name and the field's text and goes to the front of
/// the recent colours. Returns the colour it reads as, if any.
pub fn enter_hex_code(
    color_name: &mut String,
    input: &mut ColorInputBuffer,
    picker: &mut ColorPickerState,
    hex: &str,
) -> (r: Option<HexColor>)
    ensures
        r == hex_color_of(hex@),
        r is Some ==> final(color_name)@ == normalized_hex_code(hex@),
        r matches Some(c) ==> hex_color_of(final(color_name)@) == Some(c),
        r is Some ==> final(input).text@ == normalized_hex_code(hex@),
        r is Some ==> entries_of(final(picker).history@) == history_after(
            entries_of(old(picker).history@),
            normalized_hex_code(hex@),
        ),
        r is None ==> final(color_name)@ == old(color_name)@,
        r is None ==> final(input).text@ == hex@,
        r is None ==> final(picker).history@ == old(picker).history@,
        final(picker).is_open == old(picker).is_open,
        final(picker).show_history == old(picker).show_history,
{
    input.text = String::from_str(hex);
    let parsed = parse_hex_color(hex);
    if parsed.is_some() {
        let name = normalize_hex(hex);
        proof {
            lemma_normalized_code_reads_the_same(hex@);
        }
        *color_name = name.clone();
        input.text = name.clone();
        add_color_to_history(&mut picker.history, name.as_str());
    }
    parsed
}

/// A recent colour clicked in the list: when it reads as a colour, it becomes the colour's name
/// and the field's text (the list keeps its order). Returns the colour it reads as, if any.
pub fn pick_history_color(color_name: &mut String, input: &mut ColorInputBuffer, entry: &str) -> (r:
    Option<HexColor>)
    ensures
        r == hex_color_of(entry@),
        r is Some ==> final(color_name)@ == entry@ && final(input).text@ == entry@,
        r matches Some(c) ==> hex_color_of(final(color_name)@) == Some(c),
        r is None ==> final(color_name)@ == old(color_name)@,
        r is None ==> final(input).text@ == old(input).text@,
{
    let parsed = parse_hex_color(entry);
    if parsed.is_some() {
        *color_name = String::from_str(entry);
        input.text = String::from_str(entry);
    }
    parsed
}

} // verus!
