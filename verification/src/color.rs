//! The color codec: four-channel RGBA samples and their conversions to
//! and from hexadecimal text.

use vstd::prelude::*;
use vstd::string::StringExecFns;
use vstd::string::StrSliceExecFns;
use crate::Error;

verus! {

/// One pixel sample: four 8-bit unsigned channels, red, green, blue, alpha.
/// Equality is exact, channel by channel.
#[derive(Clone, Copy, Debug, PartialEq, Eq, Structural)]
pub struct Rgba {
    pub r: u8,
    pub g: u8,
    pub b: u8,
    pub a: u8,
}

/// Lexicographic order over the channels, r first, then g, b, a.
pub open spec fn compare_spec(a: Rgba, b: Rgba) -> core::cmp::Ordering {
    if a.r != b.r {
        if a.r < b.r { core::cmp::Ordering::Less } else { core::cmp::Ordering::Greater }
    } else if a.g != b.g {
        if a.g < b.g { core::cmp::Ordering::Less } else { core::cmp::Ordering::Greater }
    } else if a.b != b.b {
        if a.b < b.b { core::cmp::Ordering::Less } else { core::cmp::Ordering::Greater }
    } else if a.a != b.a {
        if a.a < b.a { core::cmp::Ordering::Less } else { core::cmp::Ordering::Greater }
    } else {
        core::cmp::Ordering::Equal
    }
}

impl Rgba {
    /// The red channel.
    pub fn r(&self) -> (v: u8)
        ensures
            v == self.r,
    {
        self.r
    }

    /// The green channel.
    pub fn g(&self) -> (v: u8)
        ensures
            v == self.g,
    {
        self.g
    }

    /// The blue channel.
    pub fn b(&self) -> (v: u8)
        ensures
            v == self.b,
    {
        self.b
    }

    /// The alpha channel.
    pub fn a(&self) -> (v: u8)
        ensures
            v == self.a,
    {
        self.a
    }

    /// The three color channels, in r, g, b order.
    pub fn rgb(&self) -> (out: [u8; 3])
        ensures
            out@ == seq![self.r, self.g, self.b],
    {
        let out = [self.r, self.g, self.b];
        proof {
            assert(out@ =~= seq![self.r, self.g, self.b]);
        }
        out
    }

    /// All four channels, in r, g, b, a order.
    pub fn rgba(&self) -> (out: [u8; 4])
        ensures
            out@ == seq![self.r, self.g, self.b, self.a],
    {
        let out = [self.r, self.g, self.b, self.a];
        proof {
            assert(out@ =~= seq![self.r, self.g, self.b, self.a]);
        }
        out
    }

    /// The six uppercase hexadecimal digits of r, g, b, no prefix.
    pub fn hex(&self) -> (out: String)
        ensures
            out@ == to_hex_spec(seq![self.r, self.g, self.b]),
    {
        let arr = self.rgb();
        _to_hex(arr.as_slice())
    }

    /// The eight uppercase hexadecimal digits of r, g, b, a, no prefix.
    pub fn hexa(&self) -> (out: String)
        ensures
            out@ == to_hex_spec(seq![self.r, self.g, self.b, self.a]),
    {
        let arr = self.rgba();
        _to_hex(arr.as_slice())
    }

    /// Compares two samples lexicographically over channel order
    /// (r, then g, then b, then a).
    pub fn compare(&self, other: &Rgba) -> (o: core::cmp::Ordering)
        ensures
            o == compare_spec(*self, *other),
    {
        if self.r != other.r {
            if self.r < other.r { core::cmp::Ordering::Less } else { core::cmp::Ordering::Greater }
        } else if self.g != other.g {
            if self.g < other.g { core::cmp::Ordering::Less } else { core::cmp::Ordering::Greater }
        } else if self.b != other.b {
            if self.b < other.b { core::cmp::Ordering::Less } else { core::cmp::Ordering::Greater }
        } else if self.a != other.a {
            if self.a < other.a { core::cmp::Ordering::Less } else { core::cmp::Ordering::Greater }
        } else {
            core::cmp::Ordering::Equal
        }
    }
}

/// True of the sixteen hexadecimal digit characters, upper or lower case.
pub open spec fn is_hex_digit(c: char) -> bool {
    let u = c as u32;
    (48 <= u && u <= 57) || (97 <= u && u <= 102) || (65 <= u && u <= 70)
}

/// The numeric value of a hexadecimal digit character.
pub open spec fn hex_digit_value(c: char) -> int {
    let u = c as u32;
    if 48 <= u && u <= 57 {
        u as int - 48
    } else if 97 <= u && u <= 102 {
        u as int - 87
    } else if 65 <= u && u <= 70 {
        u as int - 55
    } else {
        0
    }
}

/// The uppercase hexadecimal digit character for a value below sixteen.
pub open spec fn hex_char(d: int) -> char {
    if d == 0 { '0' }
    else if d == 1 { '1' }
    else if d == 2 { '2' }
    else if d == 3 { '3' }
    else if d == 4 { '4' }
    else if d == 5 { '5' }
    else if d == 6 { '6' }
    else if d == 7 { '7' }
    else if d == 8 { '8' }
    else if d == 9 { '9' }
    else if d == 10 { 'A' }
    else if d == 11 { 'B' }
    else if d == 12 { 'C' }
    else if d == 13 { 'D' }
    else if d == 14 { 'E' }
    else { 'F' }
}

/// The two uppercase, zero-padded hexadecimal digits of one byte.
pub open spec fn byte_hex(b: u8) -> Seq<char> {
    seq![hex_char(b as int / 16), hex_char(b as int % 16)]
}

/// The hexadecimal encoding of a byte sequence: two uppercase digits per
/// byte, in order, with no prefix.
pub open spec fn to_hex_spec(bytes: Seq<u8>) -> Seq<char>
    decreases bytes.len(),
{
    if bytes.len() == 0 {
        Seq::empty()
    } else {
        to_hex_spec(bytes.drop_last()) + byte_hex(bytes.last())
    }
}

/// The one-character string for a nibble value, as an uppercase digit.
fn hex_digit_str(d: u8) -> (r: &'static str)
    requires
        d < 16,
    ensures
        r@ =~= seq![hex_char(d as int)],
{
    proof {
        reveal_strlit("0");
        reveal_strlit("1");
        reveal_strlit("2");
        reveal_strlit("3");
        reveal_strlit("4");
        reveal_strlit("5");
        reveal_strlit("6");
        reveal_strlit("7");
        reveal_strlit("8");
        reveal_strlit("9");
        reveal_strlit("A");
        reveal_strlit("B");
        reveal_strlit("C");
        reveal_strlit("D");
        reveal_strlit("E");
        reveal_strlit("F");
    }
    match d {
        0 => "0",
        1 => "1",
        2 => "2",
        3 => "3",
        4 => "4",
        5 => "5",
        6 => "6",
        7 => "7",
        8 => "8",
        9 => "9",
        10 => "A",
        11 => "B",
        12 => "C",
        13 => "D",
        14 => "E",
        _ => "F",
    }
}

/// Encodes a byte slice as hexadecimal text: two uppercase, zero-padded
/// digits per byte, no prefix.
pub fn _to_hex(hex: &[u8]) -> (r: String)
    ensures
        r@ == to_hex_spec(hex@),
{
    let mut out = String::new();
    let mut i: usize = 0;
    while i < hex.len()
        invariant
            i <= hex@.len(),
            out@ == to_hex_spec(hex@.take(i as int)),
        decreases hex@.len() - i,
    {
        let b = hex[i];
        out.append(hex_digit_str(b / 16));
        out.append(hex_digit_str(b % 16));
        proof {
            let t = hex@.take(i as int + 1);
            assert(t.drop_last() =~= hex@.take(i as int));
            assert(t.last() == hex@[i as int]);
            assert(out@ =~= to_hex_spec(hex@.take(i as int + 1)));
        }
        i += 1;
    }
    proof {
        assert(hex@.take(hex@.len() as int) =~= hex@);
    }
    out
}

/// True when every character of the text is a hexadecimal digit.
pub open spec fn all_hex_digits(s: Seq<char>) -> bool {
    forall|i: int| 0 <= i < s.len() ==> is_hex_digit(#[trigger] s[i])
}

/// The text with at most one leading `0x` or `#` marker removed.
pub open spec fn strip_color_prefix(s: Seq<char>) -> Seq<char> {
    if s.len() >= 2 && s[0] == '0' && s[1] == 'x' {
        s.skip(2)
    } else if s.len() >= 1 && s[0] == '#' {
        s.skip(1)
    } else {
        s
    }
}

/// The base-16 integer value of a digit sequence, truncated at every step
/// to the low 32 bits, exactly as the executable parser accumulates it.
/// Digits beyond the width silently fall off the high end.
pub open spec fn parse_hex(s: Seq<char>) -> int
    decreases s.len(),
{
    if s.len() == 0 {
        0
    } else {
        (parse_hex(s.drop_last()) * 16 + hex_digit_value(s.last())) % 0x1_0000_0000
    }
}

/// Decoding of RGBA hexadecimal text: after optional prefix stripping the
/// text must be non-empty, all hexadecimal; the low 32 bits of its value
/// give the channels most-significant byte first, in r, g, b, a order.
pub open spec fn decode_rgba_spec(s: Seq<char>) -> Option<Rgba> {
    let t = strip_color_prefix(s);
    if t.len() == 0 || !all_hex_digits(t) {
        None
    } else {
        let v = parse_hex(t);
        Some(Rgba {
            r: (v / 0x100_0000) as u8,
            g: ((v / 0x1_0000) % 0x100) as u8,
            b: ((v / 0x100) % 0x100) as u8,
            a: (v % 0x100) as u8,
        })
    }
}

/// Decoding of RGB hexadecimal text: like RGBA decoding, but only the low
/// 24 bits are read, as r, g, b bytes; the alpha channel defaults to 255,
/// fully opaque.
pub open spec fn decode_rgb_spec(s: Seq<char>) -> Option<Rgba> {
    let t = strip_color_prefix(s);
    if t.len() == 0 || !all_hex_digits(t) {
        None
    } else {
        let v = parse_hex(t) % 0x100_0000;
        Some(Rgba {
            r: (v / 0x1_0000) as u8,
            g: ((v / 0x100) % 0x100) as u8,
            b: (v % 0x100) as u8,
            a: 255,
        })
    }
}

/// The numeric value of one hexadecimal digit character, or `None` for
/// any other character.
fn hex_digit_val(c: char) -> (r: Option<u8>)
    ensures
        match r {
            Some(v) => is_hex_digit(c) && v == hex_digit_value(c),
            None => !is_hex_digit(c),
        },
{
    let u = c as u32;
    if 48 <= u && u <= 57 {
        Some((u - 48) as u8)
    } else if 97 <= u && u <= 102 {
        Some((u - 87) as u8)
    } else if 65 <= u && u <= 70 {
        Some((u - 55) as u8)
    } else {
        None
    }
}

/// Strips at most one `0x` or `#` prefix and parses the rest as base-16,
/// keeping the low 32 bits. `None` when the remaining text is empty or
/// holds a non-hexadecimal character.
fn parse_color_text(s: &str) -> (r: Option<u32>)
    ensures
        match r {
            Some(v) => {
                let t = strip_color_prefix(s@);
                t.len() > 0 && all_hex_digits(t) && v == parse_hex(t)
            },
            None => {
                let t = strip_color_prefix(s@);
                t.len() == 0 || !all_hex_digits(t)
            },
        },
{
    let n = s.unicode_len();
    let start: usize = if n >= 2 && s.get_char(0) == '0' && s.get_char(1) == 'x' {
        2
    } else if n >= 1 && s.get_char(0) == '#' {
        1
    } else {
        0
    };
    proof {
        assert(strip_color_prefix(s@) =~= s@.skip(start as int));
    }
    if n == start {
        return None;
    }
    let mut acc: u64 = 0;
    let mut i: usize = start;
    while i < n
        invariant
            start <= i <= n,
            n == s@.len(),
            start <= 2,
            strip_color_prefix(s@) == s@.skip(start as int),
            acc == parse_hex(s@.subrange(start as int, i as int)),
            all_hex_digits(s@.subrange(start as int, i as int)),
            acc < 0x1_0000_0000,
        decreases n - i,
    {
        let c = s.get_char(i);
        match hex_digit_val(c) {
            Some(d) => {
                acc = (acc * 16 + (d as u64)) % 0x1_0000_0000;
                proof {
                    let t = s@.subrange(start as int, i as int + 1);
                    assert(t.drop_last() =~= s@.subrange(start as int, i as int));
                    assert(t.last() == s@[i as int]);
                }
                i += 1;
            },
            None => {
                proof {
                    assert(s@.skip(start as int)[i - start] == s@[i as int]);
                    assert(!all_hex_digits(s@.skip(start as int)));
                }
                return None;
            },
        }
    }
    proof {
        assert(s@.subrange(start as int, n as int) =~= s@.skip(start as int));
    }
    Some(acc as u32)
}

/// Every hexadecimal digit character encodes the value it denotes.
proof fn lemma_hex_char_value(d: int)
    requires
        0 <= d < 16,
    ensures
        is_hex_digit(hex_char(d)),
        hex_digit_value(hex_char(d)) == d,
{
}

/// Appending the two-digit encoding of one byte to hexadecimal text
/// shifts the parsed value up by one byte and adds that byte, as long
/// as the value stays inside 32 bits.
proof fn lemma_parse_append_byte(s: Seq<char>, x: u8)
    requires
        all_hex_digits(s),
        parse_hex(s) < 0x100_0000,
    ensures
        all_hex_digits(s + byte_hex(x)),
        parse_hex(s + byte_hex(x)) == parse_hex(s) * 256 + x,
{
    let hi = hex_char(x as int / 16);
    let lo = hex_char(x as int % 16);
    let u = s + seq![hi];
    let t = s + byte_hex(x);
    lemma_hex_char_value(x as int / 16);
    lemma_hex_char_value(x as int % 16);
    assert(t =~= u + seq![lo]);
    assert(u.drop_last() =~= s);
    assert(u.last() == hi);
    assert(t.drop_last() =~= u);
    assert(t.last() == lo);
    let ps = parse_hex(s);
    assert(parse_hex(u) == (ps * 16 + x as int / 16) % 0x1_0000_0000);
    assert(ps * 16 + x as int / 16 < 0x1_0000_0000);
    assert(parse_hex(u) == ps * 16 + x as int / 16);
    assert(parse_hex(t) == (parse_hex(u) * 16 + x as int % 16) % 0x1_0000_0000);
    assert((ps * 16 + x as int / 16) * 16 == ps * 256 + (x as int / 16) * 16) by (nonlinear_arith);
    vstd::arithmetic::div_mod::lemma_fundamental_div_mod(x as int, 16);
    assert(parse_hex(u) * 16 + x as int % 16 == ps * 256 + x);
    assert(ps * 256 + x < 0x1_0000_0000);
    assert(forall|i: int| 0 <= i < t.len() ==> is_hex_digit(#[trigger] t[i]));
}

/// Hexadecimal digits are never a prefix marker: text made of them only
/// is parsed as it stands.
proof fn lemma_strip_all_hex(s: Seq<char>)
    requires
        all_hex_digits(s),
    ensures
        strip_color_prefix(s) == s,
{
    if s.len() >= 1 {
        assert(is_hex_digit(s[0]));
    }
    if s.len() >= 2 {
        assert(is_hex_digit(s[1]));
    }
}

/// Round trip, RGB: decoding the six-digit encoding of any channel
/// triple gives back exactly that triple, with full alpha.
pub proof fn lemma_decode_encode_rgb(r: u8, g: u8, b: u8)
    ensures
        decode_rgb_spec(to_hex_spec(seq![r, g, b])) == Some(Rgba { r, g, b, a: 255 }),
{
    let s3 = seq![r, g, b];
    let t = to_hex_spec(s3);
    assert(s3.drop_last() =~= seq![r, g]);
    assert(seq![r, g].drop_last() =~= seq![r]);
    assert(seq![r].drop_last() =~= Seq::<u8>::empty());
    assert(to_hex_spec(Seq::<u8>::empty()) == Seq::<char>::empty());
    let t1 = to_hex_spec(seq![r]);
    let t2 = to_hex_spec(seq![r, g]);
    assert(t1 =~= Seq::<char>::empty() + byte_hex(r));
    assert(t2 == t1 + byte_hex(g));
    assert(t == t2 + byte_hex(b));
    lemma_parse_append_byte(Seq::<char>::empty(), r);
    lemma_parse_append_byte(t1, g);
    lemma_parse_append_byte(t2, b);
    let v = parse_hex(t);
    assert(v == (r as int) * 0x1_0000 + (g as int) * 0x100 + (b as int));
    assert(v < 0x100_0000);
    lemma_strip_all_hex(t);
    assert(t.len() == 6);
    assert(v % 0x100_0000 == v);
    assert(v / 0x1_0000 == r as int && (v / 0x100) % 0x100 == g as int && v % 0x100 == b as int)
        by (nonlinear_arith)
        requires
            v == (r as int) * 0x1_0000 + (g as int) * 0x100 + (b as int),
            0 <= (r as int) && (r as int) < 0x100,
            0 <= (g as int) && (g as int) < 0x100,
            0 <= (b as int) && (b as int) < 0x100,
    ;
}

/// Round trip, RGBA: decoding the eight-digit encoding of any channel
/// quadruple gives back exactly that quadruple.
pub proof fn lemma_decode_encode_rgba(r: u8, g: u8, b: u8, a: u8)
    ensures
        decode_rgba_spec(to_hex_spec(seq![r, g, b, a])) == Some(Rgba { r, g, b, a }),
{
    let s4 = seq![r, g, b, a];
    let t = to_hex_spec(s4);
    assert(s4.drop_last() =~= seq![r, g, b]);
    assert(seq![r, g, b].drop_last() =~= seq![r, g]);
    assert(seq![r, g].drop_last() =~= seq![r]);
    assert(seq![r].drop_last() =~= Seq::<u8>::empty());
    assert(to_hex_spec(Seq::<u8>::empty()) == Seq::<char>::empty());
    let t1 = to_hex_spec(seq![r]);
    let t2 = to_hex_spec(seq![r, g]);
    let t3 = to_hex_spec(seq![r, g, b]);
    assert(t1 =~= Seq::<char>::empty() + byte_hex(r));
    assert(t2 == t1 + byte_hex(g));
    assert(t3 == t2 + byte_hex(b));
    assert(t == t3 + byte_hex(a));
    lemma_parse_append_byte(Seq::<char>::empty(), r);
    lemma_parse_append_byte(t1, g);
    lemma_parse_append_byte(t2, b);
    lemma_parse_append_byte(t3, a);
    let v = parse_hex(t);
    assert(v == (r as int) * 0x100_0000 + (g as int) * 0x1_0000 + (b as int) * 0x100 + (a as int));
    lemma_strip_all_hex(t);
    assert(t.len() == 8);
    assert(v / 0x100_0000 == r as int && (v / 0x1_0000) % 0x100 == g as int && (v / 0x100) % 0x100
        == b as int && v % 0x100 == a as int) by (nonlinear_arith)
        requires
            v == (r as int) * 0x100_0000 + (g as int) * 0x1_0000 + (b as int) * 0x100 + (a as int),
            0 <= (r as int) && (r as int) < 0x100,
            0 <= (g as int) && (g as int) < 0x100,
            0 <= (b as int) && (b as int) < 0x100,
            0 <= (a as int) && (a as int) < 0x100,
    ;
}

/// Prefix invariance: text of hexadecimal digits decodes to the same
/// channels with a `0x` marker, with a `#` marker, or bare.
pub proof fn lemma_prefix_invariance(s: Seq<char>)
    requires
        s.len() > 0,
        all_hex_digits(s),
    ensures
        decode_rgb_spec(seq!['0', 'x'] + s) == decode_rgb_spec(s),
        decode_rgb_spec(seq!['#'] + s) == decode_rgb_spec(s),
        decode_rgba_spec(seq!['0', 'x'] + s) == decode_rgba_spec(s),
        decode_rgba_spec(seq!['#'] + s) == decode_rgba_spec(s),
{
    let ox = seq!['0', 'x'] + s;
    let hs = seq!['#'] + s;
    assert(ox[0] == '0' && ox[1] == 'x');
    assert(ox.skip(2) =~= s);
    assert(hs[0] == '#');
    assert(hs.skip(1) =~= s);
    lemma_strip_all_hex(s);
}

/// The alpha default: whenever RGB decoding succeeds, the alpha channel
/// of the result is 255, fully opaque.
pub proof fn lemma_decode_rgb_alpha(s: Seq<char>)
    ensures
        decode_rgb_spec(s) matches Some(c) ==> c.a == 255,
{
}

/// Decodes RGB hexadecimal text into the four channel bytes, the alpha
/// byte defaulting to 255. Rejects empty or non-hexadecimal text with
/// `InvalidEncoding`; digits beyond the low 24 bits fall off silently.
pub fn _from_hex(hex: String) -> (r: Result<[u8; 4], Error>)
    ensures
        match decode_rgb_spec(hex@) {
            Some(c) => r matches Ok(arr) && arr@ == seq![c.r, c.g, c.b, c.a],
            None => r matches Err(e) && e == Error::InvalidEncoding,
        },
{
    match parse_color_text(hex.as_str()) {
        Some(v) => {
            let w = v % 0x100_0000;
            let out = [(w / 0x1_0000) as u8, ((w / 0x100) % 0x100) as u8, (w % 0x100) as u8, 255u8];
            proof {
                let c = decode_rgb_spec(hex@).unwrap();
                assert(out@ =~= seq![c.r, c.g, c.b, c.a]);
            }
            Ok(out)
        },
        None => Err(Error::InvalidEncoding),
    }
}

/// Decodes RGBA hexadecimal text into the four channel bytes, most
/// significant first. Rejects empty or non-hexadecimal text with
/// `InvalidEncoding`; digits beyond the low 32 bits fall off silently.
pub fn _from_hexa(hex: String) -> (r: Result<[u8; 4], Error>)
    ensures
        match decode_rgba_spec(hex@) {
            Some(c) => r matches Ok(arr) && arr@ == seq![c.r, c.g, c.b, c.a],
            None => r matches Err(e) && e == Error::InvalidEncoding,
        },
{
    match parse_color_text(hex.as_str()) {
        Some(v) => {
            let out = [
                (v / 0x100_0000) as u8,
                ((v / 0x1_0000) % 0x100) as u8,
                ((v / 0x100) % 0x100) as u8,
                (v % 0x100) as u8,
            ];
            proof {
                let c = decode_rgba_spec(hex@).unwrap();
                assert(out@ =~= seq![c.r, c.g, c.b, c.a]);
            }
            Ok(out)
        },
        None => Err(Error::InvalidEncoding),
    }
}

/// Decodes RGB hexadecimal text into a sample with full alpha.
pub fn from_hex(hex: String) -> (r: Result<Rgba, Error>)
    ensures
        match decode_rgb_spec(hex@) {
            Some(c) => r == Ok::<Rgba, Error>(c),
            None => r == Err::<Rgba, Error>(Error::InvalidEncoding),
        },
{
    match _from_hex(hex) {
        Ok(arr) => Ok(Rgba { r: arr[0], g: arr[1], b: arr[2], a: arr[3] }),
        Err(e) => Err(e),
    }
}

/// Decodes RGBA hexadecimal text into a sample.
pub fn from_hexa(hex: String) -> (r: Result<Rgba, Error>)
    ensures
        match decode_rgba_spec(hex@) {
            Some(c) => r == Ok::<Rgba, Error>(c),
            None => r == Err::<Rgba, Error>(Error::InvalidEncoding),
        },
{
    match _from_hexa(hex) {
        Ok(arr) => Ok(Rgba { r: arr[0], g: arr[1], b: arr[2], a: arr[3] }),
        Err(e) => Err(e),
    }
}

} // verus!
