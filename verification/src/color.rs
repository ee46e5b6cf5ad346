//! Colours given as hexadecimal strings, such as the palette of the editor.
use vstd::prelude::*;

verus! {

/// An RGBA colour with one byte per channel.
#[derive(Clone, Copy, Debug, PartialEq, Eq, Structural)]
pub struct Rgba {
    pub r: u8,
    pub g: u8,
    pub b: u8,
    pub a: u8,
}

/// Background of the editor window.
pub const BACKGROUND_COLOR: &'static str = "0D0C1D";

/// Colour of a drawn curve and of filled raster cells.
pub const BEZIER_COLOR: &'static str = "F1DAC4";

/// Colour of the control polygon.
pub const LINE_COLOR: &'static str = "161B33";

/// Colour of the control point markers.
pub const MARKER_COLOR: &'static str = "474973";

/// Opaque white, the colour used when a hex string cannot be read.
pub open spec fn spec_white() -> Rgba {
    Rgba { r: 255, g: 255, b: 255, a: 255 }
}

impl Rgba {
    /// Opaque white.
    pub fn white() -> (c: Rgba)
        ensures
            c == spec_white(),
    {
        Rgba { r: 255, g: 255, b: 255, a: 255 }
    }
}

/// The value of one hexadecimal digit (`0-9`, `a-f`, `A-F`).
pub open spec fn hex_digit_value(c: char) -> Option<int> {
    let n = c as int;
    if 48 <= n <= 57 {
        Some(n - 48)
    } else if 97 <= n <= 102 {
        Some(n - 87)
    } else if 65 <= n <= 70 {
        Some(n - 55)
    } else {
        None
    }
}

/// The value of a string of hexadecimal digits, most significant first;
/// `None` when some character is not a hexadecimal digit.
pub open spec fn hex_digits_value(s: Seq<char>) -> Option<int>
    decreases s.len(),
{
    if s.len() == 0 {
        Some(0)
    } else {
        match hex_digits_value(s.drop_last()) {
            Some(v) => match hex_digit_value(s.last()) {
                Some(d) => Some(16 * v + d),
                None => None,
            },
            None => None,
        }
    }
}

/// Whether the string starts with a sign character.
pub open spec fn has_sign(s: Seq<char>) -> bool {
    s.len() > 0 && (s[0] == '-' || s[0] == '+')
}

/// The reading of `s` as a signed 32-bit integer in base 16: an optional `+`
/// or `-` followed by at least one hexadecimal digit, with a value that fits.
pub open spec fn parse_hex_i32(s: Seq<char>) -> Option<int> {
    let digits = if has_sign(s) {
        s.drop_first()
    } else {
        s
    };
    if digits.len() == 0 {
        None
    } else {
        match hex_digits_value(digits) {
            None => None,
            Some(v) => {
                let x = if has_sign(s) && s[0] == '-' {
                    -v
                } else {
                    v
                };
                if i32::MIN <= x <= i32::MAX {
                    Some(x)
                } else {
                    None
                }
            },
        }
    }
}

/// Integer division rounding towards zero, as `/` does on Rust integers.
pub open spec fn trunc_div(a: int, b: int) -> int {
    if a >= 0 {
        a / b
    } else {
        -((-a) / b)
    }
}

/// The remainder that goes with `trunc_div`, as `%` does on Rust integers.
pub open spec fn trunc_rem(a: int, b: int) -> int {
    a - b * trunc_div(a, b)
}

/// The colour that a parsed value stands for: blue is the value modulo 256,
/// green the next byte, red the value less green over 65536, each channel
/// keeping its low eight bits; alpha is always 255.
pub open spec fn channels_of(c: int) -> Rgba {
    let b = trunc_rem(c, 256);
    let g = trunc_rem(trunc_div(c - b, 256), 256);
    let r = trunc_div(c - g, 65536);
    Rgba {
        r: #[verifier::truncate] (r as u8),
        g: #[verifier::truncate] (g as u8),
        b: #[verifier::truncate] (b as u8),
        a: 255,
    }
}

/// The colour that a hex string reads as, if it reads as one.
pub open spec fn spec_color_from_hex(s: Seq<char>) -> Option<Rgba> {
    match parse_hex_i32(s) {
        Some(c) => Some(channels_of(c)),
        None => None,
    }
}

/// Reads `s` with `i32::from_str_radix(s, 16)`. Its documentation allows an
/// optional `+` or `-` sign followed by digits of the radix and nothing else,
/// and fails on an empty string, on any other character and on a value out of
/// the range of `i32`; the contract states exactly that reading.
#[verifier::external_body]
fn hex_to_i32(s: &str) -> (res: Option<i32>)
    ensures
        match res {
            Some(v) => parse_hex_i32(s@) == Some(v as int),
            None => parse_hex_i32(s@) is None,
        },
{
    i32::from_str_radix(s, 16).ok()
}

/// Reads a colour written as hexadecimal digits `RRGGBB`, such as `"0D0C1D"`.
/// Any text that `i32::from_str_radix` reads in base 16 is accepted and split
/// into channels as `channels_of` says; anything else gives `None`.
pub fn color_from_hex(color_hex_str: &str) -> (res: Option<Rgba>)
    ensures
        res == spec_color_from_hex(color_hex_str@),
{
    match hex_to_i32(color_hex_str) {
        Some(color) => {
            let b: i32 = color % 256;
            assert(-256 < b < 256);
            assert(color >= 0 ==> b >= 0 && b <= color);
            assert(color < 0 ==> b <= 0 && b >= color);
            let gq: i32 = (color - b) / 256;
            assert(gq == trunc_div(color - b, 256));
            let g: i32 = gq % 256;
            assert(g == trunc_rem(gq as int, 256));
            assert(color >= 0 ==> gq >= 0 && g >= 0);
            assert(color < 0 ==> gq <= 0 && g <= 0);
            let r: i32 = (color - g) / 65536;
            assert(r == trunc_div(color - g, 65536));
            Some(
                Rgba {
                    r: #[verifier::truncate] (r as u8),
                    g: #[verifier::truncate] (g as u8),
                    b: #[verifier::truncate] (b as u8),
                    a: 255,
                },
            )
        },
        None => None,
    }
}

/// The colour that `color` reads as, or opaque white when it cannot be read;
/// the flag is `true` exactly when white was given for that reason.
pub fn hexcolor(color: &str) -> (res: (Rgba, bool))
    ensures
        match spec_color_from_hex(color@) {
            Some(c) => res == (c, false),
            None => res == (spec_white(), true),
        },
{
    match color_from_hex(color) {
        Some(res) => (res, false),
        None => (Rgba::white(), true),
    }
}

/// The value of six hexadecimal digits, two per channel.
pub open spec fn six_digit_color(s: Seq<char>) -> Rgba {
    let d = |i: int| hex_digit_value(s[i]).unwrap();
    Rgba {
        r: (16 * d(0) + d(1)) as u8,
        g: (16 * d(2) + d(3)) as u8,
        b: (16 * d(4) + d(5)) as u8,
        a: 255,
    }
}

/// A string of six hexadecimal digits `RRGGBB` reads as the opaque colour
/// whose red, green and blue bytes are `RR`, `GG` and `BB`.
pub proof fn lemma_six_digit_hex(s: Seq<char>)
    requires
        s.len() == 6,
        forall|i: int| 0 <= i < 6 ==> #[trigger] hex_digit_value(s[i]) is Some,
    ensures
        spec_color_from_hex(s) == Some(six_digit_color(s)),
{
    let d = |i: int| hex_digit_value(s[i]).unwrap();
    assert(hex_digit_value(s[0]) is Some);
    assert(hex_digit_value(s[1]) is Some);
    assert(hex_digit_value(s[2]) is Some);
    assert(hex_digit_value(s[3]) is Some);
    assert(hex_digit_value(s[4]) is Some);
    assert(hex_digit_value(s[5]) is Some);
    assert(!has_sign(s));
    assert forall|i: int| 0 <= i < 6 implies 0 <= #[trigger] d(i) < 16 by {
        assert(hex_digit_value(s[i]) is Some);
    }
    let r = 16 * d(0) + d(1);
    let g = 16 * d(2) + d(3);
    let b = 16 * d(4) + d(5);
    assert(s.drop_last().drop_last().drop_last().drop_last().drop_last().drop_last().len() == 0);
    reveal_with_fuel(hex_digits_value, 7);
    assert(s.drop_last().last() == s[4]);
    assert(s.drop_last().drop_last().last() == s[3]);
    assert(s.drop_last().drop_last().drop_last().last() == s[2]);
    assert(s.drop_last().drop_last().drop_last().drop_last().last() == s[1]);
    assert(s.drop_last().drop_last().drop_last().drop_last().drop_last().last() == s[0]);
    let c = 65536 * r + 256 * g + b;
    assert(hex_digits_value(s) == Some(c)) by (nonlinear_arith)
        requires
            hex_digits_value(s) == Some(
                16 * (16 * (16 * (16 * (16 * (16 * 0 + d(0)) + d(1)) + d(2)) + d(3)) + d(4))
                    + d(5),
            ),
            r == 16 * d(0) + d(1),
            g == 16 * d(2) + d(3),
            b == 16 * d(4) + d(5),
            c == 65536 * r + 256 * g + b,
    ;
    assert(0 <= r < 256 && 0 <= g < 256 && 0 <= b < 256);
    assert(0 <= c < 16777216);
    assert(parse_hex_i32(s) == Some(c));
    assert(trunc_rem(c, 256) == b) by (nonlinear_arith)
        requires
            c == 65536 * r + 256 * g + b,
            0 <= r < 256,
            0 <= g < 256,
            0 <= b < 256,
            trunc_rem(c, 256) == c - 256 * (c / 256),
    {
        assert(c == 256 * (256 * r + g) + b);
        vstd::arithmetic::div_mod::lemma_fundamental_div_mod_converse(
            c,
            256,
            256 * r + g,
            b,
        );
    }
    assert(trunc_div(c - b, 256) == 256 * r + g) by (nonlinear_arith)
        requires
            c - b == 256 * (256 * r + g),
            0 <= r < 256,
            0 <= g < 256,
    {
        vstd::arithmetic::div_mod::lemma_div_multiples_vanish(256 * r + g, 256);
    }
    assert(trunc_rem(256 * r + g, 256) == g) by {
        vstd::arithmetic::div_mod::lemma_fundamental_div_mod_converse(256 * r + g, 256, r, g);
    }
    assert(trunc_div(c - g, 65536) == r) by {
        vstd::arithmetic::div_mod::lemma_fundamental_div_mod_converse(
            c - g,
            65536,
            r,
            255 * g + b,
        );
    }
}

/// A value that fits in 24 bits splits into its three bytes: red is the
/// value over 65536, green the middle byte and blue the value modulo 256.
pub proof fn lemma_channels_are_bytes(c: int)
    requires
        0 <= c < 16777216,
    ensures
        channels_of(c).r == c / 65536,
        channels_of(c).g == (c / 256) % 256,
        channels_of(c).b == c % 256,
        channels_of(c).a == 255,
        c == 65536 * channels_of(c).r + 256 * channels_of(c).g + channels_of(c).b,
{
    let r = c / 65536;
    let g = (c / 256) % 256;
    let b = c % 256;
    assert(c == 65536 * r + 256 * g + b && 0 <= r < 256 && 0 <= g < 256 && 0 <= b < 256)
        by (nonlinear_arith)
        requires
            0 <= c < 16777216,
            r == c / 65536,
            g == (c / 256) % 256,
            b == c % 256,
    {
        vstd::arithmetic::div_mod::lemma_fundamental_div_mod(c, 256);
        vstd::arithmetic::div_mod::lemma_fundamental_div_mod(c / 256, 256);
        vstd::arithmetic::div_mod::lemma_div_denominator(c, 256, 256);
    }
    assert(trunc_rem(c, 256) == b);
    assert(trunc_div(c - b, 256) == 256 * r + g) by {
        vstd::arithmetic::div_mod::lemma_div_multiples_vanish(256 * r + g, 256);
    }
    assert(trunc_rem(256 * r + g, 256) == g) by {
        vstd::arithmetic::div_mod::lemma_fundamental_div_mod_converse(256 * r + g, 256, r, g);
    }
    assert(trunc_div(c - g, 65536) == r) by {
        vstd::arithmetic::div_mod::lemma_fundamental_div_mod_converse(c - g, 65536, r, 255 * g + b);
    }
}

/// A leading `+` changes nothing, and a leading `-` negates the value of the
/// digits that follow (when the result fits in an `i32`).
pub proof fn lemma_sign_prefix(digits: Seq<char>, v: int)
    requires
        digits.len() > 0,
        hex_digits_value(digits) == Some(v),
    ensures
        parse_hex_i32(seq!['+'] + digits) == (if v <= i32::MAX {
            Some(v)
        } else {
            None::<int>
        }),
        parse_hex_i32(seq!['-'] + digits) == (if -v >= i32::MIN {
            Some(-v)
        } else {
            None::<int>
        }),
{
    lemma_digits_value_nonneg(digits);
    assert(has_sign(seq!['+'] + digits));
    assert(has_sign(seq!['-'] + digits));
    assert((seq!['+'] + digits).drop_first() =~= digits);
    assert((seq!['-'] + digits).drop_first() =~= digits);
    assert((seq!['+'] + digits)[0] == '+');
    assert((seq!['-'] + digits)[0] == '-');
}

/// A string with a character that is not a hexadecimal digit, other than a
/// sign in front, does not read as a colour.
pub proof fn lemma_foreign_character_refused(s: Seq<char>, k: int)
    requires
        0 <= k < s.len(),
        hex_digit_value(s[k]) is None,
        k > 0 || !(s[0] == '-' || s[0] == '+'),
    ensures
        spec_color_from_hex(s) is None,
{
    let digits = if has_sign(s) {
        s.drop_first()
    } else {
        s
    };
    let kk = if has_sign(s) {
        k - 1
    } else {
        k
    };
    assert(digits[kk] == s[k]);
    lemma_digits_refuse(digits, kk);
}

/// The value of a digit string is never negative.
proof fn lemma_digits_value_nonneg(s: Seq<char>)
    ensures
        hex_digits_value(s) matches Some(v) ==> v >= 0,
    decreases s.len(),
{
    if s.len() > 0 {
        lemma_digits_value_nonneg(s.drop_last());
    }
}

/// A digit string holding a non-digit has no value.
proof fn lemma_digits_refuse(s: Seq<char>, k: int)
    requires
        0 <= k < s.len(),
        hex_digit_value(s[k]) is None,
    ensures
        hex_digits_value(s) is None,
    decreases s.len(),
{
    if k < s.len() - 1 {
        assert(s.drop_last()[k] == s[k]);
        lemma_digits_refuse(s.drop_last(), k);
    }
}

/// The hexadecimal digits are `0`-`9` with values 0 to 9 and `a`-`f` or
/// `A`-`F` with values 10 to 15; no other character is a digit.
pub proof fn lemma_hex_digits(c: char)
    ensures
        hex_digit_value(c) is Some <==> ('0' <= c <= '9' || 'a' <= c <= 'f' || 'A' <= c <= 'F'),
        '0' <= c <= '9' ==> hex_digit_value(c) == Some((c as int) - ('0' as int)),
        'a' <= c <= 'f' ==> hex_digit_value(c) == Some((c as int) - ('a' as int) + 10),
        'A' <= c <= 'F' ==> hex_digit_value(c) == Some((c as int) - ('A' as int) + 10),
{
}

/// For every value that reads, blue keeps the value's low byte, and green the
/// low byte of the value divided by 256 (rounding towards zero).
pub proof fn lemma_low_channels(c: int)
    requires
        i32::MIN <= c <= i32::MAX,
    ensures
        channels_of(c).b as int == c % 256,
        channels_of(c).g as int == trunc_div(c, 256) % 256,
{
    let bt = trunc_rem(c, 256);
    let q = trunc_div(c, 256);
    assert(bt == c - 256 * q);
    assert(trunc_div(c - bt, 256) == q) by {
        vstd::arithmetic::div_mod::lemma_div_multiples_vanish(q, 256);
        if q < 0 {
            vstd::arithmetic::div_mod::lemma_div_multiples_vanish(-q, 256);
        }
    }
    let gt = trunc_rem(q, 256);
    let q2 = trunc_div(q, 256);
    assert(gt == q - 256 * q2);
    assert(bt % 256 == c % 256) by {
        vstd::arithmetic::div_mod::lemma_mod_multiples_vanish(-q, c, 256);
    }
    assert(gt % 256 == q % 256) by {
        vstd::arithmetic::div_mod::lemma_mod_multiples_vanish(-q2, q, 256);
    }
    assert(-256 < bt < 256) by {
        if c >= 0 {
            vstd::arithmetic::div_mod::lemma_fundamental_div_mod(c, 256);
        } else {
            vstd::arithmetic::div_mod::lemma_fundamental_div_mod(-c, 256);
        }
    }
    assert(-256 < gt < 256) by {
        if q >= 0 {
            vstd::arithmetic::div_mod::lemma_fundamental_div_mod(q, 256);
        } else {
            vstd::arithmetic::div_mod::lemma_fundamental_div_mod(-q, 256);
        }
    }
    lemma_byte_of_small(bt);
    lemma_byte_of_small(gt);
}

/// Keeping the low eight bits of a number between -256 and 256 gives the
/// number modulo 256.
proof fn lemma_byte_of_small(v: int)
    requires
        -256 < v < 256,
    ensures
        (v as u8) as int == v % 256,
{
    let x: i16 = v as i16;
    assert(x == v);
    if v < 0 {
        assert(-256 < x < 0 ==> (x as u8) as i16 == x + 256) by (bit_vector);
        assert((v + 256) % 256 == v % 256) by {
            vstd::arithmetic::div_mod::lemma_mod_add_multiples_vanish(v, 256);
        }
        vstd::arithmetic::div_mod::lemma_small_mod((v + 256) as nat, 256);
    } else {
        vstd::arithmetic::div_mod::lemma_small_mod(v as nat, 256);
    }
}

} // verus!
