use vstd::prelude::*;
use vstd::std_specs::ops::AddSpecImpl;
use vstd::string::StringExecFns;

verus! {

/// An RGB color with one byte per channel.
#[derive(Debug, Clone, Copy, PartialEq, Eq, Structural)]
pub struct Color {
    pub red: u8,
    pub green: u8,
    pub blue: u8,
}

/// `v` clamped into the byte range `0..=255`.
pub open spec fn clamp_channel(v: int) -> u8 {
    if v < 0 {
        0u8
    } else if v > 255 {
        255u8
    } else {
        v as u8
    }
}

/// Sum of two channels, saturating at `255`.
pub open spec fn saturating_channel_sum(a: u8, b: u8) -> u8 {
    if a + b > 255 {
        255u8
    } else {
        (a + b) as u8
    }
}

/// Channel-wise saturating sum of two colors.
pub open spec fn color_sum(a: Color, b: Color) -> Color {
    Color {
        red: saturating_channel_sum(a.red, b.red),
        green: saturating_channel_sum(a.green, b.green),
        blue: saturating_channel_sum(a.blue, b.blue),
    }
}

/// The color whose channels are the bytes of `hex` at bit offsets 16, 8 and 0.
pub open spec fn color_of_hex(hex: u32) -> Color {
    Color {
        red: ((hex as int / 0x10000) % 0x100) as u8,
        green: ((hex as int / 0x100) % 0x100) as u8,
        blue: (hex as int % 0x100) as u8,
    }
}

/// The 24-bit value `0xRRGGBB` of a color.
pub open spec fn hex_of_color(c: Color) -> int {
    c.red * 0x10000 + c.green * 0x100 + c.blue
}

/// The ASCII character of the decimal digit `d`.
pub open spec fn digit_char(d: int) -> char {
    (d + 48) as char
}

/// Decimal notation of `n`, without leading zeros.
pub open spec fn decimal(n: nat) -> Seq<char>
    decreases n,
{
    if n < 10 {
        seq![digit_char(n as int)]
    } else {
        decimal(n / 10) + seq![digit_char((n % 10) as int)]
    }
}

/// Text of a color: `Color: R=<red>, G=<green>, B=<blue>`, channels in decimal.
pub open spec fn color_text(c: Color) -> Seq<char> {
    "Color: R="@ + decimal(c.red as nat) + ", G="@ + decimal(c.green as nat) + ", B="@
        + decimal(c.blue as nat)
}

fn clamp_to_byte(v: i32) -> (b: u8)
    ensures
        b == clamp_channel(v as int),
{
    if v < 0 {
        0
    } else if v > 255 {
        255
    } else {
        v as u8
    }
}

/// The one-character text of the decimal digit `d`.
fn digit_str(d: u8) -> (s: &'static str)
    requires
        d < 10,
    ensures
        s@ == seq![digit_char(d as int)],
{
    proof {
        reveal_strlit("0");
        reveal_strlit("1");
        reveal_strlit("2");
        reveal_strlit("3");
        reveal_strlit("4");
        reveal_strlit("5");
        reveal_strlit("6");
        reveal_strlit("7");
        reveal_strlit("8");
        reveal_strlit("9");
    }
    let s = match d {
        0 => "0",
        1 => "1",
        2 => "2",
        3 => "3",
        4 => "4",
        5 => "5",
        6 => "6",
        7 => "7",
        8 => "8",
        _ => "9",
    };
    assert(s@ =~= seq![digit_char(d as int)]);
    s
}

/// Appends the decimal notation of `v` to `s`.
fn push_decimal(s: &mut String, v: u8)
    ensures
        final(s)@ == old(s)@ + decimal(v as nat),
{
    let ghost s0 = s@;
    if v >= 100 {
        s.append(digit_str(v / 100));
        s.append(digit_str((v / 10) % 10));
        s.append(digit_str(v % 10));
        proof {
            reveal_with_fuel(decimal, 3);
            assert(s@ =~= s0 + decimal(v as nat));
        }
    } else if v >= 10 {
        s.append(digit_str(v / 10));
        s.append(digit_str(v % 10));
        proof {
            reveal_with_fuel(decimal, 2);
            assert(s@ =~= s0 + decimal(v as nat));
        }
    } else {
        s.append(digit_str(v));
        proof {
            assert(s@ =~= s0 + decimal(v as nat));
        }
    }
}

impl Color {
    /// Builds a color from three integers, clamping each into `0..=255`.
    pub fn new(red: i32, green: i32, blue: i32) -> (c: Color)
        ensures
            c.red == clamp_channel(red as int),
            c.green == clamp_channel(green as int),
            c.blue == clamp_channel(blue as int),
            red < 0 ==> c.red == 0,
            red > 255 ==> c.red == 255,
            0 <= red <= 255 ==> c.red == red,
            green < 0 ==> c.green == 0,
            green > 255 ==> c.green == 255,
            0 <= green <= 255 ==> c.green == green,
            blue < 0 ==> c.blue == 0,
            blue > 255 ==> c.blue == 255,
            0 <= blue <= 255 ==> c.blue == blue,
    {
        Color { red: clamp_to_byte(red), green: clamp_to_byte(green), blue: clamp_to_byte(blue) }
    }

    /// The color black: all channels zero.
    pub fn black() -> (c: Color)
        ensures
            c == (Color { red: 0, green: 0, blue: 0 }),
    {
        Color { red: 0, green: 0, blue: 0 }
    }

    /// Builds a color from a `0xRRGGBB` value; bits above the lowest 24 are ignored.
    pub fn from_hex(hex: u32) -> (c: Color)
        ensures
            c == color_of_hex(hex),
    {
        let red = ((hex >> 16) & 0xFF) as u8;
        let green = ((hex >> 8) & 0xFF) as u8;
        let blue = (hex & 0xFF) as u8;
        proof {
            assert(((hex >> 16) & 0xFF) == (hex / 0x10000) % 0x100) by (bit_vector);
            assert(((hex >> 8) & 0xFF) == (hex / 0x100) % 0x100) by (bit_vector);
            assert((hex & 0xFF) == hex % 0x100) by (bit_vector);
        }
        Color { red, green, blue }
    }

    /// The color as a `0xRRGGBB` value.
    pub fn to_hex(&self) -> (h: u32)
        ensures
            h == hex_of_color(*self),
    {
        let r = self.red;
        let g = self.green;
        let b = self.blue;
        proof {
            assert(((r as u32) << 16) | ((g as u32) << 8) | (b as u32) == (r as u32) * 0x10000
                + (g as u32) * 0x100 + (b as u32)) by (bit_vector);
        }
        ((r as u32) << 16) | ((g as u32) << 8) | (b as u32)
    }

    /// The color as text: `Color: R=<red>, G=<green>, B=<blue>`.
    pub fn to_string(&self) -> (s: String)
        ensures
            s@ == color_text(*self),
    {
        let mut s = String::new();
        s.append("Color: R=");
        push_decimal(&mut s, self.red);
        s.append(", G=");
        push_decimal(&mut s, self.green);
        s.append(", B=");
        push_decimal(&mut s, self.blue);
        s
    }
}

impl std::ops::Add for Color {
    type Output = Color;

    /// Channel-wise sum, saturating each channel at `255`.
    fn add(self, other: Color) -> (c: Color)
        ensures
            c == color_sum(self, other),
            c.red == (if self.red + other.red <= 255 { self.red + other.red } else { 255 }),
            c.green == (if self.green + other.green <= 255 { self.green + other.green } else { 255 }),
            c.blue == (if self.blue + other.blue <= 255 { self.blue + other.blue } else { 255 }),
    {
        Color {
            red: self.red.saturating_add(other.red),
            green: self.green.saturating_add(other.green),
            blue: self.blue.saturating_add(other.blue),
        }
    }
}

impl AddSpecImpl for Color {
    open spec fn obeys_add_spec() -> bool {
        true
    }

    open spec fn add_req(self, rhs: Color) -> bool {
        true
    }

    open spec fn add_spec(self, rhs: Color) -> Color {
        color_sum(self, rhs)
    }
}

/// Reading a color back from its `0xRRGGBB` value gives the color again, and that
/// value fits in 24 bits.
pub proof fn lemma_hex_round_trip(c: Color)
    ensures
        0 <= hex_of_color(c) < 0x1000000,
        color_of_hex(hex_of_color(c) as u32) == c,
{
    let h = hex_of_color(c);
    assert(h / 0x10000 == c.red as int && h / 0x100 == c.red * 0x100 + c.green) by (nonlinear_arith)
        requires
            h == c.red * 0x10000 + c.green * 0x100 + c.blue,
            0 <= c.red < 256,
            0 <= c.green < 256,
            0 <= c.blue < 256,
    ;
}

/// The `0xRRGGBB` value of the color read from `hex` is `hex` without its bits
/// above the lowest 24.
pub proof fn lemma_hex_of_color_of_hex(hex: u32)
    ensures
        hex_of_color(color_of_hex(hex)) == hex as int % 0x1000000,
{
    let h = hex as int;
    assert(((h / 0x10000) % 0x100) * 0x10000 + ((h / 0x100) % 0x100) * 0x100 + h % 0x100
        == h % 0x1000000) by (nonlinear_arith)
        requires
            0 <= h,
    {
        assert(h == (h / 0x100) * 0x100 + h % 0x100);
        let h1 = h / 0x100;
        assert(h1 == (h1 / 0x100) * 0x100 + h1 % 0x100);
        assert(h1 / 0x100 == h / 0x10000);
        let h2 = h / 0x10000;
        assert(h2 == (h2 / 0x100) * 0x100 + h2 % 0x100);
        assert(h2 / 0x100 == h / 0x1000000);
        assert(h == (h / 0x1000000) * 0x1000000 + h % 0x1000000);
    }
}

/// Building a color from channels that are already bytes keeps them unchanged.
pub proof fn lemma_new_keeps_bytes(c: Color)
    ensures
        clamp_channel(c.red as int) == c.red,
        clamp_channel(c.green as int) == c.green,
        clamp_channel(c.blue as int) == c.blue,
{
}

/// Adding colors does not depend on the order of the operands.
pub proof fn lemma_sum_commutative(a: Color, b: Color)
    ensures
        color_sum(a, b) == color_sum(b, a),
{
}

/// Adding colors is associative: saturating each channel once or twice gives the
/// same channel.
pub proof fn lemma_sum_associative(a: Color, b: Color, c: Color)
    ensures
        color_sum(color_sum(a, b), c) == color_sum(a, color_sum(b, c)),
{
}

/// Black is the neutral color of the sum.
pub proof fn lemma_sum_black_neutral(a: Color)
    ensures
        color_sum(a, Color { red: 0, green: 0, blue: 0 }) == a,
        color_sum(Color { red: 0, green: 0, blue: 0 }, a) == a,
{
}

/// No channel of a sum is smaller than the same channel of either operand.
pub proof fn lemma_sum_brightens(a: Color, b: Color)
    ensures
        color_sum(a, b).red >= a.red && color_sum(a, b).red >= b.red,
        color_sum(a, b).green >= a.green && color_sum(a, b).green >= b.green,
        color_sum(a, b).blue >= a.blue && color_sum(a, b).blue >= b.blue,
{
}

/// Clamping sends every negative value to `0`, every value above `255` to `255`, and
/// keeps the values in between.
pub proof fn lemma_clamp_channel_range(v: int)
    ensures
        v < 0 ==> clamp_channel(v) == 0,
        v > 255 ==> clamp_channel(v) == 255,
        0 <= v <= 255 ==> clamp_channel(v) as int == v,
{
}

/// Clamping is monotone: a larger input never gives a smaller channel.
pub proof fn lemma_clamp_channel_monotone(v: int, w: int)
    requires
        v <= w,
    ensures
        clamp_channel(v) <= clamp_channel(w),
{
}

/// Each channel of a sum is the sum of that channel of the operands, capped at `255`,
/// whatever the other channels hold.
pub proof fn lemma_sum_channel_values(a: Color, b: Color)
    ensures
        color_sum(a, b).red as int == (if a.red + b.red <= 255 { a.red + b.red } else { 255 }),
        color_sum(a, b).green as int == (if a.green + b.green <= 255 {
            a.green + b.green
        } else {
            255
        }),
        color_sum(a, b).blue as int == (if a.blue + b.blue <= 255 { a.blue + b.blue } else { 255 }),
{
}

/// A channel of a sum depends on that channel of the operands only.
pub proof fn lemma_sum_channels_independent(a: Color, b: Color, c: Color, d: Color)
    ensures
        a.red == c.red && b.red == d.red ==> color_sum(a, b).red == color_sum(c, d).red,
        a.green == c.green && b.green == d.green ==> color_sum(a, b).green == color_sum(
            c,
            d,
        ).green,
        a.blue == c.blue && b.blue == d.blue ==> color_sum(a, b).blue == color_sum(c, d).blue,
{
}

/// A character that is an ASCII decimal digit.
pub open spec fn is_ascii_digit(c: char) -> bool {
    48 <= c as int <= 57
}

/// The number that a text of decimal digits denotes, most significant digit first.
pub open spec fn digits_value(s: Seq<char>) -> int
    decreases s.len(),
{
    if s.len() == 0 {
        0
    } else {
        digits_value(s.drop_last()) * 10 + (s.last() as int - 48)
    }
}

/// The character of a decimal digit is its ASCII digit.
pub proof fn lemma_digit_char_ascii(d: int)
    requires
        0 <= d < 10,
    ensures
        digit_char(d) as int == 48 + d,
        is_ascii_digit(digit_char(d)),
{
}

/// The decimal text of `n` is made of ASCII digits, reads back as `n`, and has no
/// leading zero: `0` is written `0`, and any other number starts with a nonzero digit.
pub proof fn lemma_decimal_reads_back(n: nat)
    ensures
        decimal(n).len() >= 1,
        forall|i: int| 0 <= i < decimal(n).len() ==> is_ascii_digit(#[trigger] decimal(n)[i]),
        digits_value(decimal(n)) == n,
        n == 0 ==> decimal(n).len() == 1,
        n > 0 ==> decimal(n)[0] as int != 48,
    decreases n,
{
    if n < 10 {
        lemma_digit_char_ascii(n as int);
        let s = decimal(n);
        assert(s.drop_last() =~= Seq::<char>::empty());
        assert(digits_value(s.drop_last()) == 0);
        assert(digits_value(s) == n);
    } else {
        let m = n / 10;
        let d = (n % 10) as int;
        lemma_decimal_reads_back(m);
        lemma_digit_char_ascii(d);
        let s = decimal(n);
        assert(s == decimal(m) + seq![digit_char(d)]);
        assert(s.drop_last() =~= decimal(m));
        assert(s.last() == digit_char(d));
        assert forall|i: int| 0 <= i < s.len() implies is_ascii_digit(#[trigger] s[i]) by {
            if i < decimal(m).len() {
                assert(s[i] == decimal(m)[i]);
            }
        }
        assert(s[0] == decimal(m)[0]);
        assert(n == m * 10 + d);
        assert(digits_value(s) == digits_value(decimal(m)) * 10 + d);
    }
}

/// The `0xRRGGBB` value holds red in its third byte, green in its second and blue in
/// its lowest, and a value built from three bytes reads back as those bytes.
pub proof fn lemma_hex_byte_layout(c: Color, r: u8, g: u8, b: u8)
    ensures
        hex_of_color(c) / 0x10000 == c.red as int,
        (hex_of_color(c) / 0x100) % 0x100 == c.green as int,
        hex_of_color(c) % 0x100 == c.blue as int,
        color_of_hex((r as int * 0x10000 + g as int * 0x100 + b as int) as u32) == (Color {
            red: r,
            green: g,
            blue: b,
        }),
{
    lemma_hex_round_trip(c);
    let h = hex_of_color(c);
    assert(h / 0x100 == c.red * 0x100 + c.green && h % 0x100 == c.blue) by (nonlinear_arith)
        requires
            h == c.red * 0x10000 + c.green * 0x100 + c.blue,
            0 <= c.red < 256,
            0 <= c.green < 256,
            0 <= c.blue < 256,
    ;
    assert((c.red * 0x100 + c.green) % 0x100 == c.green as int) by (nonlinear_arith)
        requires
            0 <= c.red < 256,
            0 <= c.green < 256,
    ;
    lemma_hex_round_trip(Color { red: r, green: g, blue: b });
}

} // verus!
