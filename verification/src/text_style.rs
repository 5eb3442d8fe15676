//! Text styles of the overlays: font, padding, color and alignment.

use vstd::prelude::*;
use vstd::arithmetic::div_mod::lemma_fundamental_div_mod_converse;
use vstd::string::StringExecFns;

use crate::text::{decimal, hexadecimal, push_decimal, push_digits, push_unsigned};

verus! {

/// Text color.
#[derive(Debug, Clone, Copy, PartialEq, Eq, Structural)]
pub struct Color {
    /// Red.
    pub r: u8,
    /// Green.
    pub g: u8,
    /// Blue.
    pub b: u8,
    /// Opacity.
    pub a: u8,
}

impl Default for Color {
    /// Opaque white.
    fn default() -> (c: Color)
        ensures
            c == (Color { r: 0xff, g: 0xff, b: 0xff, a: 0xff }),
    {
        Color { r: 0xff, g: 0xff, b: 0xff, a: 0xff }
    }
}

/// The color packed as `0xRRGGBBAA`.
pub open spec fn rgba_value(c: Color) -> u32 {
    ((c.r as u32) * 0x1000000 + (c.g as u32) * 0x10000 + (c.b as u32) * 0x100 + (c.a as u32)) as u32
}

/// The color packed as `0xAABBGGRR`, the order the overlay elements expect.
pub open spec fn abgr_value(c: Color) -> u32 {
    ((c.a as u32) * 0x1000000 + (c.b as u32) * 0x10000 + (c.g as u32) * 0x100 + (c.r as u32)) as u32
}

/// Packing a color loses nothing: each byte of the packed value is one component, red
/// most significant in the `RGBA` packing and alpha most significant in the `ABGR` one.
pub proof fn law_color_packing_keeps_components(c: Color)
    ensures
        rgba_value(c) / 0x1000000 == c.r,
        (rgba_value(c) / 0x10000) % 0x100 == c.g,
        (rgba_value(c) / 0x100) % 0x100 == c.b,
        rgba_value(c) % 0x100 == c.a,
        abgr_value(c) / 0x1000000 == c.a,
        (abgr_value(c) / 0x10000) % 0x100 == c.b,
        (abgr_value(c) / 0x100) % 0x100 == c.g,
        abgr_value(c) % 0x100 == c.r,
{
    lemma_bytes_of_packed(c.r as int, c.g as int, c.b as int, c.a as int);
    lemma_bytes_of_packed(c.a as int, c.b as int, c.g as int, c.r as int);
    assert(rgba_value(c) as int == c.r * 0x1000000 + c.g * 0x10000 + c.b * 0x100 + c.a);
    assert(abgr_value(c) as int == c.a * 0x1000000 + c.b * 0x10000 + c.g * 0x100 + c.r);
}

/// The bytes of four bytes packed into a number, the first one most significant.
proof fn lemma_bytes_of_packed(b3: int, b2: int, b1: int, b0: int)
    requires
        0 <= b3 < 0x100,
        0 <= b2 < 0x100,
        0 <= b1 < 0x100,
        0 <= b0 < 0x100,
    ensures
        ({
            let v = b3 * 0x1000000 + b2 * 0x10000 + b1 * 0x100 + b0;
            &&& 0 <= v < 0x1_0000_0000
            &&& v / 0x1000000 == b3
            &&& (v / 0x10000) % 0x100 == b2
            &&& (v / 0x100) % 0x100 == b1
            &&& v % 0x100 == b0
        }),
{
    let v = b3 * 0x1000000 + b2 * 0x10000 + b1 * 0x100 + b0;
    lemma_fundamental_div_mod_converse(v, 0x1000000, b3, b2 * 0x10000 + b1 * 0x100 + b0);
    lemma_fundamental_div_mod_converse(v, 0x10000, b3 * 0x100 + b2, b1 * 0x100 + b0);
    lemma_fundamental_div_mod_converse(b3 * 0x100 + b2, 0x100, b3, b2);
    lemma_fundamental_div_mod_converse(v, 0x100, b3 * 0x10000 + b2 * 0x100 + b1, b0);
    lemma_fundamental_div_mod_converse(b3 * 0x10000 + b2 * 0x100 + b1, 0x100, b3 * 0x100 + b2, b1);
}

/// Packs four bytes into a `u32`, the first one most significant.
fn pack(b3: u8, b2: u8, b1: u8, b0: u8) -> (v: u32)
    ensures
        v == (b3 as u32) * 0x1000000 + (b2 as u32) * 0x10000 + (b1 as u32) * 0x100 + (b0 as u32),
{
    let (x3, x2, x1, x0) = (b3 as u32, b2 as u32, b1 as u32, b0 as u32);
    assert(x3 << 24u32 | x2 << 16u32 | x1 << 8u32 | x0 == x3 * 0x1000000 + x2 * 0x10000 + x1 * 0x100 + x0) by (bit_vector)
        requires
            x3 < 256 && x2 < 256 && x1 < 256 && x0 < 256,
    ;
    x3 << 24u32 | x2 << 16u32 | x1 << 8u32 | x0
}

impl From<Color> for u32 {
    fn from(color: Color) -> (v: u32) {
        pack(color.r, color.g, color.b, color.a)
    }
}

impl vstd::std_specs::convert::FromSpecImpl<Color> for u32 {
    open spec fn obeys_from_spec() -> bool {
        true
    }

    open spec fn from_spec(v: Color) -> u32 {
        rgba_value(v)
    }
}

impl Color {
    /// The color packed as `0xRRGGBBAA`.
    pub fn rgba(&self) -> (v: u32)
        ensures
            v == rgba_value(*self),
    {
        pack(self.r, self.g, self.b, self.a)
    }

    /// The color packed as `0xAABBGGRR`, the order the overlay elements expect.
    pub fn abgr(&self) -> (v: u32)
        ensures
            v == abgr_value(*self),
    {
        pack(self.a, self.b, self.g, self.r)
    }

    /// Text form: `#` and the lowercase hexadecimal digits of red, green, blue and opacity,
    /// each without leading zeros.
    pub fn to_string(&self) -> (s: String)
        ensures
            s@ == seq!['#'] + hexadecimal(self.r as nat) + hexadecimal(self.g as nat) + hexadecimal(self.b as nat)
                + hexadecimal(self.a as nat),
    {
        proof {
            reveal_strlit("#");
        }
        let mut s = String::from_str("#");
        push_digits(&mut s, self.r as u64, 16);
        push_digits(&mut s, self.g as u64, 16);
        push_digits(&mut s, self.b as u64, 16);
        push_digits(&mut s, self.a as u64, 16);
        s
    }
}

/// Text padding.
#[derive(Debug, Clone, Copy, PartialEq, Eq, Structural)]
pub struct TextPadding {
    /// Horizontal padding.
    pub x: i32,
    /// Vertical padding.
    pub y: i32,
}

impl Default for TextPadding {
    fn default() -> (p: TextPadding)
        ensures
            p == (TextPadding { x: 10, y: 10 }),
    {
        TextPadding { x: 10, y: 10 }
    }
}

impl TextPadding {
    /// Text form: `x/y`.
    pub fn to_string(&self) -> (s: String)
        ensures
            s@ == decimal(self.x as int) + seq!['/'] + decimal(self.y as int),
    {
        proof {
            reveal_strlit("/");
        }
        let mut s = String::new();
        push_decimal(&mut s, self.x as i64);
        s.append("/");
        push_decimal(&mut s, self.y as i64);
        assert(s@ =~= decimal(self.x as int) + seq!['/'] + decimal(self.y as int));
        s
    }
}

/// Text font.
#[derive(Debug, Clone, Copy)]
pub struct Font {
    /// Font family.
    pub name: &'static str,
    /// Font size.
    pub size: u32,
}

impl Default for Font {
    fn default() -> (f: Font)
        ensures
            f.name@ == "Sans"@,
            f.size == 10,
    {
        Font { name: "Sans", size: 10 }
    }
}

impl Font {
    /// A font of the default family in the given size.
    pub fn sized(size: u32) -> (f: Font)
        ensures
            f.name@ == "Sans"@,
            f.size == size,
    {
        Font { size, ..Default::default() }
    }

    /// Text form as font descriptions spell it: `name,size`.
    pub fn to_string(&self) -> (s: String)
        ensures
            s@ == self.name@ + seq![','] + decimal(self.size as int),
    {
        proof {
            reveal_strlit(",");
        }
        let mut s = String::from_str(self.name);
        s.append(",");
        push_unsigned(&mut s, self.size as u64);
        assert(s@ =~= self.name@ + seq![','] + decimal(self.size as int));
        s
    }
}

/// Horizontal text alignment.
#[derive(Debug, Clone, Copy, PartialEq, Eq, Structural)]
pub enum HAlign {
    /// Left.
    Left,
    /// Centered.
    Center,
    /// Right.
    Right,
    /// At a given position.
    Position,
    /// At an absolute position.
    Absolute,
}

impl Default for HAlign {
    fn default() -> (a: HAlign)
        ensures
            a == HAlign::Center,
    {
        HAlign::Center
    }
}

/// The name of a horizontal alignment.
pub open spec fn halign_name(align: HAlign) -> Seq<char> {
    match align {
        HAlign::Left => "left"@,
        HAlign::Center => "center"@,
        HAlign::Right => "right"@,
        HAlign::Position => "position"@,
        HAlign::Absolute => "absolute"@,
    }
}

impl HAlign {
    /// The name of the alignment.
    pub fn as_str(&self) -> (s: &'static str)
        ensures
            s@ == halign_name(*self),
    {
        match self {
            HAlign::Left => "left",
            HAlign::Center => "center",
            HAlign::Right => "right",
            HAlign::Position => "position",
            HAlign::Absolute => "absolute",
        }
    }
}

impl From<HAlign> for &'static str {
    fn from(align: HAlign) -> (s: &'static str) {
        match align {
            HAlign::Left => "left",
            HAlign::Center => "center",
            HAlign::Right => "right",
            HAlign::Position => "position",
            HAlign::Absolute => "absolute",
        }
    }
}

impl vstd::std_specs::convert::FromSpecImpl<HAlign> for &'static str {
    open spec fn obeys_from_spec() -> bool {
        true
    }

    open spec fn from_spec(align: HAlign) -> &'static str {
        match align {
            HAlign::Left => "left",
            HAlign::Center => "center",
            HAlign::Right => "right",
            HAlign::Position => "position",
            HAlign::Absolute => "absolute",
        }
    }
}

/// Vertical text alignment.
#[derive(Debug, Clone, Copy, PartialEq, Eq, Structural)]
pub enum VAlign {
    /// On the base line.
    Baseline,
    /// Bottom.
    Bottom,
    /// Top.
    Top,
    /// At a given position.
    Position,
    /// Centered.
    Center,
    /// At an absolute position.
    Absolute,
}

impl Default for VAlign {
    fn default() -> (a: VAlign)
        ensures
            a == VAlign::Baseline,
    {
        VAlign::Baseline
    }
}

/// The name of a vertical alignment.
pub open spec fn valign_name(align: VAlign) -> Seq<char> {
    match align {
        VAlign::Baseline => "baseline"@,
        VAlign::Bottom => "bottom"@,
        VAlign::Top => "top"@,
        VAlign::Position => "position"@,
        VAlign::Center => "center"@,
        VAlign::Absolute => "absolute"@,
    }
}

impl VAlign {
    /// The name of the alignment.
    pub fn as_str(&self) -> (s: &'static str)
        ensures
            s@ == valign_name(*self),
    {
        match self {
            VAlign::Baseline => "baseline",
            VAlign::Bottom => "bottom",
            VAlign::Top => "top",
            VAlign::Position => "position",
            VAlign::Center => "center",
            VAlign::Absolute => "absolute",
        }
    }
}

impl From<VAlign> for &'static str {
    fn from(align: VAlign) -> (s: &'static str) {
        match align {
            VAlign::Baseline => "baseline",
            VAlign::Bottom => "bottom",
            VAlign::Top => "top",
            VAlign::Position => "position",
            VAlign::Center => "center",
            VAlign::Absolute => "absolute",
        }
    }
}

impl vstd::std_specs::convert::FromSpecImpl<VAlign> for &'static str {
    open spec fn obeys_from_spec() -> bool {
        true
    }

    open spec fn from_spec(align: VAlign) -> &'static str {
        match align {
            VAlign::Baseline => "baseline",
            VAlign::Bottom => "bottom",
            VAlign::Top => "top",
            VAlign::Position => "position",
            VAlign::Center => "center",
            VAlign::Absolute => "absolute",
        }
    }
}

/// Horizontal and vertical text alignment.
#[derive(Debug, Clone, Copy, PartialEq, Eq, Structural)]
pub struct Align {
    /// Horizontal alignment.
    pub horizontal: HAlign,
    /// Vertical alignment.
    pub vertical: VAlign,
}

impl Default for Align {
    fn default() -> (a: Align)
        ensures
            a == (Align { horizontal: HAlign::Center, vertical: VAlign::Baseline }),
    {
        Align { horizontal: HAlign::Center, vertical: VAlign::Baseline }
    }
}

impl Align {
    /// Text form: `horizontal × vertical`.
    pub fn to_string(&self) -> (s: String)
        ensures
            s@ == halign_name(self.horizontal) + " × "@ + valign_name(self.vertical),
    {
        let mut s = String::from_str(self.horizontal.as_str());
        s.append(" × ");
        s.append(self.vertical.as_str());
        s
    }
}

/// Text format.
#[derive(Debug, Clone, Copy)]
pub struct TextStyle {
    /// Font.
    pub font: Font,
    /// Padding.
    pub padding: TextPadding,
    /// Color.
    pub color: Color,
    /// Alignment.
    pub align: Align,
}

impl Default for TextStyle {
    fn default() -> (t: TextStyle)
        ensures
            t.font.name@ == "Sans"@,
            t.font.size == 10,
            t.padding == (TextPadding { x: 10, y: 10 }),
            t.color == (Color { r: 0xff, g: 0xff, b: 0xff, a: 0xff }),
            t.align == (Align { horizontal: HAlign::Center, vertical: VAlign::Baseline }),
    {
        TextStyle {
            font: Font::default(),
            padding: TextPadding::default(),
            color: Color::default(),
            align: Align::default(),
        }
    }
}

impl TextStyle {
    /// Text form: `font, padding, color, alignment`.
    pub fn to_string(&self) -> (s: String)
        ensures
            s@ == self.font.name@ + seq![','] + decimal(self.font.size as int) + ", "@ + decimal(self.padding.x as int)
                + seq!['/'] + decimal(self.padding.y as int) + ", "@ + seq!['#'] + hexadecimal(self.color.r as nat)
                + hexadecimal(self.color.g as nat) + hexadecimal(self.color.b as nat) + hexadecimal(self.color.a as nat)
                + ", "@ + halign_name(self.align.horizontal) + " × "@ + valign_name(self.align.vertical),
    {
        let mut s = self.font.to_string();
        s.append(", ");
        s.append(self.padding.to_string().as_str());
        s.append(", ");
        s.append(self.color.to_string().as_str());
        s.append(", ");
        s.append(self.align.to_string().as_str());
        s
    }
}

} // verus!
