//! Styles and parameters of the overlays that a talk shows: titles, names and the clock.

use vstd::prelude::*;
use vstd::string::StringExecFns;

use crate::text_style::{Align, Font, HAlign, TextPadding, TextStyle, VAlign, Color};

verus! {

/// Space above the picture, where the title and the clock are shown.
pub const TOP_PADDING: i32 = 56;
/// Font size of the title and the clock.
pub const OVERLAY_FONT_SIZE: u32 = 20;
/// Font size of the participants' names.
pub const NAME_FONT_SIZE: u32 = 16;

/// Extra space around the picture.
#[derive(Debug, Clone, Copy, PartialEq, Eq, Structural)]
pub struct Padding {
    /// Left.
    pub left: i32,
    /// Right.
    pub right: i32,
    /// Top.
    pub top: i32,
    /// Bottom.
    pub bottom: i32,
}

impl Default for Padding {
    fn default() -> (p: Padding)
        ensures
            p == (Padding { left: 0, right: 0, top: 0, bottom: 0 }),
    {
        Padding { left: 0, right: 0, top: 0, bottom: 0 }
    }
}

impl Padding {
    /// The borders a video box needs to add this padding: the negated paddings, in the
    /// order left, right, top, bottom.
    pub fn videobox_borders(&self) -> (b: (i32, i32, i32, i32))
        requires
            self.left != i32::MIN,
            self.right != i32::MIN,
            self.top != i32::MIN,
            self.bottom != i32::MIN,
        ensures
            b == (-self.left as i32, -self.right as i32, -self.top as i32, -self.bottom as i32),
    {
        (-self.left, -self.right, -self.top, -self.bottom)
    }
}

/// The padding above a talk's picture.
pub fn talk_padding() -> (p: Padding)
    ensures
        p == (Padding { left: 0, right: 0, top: TOP_PADDING, bottom: 0 }),
{
    Padding { top: TOP_PADDING, ..Default::default() }
}

/// The style of a talk's title: at the top left, in the overlay font size.
pub fn talk_title_style() -> (s: TextStyle)
    ensures
        s.font.name@ == "Sans"@,
        s.font.size == OVERLAY_FONT_SIZE,
        s.padding == (TextPadding { x: 10, y: 10 }),
        s.color == (Color { r: 0xff, g: 0xff, b: 0xff, a: 0xff }),
        s.align == (Align { horizontal: HAlign::Left, vertical: VAlign::Top }),
{
    TextStyle {
        align: Align { horizontal: HAlign::Left, vertical: VAlign::Top },
        font: Font::sized(OVERLAY_FONT_SIZE),
        ..Default::default()
    }
}

/// The style of a talk's clock: at the top right, in the overlay font size.
pub fn talk_clock_style() -> (s: TextStyle)
    ensures
        s.font.name@ == "Sans"@,
        s.font.size == OVERLAY_FONT_SIZE,
        s.padding == (TextPadding { x: 10, y: 10 }),
        s.color == (Color { r: 0xff, g: 0xff, b: 0xff, a: 0xff }),
        s.align == (Align { horizontal: HAlign::Right, vertical: VAlign::Top }),
{
    TextStyle {
        align: Align { horizontal: HAlign::Right, vertical: VAlign::Top },
        font: Font::sized(OVERLAY_FONT_SIZE),
        ..Default::default()
    }
}

/// The style of a participant's name shown over its stream.
pub fn name_style() -> (s: TextStyle)
    ensures
        s.font.name@ == "Sans"@,
        s.font.size == NAME_FONT_SIZE,
        s.padding == (TextPadding { x: 10, y: 10 }),
        s.color == (Color { r: 0xff, g: 0xff, b: 0xff, a: 0xff }),
        s.align == (Align { horizontal: HAlign::Center, vertical: VAlign::Baseline }),
{
    TextStyle { font: Font::sized(NAME_FONT_SIZE), ..Default::default() }
}

/// Format of the clock display, as `strftime` spells it.
#[derive(Debug)]
pub struct ClockFormat(pub String);

impl Default for ClockFormat {
    /// Local date, local time and time zone.
    fn default() -> (f: ClockFormat)
        ensures
            f.0@ == "%x %X %Z"@,
    {
        ClockFormat(String::from_str("%x %X %Z"))
    }
}

impl ClockFormat {
    /// The format text.
    pub fn as_str(&self) -> (s: &str)
        ensures
            s@ == self.0@,
    {
        self.0.as_str()
    }
}

/// Parameters of a talk's overlays.
#[derive(Debug)]
pub struct TalkOverlaysParams {
    /// Padding around the picture.
    pub padding: TextPadding,
    /// Style of the title; no title if `None`.
    pub title_style: Option<TextStyle>,
    /// Style of the clock; no clock if `None`.
    pub clock_style: Option<TextStyle>,
    /// Format of the clock display.
    pub clock_format: String,
}

} // verus!
