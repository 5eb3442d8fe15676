//! Geometry of the output picture: sizes, positions and the views of streams.

use vstd::prelude::*;
use vstd::string::StringExecFns;
use vstd::view::View as _;

use crate::text::{decimal, push_unsigned};

verus! {

/// Cartesian pixel position.
#[derive(Debug, Clone, Copy, PartialEq, Eq, Structural)]
pub struct Position {
    /// X position.
    pub x: i64,
    /// Y position.
    pub y: i64,
}

/// Cartesian pixel dimension.
#[derive(Debug, Clone, Copy, PartialEq, Eq, Structural)]
pub struct Size {
    /// Horizontal dimension.
    pub width: usize,
    /// Vertical dimension.
    pub height: usize,
}

/// View properties of a stream: where it is placed and how large it is.
#[derive(Debug, Clone, Copy, PartialEq, Eq, Structural)]
pub struct View {
    /// Upper left corner.
    pub pos: Position,
    /// Dimension.
    pub size: Size,
}

/// Text alignment.
#[derive(Debug, Clone, Copy)]
pub struct Alignment {
    /// Horizontal alignment (`left`, `center`, `right`, ...).
    pub horizontal: &'static str,
    /// Vertical alignment (`top`, `center`, `bottom`, ...).
    pub vertical: &'static str,
}

impl Default for Position {
    fn default() -> (p: Self)
        ensures
            p == (Position { x: 0, y: 0 }),
    {
        Position { x: 0, y: 0 }
    }
}

impl Default for Size {
    fn default() -> (s: Self)
        ensures
            s == (Size { width: 0, height: 0 }),
    {
        Size { width: 0, height: 0 }
    }
}

impl Default for View {
    fn default() -> (v: Self)
        ensures
            v == (View { pos: Position { x: 0, y: 0 }, size: Size { width: 0, height: 0 } }),
    {
        View { pos: Position { x: 0, y: 0 }, size: Size { width: 0, height: 0 } }
    }
}

impl Size {
    /// A size of `width` × `height` pixels.
    pub fn new(width: usize, height: usize) -> (s: Self)
        ensures
            s == (Size { width, height }),
    {
        Size { width, height }
    }

    /// Text form: `widthxheight`.
    pub fn to_string(&self) -> (s: String)
        ensures
            s@ == decimal(self.width as int) + seq!['x'] + decimal(self.height as int),
    {
        proof {
            reveal_strlit("x");
        }
        let mut s = String::new();
        push_unsigned(&mut s, self.width as u64);
        s.append("x");
        push_unsigned(&mut s, self.height as u64);
        assert(s@ =~= decimal(self.width as int) + seq!['x'] + decimal(self.height as int));
        s
    }

    /// SD (Standard Definition).
    pub fn sd() -> (s: Self)
        ensures
            s == (Size { width: 640, height: 480 }),
    {
        Size { width: 640, height: 480 }
    }

    /// HD (High Definition).
    pub fn hd() -> (s: Self)
        ensures
            s == (Size { width: 1280, height: 720 }),
    {
        Size { width: 1280, height: 720 }
    }

    /// Full HD.
    pub fn fhd() -> (s: Self)
        ensures
            s == (Size { width: 1920, height: 1080 }),
    {
        Size { width: 1920, height: 1080 }
    }

    /// QHD (Quad HD).
    pub fn qhd() -> (s: Self)
        ensures
            s == (Size { width: 2560, height: 1440 }),
    {
        Size { width: 2560, height: 1440 }
    }

    /// 4K video or Ultra HD.
    pub fn uhd() -> (s: Self)
        ensures
            s == (Size { width: 3840, height: 2160 }),
    {
        Size { width: 3840, height: 2160 }
    }

    /// 8K video or Full Ultra HD.
    pub fn full_ultra_hd() -> (s: Self)
        ensures
            s == (Size { width: 7680, height: 4320 }),
    {
        Size { width: 7680, height: 4320 }
    }
}

} // verus!
