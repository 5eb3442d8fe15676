//! Speaker layout: the first visible stream (the speaker) is shown large, the other
//! visible streams (the viewers) use the remaining space.
//!
//! The aspect-ratio scaled lengths (the viewers' height, computed from their width, and the
//! speaker's width, computed from its height) are computed in floating point by the caller
//! and handed in.

use vstd::prelude::*;

use crate::layout::{Position, Size, View};

verus! {

/// The viewers are a quarter as wide as the picture when there are more than two visibles.
pub const VIEWER_SCALE: usize = 4;

/// Division of integers rounding toward zero, as machine integers divide.
pub open spec fn div_toward_zero(a: int, b: int) -> int {
    if a >= 0 {
        a / b
    } else {
        -((-a) / b)
    }
}

/// Width of a viewer: none for at most one visible, half the picture for two, a quarter
/// otherwise.
pub open spec fn speaker_viewers_width(resolution: Size, visibles: nat) -> nat {
    if visibles <= 1 {
        0
    } else if visibles == 2 {
        (resolution.width / 2) as nat
    } else {
        (resolution.width / VIEWER_SCALE) as nat
    }
}

/// Position of the viewer with index `n` (counting the viewers from zero): beside the
/// speaker when there is one viewer; otherwise the first viewers fill the column on the
/// right, and the others are placed from right to left below the speaker.
pub open spec fn speaker_viewer_position(
    resolution: Size,
    visibles: nat,
    n: nat,
    viewers_height: nat,
    speaker_width: nat,
) -> (int, int) {
    if visibles <= 1 {
        (0, 0)
    } else if visibles == 2 {
        (div_toward_zero(resolution.width as i64 as int, 2), div_toward_zero(resolution.height as i64 as int, 4))
    } else if n < VIEWER_SCALE {
        (speaker_width as i64 as int, (viewers_height * n) as i64 as int)
    } else {
        let index = n - VIEWER_SCALE + 1;
        let offset = (speaker_viewers_width(resolution, visibles) * index) as i64;
        (speaker_width as i64 - offset, (resolution.height - viewers_height) as i64 as int)
    }
}

/// Size of a viewer: a quarter of the picture for a single visible, otherwise the viewers'
/// width and height.
pub open spec fn speaker_viewer_size(resolution: Size, visibles: nat, viewers_height: nat) -> (nat, nat) {
    if visibles == 1 {
        ((resolution.width / 2) as nat, (resolution.height / 2) as nat)
    } else {
        (speaker_viewers_width(resolution, visibles), viewers_height)
    }
}

/// Position of the speaker: centered vertically beside a single viewer, otherwise at the
/// upper left corner.
pub open spec fn speaker_speaker_position(resolution: Size, visibles: nat) -> (int, int) {
    if visibles == 2 {
        (0, div_toward_zero(resolution.height as i64 as int, 4))
    } else {
        (0, 0)
    }
}

/// The inputs for which the viewer at index `n` can be placed without overflow.
pub open spec fn speaker_viewer_inputs_ok(
    resolution: Size,
    visibles: nat,
    n: nat,
    viewers_height: nat,
    speaker_width: nat,
) -> bool {
    visibles > 2 ==> if n < VIEWER_SCALE {
        viewers_height * n <= usize::MAX
    } else {
        let index = n - VIEWER_SCALE + 1;
        let product = speaker_viewers_width(resolution, visibles) * index;
        &&& product <= usize::MAX
        &&& i64::MIN <= (speaker_width as i64) - (product as i64) <= i64::MAX
    }
}

/// No two viewers overlap when there are more than two visibles: the first viewers are
/// stacked in the column right of the speaker, the others stand side by side below the
/// speaker, each one viewer width further left, starting one viewer width left of the
/// column.
pub proof fn law_speaker_viewers_do_not_overlap(
    resolution: Size,
    visibles: nat,
    viewers_height: nat,
    speaker_width: nat,
    n1: nat,
    n2: nat,
)
    requires
        visibles > 2,
        n1 + 1 < visibles,
        n2 + 1 < visibles,
        n1 != n2,
        viewers_height <= resolution.height,
        resolution.height <= i64::MAX,
        speaker_width <= i64::MAX,
        viewers_height * visibles <= i64::MAX,
        speaker_viewers_width(resolution, visibles) * visibles <= i64::MAX,
    ensures
        ({
            let (x1, y1) = speaker_viewer_position(resolution, visibles, n1, viewers_height, speaker_width);
            let (x2, y2) = speaker_viewer_position(resolution, visibles, n2, viewers_height, speaker_width);
            let (w, h) = speaker_viewer_size(resolution, visibles, viewers_height);
            x1 + w <= x2 || x2 + w <= x1 || y1 + h <= y2 || y2 + h <= y1
        }),
{
    let vw = speaker_viewers_width(resolution, visibles);
    let vh = viewers_height;
    let v = visibles as int;
    assert(speaker_viewer_size(resolution, visibles, viewers_height) == (vw, vh));
    assert(vh * n1 <= vh * v && vh * n2 <= vh * v) by (nonlinear_arith)
        requires
            n1 < v,
            n2 < v,
            vh >= 0,
    ;
    assert(vw * (n1 - 3) <= vw * v && vw * (n2 - 3) <= vw * v) by (nonlinear_arith)
        requires
            n1 < v,
            n2 < v,
            vw >= 0,
    ;
    if n1 < VIEWER_SCALE && n2 < VIEWER_SCALE {
        assert(vh * n1 + vh <= vh * n2 || vh * n2 + vh <= vh * n1) by (nonlinear_arith)
            requires
                n1 != n2,
                vh >= 0,
        ;
    } else if n1 >= VIEWER_SCALE && n2 >= VIEWER_SCALE {
        assert(vw * (n1 - 3) + vw <= vw * (n2 - 3) || vw * (n2 - 3) + vw <= vw * (n1 - 3)) by (nonlinear_arith)
            requires
                n1 != n2,
                vw >= 0,
        ;
    } else {
        let k = if n1 >= VIEWER_SCALE { n1 } else { n2 };
        assert(vw * (k - 3) >= vw) by (nonlinear_arith)
            requires
                k >= 4,
                vw >= 0,
        ;
    }
}

/// Speaker layout.
#[derive(Debug, Clone, Copy)]
pub struct Speaker {
    resolution: Size,
    visibles: usize,
}

impl Default for Speaker {
    fn default() -> (s: Self)
        ensures
            s.resolution() == (Size { width: 0, height: 0 }),
            s.visibles() == 0,
    {
        Speaker { resolution: Size { width: 0, height: 0 }, visibles: 0 }
    }
}

impl Speaker {
    /// A speaker layout for `visibles` streams on a picture of the given resolution.
    pub fn new(resolution: Size, visibles: usize) -> (s: Self)
        ensures
            s.resolution() == resolution,
            s.visibles() == visibles,
    {
        Speaker { resolution, visibles }
    }

    /// The resolution of the picture.
    pub closed spec fn resolution(&self) -> Size {
        self.resolution
    }

    /// The number of visible streams.
    pub closed spec fn visibles(&self) -> nat {
        self.visibles as nat
    }

    /// Updates the layout for a changed resolution.
    pub fn set_resolution_changed(&mut self, resolution: Size)
        ensures
            final(self).resolution() == resolution,
            final(self).visibles() == old(self).visibles(),
    {
        self.resolution = resolution;
    }

    /// Updates the layout for a changed number of visible streams.
    pub fn set_amount_of_visibles(&mut self, visibles: usize)
        ensures
            final(self).resolution() == old(self).resolution(),
            final(self).visibles() == visibles,
    {
        self.visibles = visibles;
    }

    /// The number of visible streams.
    pub fn amount_of_visibles(&self) -> (n: usize)
        ensures
            n == self.visibles(),
    {
        self.visibles
    }

    /// The resolution of the picture.
    pub fn current_resolution(&self) -> (r: Size)
        ensures
            r == self.resolution(),
    {
        self.resolution
    }

    /// Width of a viewer.
    pub fn viewers_width(&self) -> (w: usize)
        ensures
            w == speaker_viewers_width(self.resolution(), self.visibles()),
    {
        match self.visibles {
            0 | 1 => 0,
            2 => self.resolution.width / 2,
            _ => self.resolution.width / VIEWER_SCALE,
        }
    }

    /// Height of the speaker: what the viewers leave of the picture height.
    pub fn speaker_height(&self, viewers_height: usize) -> (h: usize)
        requires
            viewers_height <= self.resolution().height,
        ensures
            h == self.resolution().height - viewers_height,
    {
        self.resolution.height - viewers_height
    }

    /// Size of the speaker, given the viewers' height and the speaker's width.
    pub fn speaker_size(&self, viewers_height: usize, speaker_width: usize) -> (s: Size)
        requires
            viewers_height <= self.resolution().height,
        ensures
            s == (Size { height: (self.resolution().height - viewers_height) as usize, width: speaker_width }),
    {
        Size { height: self.speaker_height(viewers_height), width: speaker_width }
    }

    /// Position of the viewer with index `stream_position` (counting the viewers from zero).
    pub fn viewers_position(&self, stream_position: usize, viewers_height: usize, speaker_width: usize) -> (p: Position)
        requires
            viewers_height <= self.resolution().height,
            speaker_viewer_inputs_ok(self.resolution(), self.visibles(), stream_position as nat, viewers_height as nat, speaker_width as nat),
        ensures
            (p.x as int, p.y as int) == speaker_viewer_position(
                self.resolution(),
                self.visibles(),
                stream_position as nat,
                viewers_height as nat,
                speaker_width as nat,
            ),
    {
        match self.visibles {
            0 | 1 => Position { x: 0, y: 0 },
            2 => Position {
                x: self.resolution.width as i64 / 2,
                y: self.resolution.height as i64 / 4,
            },
            _ => {
                if stream_position < VIEWER_SCALE {
                    Position {
                        x: speaker_width as i64,
                        y: (viewers_height * stream_position) as i64,
                    }
                } else {
                    let horizontal_index = stream_position - VIEWER_SCALE + 1;
                    let horizontal_offset = (self.viewers_width() * horizontal_index) as i64;
                    Position {
                        x: speaker_width as i64 - horizontal_offset,
                        y: self.speaker_height(viewers_height) as i64,
                    }
                }
            },
        }
    }

    /// Size of a viewer, given the viewers' height.
    pub fn viewers_size(&self, viewers_height: usize) -> (s: Size)
        ensures
            (s.width as nat, s.height as nat) == speaker_viewer_size(self.resolution(), self.visibles(), viewers_height as nat),
    {
        match self.visibles {
            1 => Size { width: self.resolution.width / 2, height: self.resolution.height / 2 },
            _ => Size { width: self.viewers_width(), height: viewers_height },
        }
    }

    /// Position of the speaker.
    pub fn speaker_position(&self) -> (p: Position)
        ensures
            (p.x as int, p.y as int) == speaker_speaker_position(self.resolution(), self.visibles()),
    {
        match self.visibles {
            2 => Position { x: 0, y: self.resolution.height as i64 / 4 },
            _ => Position { x: 0, y: 0 },
        }
    }

    /// View of the stream at `stream_position`: none for invisible streams, the speaker's
    /// view for the first, a viewer's view for the others.
    pub fn calculate_stream_view(&self, stream_position: usize, viewers_height: usize, speaker_width: usize) -> (view: Option<View>)
        requires
            viewers_height <= self.resolution().height,
            stream_position >= 1 ==> speaker_viewer_inputs_ok(
                self.resolution(),
                self.visibles(),
                (stream_position - 1) as nat,
                viewers_height as nat,
                speaker_width as nat,
            ),
        ensures
            stream_position >= self.visibles() ==> view is None,
            stream_position == 0 < self.visibles() ==> (view matches Some(v) && (v.pos.x as int, v.pos.y as int)
                == speaker_speaker_position(self.resolution(), self.visibles())
                && v.size == (Size { height: (self.resolution().height - viewers_height) as usize, width: speaker_width })),
            0 < stream_position < self.visibles() ==> (view matches Some(v) && (v.pos.x as int, v.pos.y as int)
                == speaker_viewer_position(
                    self.resolution(),
                    self.visibles(),
                    (stream_position - 1) as nat,
                    viewers_height as nat,
                    speaker_width as nat,
                ) && (v.size.width as nat, v.size.height as nat) == speaker_viewer_size(
                    self.resolution(),
                    self.visibles(),
                    viewers_height as nat,
                )),
    {
        if stream_position >= self.visibles {
            return None;
        }
        if stream_position == 0 {
            Some(View { pos: self.speaker_position(), size: self.speaker_size(viewers_height, speaker_width) })
        } else {
            Some(View {
                pos: self.viewers_position(stream_position - 1, viewers_height, speaker_width),
                size: self.viewers_size(viewers_height),
            })
        }
    }
}

} // verus!
