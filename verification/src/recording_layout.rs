//! A fixed recording picture layout: the speaker, the viewers beside it, and the places of
//! the title, the "who's speaking" text and the clock.

use vstd::prelude::*;
use vstd::arithmetic::div_mod::{lemma_fundamental_div_mod, lemma_mod_pos_bound};

use crate::layout::{Alignment, Position, Size};
use crate::speaker::div_toward_zero;

verus! {

/// Recording picture layout.
pub struct Layout {
    /// Size of the output.
    pub size: Size,
    /// Positions of the viewers.
    pub viewers_positions: Vec<Position>,
    /// Size of a viewer.
    pub viewers_size: Size,
    /// Position of the speaker.
    pub speaker_position: Position,
    /// Size of the speaker.
    pub speaker_size: Size,
    /// Alignment of the title.
    pub title_alignment: Alignment,
    /// Position of the title.
    pub title_position: Position,
    /// Position of the "who's speaking" text.
    pub speaking_position: Position,
    /// Alignment of the "who's speaking" text.
    pub speaking_alignment: Alignment,
    /// Position of the clock display.
    pub clock_position: Position,
    /// Alignment of the clock display.
    pub clock_alignment: Alignment,
}

/// Height of a viewer when `num_viewers` viewers share the picture height.
pub open spec fn vertical_viewers_height_of(resolution: Size, num_viewers: nat) -> nat {
    if num_viewers > 0 {
        (resolution.height / (num_viewers as usize)) as nat
    } else {
        0
    }
}

/// The viewers stacked vertically share the picture height: `n` viewers of the viewers'
/// height fit into it, and less than one more pixel per viewer is left over.
pub proof fn law_vertical_viewers_fill_the_height(resolution: Size, num_viewers: nat)
    requires
        1 <= num_viewers <= usize::MAX,
    ensures
        ({
            let vh = vertical_viewers_height_of(resolution, num_viewers);
            vh * num_viewers <= resolution.height < vh * num_viewers + num_viewers
        }),
{
    let h = resolution.height as int;
    let n = num_viewers as int;
    assert((num_viewers as usize) as int == n);
    lemma_fundamental_div_mod(h, n);
    lemma_mod_pos_bound(h, n);
    assert(vertical_viewers_height_of(resolution, num_viewers) == h / n);
    assert((h / n) * n <= h < (h / n) * n + n) by (nonlinear_arith)
        requires
            h == n * (h / n) + h % n,
            0 <= h % n < n,
    ;
}

/// The inputs for which the vertical speaker layout is computed without overflow.
pub open spec fn vertical_inputs_ok(resolution: Size, num_viewers: nat, viewers_width: nat, speaker_width: nat) -> bool {
    let speaker_height = resolution.height - vertical_viewers_height_of(resolution, num_viewers);
    &&& num_viewers <= usize::MAX
    &&& i64::MIN <= (resolution.height as i64) - (speaker_height as i64) <= i64::MAX
    &&& viewers_width as i64 != i64::MIN
    &&& speaker_height as i64 != i64::MIN
}

impl Layout {
    /// Number of viewers to display.
    pub fn num_viewers(&self) -> (n: usize)
        ensures
            n == self.viewers_positions@.len(),
    {
        self.viewers_positions.len()
    }

    /// Whether there are no viewers.
    pub fn no_viewers(&self) -> (b: bool)
        ensures
            b == (self.viewers_positions@.len() == 0),
    {
        self.viewers_positions.len() == 0
    }

    /// Height of a viewer when `num_viewers` viewers share the picture height.
    pub fn vertical_viewers_height(resolution: &Size, num_viewers: usize) -> (h: usize)
        ensures
            h == vertical_viewers_height_of(*resolution, num_viewers as nat),
    {
        if num_viewers > 0 {
            resolution.height / num_viewers
        } else {
            0
        }
    }

    /// A layout where the viewers are distributed vertically at the right side of the
    /// speaker, and the remaining space shows the title and "who's speaking".
    ///
    /// `viewers_width` and `speaker_width` are the widths, in the picture's aspect ratio,
    /// of the viewers' height ([`Layout::vertical_viewers_height`]) and of the speaker's
    /// height (the rest of the picture height).
    pub fn new_speaker_vertical(resolution: &Size, num_viewers: usize, viewers_width: usize, speaker_width: usize) -> (l: Self)
        requires
            vertical_inputs_ok(*resolution, num_viewers as nat, viewers_width as nat, speaker_width as nat),
        ensures
            ({
                let vh = vertical_viewers_height_of(*resolution, num_viewers as nat);
                let sh = (resolution.height - vh) as usize;
                &&& l.size == *resolution
                &&& num_viewers == 1 ==> l.viewers_positions@ == seq![Position {
                    x: div_toward_zero(resolution.width as i64 as int, 2) as i64,
                    y: div_toward_zero(resolution.height as i64 as int, 4) as i64,
                }]
                &&& num_viewers != 1 ==> l.viewers_positions@.len() == num_viewers
                    && forall|k: int| 0 <= k < num_viewers ==> #[trigger] l.viewers_positions@[k] == (Position {
                        x: speaker_width as i64,
                        y: (vh * k) as i64,
                    })
                &&& l.viewers_size == if num_viewers == 1 {
                    Size { width: resolution.width / 2, height: resolution.height / 2 }
                } else {
                    Size { width: viewers_width, height: vh as usize }
                }
                &&& l.speaker_position == if num_viewers == 1 {
                    Position { x: 0, y: div_toward_zero(resolution.height as i64 as int, 4) as i64 }
                } else {
                    Position { x: 0, y: ((resolution.height as i64) - (sh as i64)) as i64 }
                }
                &&& l.speaker_size == if num_viewers == 1 {
                    Size { width: resolution.width / 2, height: resolution.height / 2 }
                } else {
                    Size { width: speaker_width, height: sh }
                }
                &&& l.title_alignment.horizontal@ == "left"@ && l.title_alignment.vertical@ == "top"@
                &&& l.title_position == (Position { x: 0, y: 0 })
                &&& l.speaking_alignment.horizontal@ == "left"@
                &&& l.speaking_alignment.vertical@ == if num_viewers <= 1 { "bottom"@ } else { "center"@ }
                &&& l.speaking_position == (Position {
                    x: 0,
                    y: if num_viewers <= 1 { 0 } else { -div_toward_zero(sh as i64 as int, 2) as i64 },
                })
                &&& l.clock_alignment.horizontal@ == "right"@ && l.clock_alignment.vertical@ == "bottom"@
                &&& l.clock_position == (Position {
                    x: if num_viewers <= 1 { 0 } else { (-(viewers_width as i64)) as i64 },
                    y: if num_viewers == 0 { 0 } else { (-(sh as i64)) as i64 },
                })
            }),
    {
        let viewers_height = Self::vertical_viewers_height(resolution, num_viewers);
        let speaker_height = resolution.height - viewers_height;
        let mut viewers_positions: Vec<Position> = Vec::new();
        if num_viewers == 1 {
            viewers_positions.push(Position { x: resolution.width as i64 / 2, y: resolution.height as i64 / 4 });
        } else {
            let mut k: usize = 0;
            while k < num_viewers
                invariant
                    num_viewers != 1,
                    viewers_height == vertical_viewers_height_of(*resolution, num_viewers as nat),
                    k <= num_viewers,
                    viewers_positions@.len() == k,
                    forall|j: int| 0 <= j < k ==> #[trigger] viewers_positions@[j] == (Position {
                        x: speaker_width as i64,
                        y: (viewers_height * j) as i64,
                    }),
                decreases num_viewers - k,
            {
                proof {
                    vstd::arithmetic::div_mod::lemma_fundamental_div_mod(resolution.height as int, num_viewers as int);
                    vstd::arithmetic::div_mod::lemma_mod_pos_bound(resolution.height as int, num_viewers as int);
                    assert(viewers_height * k <= resolution.height) by (nonlinear_arith)
                        requires
                            k < num_viewers,
                            viewers_height == (resolution.height as int) / (num_viewers as int),
                            resolution.height as int == (num_viewers as int) * ((resolution.height as int) / (num_viewers as int))
                                + (resolution.height as int) % (num_viewers as int),
                            (resolution.height as int) % (num_viewers as int) >= 0,
                    ;
                }
                viewers_positions.push(Position { x: speaker_width as i64, y: (viewers_height * k) as i64 });
                k = k + 1;
            }
        }
        let single = num_viewers == 1;
        let few = num_viewers <= 1;
        Layout {
            size: Size { width: resolution.width, height: resolution.height },
            viewers_positions,
            viewers_size: if single {
                Size { width: resolution.width / 2, height: resolution.height / 2 }
            } else {
                Size { width: viewers_width, height: viewers_height }
            },
            speaker_position: if single {
                Position { x: 0, y: resolution.height as i64 / 4 }
            } else {
                Position { x: 0, y: resolution.height as i64 - speaker_height as i64 }
            },
            speaker_size: if single {
                Size { width: resolution.width / 2, height: resolution.height / 2 }
            } else {
                Size { width: speaker_width, height: speaker_height }
            },
            title_alignment: Alignment { horizontal: "left", vertical: "top" },
            title_position: Position { x: 0, y: 0 },
            speaking_alignment: Alignment {
                horizontal: "left",
                vertical: if few { "bottom" } else { "center" },
            },
            speaking_position: Position { x: 0, y: if few { 0 } else { -(speaker_height as i64 / 2) } },
            clock_alignment: Alignment { horizontal: "right", vertical: "bottom" },
            clock_position: Position {
                x: if few { 0 } else { -(viewers_width as i64) },
                y: if num_viewers == 0 { 0 } else { -(speaker_height as i64) },
            },
        }
    }
}

} // verus!
