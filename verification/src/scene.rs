//! The composition scene of a recording: which streams are known, their A/V status, and
//! which of them are visible in which order.
//!
//! The first visible stream takes the most prominent place of a layout. Screen shares take
//! priority over camera pictures, and a speaker is moved into focus.

use vstd::prelude::*;

use crate::error::Error;
use crate::media::{media_types, MediaDescriptor, MediaSessionState, MediaSessionType, ParticipantId};

verus! {

/// A known stream and its current A/V status.
#[derive(Debug, Clone, Copy, PartialEq, Eq, Structural)]
pub struct StreamEntry {
    /// The stream's identity.
    pub descriptor: MediaDescriptor,
    /// Its current status.
    pub status: MediaSessionState,
}

/// Abstract state of a [`Scene`].
pub struct SceneView {
    /// The known streams in the order they were added.
    pub streams: Seq<StreamEntry>,
    /// The visible streams; the first one is shown most prominently.
    pub visibles: Seq<MediaDescriptor>,
    /// The number of streams that shall be visible at most.
    pub max_visibles: nat,
    /// The participant who was most recently declared to be speaking.
    pub current_speaker: Option<ParticipantId>,
}

/// The descriptors of a sequence of stream entries.
pub open spec fn descriptors_of(streams: Seq<StreamEntry>) -> Seq<MediaDescriptor> {
    streams.map_values(|e: StreamEntry| e.descriptor)
}

/// The sequence without the element `d` (which occurs at most once in it).
pub open spec fn without(s: Seq<MediaDescriptor>, d: MediaDescriptor) -> Seq<MediaDescriptor> {
    if s.contains(d) {
        s.remove(s.index_of(d))
    } else {
        s
    }
}

/// The first screen share within a sequence of visibles.
pub open spec fn first_screen_capture(s: Seq<MediaDescriptor>) -> Option<MediaDescriptor>
    decreases s.len(),
{
    if s.len() == 0 {
        None
    } else if s[0].media_type == MediaSessionType::ScreenCapture {
        Some(s[0])
    } else {
        first_screen_capture(s.drop_first())
    }
}

/// Moves `d` to `position`, clamped to the length of the sequence; a stream that already
/// stands at that position stays where it is. A stream that is already in the sequence is
/// taken out first, and the position is clamped again to what is left.
pub open spec fn move_to(s: Seq<MediaDescriptor>, d: MediaDescriptor, position: int) -> Seq<
    MediaDescriptor,
> {
    let p = if position < s.len() {
        position
    } else {
        s.len() as int
    };
    if p < s.len() && s[p] == d {
        s
    } else {
        let w = without(s, d);
        let q = if p < w.len() { p } else { w.len() as int };
        w.insert(q, d)
    }
}

/// Moves `d` into the first position, unless it is visible already together with at most
/// one other stream (swapping two streams back and forth would only flicker).
pub open spec fn move_to_front(s: Seq<MediaDescriptor>, d: MediaDescriptor) -> Seq<
    MediaDescriptor,
> {
    if s.contains(d) && s.len() <= 2 {
        s
    } else {
        move_to(s, d, 0)
    }
}

/// The visibles after trying to show `d`: a camera picture is not shown when the maximum
/// of visibles is reached; a screen share instead replaces the last visible stream.
/// A screen share goes to the first position when no other screen share is visible,
/// everything else is appended.
pub open spec fn shown(s: Seq<MediaDescriptor>, max_visibles: nat, d: MediaDescriptor) -> Seq<
    MediaDescriptor,
> {
    let full = s.len() >= max_visibles;
    if full && d.media_type == MediaSessionType::Camera {
        s
    } else {
        let s1 = if full && s.len() > 0 {
            s.drop_last()
        } else {
            s
        };
        if s1.contains(d) {
            s1
        } else if d.media_type == MediaSessionType::ScreenCapture && first_screen_capture(
            s1,
        ).is_none() {
            seq![d] + s1
        } else {
            s1.push(d)
        }
    }
}


/// The visibles after the status of the known stream `d` changed from `old_status` to
/// `new_status`: a stream whose video is switched on is shown, one whose video is switched
/// off is hidden.
pub open spec fn visibles_after_status(
    v: SceneView,
    d: MediaDescriptor,
    old_status: MediaSessionState,
    new_status: MediaSessionState,
) -> Seq<MediaDescriptor> {
    if !old_status.video && new_status.video {
        shown(v.visibles, v.max_visibles, d)
    } else if old_status.video && !new_status.video {
        without(v.visibles, d)
    } else {
        v.visibles
    }
}

/// The visibles after `speaker` started to speak: a screen share of the speaker comes to
/// the front; the speaker's camera comes to the front when no screen share is visible,
/// otherwise into the second position. Only streams with video enabled are moved.
pub open spec fn visibles_after_speaker(v: SceneView, speaker: ParticipantId) -> Seq<MediaDescriptor> {
    let screen = MediaDescriptor { participant_id: speaker, media_type: MediaSessionType::ScreenCapture };
    let camera = MediaDescriptor { participant_id: speaker, media_type: MediaSessionType::Camera };
    let s1 = if v.has_video(screen) {
        move_to_front(v.visibles, screen)
    } else {
        v.visibles
    };
    if v.has_video(camera) {
        if first_screen_capture(s1).is_none() {
            move_to_front(s1, camera)
        } else {
            move_to(s1, camera, 1)
        }
    } else {
        s1
    }
}

/// The visibles after the stream `d` was removed: it disappears, and the first remaining
/// screen share is brought to the front.
pub open spec fn visibles_after_removal(s: Seq<MediaDescriptor>, d: MediaDescriptor) -> Seq<MediaDescriptor> {
    let s1 = without(s, d);
    match first_screen_capture(s1) {
        Some(screen) => move_to_front(s1, screen),
        None => s1,
    }
}

/// The visibles after showing the streams `ds` one after the other, starting from `s`.
pub open spec fn shown_all(s: Seq<MediaDescriptor>, max_visibles: nat, ds: Seq<MediaDescriptor>) -> Seq<MediaDescriptor>
    decreases ds.len(),
{
    if ds.len() == 0 {
        s
    } else {
        shown(shown_all(s, max_visibles, ds.drop_last()), max_visibles, ds.last())
    }
}

/// The order in which streams are laid out: the visibles first, then every other known
/// stream in the order they were added.
pub open spec fn render_order_of(v: SceneView) -> Seq<MediaDescriptor> {
    v.visibles + v.descriptors().filter(|x: MediaDescriptor| !v.visibles.contains(x))
}

impl SceneView {
    /// The descriptors of all known streams, in the order they were added.
    pub open spec fn descriptors(self) -> Seq<MediaDescriptor> {
        descriptors_of(self.streams)
    }

    /// Whether the stream `d` is known.
    pub open spec fn contains_stream(self, d: MediaDescriptor) -> bool {
        self.descriptors().contains(d)
    }

    /// The status of the known stream `d`.
    pub open spec fn status_of(self, d: MediaDescriptor) -> MediaSessionState {
        self.streams[self.descriptors().index_of(d)].status
    }

    /// Whether `d` is known and has video enabled.
    pub open spec fn has_video(self, d: MediaDescriptor) -> bool {
        self.contains_stream(d) && self.status_of(d).video
    }

    /// Well-formedness: every stream is known once, and every visible stream is visible
    /// once.
    pub open spec fn wf(self) -> bool {
        &&& self.descriptors().no_duplicates()
        &&& self.visibles.no_duplicates()
    }
}

/// The fields of a [`Scene`].
struct SceneState {
    streams: Vec<StreamEntry>,
    visibles: Vec<MediaDescriptor>,
    max_visibles: usize,
    current_speaker: Option<ParticipantId>,
}

impl View for SceneState {
    type V = SceneView;

    closed spec fn view(&self) -> SceneView {
        SceneView {
            streams: self.streams@,
            visibles: self.visibles@,
            max_visibles: self.max_visibles as nat,
            current_speaker: self.current_speaker,
        }
    }
}

/// In a sequence without duplicates, the index of an element is where it stands.
pub proof fn lemma_unique_index(s: Seq<MediaDescriptor>, i: int)
    requires
        s.no_duplicates(),
        0 <= i < s.len(),
    ensures
        s.contains(s[i]),
        s.index_of(s[i]) == i,
{
    assert(s.contains(s[i]));
    let j = s.index_of(s[i]);
    assert(0 <= j < s.len() && s[j] == s[i]);
}

/// Removing an element keeps a sequence free of duplicates, and keeps every other element.
pub proof fn lemma_without(s: Seq<MediaDescriptor>, d: MediaDescriptor)
    requires
        s.no_duplicates(),
    ensures
        without(s, d).no_duplicates(),
        !without(s, d).contains(d),
        forall|x: MediaDescriptor| x != d ==> (without(s, d).contains(x) <==> s.contains(x)),
        s.contains(d) ==> without(s, d).len() == s.len() - 1,
        !s.contains(d) ==> without(s, d) == s,
{
    if s.contains(d) {
        let i = s.index_of(d);
        let r = s.remove(i);
        assert forall|a: int, b: int| 0 <= a < r.len() && 0 <= b < r.len() && a != b implies r[a]
            != r[b] by {
            let a1 = if a < i { a } else { a + 1 };
            let b1 = if b < i { b } else { b + 1 };
            assert(r[a] == s[a1] && r[b] == s[b1]);
        }
        assert forall|x: MediaDescriptor| x != d implies (r.contains(x) <==> s.contains(x)) by {
            if s.contains(x) {
                let k = choose|k: int| 0 <= k < s.len() && s[k] == x;
                assert(k != i);
                if k < i {
                    assert(r[k] == x);
                } else {
                    assert(r[k - 1] == x);
                }
            }
            if r.contains(x) {
                let k = choose|k: int| 0 <= k < r.len() && r[k] == x;
                if k < i {
                    assert(s[k] == x);
                } else {
                    assert(s[k + 1] == x);
                }
            }
        }
        if r.contains(d) {
            let k = choose|k: int| 0 <= k < r.len() && r[k] == d;
            if k < i {
                assert(s[k] == d);
            } else {
                assert(s[k + 1] == d);
            }
        }
    }
}


/// Position of `d` within `v`.
fn position_of(v: &Vec<MediaDescriptor>, d: MediaDescriptor) -> (r: Option<usize>)
    ensures
        match r {
            Some(i) => i < v@.len() && v@[i as int] == d,
            None => !v@.contains(d),
        },
{
    let mut i: usize = 0;
    while i < v.len()
        invariant
            i <= v@.len(),
            forall|j: int| 0 <= j < i ==> v@[j] != d,
        decreases v@.len() - i,
    {
        if v[i] == d {
            return Some(i);
        }
        i = i + 1;
    }
    None
}

/// Whether two sequences of descriptors are equal.
fn same_sequence(a: &Vec<MediaDescriptor>, b: &Vec<MediaDescriptor>) -> (r: bool)
    ensures
        r == (a@ == b@),
{
    if a.len() != b.len() {
        return false;
    }
    let mut i: usize = 0;
    while i < a.len()
        invariant
            a@.len() == b@.len(),
            i <= a@.len(),
            forall|j: int| 0 <= j < i ==> a@[j] == b@[j],
        decreases a@.len() - i,
    {
        if a[i] != b[i] {
            return false;
        }
        i = i + 1;
    }
    assert(a@ =~= b@);
    true
}

/// A copy of a sequence of descriptors.
fn copy_descriptors(v: &Vec<MediaDescriptor>) -> (r: Vec<MediaDescriptor>)
    ensures
        r@ == v@,
{
    let mut r: Vec<MediaDescriptor> = Vec::new();
    let mut i: usize = 0;
    while i < v.len()
        invariant
            i <= v@.len(),
            r@ == v@.subrange(0, i as int),
        decreases v@.len() - i,
    {
        r.push(v[i]);
        i = i + 1;
        assert(r@ =~= v@.subrange(0, i as int));
    }
    assert(v@.subrange(0, v@.len() as int) =~= v@);
    r
}

/// The first screen share within `v`.
fn first_screen_in(v: &Vec<MediaDescriptor>) -> (r: Option<MediaDescriptor>)
    ensures
        r == first_screen_capture(v@),
{
    let mut i: usize = 0;
    assert(v@.skip(0) =~= v@);
    while i < v.len()
        invariant
            i <= v@.len(),
            first_screen_capture(v@) == first_screen_capture(v@.skip(i as int)),
        decreases v@.len() - i,
    {
        if v[i].is_screen_capture() {
            return Some(v[i]);
        }
        assert(v@.skip(i as int).drop_first() =~= v@.skip(i + 1));
        i = i + 1;
    }
    assert(v@.skip(i as int).len() == 0);
    None
}


/// The first screen share of a sequence is one of its elements, and it is a screen share.
pub proof fn lemma_first_screen_capture(s: Seq<MediaDescriptor>)
    ensures
        first_screen_capture(s) matches Some(x) ==> s.contains(x) && x.media_type
            == MediaSessionType::ScreenCapture,
        first_screen_capture(s) is None ==> forall|i: int|
            0 <= i < s.len() ==> (#[trigger] s[i]).media_type == MediaSessionType::Camera,
    decreases s.len(),
{
    if s.len() > 0 {
        lemma_first_screen_capture(s.drop_first());
        if s[0].media_type != MediaSessionType::ScreenCapture {
            if let Some(x) = first_screen_capture(s.drop_first()) {
                let k = choose|k: int| 0 <= k < s.drop_first().len() && s.drop_first()[k] == x;
                assert(s[k + 1] == x);
            } else {
                assert forall|i: int| 0 <= i < s.len() implies (#[trigger] s[i]).media_type
                    == MediaSessionType::Camera by {
                    if i > 0 {
                        assert(s[i] == s.drop_first()[i - 1]);
                    }
                }
            }
        } else {
            assert(s[0] == s[0]);
        }
    }
}

/// Moving a stream keeps a sequence free of duplicates and adds nothing but that stream.
pub proof fn lemma_move_to(s: Seq<MediaDescriptor>, d: MediaDescriptor, position: int)
    requires
        s.no_duplicates(),
        0 <= position,
    ensures
        move_to(s, d, position).no_duplicates(),
        move_to(s, d, position).contains(d),
        forall|x: MediaDescriptor| x != d ==> (move_to(s, d, position).contains(x) <==> s.contains(x)),
{
    let p = if position < s.len() { position } else { s.len() as int };
    if p < s.len() && s[p] == d {
        assert(s.contains(d));
    } else {
        lemma_without(s, d);
        let w = without(s, d);
        let p = if p < w.len() { p } else { w.len() as int };
        let r = w.insert(p, d);
        w.insert_ensures(p, d);
        assert(r[p] == d);
        assert forall|a: int, b: int| 0 <= a < r.len() && 0 <= b < r.len() && a != b implies r[a]
            != r[b] by {
            if a == p {
                if b < p { assert(r[b] == w[b]); } else { assert(r[b] == w[b - 1]); }
            } else if b == p {
                if a < p { assert(r[a] == w[a]); } else { assert(r[a] == w[a - 1]); }
            } else {
                let a1 = if a < p { a } else { a - 1 };
                let b1 = if b < p { b } else { b - 1 };
                assert(r[a] == w[a1] && r[b] == w[b1]);
            }
        }
        assert forall|x: MediaDescriptor| x != d implies (r.contains(x) <==> s.contains(x)) by {
            if w.contains(x) {
                let k = choose|k: int| 0 <= k < w.len() && w[k] == x;
                if k < p { assert(r[k] == x); } else { assert(r[k + 1] == x); }
            }
            if r.contains(x) {
                let k = choose|k: int| 0 <= k < r.len() && r[k] == x;
                assert(k != p);
                if k < p { assert(w[k] == x); } else { assert(w[k - 1] == x); }
            }
        }
    }
}


/// Showing a stream never lets the visibles grow beyond the maximum (of at least one).
pub proof fn law_show_respects_maximum(s: Seq<MediaDescriptor>, max_visibles: nat, d: MediaDescriptor)
    requires
        s.len() <= max_visibles,
        max_visibles >= 1,
    ensures
        shown(s, max_visibles, d).len() <= max_visibles,
{
}

/// A screen share that is shown while no screen share is visible takes the first position.
pub proof fn law_screen_share_goes_first(s: Seq<MediaDescriptor>, max_visibles: nat, d: MediaDescriptor)
    requires
        d.media_type == MediaSessionType::ScreenCapture,
        first_screen_capture(s).is_none(),
        !s.contains(d),
    ensures
        shown(s, max_visibles, d).len() > 0,
        shown(s, max_visibles, d)[0] == d,
{
    lemma_first_screen_capture(s);
    if s.len() >= max_visibles && s.len() > 0 {
        let s1 = s.drop_last();
        lemma_first_screen_capture(s1);
        if let Some(x) = first_screen_capture(s1) {
            let k = choose|k: int| 0 <= k < s1.len() && s1[k] == x;
            assert(s[k] == x);
        }
        assert(!s1.contains(d)) by {
            if s1.contains(d) {
                let k = choose|k: int| 0 <= k < s1.len() && s1[k] == d;
                assert(s[k] == d);
            }
        }
    }
}

/// Hiding a stream that was just shown below the maximum restores the visibles.
pub proof fn law_hide_undoes_show(s: Seq<MediaDescriptor>, max_visibles: nat, d: MediaDescriptor)
    requires
        s.no_duplicates(),
        s.len() < max_visibles,
        !s.contains(d),
    ensures
        without(shown(s, max_visibles, d), d) == s,
{
    let r = shown(s, max_visibles, d);
    if d.media_type == MediaSessionType::ScreenCapture && first_screen_capture(s).is_none() {
        assert(r =~= seq![d] + s);
        assert(r[0] == d);
        lemma_unique_index_general(r, 0, d);
        assert(r.remove(0) =~= s);
    } else {
        assert(r =~= s.push(d));
        lemma_unique_index_general(r, s.len() as int, d);
        assert(r.remove(s.len() as int) =~= s);
    }
}

/// The index of the only occurrence of `d`.
proof fn lemma_unique_index_general(s: Seq<MediaDescriptor>, i: int, d: MediaDescriptor)
    requires
        0 <= i < s.len(),
        s[i] == d,
        forall|j: int| 0 <= j < s.len() && j != i ==> s[j] != d,
    ensures
        s.contains(d),
        s.index_of(d) == i,
{
    assert(s.contains(d));
}

/// After a participant started to speak, each of its streams with video enabled is visible.
pub proof fn law_speaker_is_visible(v: SceneView, speaker: ParticipantId)
    requires
        v.wf(),
    ensures
        ({
            let screen = MediaDescriptor { participant_id: speaker, media_type: MediaSessionType::ScreenCapture };
            let camera = MediaDescriptor { participant_id: speaker, media_type: MediaSessionType::Camera };
            &&& v.has_video(screen) ==> visibles_after_speaker(v, speaker).contains(screen)
            &&& v.has_video(camera) ==> visibles_after_speaker(v, speaker).contains(camera)
        }),
{
    let screen = MediaDescriptor { participant_id: speaker, media_type: MediaSessionType::ScreenCapture };
    let camera = MediaDescriptor { participant_id: speaker, media_type: MediaSessionType::Camera };
    let s0 = v.visibles;
    let s1 = if v.has_video(screen) { move_to_front(s0, screen) } else { s0 };
    if v.has_video(screen) {
        if !(s0.contains(screen) && s0.len() <= 2) {
            lemma_move_to(s0, screen, 0);
        }
    }
    assert(s1.no_duplicates()) by {
        if v.has_video(screen) && !(s0.contains(screen) && s0.len() <= 2) {
            lemma_move_to(s0, screen, 0);
        }
    }
    if v.has_video(camera) {
        if first_screen_capture(s1).is_none() {
            if !(s1.contains(camera) && s1.len() <= 2) {
                lemma_move_to(s1, camera, 0);
            }
        } else {
            lemma_first_screen_capture(s1);
            if s1.contains(camera) && s1.len() <= 1 {
                let x = first_screen_capture(s1)->0;
                let k = choose|k: int| 0 <= k < s1.len() && s1[k] == x;
                let c = choose|c: int| 0 <= c < s1.len() && s1[c] == camera;
                assert(k == 0 && c == 0);
            }
            lemma_move_to(s1, camera, 1);
            assert forall|x: MediaDescriptor| x != camera && s1.contains(x) implies move_to(s1, camera, 1).contains(x) by {}
        }
    }
}


/// Moving a stream to the front puts it at index zero.
proof fn lemma_move_to_first(s: Seq<MediaDescriptor>, d: MediaDescriptor)
    requires
        s.no_duplicates(),
    ensures
        move_to(s, d, 0).len() >= 1,
        move_to(s, d, 0)[0] == d,
{
    if !(0 < s.len() && s[0] == d) {
        let w = without(s, d);
        w.insert_ensures(0, d);
    }
}

/// Moving a stream to the second place puts it at index one, when another stream is there
/// to stand in front of it.
proof fn lemma_move_to_second(s: Seq<MediaDescriptor>, d: MediaDescriptor, x: MediaDescriptor)
    requires
        s.no_duplicates(),
        s.contains(x),
        x != d,
    ensures
        move_to(s, d, 1).len() >= 2,
        move_to(s, d, 1)[1] == d,
        s.len() >= 1 && s[0] != d ==> move_to(s, d, 1)[0] == s[0],
{
    let p = if 1 < s.len() { 1int } else { s.len() as int };
    lemma_without(s, d);
    let w = without(s, d);
    assert(w.contains(x));
    if p < s.len() && s[p] == d {
        assert(s[1] == d);
        assert(s.len() >= 2);
    } else {
        assert(p == 1);
        assert(w.len() >= 1);
        w.insert_ensures(1, d);
        if s.len() >= 1 && s[0] != d && s.contains(d) {
            let i = s.index_of(d);
            assert(i != 0);
            assert(w == s.remove(i));
            assert(w[0] == s[0]);
        }
    }
}

/// A sequence that holds a screen share has a first screen share.
proof fn lemma_has_screen_capture(s: Seq<MediaDescriptor>, x: MediaDescriptor)
    requires
        s.contains(x),
        x.media_type == MediaSessionType::ScreenCapture,
    ensures
        first_screen_capture(s) is Some,
{
    lemma_first_screen_capture(s);
    if first_screen_capture(s) is None {
        let k = choose|k: int| 0 <= k < s.len() && s[k] == x;
        assert(s[k].media_type == MediaSessionType::Camera);
    }
}

/// When a participant starts to speak, its screen share with video comes to the very
/// front, unless it is already visible together with at most one other stream.
pub proof fn law_speaker_screen_share_goes_first(v: SceneView, speaker: ParticipantId)
    requires
        v.wf(),
    ensures
        ({
            let screen = MediaDescriptor { participant_id: speaker, media_type: MediaSessionType::ScreenCapture };
            let r = visibles_after_speaker(v, speaker);
            v.has_video(screen) && !(v.visibles.contains(screen) && v.visibles.len() <= 2)
                ==> r.len() >= 1 && r[0] == screen
        }),
{
    let screen = MediaDescriptor { participant_id: speaker, media_type: MediaSessionType::ScreenCapture };
    let camera = MediaDescriptor { participant_id: speaker, media_type: MediaSessionType::Camera };
    let s0 = v.visibles;
    if v.has_video(screen) && !(s0.contains(screen) && s0.len() <= 2) {
        let s1 = move_to_front(s0, screen);
        lemma_move_to_first(s0, screen);
        lemma_move_to(s0, screen, 0);
        assert(s1[0] == screen);
        assert(first_screen_capture(s1) == Some(screen));
        if v.has_video(camera) {
            lemma_move_to_second(s1, camera, screen);
        }
    }
}

/// When a participant starts to speak while a screen share is visible or its own screen
/// share has video, its camera with video stands second, behind a stream in front.
pub proof fn law_speaker_camera_goes_second_behind_screen_share(v: SceneView, speaker: ParticipantId)
    requires
        v.wf(),
    ensures
        ({
            let screen = MediaDescriptor { participant_id: speaker, media_type: MediaSessionType::ScreenCapture };
            let camera = MediaDescriptor { participant_id: speaker, media_type: MediaSessionType::Camera };
            let r = visibles_after_speaker(v, speaker);
            v.has_video(camera) && (v.has_video(screen) || first_screen_capture(v.visibles) is Some)
                ==> r.len() >= 2 && r[1] == camera
        }),
{
    let screen = MediaDescriptor { participant_id: speaker, media_type: MediaSessionType::ScreenCapture };
    let camera = MediaDescriptor { participant_id: speaker, media_type: MediaSessionType::Camera };
    let s0 = v.visibles;
    if v.has_video(camera) && (v.has_video(screen) || first_screen_capture(s0) is Some) {
        let s1 = if v.has_video(screen) { move_to_front(s0, screen) } else { s0 };
        lemma_move_to(s0, screen, 0);
        assert(s1.no_duplicates());
        let x = if v.has_video(screen) {
            screen
        } else {
            lemma_first_screen_capture(s0);
            first_screen_capture(s0)->0
        };
        assert(s1.contains(x) && x.media_type == MediaSessionType::ScreenCapture);
        lemma_has_screen_capture(s1, x);
        lemma_move_to_second(s1, camera, x);
    }
}

/// When a participant starts to speak while no screen share is visible and its screen share
/// has no video, its camera with video comes to the very front, unless it is already
/// visible together with at most one other stream.
pub proof fn law_speaker_camera_goes_first_without_screen_share(v: SceneView, speaker: ParticipantId)
    requires
        v.wf(),
    ensures
        ({
            let screen = MediaDescriptor { participant_id: speaker, media_type: MediaSessionType::ScreenCapture };
            let camera = MediaDescriptor { participant_id: speaker, media_type: MediaSessionType::Camera };
            let r = visibles_after_speaker(v, speaker);
            v.has_video(camera) && !v.has_video(screen) && first_screen_capture(v.visibles) is None
                && !(v.visibles.contains(camera) && v.visibles.len() <= 2) ==> r.len() >= 1 && r[0] == camera
        }),
{
    let camera = MediaDescriptor { participant_id: speaker, media_type: MediaSessionType::Camera };
    lemma_move_to_first(v.visibles, camera);
}

/// After a stream is removed, the first remaining screen share stands at the very front,
/// whatever kind of stream was removed, unless at most two streams remain visible.
pub proof fn law_removal_brings_screen_share_first(s: Seq<MediaDescriptor>, d: MediaDescriptor)
    requires
        s.no_duplicates(),
    ensures
        ({
            let rest = without(s, d);
            let r = visibles_after_removal(s, d);
            first_screen_capture(rest) is Some && rest.len() > 2
                ==> r.len() >= 1 && r[0] == first_screen_capture(rest)->0
        }),
{
    let rest = without(s, d);
    lemma_without(s, d);
    if let Some(x) = first_screen_capture(rest) {
        lemma_move_to_first(rest, x);
    }
}

/// Adding a stream that is not in a sequence without duplicates, in front or at the end,
/// keeps it without duplicates and adds just that stream.
proof fn lemma_add_new(s: Seq<MediaDescriptor>, d: MediaDescriptor, front: bool)
    requires
        s.no_duplicates(),
        !s.contains(d),
    ensures
        ({
            let r = if front { seq![d] + s } else { s.push(d) };
            &&& r.no_duplicates()
            &&& r.len() == s.len() + 1
            &&& forall|x: MediaDescriptor| r.contains(x) <==> (s.contains(x) || x == d)
        }),
{
    let r = if front { seq![d] + s } else { s.push(d) };
    let off: int = if front { 1 } else { 0 };
    let at: int = if front { 0 } else { s.len() as int };
    assert(r[at] == d);
    assert(forall|i: int| 0 <= i < s.len() ==> r[i + off] == s[i]);
    assert forall|a: int, b: int| 0 <= a < r.len() && 0 <= b < r.len() && a != b implies r[a] != r[b] by {
        if a == at {
            assert(s[b - off] == r[b]);
        } else if b == at {
            assert(s[a - off] == r[a]);
        } else {
            assert(s[a - off] == r[a] && s[b - off] == r[b]);
        }
    }
    assert forall|x: MediaDescriptor| r.contains(x) <==> (s.contains(x) || x == d) by {
        if r.contains(x) {
            let k = choose|k: int| 0 <= k < r.len() && r[k] == x;
            if k != at {
                assert(s[k - off] == x);
            }
        }
        if s.contains(x) {
            let k = choose|k: int| 0 <= k < s.len() && s[k] == x;
            assert(r[k + off] == x);
        }
    }
}

/// A stream whose video is switched on becomes visible while the maximum of visibles is
/// not reached; a stream whose video is switched off is no longer visible.
pub proof fn law_video_switch_shows_and_hides(
    v: SceneView,
    d: MediaDescriptor,
    old_status: MediaSessionState,
    new_status: MediaSessionState,
)
    requires
        v.wf(),
    ensures
        !old_status.video && new_status.video && v.visibles.len() < v.max_visibles
            ==> visibles_after_status(v, d, old_status, new_status).contains(d),
        old_status.video && !new_status.video ==> !visibles_after_status(v, d, old_status, new_status).contains(d),
        old_status.video == new_status.video ==> visibles_after_status(v, d, old_status, new_status) == v.visibles,
{
    lemma_without(v.visibles, d);
    if !old_status.video && new_status.video && v.visibles.len() < v.max_visibles && !v.visibles.contains(d) {
        let front = d.media_type == MediaSessionType::ScreenCapture && first_screen_capture(v.visibles).is_none();
        lemma_add_new(v.visibles, d, front);
    }
}

/// Showing streams one after the other, starting from none and never more than the
/// maximum, makes exactly these streams visible, each once.
pub proof fn law_showing_in_turn_shows_exactly(max_visibles: nat, ds: Seq<MediaDescriptor>)
    requires
        ds.len() <= max_visibles,
    ensures
        ({
            let r = shown_all(Seq::empty(), max_visibles, ds);
            &&& r.no_duplicates()
            &&& r.len() <= ds.len()
            &&& forall|x: MediaDescriptor| r.contains(x) <==> ds.contains(x)
        }),
    decreases ds.len(),
{
    if ds.len() > 0 {
        let init = ds.drop_last();
        let d = ds.last();
        law_showing_in_turn_shows_exactly(max_visibles, init);
        let r0 = shown_all(Seq::empty(), max_visibles, init);
        assert(forall|x: MediaDescriptor| ds.contains(x) <==> (init.contains(x) || x == d)) by {
            assert forall|x: MediaDescriptor| ds.contains(x) <==> (init.contains(x) || x == d) by {
                if ds.contains(x) {
                    let k = choose|k: int| 0 <= k < ds.len() && ds[k] == x;
                    if k < ds.len() - 1 {
                        assert(init[k] == x);
                    }
                }
                if init.contains(x) {
                    let k = choose|k: int| 0 <= k < init.len() && init[k] == x;
                    assert(ds[k] == x);
                }
                assert(ds[ds.len() - 1] == d);
            }
        }
        if !r0.contains(d) {
            let front = d.media_type == MediaSessionType::ScreenCapture && first_screen_capture(r0).is_none();
            lemma_add_new(r0, d, front);
        }
    } else {
        assert(shown_all(Seq::empty(), max_visibles, ds) =~= Seq::<MediaDescriptor>::empty());
    }
}

/// A removed stream is neither known nor visible any more.
pub proof fn law_removed_stream_is_gone(v: SceneView, d: MediaDescriptor)
    requires
        v.wf(),
        v.contains_stream(d),
    ensures
        !descriptors_of(v.streams.remove(v.descriptors().index_of(d))).contains(d),
        !visibles_after_removal(v.visibles, d).contains(d),
{
    let i = v.descriptors().index_of(d);
    assert(descriptors_of(v.streams.remove(i)) =~= v.descriptors().remove(i));
    lemma_without(v.descriptors(), d);
    lemma_without(v.visibles, d);
    let s1 = without(v.visibles, d);
    if let Some(screen) = first_screen_capture(s1) {
        lemma_first_screen_capture(s1);
        assert(screen != d);
        if !(s1.contains(screen) && s1.len() <= 2) {
            lemma_move_to(s1, screen, 0);
        }
    }
}

/// Every known or visible stream is laid out exactly once.
pub proof fn law_render_order_covers_streams(v: SceneView)
    requires
        v.wf(),
    ensures
        render_order_of(v).no_duplicates(),
        forall|x: MediaDescriptor| render_order_of(v).contains(x) <==> (v.contains_stream(x) || v.visibles.contains(x)),
{
    let pred = |x: MediaDescriptor| !v.visibles.contains(x);
    let f = v.descriptors().filter(pred);
    let r = render_order_of(v);
    assert(r == v.visibles + f);
    assert(f.no_duplicates()) by {
        lemma_filter_no_duplicates(v.descriptors(), pred);
    }
    assert forall|a: int, b: int| 0 <= a < r.len() && 0 <= b < r.len() && a != b implies r[a] != r[b] by {
        if a < v.visibles.len() && b >= v.visibles.len() {
            v.descriptors().lemma_filter_pred(pred, b - v.visibles.len());
            assert(pred(f[b - v.visibles.len()]));
            assert(v.visibles.contains(r[a]));
        } else if b < v.visibles.len() && a >= v.visibles.len() {
            v.descriptors().lemma_filter_pred(pred, a - v.visibles.len());
            assert(pred(f[a - v.visibles.len()]));
            assert(v.visibles.contains(r[b]));
        } else if a >= v.visibles.len() {
            assert(r[a] == f[a - v.visibles.len()] && r[b] == f[b - v.visibles.len()]);
        }
    }
    assert forall|x: MediaDescriptor| r.contains(x) <==> (v.contains_stream(x) || v.visibles.contains(x)) by {
        if v.visibles.contains(x) {
            let k = choose|k: int| 0 <= k < v.visibles.len() && v.visibles[k] == x;
            assert(r[k] == x);
        }
        if r.contains(x) {
            let k = choose|k: int| 0 <= k < r.len() && r[k] == x;
            if k < v.visibles.len() {
                assert(v.visibles[k] == x);
            } else {
                assert(f[k - v.visibles.len()] == x);
                assert(f.contains(x));
                v.descriptors().lemma_filter_contains_rev(pred, x);
            }
        }
        if v.contains_stream(x) {
            if v.visibles.contains(x) {
                let k = choose|k: int| 0 <= k < v.visibles.len() && v.visibles[k] == x;
                assert(r[k] == x);
            } else {
                assert(pred(x));
                let j = choose|j: int| 0 <= j < v.descriptors().len() && v.descriptors()[j] == x;
                v.descriptors().lemma_filter_contains(pred, j);
                assert(f.contains(x));
                let k = choose|k: int| 0 <= k < f.len() && f[k] == x;
                assert(r[k + v.visibles.len()] == x);
            }
        }
    }
}

/// Filtering keeps a sequence free of duplicates.
proof fn lemma_filter_no_duplicates(s: Seq<MediaDescriptor>, pred: spec_fn(MediaDescriptor) -> bool)
    requires
        s.no_duplicates(),
    ensures
        s.filter(pred).no_duplicates(),
    decreases s.len(),
{
    reveal_with_fuel(Seq::filter, 1);
    if s.len() > 0 {
        let t = s.drop_last();
        assert(t.no_duplicates()) by {
            assert forall|a: int, b: int| 0 <= a < t.len() && 0 <= b < t.len() && a != b implies t[a] != t[b] by {
                assert(t[a] == s[a] && t[b] == s[b]);
            }
        }
        lemma_filter_no_duplicates(t, pred);
        assert(s =~= t.push(s.last()));
        t.lemma_filter_push(s.last(), pred);
        if pred(s.last()) {
            let f = t.filter(pred);
            assert(!f.contains(s.last())) by {
                if f.contains(s.last()) {
                    let k = choose|k: int| 0 <= k < f.len() && f[k] == s.last();
                    assert(f.contains(f[k]));
                    t.lemma_filter_contains_rev(pred, f[k]);
                    assert(t.contains(f[k]));
                    let j = choose|j: int| 0 <= j < t.len() && t[j] == s.last();
                    assert(s[j] == s[s.len() - 1]);
                }
            }
            let g = f.push(s.last());
            assert forall|a: int, b: int| 0 <= a < g.len() && 0 <= b < g.len() && a != b implies g[a] != g[b] by {
                if a == f.len() {
                    assert(f.contains(g[b]) || b == a);
                } else if b == f.len() {
                    assert(f.contains(g[a]));
                }
            }
        }
    }
}

impl SceneState {
    /// An empty scene showing at most `max_visibles` streams.
    fn new(max_visibles: usize) -> (s: Self)
        ensures
            s@.wf(),
            s@.streams == Seq::<StreamEntry>::empty(),
            s@.visibles == Seq::<MediaDescriptor>::empty(),
            s@.max_visibles == max_visibles,
            s@.current_speaker is None,
    {
        let s = SceneState { streams: Vec::new(), visibles: Vec::new(), max_visibles, current_speaker: None };
        assert(s@.descriptors() =~= Seq::<MediaDescriptor>::empty());
        s
    }

    /// Maximum number of visible streams.
    fn max_visibles(&self) -> (n: usize)
        ensures
            n == self@.max_visibles,
    {
        self.max_visibles
    }

    /// Index of the known stream `d`.
    fn find_stream(&self, d: MediaDescriptor) -> (r: Option<usize>)
        requires
            self@.wf(),
        ensures
            match r {
                Some(i) => i < self@.streams.len() && self@.streams[i as int].descriptor == d
                    && self@.contains_stream(d) && self@.descriptors().index_of(d) == i,
                None => !self@.contains_stream(d),
            },
    {
        let mut i: usize = 0;
        while i < self.streams.len()
            invariant
                self@.wf(),
                i <= self@.streams.len(),
                forall|j: int| 0 <= j < i ==> self@.streams[j].descriptor != d,
            decreases self@.streams.len() - i,
        {
            if self.streams[i].descriptor == d {
                proof {
                    assert(self@.descriptors()[i as int] == d);
                    lemma_unique_index(self@.descriptors(), i as int);
                }
                return Some(i);
            }
            i = i + 1;
        }
        proof {
            if self@.contains_stream(d) {
                let k = choose|k: int| 0 <= k < self@.descriptors().len() && self@.descriptors()[k] == d;
                assert(self@.streams[k].descriptor == d);
            }
        }
        None
    }

    /// Whether the stream `d` is known.
    fn contains_stream(&self, d: MediaDescriptor) -> (b: bool)
        requires
            self@.wf(),
        ensures
            b == self@.contains_stream(d),
    {
        self.find_stream(d).is_some()
    }

    /// The status of the stream `d`, if it is known.
    fn status(&self, d: MediaDescriptor) -> (r: Option<MediaSessionState>)
        requires
            self@.wf(),
        ensures
            r == (if self@.contains_stream(d) { Some(self@.status_of(d)) } else { None }),
    {
        match self.find_stream(d) {
            Some(i) => Some(self.streams[i].status),
            None => None,
        }
    }

    /// Whether the stream `d` is visible.
    fn is_visible(&self, d: MediaDescriptor) -> (b: bool)
        ensures
            b == self@.visibles.contains(d),
    {
        position_of(&self.visibles, d).is_some()
    }

    /// The first visible screen share.
    fn get_first_screen_capture(&self) -> (r: Option<MediaDescriptor>)
        ensures
            r == first_screen_capture(self@.visibles),
    {
        first_screen_in(&self.visibles)
    }


    /// Removes `d` from the visibles, wherever it stands.
    fn drop_visible(&mut self, d: MediaDescriptor)
        requires
            old(self)@.visibles.no_duplicates(),
        ensures
            final(self)@ == (SceneView { visibles: without(old(self)@.visibles, d), ..old(self)@ }),
    {
        match position_of(&self.visibles, d) {
            Some(i) => {
                proof {
                    lemma_unique_index(self@.visibles, i as int);
                }
                self.visibles.remove(i);
            },
            None => {},
        }
    }

    /// Moves the stream `d` to `position` among the visibles (clamped to their number).
    fn move_visible(&mut self, d: MediaDescriptor, position: usize)
        requires
            old(self)@.wf(),
        ensures
            final(self)@.wf(),
            final(self)@.visibles.no_duplicates(),
            final(self)@ == (SceneView {
                visibles: move_to(old(self)@.visibles, d, position as int),
                ..old(self)@
            }),
    {
        proof {
            lemma_move_to(self@.visibles, d, position as int);
        }
        let ghost old_visibles = self@.visibles;
        let p = if position < self.visibles.len() { position } else { self.visibles.len() };
        if p < self.visibles.len() && self.visibles[p] == d {
            return;
        }
        proof {
            lemma_without(self@.visibles, d);
        }
        self.drop_visible(d);
        let q = if p < self.visibles.len() { p } else { self.visibles.len() };
        self.visibles.insert(q, d);
        proof {
            if old(self)@.contains_stream(d) {
            }
        }
    }

    /// Moves the stream `d` into the first position, unless it is visible already together
    /// with at most one other stream.
    fn move_visible_to_front(&mut self, d: MediaDescriptor)
        requires
            old(self)@.wf(),
        ensures
            final(self)@.wf(),
            final(self)@.visibles.no_duplicates(),
            final(self)@ == (SceneView {
                visibles: move_to_front(old(self)@.visibles, d),
                ..old(self)@
            }),
    {
        if self.is_visible(d) && self.visibles.len() <= 2 {
            return;
        }
        self.move_visible(d, 0);
    }

    /// Makes exactly the known streams among `ds` visible, shown one after the other in
    /// this order; unknown streams are passed over.
    ///
    /// Refuses while the pipeline is `playing` with [`Error::PlayingPipelineForbidden`], and
    /// more streams than the maximum of visibles with [`Error::TooManyVisibles`]; the
    /// visibles stay as they are then.
    fn set_visibles(&mut self, ds: &[MediaDescriptor], playing: bool) -> (r: Result<(), Error<MediaDescriptor>>)
        requires
            old(self)@.wf(),
        ensures
            final(self)@.wf(),
            playing ==> r == Err::<(), Error<MediaDescriptor>>(Error::PlayingPipelineForbidden)
                && final(self)@ == old(self)@,
            !playing && ds@.len() > old(self)@.max_visibles ==> r == Err::<(), Error<MediaDescriptor>>(
                Error::TooManyVisibles,
            ) && final(self)@ == old(self)@,
            !playing && ds@.len() <= old(self)@.max_visibles ==> r is Ok && final(self)@ == (SceneView {
                visibles: shown_all(
                    Seq::empty(),
                    old(self)@.max_visibles,
                    ds@.filter(|x: MediaDescriptor| old(self)@.contains_stream(x)),
                ),
                ..old(self)@
            }),
    {
        if playing {
            return Err(Error::PlayingPipelineForbidden);
        }
        if ds.len() > self.max_visibles {
            return Err(Error::TooManyVisibles);
        }
        let ghost before = self@;
        let ghost known = |x: MediaDescriptor| before.contains_stream(x);
        self.visibles = Vec::new();
        assert(self@.visibles =~= Seq::<MediaDescriptor>::empty());
        assert(ds@.take(0).filter(known) =~= Seq::<MediaDescriptor>::empty()) by {
            reveal_with_fuel(Seq::filter, 1);
            assert(ds@.take(0) =~= Seq::<MediaDescriptor>::empty());
        }
        let mut i: usize = 0;
        while i < ds.len()
            invariant
                self@.wf(),
                i <= ds@.len(),
                before.wf(),
                known == (|x: MediaDescriptor| before.contains_stream(x)),
                self@ == (SceneView {
                    visibles: shown_all(Seq::empty(), before.max_visibles, ds@.take(i as int).filter(known)),
                    ..before
                }),
            decreases ds@.len() - i,
        {
            let d = ds[i];
            proof {
                assert(ds@.take(i + 1) =~= ds@.take(i as int).push(d));
                ds@.take(i as int).lemma_filter_push(d, known);
            }
            if self.contains_stream(d) {
                let _ = self.show_stream(d);
                proof {
                    let f = ds@.take(i as int).filter(known).push(d);
                    assert(f.drop_last() =~= ds@.take(i as int).filter(known));
                }
            }
            i = i + 1;
        }
        assert(ds@.take(ds@.len() as int) =~= ds@);
        Ok(())
    }

    /// Hides the stream `d`. Returns whether the visibles changed.
    fn hide_stream(&mut self, d: MediaDescriptor) -> (changed: bool)
        requires
            old(self)@.wf(),
        ensures
            final(self)@.wf(),
            final(self)@ == (SceneView { visibles: without(old(self)@.visibles, d), ..old(self)@ }),
            changed == old(self)@.visibles.contains(d),
            changed == (final(self)@.visibles != old(self)@.visibles),
    {
        let ghost old_visibles = self@.visibles;
        proof {
            lemma_without(self@.visibles, d);
        }
        let changed = self.is_visible(d);
        self.drop_visible(d);
        proof {
            if changed {
                assert(self@.visibles.len() != old_visibles.len());
            }
        }
        changed
    }

    /// Tries to make the known stream `d` visible: when the maximum of visibles is
    /// reached, a camera picture is not shown while a screen share replaces the last
    /// visible stream. A screen share goes to the first position when no other screen share
    /// is visible; everything else is appended.
    ///
    /// Returns `true` when the maximum of visibles is reached and the camera picture could
    /// not be shown, `false` otherwise.
    ///
    /// The stream need not be known: an unknown stream joins the visibles like any other
    /// (laying the picture out then finds no stream behind it).
    fn show_stream(&mut self, d: MediaDescriptor) -> (not_shown: bool)
        requires
            old(self)@.wf(),
        ensures
            final(self)@.wf(),
            final(self)@ == (SceneView {
                visibles: shown(old(self)@.visibles, old(self)@.max_visibles, d),
                ..old(self)@
            }),
            not_shown == (old(self)@.visibles.len() >= old(self)@.max_visibles
                && d.media_type == MediaSessionType::Camera),
    {
        let ghost old_visibles = self@.visibles;
        if self.visibles.len() >= self.max_visibles {
            if !d.is_screen_capture() {
                return true;
            }
            if self.visibles.len() > 0 {
                self.visibles.pop();
                proof {
                    assert(self@.visibles =~= old_visibles.drop_last());
                }
            }
        }
        let ghost mid = self@.visibles;
        proof {
            assert forall|x: MediaDescriptor| mid.contains(x) implies old_visibles.contains(x) by {
                let k = choose|k: int| 0 <= k < mid.len() && mid[k] == x;
                assert(old_visibles[k] == x);
            }
            assert(mid.no_duplicates()) by {
                assert forall|a: int, b: int| 0 <= a < mid.len() && 0 <= b < mid.len() && a != b
                    implies mid[a] != mid[b] by {
                    assert(mid[a] == old_visibles[a] && mid[b] == old_visibles[b]);
                }
            }
        }
        if !self.is_visible(d) {
            if d.is_screen_capture() && self.get_first_screen_capture().is_none() {
                self.visibles.insert(0, d);
                proof {
                    assert(self@.visibles =~= seq![d] + mid);
                }
            } else {
                self.visibles.push(d);
            }
            proof {
                assert forall|a: int, b: int|
                    0 <= a < self@.visibles.len() && 0 <= b < self@.visibles.len() && a != b
                    implies self@.visibles[a] != self@.visibles[b] by {
                    if self@.visibles[a] == d || self@.visibles[b] == d {
                        if self@.visibles[a] == self@.visibles[b] {
                            let o = if self@.visibles[a] == d { b } else { a };
                            let o2 = if self@.visibles[a] == d { a } else { b };
                            assert(self@.visibles[o] == d && self@.visibles[o2] == d);
                            if self@.visibles =~= seq![d] + mid {
                                if o == 0 { assert(mid[o2 - 1] == d); } else { assert(mid[o - 1] == d); }
                            } else {
                                assert(self@.visibles =~= mid.push(d));
                                if o == mid.len() { assert(mid[o2] == d); } else { assert(mid[o] == d); }
                            }
                        }
                    } else if self@.visibles =~= seq![d] + mid {
                        assert(self@.visibles[a] == mid[a - 1] && self@.visibles[b] == mid[b - 1]);
                    } else {
                        assert(self@.visibles =~= mid.push(d));
                        assert(self@.visibles[a] == mid[a] && self@.visibles[b] == mid[b]);
                    }
                }
            }
        }
        proof {
        }
        false
    }


    /// Sets the status of the stream `d`; a stream whose video is switched on is shown, one
    /// whose video is switched off is hidden. Unknown streams are ignored.
    ///
    /// Returns whether the visibles changed.
    fn set_status(&mut self, d: MediaDescriptor, new_status: MediaSessionState) -> (changed: bool)
        requires
            old(self)@.wf(),
        ensures
            final(self)@.wf(),
            !old(self)@.contains_stream(d) ==> final(self)@ == old(self)@,
            old(self)@.contains_stream(d) ==> final(self)@ == (SceneView {
                streams: old(self)@.streams.update(
                    old(self)@.descriptors().index_of(d),
                    StreamEntry { descriptor: d, status: new_status },
                ),
                visibles: visibles_after_status(old(self)@, d, old(self)@.status_of(d), new_status),
                ..old(self)@
            }),
            changed == (final(self)@.visibles != old(self)@.visibles),
    {
        match self.find_stream(d) {
            None => false,
            Some(i) => {
                let old_status = self.streams[i].status;
                let ghost old_descs = self@.descriptors();
                self.streams.set(i, StreamEntry { descriptor: d, status: new_status });
                proof {
                    assert(self@.descriptors() =~= old_descs);
                }
                if !old_status.video && new_status.video {
                    let before = copy_descriptors(&self.visibles);
                    let _ = self.show_stream(d);
                    !same_sequence(&before, &self.visibles)
                } else if old_status.video && !new_status.video {
                    self.hide_stream(d)
                } else {
                    false
                }
            },
        }
    }

    /// Brings the streams of `speaker` into focus: a screen share of the speaker comes to
    /// the front; the speaker's camera comes to the front when no screen share is visible,
    /// otherwise into the second position. Only streams with video enabled are moved.
    /// Remembers `speaker` as the current speaker.
    ///
    /// Returns whether the visibles changed.
    fn set_speaker(&mut self, speaker: ParticipantId) -> (changed: bool)
        requires
            old(self)@.wf(),
        ensures
            final(self)@.wf(),
            final(self)@ == (SceneView {
                visibles: visibles_after_speaker(old(self)@, speaker),
                current_speaker: Some(speaker),
                ..old(self)@
            }),
            changed == (final(self)@.visibles != old(self)@.visibles),
    {
        self.current_speaker = Some(speaker);
        let before = copy_descriptors(&self.visibles);
        let screen = MediaDescriptor::new(speaker, MediaSessionType::ScreenCapture);
        if let Some(status) = self.status(screen) {
            if status.video {
                self.move_visible_to_front(screen);
            }
        }
        let camera = MediaDescriptor::new(speaker, MediaSessionType::Camera);
        if let Some(status) = self.status(camera) {
            if status.video {
                if self.get_first_screen_capture().is_none() {
                    self.move_visible_to_front(camera);
                } else {
                    proof {
                        lemma_first_screen_capture(self@.visibles);
                        if self@.visibles.contains(camera) && self@.visibles.len() <= 1 {
                            let x = first_screen_capture(self@.visibles)->0;
                            let k = choose|k: int| 0 <= k < self@.visibles.len() && self@.visibles[k] == x;
                            let c = choose|c: int| 0 <= c < self@.visibles.len() && self@.visibles[c] == camera;
                            assert(k == 0 && c == 0);
                        }
                    }
                    self.move_visible(camera, 1);
                }
            }
        }
        !same_sequence(&before, &self.visibles)
    }

    /// Forgets the current speaker.
    fn unset_speaker(&mut self)
        ensures
            final(self)@ == (SceneView { current_speaker: None, ..old(self)@ }),
    {
        self.current_speaker = None;
    }

    /// The participant who was most recently declared to be speaking.
    fn get_current_speaker(&self) -> (r: Option<ParticipantId>)
        ensures
            r == self@.current_speaker,
    {
        self.current_speaker
    }

    /// Removes the stream `d`; if it was visible it disappears, and the first remaining
    /// screen share is brought to the front.
    ///
    /// Returns whether the visibles changed, or [`Error::StreamNotFound`] for an unknown
    /// stream.
    fn remove_stream(&mut self, d: MediaDescriptor) -> (r: Result<bool, Error<MediaDescriptor>>)
        requires
            old(self)@.wf(),
        ensures
            final(self)@.wf(),
            !old(self)@.contains_stream(d) ==> r == Err::<bool, Error<MediaDescriptor>>(Error::StreamNotFound(d))
                && final(self)@ == old(self)@,
            old(self)@.contains_stream(d) ==> final(self)@ == (SceneView {
                streams: old(self)@.streams.remove(old(self)@.descriptors().index_of(d)),
                visibles: visibles_after_removal(old(self)@.visibles, d),
                ..old(self)@
            }) && r == Ok::<bool, Error<MediaDescriptor>>(final(self)@.visibles != old(self)@.visibles),
    {
        match self.find_stream(d) {
            None => Err(Error::StreamNotFound(d)),
            Some(i) => {
                let before = copy_descriptors(&self.visibles);
                let ghost old_descs = self@.descriptors();
                let ghost old_visibles = self@.visibles;
                self.streams.remove(i);
                proof {
                    assert(self@.descriptors() =~= old_descs.remove(i as int));
                    lemma_without(old_descs, d);
                    lemma_without(old_visibles, d);
                }
                self.drop_visible(d);
                if let Some(screen) = self.get_first_screen_capture() {
                    self.move_visible_to_front(screen);
                }
                Ok(!same_sequence(&before, &self.visibles))
            },
        }
    }

    /// The visible streams, limited to the maximum of visibles.
    fn get_visibles(&self) -> (r: Vec<MediaDescriptor>)
        ensures
            r@ == self@.visibles.take(
                if self@.visibles.len() < self@.max_visibles { self@.visibles.len() as int } else { self@.max_visibles as int },
            ),
    {
        let n = if self.visibles.len() < self.max_visibles { self.visibles.len() } else { self.max_visibles };
        let mut r: Vec<MediaDescriptor> = Vec::new();
        let mut i: usize = 0;
        while i < n
            invariant
                n <= self@.visibles.len(),
                i <= n,
                r@ == self@.visibles.take(i as int),
            decreases n - i,
        {
            r.push(self.visibles[i]);
            i = i + 1;
            assert(r@ =~= self@.visibles.take(i as int));
        }
        r
    }

    /// The order in which streams are laid out: the visibles first, then every other known
    /// stream in the order they were added.
    fn render_order(&self) -> (r: Vec<MediaDescriptor>)
        ensures
            r@ == render_order_of(self@),
    {
        let mut r = copy_descriptors(&self.visibles);
        let ghost pred = |x: MediaDescriptor| !self@.visibles.contains(x);
        let mut i: usize = 0;
        assert(self@.descriptors().take(0) =~= Seq::<MediaDescriptor>::empty());
        assert(self@.visibles + Seq::<MediaDescriptor>::empty().filter(pred) =~= self@.visibles) by {
            assert(Seq::<MediaDescriptor>::empty().filter(pred) =~= Seq::<MediaDescriptor>::empty()) by {
                reveal_with_fuel(Seq::filter, 1);
            }
        }
        while i < self.streams.len()
            invariant
                i <= self@.streams.len(),
                pred == (|x: MediaDescriptor| !self@.visibles.contains(x)),
                r@ == self@.visibles + self@.descriptors().take(i as int).filter(pred),
            decreases self@.streams.len() - i,
        {
            let d = self.streams[i].descriptor;
            proof {
                assert(self@.descriptors().take(i + 1) =~= self@.descriptors().take(i as int).push(d));
                self@.descriptors().take(i as int).lemma_filter_push(d, pred);
            }
            if !self.is_visible(d) {
                r.push(d);
            }
            i = i + 1;
        }
        assert(self@.descriptors().take(i as int) =~= self@.descriptors());
        r
    }

    /// Whether any stream of `participant` is known.
    fn contains_any_stream(&self, participant: ParticipantId) -> (b: bool)
        requires
            self@.wf(),
        ensures
            b == (self@.contains_stream(MediaDescriptor { participant_id: participant, media_type: MediaSessionType::ScreenCapture })
                || self@.contains_stream(MediaDescriptor { participant_id: participant, media_type: MediaSessionType::Camera })),
    {
        let types = media_types();
        let mut i: usize = 0;
        while i < 2
            invariant
                i <= 2,
                types@ == seq![MediaSessionType::ScreenCapture, MediaSessionType::Camera],
                self@.wf(),
                forall|j: int| 0 <= j < i ==> !self@.contains_stream(
                    MediaDescriptor { participant_id: participant, media_type: #[trigger] types@[j] },
                ),
            decreases 2 - i,
        {
            if self.contains_stream(MediaDescriptor::new(participant, types[i])) {
                return true;
            }
            i = i + 1;
        }
        assert(types@[0] == MediaSessionType::ScreenCapture && types@[1] == MediaSessionType::Camera);
        false
    }

    /// Whether any stream of `participant` is visible.
    fn is_any_visible(&self, participant: ParticipantId) -> (b: bool)
        ensures
            b == (self@.visibles.contains(MediaDescriptor { participant_id: participant, media_type: MediaSessionType::ScreenCapture })
                || self@.visibles.contains(MediaDescriptor { participant_id: participant, media_type: MediaSessionType::Camera })),
    {
        let types = media_types();
        let mut i: usize = 0;
        while i < 2
            invariant
                i <= 2,
                types@ == seq![MediaSessionType::ScreenCapture, MediaSessionType::Camera],
                forall|j: int| 0 <= j < i ==> !self@.visibles.contains(
                    MediaDescriptor { participant_id: participant, media_type: #[trigger] types@[j] },
                ),
            decreases 2 - i,
        {
            if self.is_visible(MediaDescriptor::new(participant, types[i])) {
                return true;
            }
            i = i + 1;
        }
        assert(types@[0] == MediaSessionType::ScreenCapture && types@[1] == MediaSessionType::Camera);
        false
    }

    /// Registers a new, invisible stream with its initial status.
    ///
    /// Fails with [`Error::IdDoublet`] if the stream is known already.
    fn add_stream(&mut self, d: MediaDescriptor, initial: MediaSessionState) -> (r: Result<(), Error<MediaDescriptor>>)
        requires
            old(self)@.wf(),
        ensures
            final(self)@.wf(),
            old(self)@.contains_stream(d) ==> r == Err::<(), Error<MediaDescriptor>>(Error::IdDoublet(d))
                && final(self)@ == old(self)@,
            !old(self)@.contains_stream(d) ==> r is Ok && final(self)@ == (SceneView {
                streams: old(self)@.streams.push(StreamEntry { descriptor: d, status: initial }),
                ..old(self)@
            }),
    {
        if self.contains_stream(d) {
            return Err(Error::IdDoublet(d));
        }
        let ghost old_descs = self@.descriptors();
        self.streams.push(StreamEntry { descriptor: d, status: initial });
        proof {
            assert(self@.descriptors() =~= old_descs.push(d));
            assert forall|a: int, b: int| 0 <= a < self@.descriptors().len() && 0 <= b < self@.descriptors().len() && a != b
                implies self@.descriptors()[a] != self@.descriptors()[b] by {
                if a == old_descs.len() as int {
                    assert(old_descs.contains(self@.descriptors()[b]) || b == a);
                } else if b == old_descs.len() as int {
                    assert(old_descs.contains(self@.descriptors()[a]));
                }
            }
        }
        Ok(())
    }
}

/// The streams of a recording and their arrangement.
pub struct Scene {
    state: SceneState,
}

impl View for Scene {
    type V = SceneView;

    closed spec fn view(&self) -> SceneView {
        self.state@
    }
}

impl Scene {
    /// Every stream is known once, and every visible stream is visible once.
    #[verifier::type_invariant]
    spec fn inv(self) -> bool {
        self.state@.wf()
    }

    /// An empty scene showing at most `max_visibles` streams.
    pub fn new(max_visibles: usize) -> (s: Self)
        ensures
            s@.wf(),
            s@.streams == Seq::<StreamEntry>::empty(),
            s@.visibles == Seq::<MediaDescriptor>::empty(),
            s@.max_visibles == max_visibles,
            s@.current_speaker is None,
    {
        Scene { state: SceneState::new(max_visibles) }
    }

    /// Maximum number of visible streams.
    pub fn max_visibles(&self) -> (n: usize)
        ensures
            n == self@.max_visibles,
    {
        proof {
            use_type_invariant(self);
        }
        self.state.max_visibles()
    }

    /// Whether the stream `d` is known.
    pub fn contains_stream(&self, d: MediaDescriptor) -> (b: bool)
        ensures
            b == self@.contains_stream(d),
    {
        proof {
            use_type_invariant(self);
        }
        self.state.contains_stream(d)
    }

    /// The status of the stream `d`, if it is known.
    pub fn status(&self, d: MediaDescriptor) -> (r: Option<MediaSessionState>)
        ensures
            r == (if self@.contains_stream(d) { Some(self@.status_of(d)) } else { None }),
    {
        proof {
            use_type_invariant(self);
        }
        self.state.status(d)
    }

    /// Whether the stream `d` is visible.
    pub fn is_visible(&self, d: MediaDescriptor) -> (b: bool)
        ensures
            b == self@.visibles.contains(d),
    {
        proof {
            use_type_invariant(self);
        }
        self.state.is_visible(d)
    }

    /// The first visible screen share.
    pub fn get_first_screen_capture(&self) -> (r: Option<MediaDescriptor>)
        ensures
            r == first_screen_capture(self@.visibles),
    {
        proof {
            use_type_invariant(self);
        }
        self.state.get_first_screen_capture()
    }

    /// Makes exactly the known streams among `ds` visible, shown one after the other in
    /// this order; unknown streams are passed over.
    ///
    /// Refuses while the pipeline is `playing` with [`Error::PlayingPipelineForbidden`], and
    /// more streams than the maximum of visibles with [`Error::TooManyVisibles`]; the
    /// visibles stay as they are then.
    pub fn set_visibles(&mut self, ds: &[MediaDescriptor], playing: bool) -> (r: Result<(), Error<MediaDescriptor>>)
        ensures
            final(self)@.wf(),
            playing ==> r == Err::<(), Error<MediaDescriptor>>(Error::PlayingPipelineForbidden)
                && final(self)@ == old(self)@,
            !playing && ds@.len() > old(self)@.max_visibles ==> r == Err::<(), Error<MediaDescriptor>>(
                Error::TooManyVisibles,
            ) && final(self)@ == old(self)@,
            !playing && ds@.len() <= old(self)@.max_visibles ==> r is Ok && final(self)@ == (SceneView {
                visibles: shown_all(
                    Seq::empty(),
                    old(self)@.max_visibles,
                    ds@.filter(|x: MediaDescriptor| old(self)@.contains_stream(x)),
                ),
                ..old(self)@
            }),
    {
        proof {
            use_type_invariant(&*self);
        }
        let mut state = SceneState::new(0);
        std::mem::swap(&mut state, &mut self.state);
        let r = state.set_visibles(ds, playing);
        self.state = state;
        r
    }

    /// Hides the stream `d`. Returns whether the visibles changed.
    pub fn hide_stream(&mut self, d: MediaDescriptor) -> (changed: bool)
        ensures
            final(self)@.wf(),
            final(self)@ == (SceneView { visibles: without(old(self)@.visibles, d), ..old(self)@ }),
            changed == old(self)@.visibles.contains(d),
            changed == (final(self)@.visibles != old(self)@.visibles),
    {
        proof {
            use_type_invariant(&*self);
        }
        let mut state = SceneState::new(0);
        std::mem::swap(&mut state, &mut self.state);
        let r = state.hide_stream(d);
        self.state = state;
        r
    }

    /// Tries to make the known stream `d` visible: when the maximum of visibles is
    /// reached, a camera picture is not shown while a screen share replaces the last
    /// visible stream. A screen share goes to the first position when no other screen share
    /// is visible; everything else is appended.
    ///
    /// Returns `true` when the maximum of visibles is reached and the camera picture could
    /// not be shown, `false` otherwise.
    ///
    /// The stream need not be known: an unknown stream joins the visibles like any other
    /// (laying the picture out then finds no stream behind it).
    pub fn show_stream(&mut self, d: MediaDescriptor) -> (not_shown: bool)
        ensures
            final(self)@.wf(),
            final(self)@ == (SceneView {
                visibles: shown(old(self)@.visibles, old(self)@.max_visibles, d),
                ..old(self)@
            }),
            not_shown == (old(self)@.visibles.len() >= old(self)@.max_visibles
                && d.media_type == MediaSessionType::Camera),
    {
        proof {
            use_type_invariant(&*self);
        }
        let mut state = SceneState::new(0);
        std::mem::swap(&mut state, &mut self.state);
        let r = state.show_stream(d);
        self.state = state;
        r
    }

    /// Sets the status of the stream `d`; a stream whose video is switched on is shown, one
    /// whose video is switched off is hidden. Unknown streams are ignored.
    ///
    /// Returns whether the visibles changed.
    pub fn set_status(&mut self, d: MediaDescriptor, new_status: MediaSessionState) -> (changed: bool)
        ensures
            final(self)@.wf(),
            !old(self)@.contains_stream(d) ==> final(self)@ == old(self)@,
            old(self)@.contains_stream(d) ==> final(self)@ == (SceneView {
                streams: old(self)@.streams.update(
                    old(self)@.descriptors().index_of(d),
                    StreamEntry { descriptor: d, status: new_status },
                ),
                visibles: visibles_after_status(old(self)@, d, old(self)@.status_of(d), new_status),
                ..old(self)@
            }),
            changed == (final(self)@.visibles != old(self)@.visibles),
    {
        proof {
            use_type_invariant(&*self);
        }
        let mut state = SceneState::new(0);
        std::mem::swap(&mut state, &mut self.state);
        let r = state.set_status(d, new_status);
        self.state = state;
        r
    }

    /// Brings the streams of `speaker` into focus: a screen share of the speaker comes to
    /// the front; the speaker's camera comes to the front when no screen share is visible,
    /// otherwise into the second position. Only streams with video enabled are moved.
    /// Remembers `speaker` as the current speaker.
    ///
    /// Returns whether the visibles changed.
    pub fn set_speaker(&mut self, speaker: ParticipantId) -> (changed: bool)
        ensures
            final(self)@.wf(),
            final(self)@ == (SceneView {
                visibles: visibles_after_speaker(old(self)@, speaker),
                current_speaker: Some(speaker),
                ..old(self)@
            }),
            changed == (final(self)@.visibles != old(self)@.visibles),
    {
        proof {
            use_type_invariant(&*self);
        }
        let mut state = SceneState::new(0);
        std::mem::swap(&mut state, &mut self.state);
        let r = state.set_speaker(speaker);
        self.state = state;
        r
    }

    /// Forgets the current speaker.
    pub fn unset_speaker(&mut self)
        ensures
            final(self)@ == (SceneView { current_speaker: None, ..old(self)@ }),
    {
        proof {
            use_type_invariant(&*self);
        }
        let mut state = SceneState::new(0);
        std::mem::swap(&mut state, &mut self.state);
        let r = state.unset_speaker();
        self.state = state;
        r
    }

    /// The participant who was most recently declared to be speaking.
    pub fn get_current_speaker(&self) -> (r: Option<ParticipantId>)
        ensures
            r == self@.current_speaker,
    {
        proof {
            use_type_invariant(self);
        }
        self.state.get_current_speaker()
    }

    /// Removes the stream `d`; if it was visible it disappears, and the first remaining
    /// screen share is brought to the front.
    ///
    /// Returns whether the visibles changed, or [`Error::StreamNotFound`] for an unknown
    /// stream.
    pub fn remove_stream(&mut self, d: MediaDescriptor) -> (r: Result<bool, Error<MediaDescriptor>>)
        ensures
            final(self)@.wf(),
            !old(self)@.contains_stream(d) ==> r == Err::<bool, Error<MediaDescriptor>>(Error::StreamNotFound(d))
                && final(self)@ == old(self)@,
            old(self)@.contains_stream(d) ==> final(self)@ == (SceneView {
                streams: old(self)@.streams.remove(old(self)@.descriptors().index_of(d)),
                visibles: visibles_after_removal(old(self)@.visibles, d),
                ..old(self)@
            }) && r == Ok::<bool, Error<MediaDescriptor>>(final(self)@.visibles != old(self)@.visibles),
    {
        proof {
            use_type_invariant(&*self);
        }
        let mut state = SceneState::new(0);
        std::mem::swap(&mut state, &mut self.state);
        let r = state.remove_stream(d);
        self.state = state;
        r
    }

    /// The visible streams, limited to the maximum of visibles.
    pub fn get_visibles(&self) -> (r: Vec<MediaDescriptor>)
        ensures
            r@ == self@.visibles.take(
                if self@.visibles.len() < self@.max_visibles { self@.visibles.len() as int } else { self@.max_visibles as int },
            ),
    {
        proof {
            use_type_invariant(self);
        }
        self.state.get_visibles()
    }

    /// The number of visible streams, also those beyond the maximum of visibles.
    pub fn visible_count(&self) -> (n: usize)
        ensures
            n == self@.visibles.len(),
    {
        self.state.visibles.len()
    }

    /// The order in which streams are laid out: the visibles first, then every other known
    /// stream in the order they were added.
    pub fn render_order(&self) -> (r: Vec<MediaDescriptor>)
        ensures
            r@ == render_order_of(self@),
    {
        proof {
            use_type_invariant(self);
        }
        self.state.render_order()
    }

    /// Whether any stream of `participant` is known.
    pub fn contains_any_stream(&self, participant: ParticipantId) -> (b: bool)
        ensures
            b == (self@.contains_stream(MediaDescriptor { participant_id: participant, media_type: MediaSessionType::ScreenCapture })
                || self@.contains_stream(MediaDescriptor { participant_id: participant, media_type: MediaSessionType::Camera })),
    {
        proof {
            use_type_invariant(self);
        }
        self.state.contains_any_stream(participant)
    }

    /// Whether any stream of `participant` is visible.
    pub fn is_any_visible(&self, participant: ParticipantId) -> (b: bool)
        ensures
            b == (self@.visibles.contains(MediaDescriptor { participant_id: participant, media_type: MediaSessionType::ScreenCapture })
                || self@.visibles.contains(MediaDescriptor { participant_id: participant, media_type: MediaSessionType::Camera })),
    {
        proof {
            use_type_invariant(self);
        }
        self.state.is_any_visible(participant)
    }

    /// Registers a new, invisible stream with its initial status.
    ///
    /// Fails with [`Error::IdDoublet`] if the stream is known already.
    pub fn add_stream(&mut self, d: MediaDescriptor, initial: MediaSessionState) -> (r: Result<(), Error<MediaDescriptor>>)
        ensures
            final(self)@.wf(),
            old(self)@.contains_stream(d) ==> r == Err::<(), Error<MediaDescriptor>>(Error::IdDoublet(d))
                && final(self)@ == old(self)@,
            !old(self)@.contains_stream(d) ==> r is Ok && final(self)@ == (SceneView {
                streams: old(self)@.streams.push(StreamEntry { descriptor: d, status: initial }),
                ..old(self)@
            }),
    {
        proof {
            use_type_invariant(&*self);
        }
        let mut state = SceneState::new(0);
        std::mem::swap(&mut state, &mut self.state);
        let r = state.add_stream(d, initial);
        self.state = state;
        r
    }
}

} // verus!
