//! Identification of media streams: who publishes them and of which kind they are.

use vstd::prelude::*;

verus! {

/// Kind of a media session a participant can publish.
#[derive(Debug, Hash, Clone, Copy, PartialEq, Eq, PartialOrd, Ord, Structural)]
pub enum MediaSessionType {
    /// The participant's picture (default).
    Camera,
    /// The participant's screen share.
    ScreenCapture,
}

impl MediaSessionType {
    /// Human readable name of the media type.
    pub fn name(&self) -> (s: &'static str)
        ensures
            s@ == (match *self {
                MediaSessionType::Camera => "Camera"@,
                MediaSessionType::ScreenCapture => "Screen"@,
            }),
    {
        match self {
            MediaSessionType::Camera => "Camera",
            MediaSessionType::ScreenCapture => "Screen",
        }
    }
}

/// The available media types, in the order of priority when a speaker is put into focus
/// (the first available one gets the focus).
pub fn media_types() -> (types: [MediaSessionType; 2])
    ensures
        types@ == seq![MediaSessionType::ScreenCapture, MediaSessionType::Camera],
{
    let types = [MediaSessionType::ScreenCapture, MediaSessionType::Camera];
    assert(types@ =~= seq![MediaSessionType::ScreenCapture, MediaSessionType::Camera]);
    types
}

/// Whether a stream currently delivers video and audio.
#[derive(Debug, Clone, Copy, PartialEq, Eq, Structural)]
pub struct MediaSessionState {
    /// Video is enabled.
    pub video: bool,
    /// Audio is enabled.
    pub audio: bool,
}

/// Identity of a conference participant.
#[derive(Debug, Hash, Clone, Copy, PartialEq, Eq, PartialOrd, Ord, Structural)]
pub struct ParticipantId(pub u128);

/// Identifies a media stream by participant and media type.
#[derive(Debug, Hash, Clone, Copy, PartialEq, Eq, PartialOrd, Ord, Structural)]
pub struct MediaDescriptor {
    /// Participant who publishes the stream.
    pub participant_id: ParticipantId,
    /// Kind of the stream.
    pub media_type: MediaSessionType,
}

impl MediaDescriptor {
    /// Descriptor of the given participant's stream of the given type.
    pub fn new(participant_id: ParticipantId, media_type: MediaSessionType) -> (d: Self)
        ensures
            d.participant_id == participant_id,
            d.media_type == media_type,
    {
        MediaDescriptor { participant_id, media_type }
    }

    /// Whether this is a screen share.
    pub fn is_screen_capture(&self) -> (b: bool)
        ensures
            b == (self.media_type == MediaSessionType::ScreenCapture),
    {
        match self.media_type {
            MediaSessionType::ScreenCapture => true,
            MediaSessionType::Camera => false,
        }
    }
}

/// Stream ID consisting of an ID identifying the stream's owner and the stream type.
#[derive(Debug, Hash, Clone, Copy, PartialEq, Eq, PartialOrd, Ord)]
pub struct StreamId<ID> {
    /// ID identifying the stream's owner.
    pub id: ID,
    /// Type of the stream.
    pub media_type: MediaSessionType,
}

impl<ID> StreamId<ID> {
    /// ID of the given owner's camera stream.
    pub fn camera(id: ID) -> (s: Self)
        ensures
            s.id == id,
            s.media_type == MediaSessionType::Camera,
    {
        StreamId { id, media_type: MediaSessionType::Camera }
    }

    /// ID of the given owner's screen sharing stream.
    pub fn screen(id: ID) -> (s: Self)
        ensures
            s.id == id,
            s.media_type == MediaSessionType::ScreenCapture,
    {
        StreamId { id, media_type: MediaSessionType::ScreenCapture }
    }

    /// ID of the given owner's stream of the given type.
    pub fn new(id: ID, stream: MediaSessionType) -> (s: Self)
        ensures
            s.id == id,
            s.media_type == stream,
    {
        StreamId { id, media_type: stream }
    }
}

} // verus!
