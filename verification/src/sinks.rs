//! Parameters of the output sinks.

use vstd::prelude::*;
use vstd::string::StringExecFns;

use crate::text::{decimal, push_unsigned};

verus! {

/// DASH segment type.
#[derive(Debug, Clone, Copy, PartialEq, Eq, Structural)]
pub enum SegmentType {
    /// Select DASH segment files format based on the stream codec.
    AUTO,
    /// Use ISOBMFF format.
    MP4,
    /// Use WebM format.
    WEBM,
}

/// The name of a segment type as the DASH muxer names it.
pub open spec fn segment_type_name(t: SegmentType) -> Seq<char> {
    match t {
        SegmentType::AUTO => "auto"@,
        SegmentType::MP4 => "mp4"@,
        SegmentType::WEBM => "webm"@,
    }
}

/// The arguments of the `ffmpeg` process that reads the Matroska output from the local TCP
/// `port` and writes DASH files next to the MPD file `mpd`: the streams with the given
/// bitrate, in segments of `seg_duration` seconds (as text) of type `seg_type`.
pub open spec fn dash_arguments_spec(
    port: u16,
    bitrate: usize,
    seg_duration: Seq<char>,
    seg_type: SegmentType,
    mpd: Seq<char>,
) -> Seq<Seq<char>> {
    seq![
        "-v"@,
        "warning"@,
        "-y"@,
        "-nostdin"@,
        "-i"@,
        "tcp://127.0.0.1:"@ + decimal(port as int),
        "-map"@,
        "0"@,
        "-b:0"@,
        decimal(bitrate as int),
        "-use_timeline"@,
        "1"@,
        "-use_template"@,
        "1"@,
        "-adaptation_sets"@,
        "id=0,streams=v id=1,streams=a"@,
        "-seg_duration"@,
        seg_duration,
        "-dash_segment_type"@,
        segment_type_name(seg_type),
        "-f"@,
        "dash"@,
        mpd,
    ]
}

/// The arguments of the `ffmpeg` process of a DASH output (see [`dash_arguments_spec`]).
pub fn dash_arguments(port: u16, bitrate: usize, seg_duration: &str, seg_type: SegmentType, mpd: &str) -> (args: Vec<String>)
    ensures
        args@.map_values(|a: String| a@) == dash_arguments_spec(port, bitrate, seg_duration@, seg_type, mpd@),
{
    let mut args: Vec<String> = Vec::new();
    args.push(String::from_str("-v"));
    args.push(String::from_str("warning"));
    args.push(String::from_str("-y"));
    args.push(String::from_str("-nostdin"));
    args.push(String::from_str("-i"));
    let mut source = String::from_str("tcp://127.0.0.1:");
    push_unsigned(&mut source, port as u64);
    args.push(source);
    args.push(String::from_str("-map"));
    args.push(String::from_str("0"));
    args.push(String::from_str("-b:0"));
    let mut rate = String::new();
    push_unsigned(&mut rate, bitrate as u64);
    assert(rate@ =~= decimal(bitrate as int));
    args.push(rate);
    args.push(String::from_str("-use_timeline"));
    args.push(String::from_str("1"));
    args.push(String::from_str("-use_template"));
    args.push(String::from_str("1"));
    args.push(String::from_str("-adaptation_sets"));
    args.push(String::from_str("id=0,streams=v id=1,streams=a"));
    args.push(String::from_str("-seg_duration"));
    args.push(String::from_str(seg_duration));
    args.push(String::from_str("-dash_segment_type"));
    args.push(String::from_str(seg_type.as_str()));
    args.push(String::from_str("-f"));
    args.push(String::from_str("dash"));
    args.push(String::from_str(mpd));
    assert(args@.map_values(|a: String| a@) =~= dash_arguments_spec(port, bitrate, seg_duration@, seg_type, mpd@));
    args
}

impl SegmentType {
    /// The segment type as the DASH muxer names it.
    pub fn as_str(&self) -> (s: &'static str)
        ensures
            s@ == segment_type_name(*self),
    {
        match self {
            SegmentType::AUTO => "auto",
            SegmentType::MP4 => "mp4",
            SegmentType::WEBM => "webm",
        }
    }
}

/// Default audio sample rate of the RTMP output.
pub const DEFAULT_AUDIO_RATE: usize = 48000;
/// Default audio bitrate of the RTMP output.
pub const DEFAULT_AUDIO_BITRATE: usize = 96000;
/// Default video bitrate of the RTMP output.
pub const DEFAULT_VIDEO_BITRATE: usize = 6000;

/// Speed preset of the H.264 encoder: faster encoding for a worse compression.
#[derive(Debug, Clone, Copy, PartialEq, Eq, Structural)]
pub enum SpeedPreset {
    /// Ultrafast.
    Ultrafast,
    /// Superfast.
    Superfast,
    /// Veryfast.
    Veryfast,
    /// Faster.
    Faster,
    /// Fast.
    Fast,
    /// Medium (default).
    Medium,
    /// Slow.
    Slow,
    /// Slower.
    Slower,
    /// Veryslow.
    Veryslow,
    /// Placebo.
    Placebo,
    /// No preset.
    NoPreset,
}

/// The number of a speed preset as the encoder expects it.
pub open spec fn speed_preset_value(p: SpeedPreset) -> usize {
    match p {
        SpeedPreset::Ultrafast => 1,
        SpeedPreset::Superfast => 2,
        SpeedPreset::Veryfast => 3,
        SpeedPreset::Faster => 4,
        SpeedPreset::Fast => 5,
        SpeedPreset::Medium => 6,
        SpeedPreset::Slow => 7,
        SpeedPreset::Slower => 8,
        SpeedPreset::Veryslow => 9,
        SpeedPreset::Placebo => 10,
        SpeedPreset::NoPreset => 0,
    }
}

/// The speed presets from the fastest to the slowest (best compressing) one.
pub open spec fn presets_fastest_first() -> Seq<SpeedPreset> {
    seq![
        SpeedPreset::Ultrafast,
        SpeedPreset::Superfast,
        SpeedPreset::Veryfast,
        SpeedPreset::Faster,
        SpeedPreset::Fast,
        SpeedPreset::Medium,
        SpeedPreset::Slow,
        SpeedPreset::Slower,
        SpeedPreset::Veryslow,
        SpeedPreset::Placebo,
    ]
}

/// The encoder numbers its presets from one up, from the fastest to the slowest, and
/// zero means no preset: every preset but "no preset" is among them once, and no two
/// presets share a number.
pub proof fn law_speed_preset_numbers(a: SpeedPreset, b: SpeedPreset)
    ensures
        forall|i: int| 0 <= i < 10 ==> speed_preset_value(#[trigger] presets_fastest_first()[i]) == i + 1,
        speed_preset_value(SpeedPreset::NoPreset) == 0,
        a != SpeedPreset::NoPreset ==> presets_fastest_first().contains(a),
        speed_preset_value(a) == speed_preset_value(b) ==> a == b,
        forall|i: int, j: int| 0 <= i < j < 10 ==> speed_preset_value(presets_fastest_first()[i])
            < speed_preset_value(presets_fastest_first()[j]),
{
    let o = presets_fastest_first();
    assert(o[0] == SpeedPreset::Ultrafast && o[1] == SpeedPreset::Superfast && o[2] == SpeedPreset::Veryfast
        && o[3] == SpeedPreset::Faster && o[4] == SpeedPreset::Fast && o[5] == SpeedPreset::Medium
        && o[6] == SpeedPreset::Slow && o[7] == SpeedPreset::Slower && o[8] == SpeedPreset::Veryslow
        && o[9] == SpeedPreset::Placebo);
    assert(forall|i: int| 0 <= i < 10 ==> speed_preset_value(#[trigger] o[i]) == i + 1) by {
        assert forall|i: int| 0 <= i < 10 implies speed_preset_value(#[trigger] o[i]) == i + 1 by {
            if i == 0 {} else if i == 1 {} else if i == 2 {} else if i == 3 {} else if i == 4 {}
            else if i == 5 {} else if i == 6 {} else if i == 7 {} else if i == 8 {} else {}
        }
    }
    if a != SpeedPreset::NoPreset {
        let k: int = match a {
            SpeedPreset::Ultrafast => 0,
            SpeedPreset::Superfast => 1,
            SpeedPreset::Veryfast => 2,
            SpeedPreset::Faster => 3,
            SpeedPreset::Fast => 4,
            SpeedPreset::Medium => 5,
            SpeedPreset::Slow => 6,
            SpeedPreset::Slower => 7,
            SpeedPreset::Veryslow => 8,
            _ => 9,
        };
        assert(o[k] == a);
    }
}

impl Default for SpeedPreset {
    fn default() -> (p: SpeedPreset)
        ensures
            p == SpeedPreset::Medium,
    {
        SpeedPreset::Medium
    }
}

impl SpeedPreset {
    /// The number of the preset as the encoder expects it.
    pub fn value(&self) -> (v: usize)
        ensures
            v == speed_preset_value(*self),
    {
        match self {
            SpeedPreset::Ultrafast => 1,
            SpeedPreset::Superfast => 2,
            SpeedPreset::Veryfast => 3,
            SpeedPreset::Faster => 4,
            SpeedPreset::Fast => 5,
            SpeedPreset::Medium => 6,
            SpeedPreset::Slow => 7,
            SpeedPreset::Slower => 8,
            SpeedPreset::Veryslow => 9,
            SpeedPreset::Placebo => 10,
            SpeedPreset::NoPreset => 0,
        }
    }
}

/// Parameters of the RTMP output.
#[derive(Debug)]
pub struct RTMPParameters {
    /// Where to stream to.
    pub location: String,
    /// Audio bitrate.
    pub audio_bitrate: Option<usize>,
    /// Audio sample rate.
    pub audio_rate: Option<usize>,
    /// Video bitrate.
    pub video_bitrate: Option<usize>,
    /// Speed preset of the video encoder.
    pub video_speed_preset: Option<SpeedPreset>,
}

impl RTMPParameters {
    /// The audio bitrate to use: the given one or the default.
    pub fn effective_audio_bitrate(&self) -> (v: usize)
        ensures
            v == match self.audio_bitrate {
                Some(b) => b,
                None => DEFAULT_AUDIO_BITRATE,
            },
    {
        match self.audio_bitrate {
            Some(b) => b,
            None => DEFAULT_AUDIO_BITRATE,
        }
    }

    /// The audio sample rate to use: the given one or the default.
    pub fn effective_audio_rate(&self) -> (v: usize)
        ensures
            v == match self.audio_rate {
                Some(r) => r,
                None => DEFAULT_AUDIO_RATE,
            },
    {
        match self.audio_rate {
            Some(r) => r,
            None => DEFAULT_AUDIO_RATE,
        }
    }

    /// The video bitrate to use: the given one or the default.
    pub fn effective_video_bitrate(&self) -> (v: usize)
        ensures
            v == match self.video_bitrate {
                Some(b) => b,
                None => DEFAULT_VIDEO_BITRATE,
            },
    {
        match self.video_bitrate {
            Some(b) => b,
            None => DEFAULT_VIDEO_BITRATE,
        }
    }

    /// The number of the encoder's speed preset: the given one or the default.
    pub fn effective_speed_preset(&self) -> (v: usize)
        ensures
            v == match self.video_speed_preset {
                Some(p) => speed_preset_value(p),
                None => speed_preset_value(SpeedPreset::Medium),
            },
    {
        match self.video_speed_preset {
            Some(p) => p.value(),
            None => SpeedPreset::default().value(),
        }
    }
}

/// Parameters of the MP4 output.
#[derive(Debug)]
pub struct Mp4Parameters {
    /// Name of the sink.
    pub name: &'static str,
    /// Output file path.
    pub file_path: std::path::PathBuf,
}

/// The file system path type of std, carried through the MP4 parameters.
#[verifier::external_type_specification]
#[verifier::external_body]
pub struct ExPathBuf(std::path::PathBuf);

} // verus!
