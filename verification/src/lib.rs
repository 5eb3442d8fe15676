//! Composition of conference recordings: which streams are visible and where, how the
//! output is cut into uploadable parts, and the text styles of the overlays.

mod chunker;
mod cli;
mod debug_names;
mod error;
mod grid;
mod layout;
mod media;
mod overlays;
mod recording_layout;
mod scene;
mod sinks;
mod speaker;
mod text;
mod text_style;
mod upload;

pub use chunker::{
    law_write_keeps_stream, law_write_numbers_parts, law_writes_count_bytes, law_writes_keep_stream,
    contains_cluster_magic, ChunkerView, MatroskaChunker, Part, PartView, DEFAULT_CHUNK_SIZE,
    SEARCH_LIMIT,
};
pub use cli::{
    law_resolution_text_round_trip, law_visible_count_stays_in_range,
    law_visible_counts_run_up_and_down, law_visible_counts_stay_in_range, triangle, visible_counts,
    next_visible_count, parse_resolution, participant_name, parse_resolution_bytes, parse_usize, Arguments,
    LayoutChoice,
};
pub use debug_names::{dot_file_name, qualified_name};
pub use error::Error;
pub use grid::{column_estimate, is_column_estimate, law_grid_cells_fit_and_do_not_overlap, law_grid_is_compact, Grid};
pub use layout::{Alignment, Position, Size, View};
pub use media::{
    media_types, MediaDescriptor, MediaSessionState, MediaSessionType, ParticipantId, StreamId,
};
pub use speaker::{law_speaker_viewers_do_not_overlap, Speaker, VIEWER_SCALE};
pub use recording_layout::{law_vertical_viewers_fill_the_height, Layout};
pub use text_style::{law_color_packing_keeps_components, Align, Color, Font, HAlign, TextPadding, TextStyle, VAlign};
pub use overlays::{
    name_style, talk_clock_style, talk_padding, talk_title_style, ClockFormat, Padding,
    TalkOverlaysParams, NAME_FONT_SIZE, OVERLAY_FONT_SIZE, TOP_PADDING,
};
pub use sinks::{
    dash_arguments, law_speed_preset_numbers, presets_fastest_first,
    Mp4Parameters, RTMPParameters, SegmentType, SpeedPreset, DEFAULT_AUDIO_BITRATE,
    DEFAULT_AUDIO_RATE, DEFAULT_VIDEO_BITRATE,
};
pub use upload::{
    fresh_chunker, joined, law_upload_restores_rewritten_header, law_upload_restores_stream,
    uploaded, writes_at,
};
pub use scene::{
    law_hide_undoes_show, law_removal_brings_screen_share_first, law_removed_stream_is_gone,
    law_speaker_camera_goes_first_without_screen_share, law_speaker_camera_goes_second_behind_screen_share,
    law_speaker_screen_share_goes_first, law_showing_in_turn_shows_exactly, law_video_switch_shows_and_hides, law_render_order_covers_streams,
    law_screen_share_goes_first, law_show_respects_maximum, law_speaker_is_visible, Scene,
    SceneView, StreamEntry,
};
