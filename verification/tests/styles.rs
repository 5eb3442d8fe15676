use compositor::{
    dash_arguments,
    name_style, talk_clock_style, talk_padding, talk_title_style, Align, ClockFormat, Color, Font, HAlign, Padding,
    RTMPParameters, SegmentType, SpeedPreset, TextPadding, TextStyle, VAlign, DEFAULT_AUDIO_BITRATE,
    DEFAULT_AUDIO_RATE, DEFAULT_VIDEO_BITRATE, NAME_FONT_SIZE, OVERLAY_FONT_SIZE, TOP_PADDING,
};

#[test]
fn color_packing() {
    let c = Color { r: 0x12, g: 0x34, b: 0x56, a: 0x78 };
    assert_eq!(u32::from(c), 0x1234_5678);
    assert_eq!(c.rgba(), 0x1234_5678);
    assert_eq!(c.abgr(), 0x7856_3412);
    assert_eq!(u32::from(Color::default()), 0xffff_ffff);
}

#[test]
fn color_text() {
    assert_eq!(Color { r: 0x12, g: 0x0, b: 0xab, a: 0xff }.to_string(), "#120abff");
    assert_eq!(Color::default().to_string(), "#ffffffff");
}

#[test]
fn alignment_names() {
    let h: &'static str = HAlign::Left.into();
    assert_eq!(h, "left");
    assert_eq!(HAlign::default().as_str(), "center");
    assert_eq!(HAlign::Absolute.as_str(), "absolute");
    let v: &'static str = VAlign::Top.into();
    assert_eq!(v, "top");
    assert_eq!(VAlign::default().as_str(), "baseline");
    assert_eq!(VAlign::Position.as_str(), "position");
    assert_eq!(Align::default().to_string(), "center × baseline");
}

#[test]
fn style_texts() {
    assert_eq!(TextPadding { x: -3, y: 10 }.to_string(), "-3/10");
    assert_eq!(TextPadding::default(), TextPadding { x: 10, y: 10 });
    assert_eq!(Font::default().to_string(), "Sans,10");
    assert_eq!(TextStyle::default().to_string(), "Sans,10, 10/10, #ffffffff, center × baseline");
}

#[test]
fn talk_overlay_styles() {
    let title = talk_title_style();
    assert_eq!((title.font.name, title.font.size), ("Sans", OVERLAY_FONT_SIZE));
    assert_eq!(title.align, Align { horizontal: HAlign::Left, vertical: VAlign::Top });
    let clock = talk_clock_style();
    assert_eq!(clock.align, Align { horizontal: HAlign::Right, vertical: VAlign::Top });
    assert_eq!(clock.font.size, 20);
    assert_eq!(name_style().font.size, NAME_FONT_SIZE);
    assert_eq!(NAME_FONT_SIZE, 16);
    assert_eq!(talk_padding(), Padding { top: TOP_PADDING, ..Padding::default() });
    assert_eq!(talk_padding().videobox_borders(), (0, 0, -56, 0));
    assert_eq!(ClockFormat::default().as_str(), "%x %X %Z");
}

#[test]
fn sink_parameters() {
    assert_eq!(SegmentType::AUTO.as_str(), "auto");
    assert_eq!(SegmentType::MP4.as_str(), "mp4");
    assert_eq!(SegmentType::WEBM.as_str(), "webm");
    assert_eq!(SpeedPreset::default(), SpeedPreset::Medium);
    assert_eq!(SpeedPreset::Ultrafast.value(), 1);
    assert_eq!(SpeedPreset::Placebo.value(), 10);
    assert_eq!(SpeedPreset::NoPreset.value(), 0);
    let defaults = RTMPParameters {
        location: "rtmp://localhost/live".to_string(),
        audio_bitrate: None,
        audio_rate: None,
        video_bitrate: None,
        video_speed_preset: None,
    };
    assert_eq!(defaults.effective_audio_bitrate(), DEFAULT_AUDIO_BITRATE);
    assert_eq!(defaults.effective_audio_rate(), DEFAULT_AUDIO_RATE);
    assert_eq!(defaults.effective_video_bitrate(), DEFAULT_VIDEO_BITRATE);
    assert_eq!(defaults.effective_speed_preset(), 6);
    let given = RTMPParameters {
        location: String::new(),
        audio_bitrate: Some(1),
        audio_rate: Some(2),
        video_bitrate: Some(3),
        video_speed_preset: Some(SpeedPreset::Slow),
    };
    assert_eq!(
        (given.effective_audio_bitrate(), given.effective_audio_rate(), given.effective_video_bitrate()),
        (1, 2, 3)
    );
    assert_eq!(given.effective_speed_preset(), 7);
}

#[test]
fn dash_process_arguments() {
    let args = dash_arguments(9000, 1024 * 1024, "5", SegmentType::AUTO, "dash.mpd");
    let expected = vec![
        "-v", "warning", "-y", "-nostdin", "-i", "tcp://127.0.0.1:9000", "-map", "0", "-b:0",
        "1048576", "-use_timeline", "1", "-use_template", "1", "-adaptation_sets",
        "id=0,streams=v id=1,streams=a", "-seg_duration", "5", "-dash_segment_type", "auto", "-f",
        "dash", "dash.mpd",
    ];
    assert_eq!(args, expected);
    let webm = dash_arguments(1, 0, "2.5", SegmentType::WEBM, "out/x.mpd");
    assert_eq!(webm[5], "tcp://127.0.0.1:1");
    assert_eq!(webm[9], "0");
    assert_eq!(webm[17], "2.5");
    assert_eq!(webm[19], "webm");
}
