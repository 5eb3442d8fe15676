use compositor::{
    next_visible_count, parse_resolution, participant_name, parse_resolution_bytes, parse_usize, Arguments, LayoutChoice, Size,
};

#[test]
fn resolutions_parse() {
    assert_eq!(parse_resolution("640x480"), Some(Size { width: 640, height: 480 }));
    assert_eq!(parse_resolution("1920x1080"), Some(Size { width: 1920, height: 1080 }));
    assert_eq!(parse_resolution("+1x+2"), Some(Size { width: 1, height: 2 }));
    // more parts are parsed but ignored
    assert_eq!(parse_resolution("1x2x3"), Some(Size { width: 1, height: 2 }));
    assert_eq!(parse_resolution_bytes(b"007x08"), Some(Size { width: 7, height: 8 }));
}

#[test]
fn invalid_resolutions_are_refused() {
    assert_eq!(parse_resolution("640"), None);
    assert_eq!(parse_resolution(""), None);
    assert_eq!(parse_resolution("x480"), None);
    assert_eq!(parse_resolution("640x"), None);
    assert_eq!(parse_resolution("640X480"), None);
    assert_eq!(parse_resolution("640x480x"), None);
    assert_eq!(parse_resolution("-640x480"), None);
    assert_eq!(parse_resolution("6 40x480"), None);
    assert_eq!(parse_resolution("99999999999999999999999x1"), None);
    assert_eq!(parse_resolution("1x2xz"), None);
}

#[test]
fn numbers_parse_as_std_does() {
    for text in ["0", "+0", "12", "+12", "007", "18446744073709551615", "", "+", "-1", "1+", "a", "18446744073709551616"] {
        assert_eq!(parse_usize(text.as_bytes()), text.parse::<usize>().ok(), "{text}");
    }
}

#[test]
fn arguments_give_the_output_resolution() {
    let args = Arguments {
        participants: 5,
        visibles: 5,
        resolution: "1280x720".to_string(),
        display: false,
        dot: false,
        layout: LayoutChoice::Grid,
        test: false,
    };
    assert_eq!(args.output_resolution(), Some(Size::hd()));
    assert!(args.visibles_within_participants());
    let too_many = Arguments { visibles: 6, ..args };
    assert!(!too_many.visibles_within_participants());
}

#[test]
fn visible_count_goes_up_and_down() {
    let (mut count, mut step) = (0isize, 1isize);
    let mut seen = Vec::new();
    for _ in 0..12 {
        (count, step) = next_visible_count(count, step, 3);
        seen.push(count);
        assert!((0..=3).contains(&count));
    }
    assert_eq!(seen, vec![1, 2, 3, 2, 1, 0, 1, 2, 3, 2, 1, 0]);
}

#[test]
fn visible_count_without_visibles_leaves_the_range() {
    assert_eq!(next_visible_count(0, 1, 0), (-1, -1));
}

#[test]
fn participant_names_are_numbered() {
    assert_eq!(participant_name(0), "Participant 0");
    assert_eq!(participant_name(12), "Participant 12");
}

#[test]
fn size_text_reads_back() {
    for size in [Size::sd(), Size::fhd(), Size::new(0, 0), Size::new(usize::MAX, 1)] {
        assert_eq!(parse_resolution(&size.to_string()), Some(size));
    }
}

#[test]
fn visible_counts_run_up_and_down() {
    let mut seen = vec![];
    let (mut m, mut step) = (0isize, 1isize);
    for _ in 0..10 {
        seen.push(m);
        (m, step) = next_visible_count(m, step, 3);
    }
    assert_eq!(seen, vec![0, 1, 2, 3, 2, 1, 0, 1, 2, 3]);
}

#[test]
fn visible_count_without_visibles_descends_forever() {
    let (mut m, mut step) = (0isize, 1isize);
    for k in 1..6isize {
        (m, step) = next_visible_count(m, step, 0);
        assert_eq!((m, step), (-k, -1));
    }
}
