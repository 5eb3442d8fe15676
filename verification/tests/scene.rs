use compositor::{
    media_types, Error, MediaDescriptor, MediaSessionState, MediaSessionType, ParticipantId, Scene,
    StreamId,
};

fn camera(id: u128) -> MediaDescriptor {
    MediaDescriptor::new(ParticipantId(id), MediaSessionType::Camera)
}

fn screen(id: u128) -> MediaDescriptor {
    MediaDescriptor::new(ParticipantId(id), MediaSessionType::ScreenCapture)
}

const VIDEO: MediaSessionState = MediaSessionState { video: true, audio: true };
const AUDIO_ONLY: MediaSessionState = MediaSessionState { video: false, audio: true };

fn scene_with(max: usize, streams: &[MediaDescriptor]) -> Scene {
    let mut scene = Scene::new(max);
    for d in streams {
        scene.add_stream(*d, AUDIO_ONLY).unwrap();
    }
    scene
}

#[test]
fn media_types_put_screen_share_first() {
    assert_eq!(media_types(), [MediaSessionType::ScreenCapture, MediaSessionType::Camera]);
    assert_eq!(MediaSessionType::Camera.name(), "Camera");
    assert_eq!(MediaSessionType::ScreenCapture.name(), "Screen");
}

#[test]
fn stream_ids_carry_owner_and_type() {
    let c = StreamId::camera(7u32);
    let s = StreamId::screen(7u32);
    let n = StreamId::new(8u32, MediaSessionType::ScreenCapture);
    assert_eq!((c.id, c.media_type), (7, MediaSessionType::Camera));
    assert_eq!((s.id, s.media_type), (7, MediaSessionType::ScreenCapture));
    assert_eq!((n.id, n.media_type), (8, MediaSessionType::ScreenCapture));
    assert_ne!(c, s);
}

#[test]
fn new_streams_are_known_but_invisible() {
    let mut scene = Scene::new(3);
    assert_eq!(scene.add_stream(camera(1), VIDEO), Ok(()));
    assert!(scene.contains_stream(camera(1)));
    assert!(!scene.is_visible(camera(1)));
    assert_eq!(scene.status(camera(1)), Some(VIDEO));
    assert_eq!(scene.status(camera(2)), None);
    assert!(scene.get_visibles().is_empty());
}

#[test]
fn adding_a_stream_twice_fails() {
    let mut scene = Scene::new(3);
    scene.add_stream(camera(1), AUDIO_ONLY).unwrap();
    assert_eq!(scene.add_stream(camera(1), VIDEO), Err(Error::IdDoublet(camera(1))));
    assert_eq!(scene.status(camera(1)), Some(AUDIO_ONLY));
}

#[test]
fn removing_an_unknown_stream_fails() {
    let mut scene = Scene::new(3);
    assert_eq!(scene.remove_stream(camera(1)), Err(Error::StreamNotFound(camera(1))));
    // an unknown stream is shown like any other
    assert!(!scene.show_stream(camera(1)));
    assert_eq!(scene.get_visibles(), vec![camera(1)]);
    assert!(!scene.contains_stream(camera(1)));
    assert_eq!(scene.render_order(), vec![camera(1)]);
}

#[test]
fn switching_video_on_shows_and_off_hides() {
    let mut scene = scene_with(3, &[camera(1), camera(2)]);
    assert!(scene.set_status(camera(1), VIDEO));
    assert!(scene.set_status(camera(2), VIDEO));
    assert_eq!(scene.get_visibles(), vec![camera(1), camera(2)]);
    // no change of the video flag: nothing moves
    assert!(!scene.set_status(camera(2), MediaSessionState { video: true, audio: false }));
    assert_eq!(scene.status(camera(2)), Some(MediaSessionState { video: true, audio: false }));
    assert!(scene.set_status(camera(1), AUDIO_ONLY));
    assert_eq!(scene.get_visibles(), vec![camera(2)]);
    // unknown streams are ignored
    assert!(!scene.set_status(camera(9), VIDEO));
}

#[test]
fn cameras_are_not_shown_beyond_the_maximum() {
    let mut scene = scene_with(2, &[camera(1), camera(2), camera(3)]);
    scene.set_status(camera(1), VIDEO);
    scene.set_status(camera(2), VIDEO);
    assert!(!scene.set_status(camera(3), VIDEO));
    assert_eq!(scene.get_visibles(), vec![camera(1), camera(2)]);
    assert!(!scene.is_visible(camera(3)));
}

#[test]
fn a_screen_share_replaces_the_last_visible_when_full() {
    let mut scene = scene_with(2, &[camera(1), camera(2), screen(3)]);
    scene.set_status(camera(1), VIDEO);
    scene.set_status(camera(2), VIDEO);
    assert!(scene.set_status(screen(3), VIDEO));
    assert_eq!(scene.render_order()[..2].to_vec(), vec![screen(3), camera(1)]);
    assert!(!scene.is_visible(camera(2)));
}

#[test]
fn screen_share_goes_first_only_when_no_other_is_visible() {
    let mut scene = scene_with(4, &[camera(1), screen(2), screen(3)]);
    scene.set_status(camera(1), VIDEO);
    scene.set_status(screen(2), VIDEO);
    scene.set_status(screen(3), VIDEO);
    assert_eq!(scene.get_visibles(), vec![screen(2), camera(1), screen(3)]);
    assert_eq!(scene.get_first_screen_capture(), Some(screen(2)));
}

#[test]
fn hiding_undoes_showing() {
    let mut scene = scene_with(4, &[camera(1), camera(2), screen(3)]);
    scene.set_status(camera(1), VIDEO);
    scene.set_status(camera(2), VIDEO);
    let before = scene.get_visibles();
    assert_eq!(scene.show_stream(screen(3)), false);
    assert!(scene.hide_stream(screen(3)));
    assert_eq!(scene.get_visibles(), before);
    assert!(!scene.hide_stream(screen(3)));
}

#[test]
fn showing_respects_the_maximum() {
    let mut scene = scene_with(2, &[camera(1), camera(2), screen(3), screen(4)]);
    for d in [camera(1), camera(2), screen(3), screen(4)] {
        scene.set_status(d, VIDEO);
        assert!(scene.get_visibles().len() <= 2);
    }
    assert_eq!(scene.get_visibles(), vec![screen(3), screen(4)]);
}

#[test]
fn speaker_camera_comes_to_the_front_without_screen_share() {
    let mut scene = scene_with(4, &[camera(1), camera(2), camera(3)]);
    for d in [camera(1), camera(2), camera(3)] {
        scene.set_status(d, VIDEO);
    }
    assert!(scene.set_speaker(ParticipantId(3)));
    assert_eq!(scene.get_visibles(), vec![camera(3), camera(1), camera(2)]);
    assert_eq!(scene.get_current_speaker(), Some(ParticipantId(3)));
    scene.unset_speaker();
    assert_eq!(scene.get_current_speaker(), None);
}

#[test]
fn speaker_camera_goes_second_behind_a_screen_share() {
    let mut scene = scene_with(4, &[camera(1), screen(2), camera(3)]);
    for d in [camera(1), screen(2), camera(3)] {
        scene.set_status(d, VIDEO);
    }
    assert_eq!(scene.get_visibles(), vec![screen(2), camera(1), camera(3)]);
    assert!(scene.set_speaker(ParticipantId(3)));
    assert_eq!(scene.get_visibles(), vec![screen(2), camera(3), camera(1)]);
}

#[test]
fn speaker_with_video_becomes_visible() {
    let mut scene = scene_with(1, &[camera(1), camera(2)]);
    scene.set_status(camera(1), VIDEO);
    scene.set_status(camera(2), VIDEO);
    assert!(!scene.is_visible(camera(2)));
    scene.set_speaker(ParticipantId(2));
    assert!(scene.is_visible(camera(2)));
    // the speaker is shown, though beyond the maximum; the reported visibles keep the limit
    assert_eq!(scene.get_visibles(), vec![camera(2)]);
    assert_eq!(scene.render_order()[..2].to_vec(), vec![camera(2), camera(1)]);
}

#[test]
fn two_visibles_are_not_swapped_for_the_speaker() {
    let mut scene = scene_with(4, &[camera(1), camera(2)]);
    scene.set_status(camera(1), VIDEO);
    scene.set_status(camera(2), VIDEO);
    assert!(!scene.set_speaker(ParticipantId(2)));
    assert_eq!(scene.get_visibles(), vec![camera(1), camera(2)]);
}

#[test]
fn speaker_without_video_is_not_moved() {
    let mut scene = scene_with(4, &[camera(1), camera(2), camera(3)]);
    scene.set_status(camera(1), VIDEO);
    scene.set_status(camera(2), VIDEO);
    assert!(!scene.set_speaker(ParticipantId(3)));
    assert!(!scene.is_visible(camera(3)));
}

#[test]
fn removed_stream_is_gone_and_next_screen_share_comes_first() {
    let mut scene = scene_with(4, &[camera(1), screen(2), camera(3), screen(4)]);
    for d in [camera(1), screen(2), camera(3), screen(4)] {
        scene.set_status(d, VIDEO);
    }
    assert_eq!(scene.get_visibles(), vec![screen(2), camera(1), camera(3), screen(4)]);
    assert_eq!(scene.remove_stream(screen(2)), Ok(true));
    assert!(!scene.contains_stream(screen(2)));
    assert!(!scene.is_visible(screen(2)));
    assert_eq!(scene.get_visibles(), vec![screen(4), camera(1), camera(3)]);
}

#[test]
fn removing_an_invisible_stream_keeps_the_visibles() {
    let mut scene = scene_with(4, &[camera(1), camera(2)]);
    scene.set_status(camera(1), VIDEO);
    assert_eq!(scene.remove_stream(camera(2)), Ok(false));
    assert_eq!(scene.get_visibles(), vec![camera(1)]);
}

#[test]
fn render_order_lists_every_stream_once() {
    let mut scene = scene_with(2, &[camera(1), camera(2), camera(3), screen(4)]);
    scene.set_status(camera(3), VIDEO);
    scene.set_status(camera(1), VIDEO);
    let order = scene.render_order();
    assert_eq!(order, vec![camera(3), camera(1), camera(2), screen(4)]);
}

#[test]
fn any_stream_of_a_participant() {
    let mut scene = scene_with(2, &[screen(1), camera(2)]);
    assert!(scene.contains_any_stream(ParticipantId(1)));
    assert!(scene.contains_any_stream(ParticipantId(2)));
    assert!(!scene.contains_any_stream(ParticipantId(3)));
    assert!(!scene.is_any_visible(ParticipantId(1)));
    scene.set_status(screen(1), VIDEO);
    assert!(scene.is_any_visible(ParticipantId(1)));
    assert!(!scene.is_any_visible(ParticipantId(2)));
    assert_eq!(scene.max_visibles(), 2);
}

#[test]
fn with_no_visibles_allowed_a_screen_share_shows_anyway() {
    let mut scene = scene_with(0, &[camera(1), screen(2)]);
    scene.set_status(camera(1), VIDEO);
    scene.set_status(screen(2), VIDEO);
    assert!(scene.is_visible(screen(2)));
    assert!(!scene.is_visible(camera(1)));
    assert!(scene.get_visibles().is_empty());
}

#[test]
fn a_camera_refused_at_the_maximum_is_reported() {
    let mut scene = scene_with(1, &[camera(1), camera(2), screen(3)]);
    assert_eq!(scene.show_stream(camera(1)), false);
    assert_eq!(scene.show_stream(camera(2)), true);
    assert_eq!(scene.get_visibles(), vec![camera(1)]);
    // a screen share is shown even at the maximum
    assert_eq!(scene.show_stream(screen(3)), false);
    assert_eq!(scene.get_visibles(), vec![screen(3)]);
    // showing a visible stream again reports it as shown
    assert_eq!(scene.show_stream(screen(3)), false);
    // an unknown camera at the maximum is not shown either
    assert_eq!(scene.show_stream(camera(9)), true);
    assert_eq!(scene.get_visibles(), vec![screen(3)]);
}

#[test]
fn set_visibles_shows_exactly_the_given_streams() {
    let mut scene = scene_with(3, &[camera(1), camera(2), screen(3), camera(4)]);
    assert_eq!(scene.show_stream(camera(4)), false);
    assert_eq!(scene.set_visibles(&[camera(1), camera(2), screen(3)], false), Ok(()));
    assert_eq!(scene.get_visibles(), vec![screen(3), camera(1), camera(2)]);
    assert_eq!(scene.set_visibles(&[], false), Ok(()));
    assert_eq!(scene.get_visibles(), vec![]);
}

#[test]
fn set_visibles_refuses_while_playing_or_too_many() {
    let mut scene = scene_with(2, &[camera(1), camera(2), camera(3)]);
    assert_eq!(scene.set_visibles(&[camera(1)], false), Ok(()));
    assert_eq!(scene.set_visibles(&[camera(2)], true), Err(Error::PlayingPipelineForbidden));
    assert_eq!(scene.set_visibles(&[camera(1), camera(2), camera(3)], false), Err(Error::TooManyVisibles));
    assert_eq!(scene.get_visibles(), vec![camera(1)]);
    // unknown streams are passed over
    assert_eq!(scene.set_visibles(&[camera(7), camera(2)], false), Ok(()));
    assert_eq!(scene.get_visibles(), vec![camera(2)]);
    assert_eq!(scene.visible_count(), 1);
}

#[test]
fn speaker_at_the_end_stays_there() {
    // the speaker's camera is moved into the second position behind a screen share; with
    // only two visibles it already stands at the end and nothing moves
    let mut scene = scene_with(3, &[screen(1), camera(2)]);
    scene.set_status(screen(1), VIDEO);
    scene.set_status(camera(2), VIDEO);
    assert_eq!(scene.get_visibles(), vec![screen(1), camera(2)]);
    assert!(!scene.set_speaker(ParticipantId(2)));
    assert_eq!(scene.get_visibles(), vec![screen(1), camera(2)]);
}
