use compositor::{dot_file_name, qualified_name};

#[test]
fn numbered_graph_files() {
    assert_eq!(dot_file_name(Some(0), "pipeline-initial"), "0-pipeline-initial");
    assert_eq!(dot_file_name(Some(17), "BUS-ERROR"), "17-BUS-ERROR");
}

#[test]
fn unnumbered_graph_files() {
    assert_eq!(dot_file_name(None, "pipeline"), "pipeline");
    assert_eq!(dot_file_name(None, ""), "");
}

#[test]
fn names_within_their_bins() {
    let names = vec![
        String::from("Compositor"),
        String::from("VideoMixer"),
        String::from("compositor"),
    ];
    assert_eq!(qualified_name(&names), "Compositor.VideoMixer.compositor");
    assert_eq!(qualified_name(&names[2..]), "compositor");
    assert_eq!(qualified_name(&[]), "");
}
