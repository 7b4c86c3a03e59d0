use eisenbahn::tools::Tool;

#[test]
fn tool_wheel_order() {
    let tools = Tool::as_vec();
    assert_eq!(tools, vec![Tool::Viewer, Tool::TrackEditor, Tool::TrainEditor]);
}

#[test]
fn tool_wheel_cycles() {
    assert_eq!(Tool::next(&Tool::Viewer), Tool::TrackEditor);
    assert_eq!(Tool::next(&Tool::TrackEditor), Tool::TrainEditor);
    assert_eq!(Tool::next(&Tool::TrainEditor), Tool::Viewer);
    // A full lap returns to the start.
    let mut t = Tool::Viewer;
    for _ in 0..3 {
        t = Tool::next(&t);
    }
    assert_eq!(t, Tool::Viewer);
}
