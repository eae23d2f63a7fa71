use toyoterm::icons::standard_notification_icon;

fn pixel(rgba: &[u8], x: usize, y: usize) -> [u8; 4] {
    let offset = (y * 48 + x) * 4;
    [rgba[offset], rgba[offset + 1], rgba[offset + 2], rgba[offset + 3]]
}

#[test]
fn unknown_icon_names_draw_nothing() {
    assert!(standard_notification_icon("no-such-icon").is_none());
    assert!(standard_notification_icon("").is_none());
}

#[test]
fn error_icons_cross_a_red_disc() {
    let icon = standard_notification_icon("dialog-error").unwrap();
    assert_eq!((icon.width, icon.height, icon.rgba.len()), (48, 48, 48 * 48 * 4));
    assert_eq!(pixel(&icon.rgba, 0, 0), [0, 0, 0, 0]);
    assert_eq!(pixel(&icon.rgba, 10, 24), [204, 45, 55, 255]);
    assert_eq!(pixel(&icon.rgba, 24, 24), [255, 255, 255, 255]);
    assert_eq!(pixel(&icon.rgba, 16, 32), [255, 255, 255, 255]);
    assert_eq!(pixel(&icon.rgba, 14, 14), [255, 255, 255, 255]);
    assert_eq!(pixel(&icon.rgba, 24, 2), [0, 0, 0, 0]);
}

#[test]
fn warning_icons_mark_an_orange_triangle() {
    let icon = standard_notification_icon("dialog-warning").unwrap();
    assert_eq!(pixel(&icon.rgba, 24, 5), [230, 158, 25, 255]);
    assert_eq!(pixel(&icon.rgba, 23, 5), [0, 0, 0, 0]);
    assert_eq!(pixel(&icon.rgba, 5, 43), [230, 158, 25, 255]);
    assert_eq!(pixel(&icon.rgba, 24, 44), [0, 0, 0, 0]);
    assert_eq!(pixel(&icon.rgba, 24, 20), [255, 255, 255, 255]);
    assert_eq!(pixel(&icon.rgba, 26, 38), [255, 255, 255, 255]);
    assert_eq!(pixel(&icon.rgba, 24, 33), [230, 158, 25, 255]);
}

#[test]
fn question_icons_differ_only_in_colour() {
    let question = standard_notification_icon("dialog-question").unwrap();
    let help = standard_notification_icon("help-browser").unwrap();
    assert_eq!(pixel(&question.rgba, 8, 24), [126, 76, 180, 255]);
    assert_eq!(pixel(&help.rgba, 8, 24), [45, 154, 92, 255]);
    assert_eq!(pixel(&question.rgba, 24, 13), [255, 255, 255, 255]);
    assert_eq!(pixel(&help.rgba, 24, 13), [255, 255, 255, 255]);
    let info = standard_notification_icon("dialog-information").unwrap();
    assert_eq!(pixel(&info.rgba, 8, 24), [45, 117, 204, 255]);
    assert_eq!(pixel(&info.rgba, 24, 30), [255, 255, 255, 255]);
}

#[test]
fn application_icons_fill_their_shapes() {
    let files = standard_notification_icon("system-file-manager").unwrap();
    assert_eq!(pixel(&files.rgba, 10, 15), [232, 175, 56, 255]);
    assert_eq!(pixel(&files.rgba, 10, 30), [244, 194, 72, 255]);
    assert_eq!(pixel(&files.rgba, 20, 25), [255, 225, 145, 255]);
    assert_eq!(pixel(&files.rgba, 30, 15), [0, 0, 0, 0]);

    let monitor = standard_notification_icon("utilities-system-monitor").unwrap();
    assert_eq!(pixel(&monitor.rgba, 5, 8), [47, 55, 65, 255]);
    assert_eq!(pixel(&monitor.rgba, 24, 40), [103, 113, 126, 255]);
    assert_eq!(pixel(&monitor.rgba, 9, 29), [70, 214, 120, 255]);
    assert_eq!(pixel(&monitor.rgba, 39, 20), [70, 214, 120, 255]);

    let editor = standard_notification_icon("accessories-text-editor").unwrap();
    assert_eq!(pixel(&editor.rgba, 20, 10), [245, 247, 250, 255]);
    for y in [14, 21, 28, 35] {
        assert_eq!(pixel(&editor.rgba, 20, y), [62, 116, 184, 255]);
    }
    assert_eq!(pixel(&editor.rgba, 7, 10), [0, 0, 0, 0]);
}
