use lib_rrttp::transport_layer::window::NewWindow;

#[test]
fn no_shift_when_frame_status_empty() {
    let mut window = NewWindow {
        frame_status: vec![],
        window_left_edge: 0,
        ..Default::default()
    };

    window.shift_window();

    assert_eq!(window.window_left_edge, 0);
}

#[test]
fn no_shift_when_frame_status_full_of_false() {
    let mut window = NewWindow {
        frame_status: vec![false, false, false, false, false],
        window_left_edge: 0,
        ..Default::default()
    };

    window.shift_window();

    assert_eq!(window.window_left_edge, 0);
}

#[test]
fn shift_when_possible() {
    let mut window = NewWindow {
        frame_status: vec![true, true, false, true, false],
        window_left_edge: 0,
        ..Default::default()
    };

    window.shift_window();

    assert_eq!(window.window_left_edge, 2);
    assert_eq!(window.frame_status, vec![false, true, false]);

    window.shift_window();

    assert_eq!(window.window_left_edge, 2);
    assert_eq!(window.frame_status, vec![false, true, false]);
}
