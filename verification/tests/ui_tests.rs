use airscreen::ui::{button_label, panel_click, resize_nearest, PanelAction};

#[test]
fn button_reads_start_or_stop_for_the_mode() {
    assert_eq!(button_label(true, false), "Start Server");
    assert_eq!(button_label(true, true), "Stop Server");
    assert_eq!(button_label(false, false), "Start Client");
    assert_eq!(button_label(false, true), "Stop Client");
}

#[test]
fn click_while_running_stops() {
    assert_eq!(panel_click(true, true), (false, PanelAction::Stop));
    assert_eq!(panel_click(false, true), (false, PanelAction::Stop));
}

#[test]
fn click_while_stopped_starts_the_chosen_side() {
    assert_eq!(panel_click(true, false), (true, PanelAction::StartServer));
    assert_eq!(panel_click(false, false), (true, PanelAction::StartClient));
}

#[test]
fn resize_to_the_same_size_copies_the_frame() {
    let data: Vec<u8> = (0..2 * 3 * 3).map(|v| v as u8).collect();
    assert_eq!(resize_nearest(&data, 3, 2, 3, 2), data);
}

#[test]
fn resize_gives_the_asked_size() {
    let data = vec![9u8; 4 * 4 * 3];
    let out = resize_nearest(&data, 4, 4, 7, 3);
    assert_eq!(out.len(), 7 * 3 * 3);
    assert!(out.iter().all(|&v| v == 9));
}

#[test]
fn upscaling_one_pixel_repeats_it() {
    let out = resize_nearest(&[10, 20, 30], 1, 1, 2, 2);
    assert_eq!(out, vec![10, 20, 30, 10, 20, 30, 10, 20, 30, 10, 20, 30]);
}
