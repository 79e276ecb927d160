use panex::ui_state::{App, HelpPopup, InputMode, StatusBar};

#[test]
fn selection_wraps_forward_and_backward() {
    let mut app = App::new(false);
    assert_eq!(app.selected_index, 0);
    app.select_next(3);
    assert_eq!(app.selected_index, 1);
    app.select_next(3);
    app.select_next(3);
    assert_eq!(app.selected_index, 0);
    app.select_prev(3);
    assert_eq!(app.selected_index, 2);
    app.select_prev(3);
    assert_eq!(app.selected_index, 1);
}

#[test]
fn selection_ignores_empty_list() {
    let mut app = App::new(false);
    app.select_next(0);
    app.select_prev(0);
    assert_eq!(app.selected_index, 0);
}

#[test]
fn focus_mode_transitions() {
    let mut app = App::new(true);
    assert_eq!(app.mode, InputMode::Browse);
    app.enter_focus();
    assert_eq!(app.mode, InputMode::Focus);
    app.exit_focus();
    assert_eq!(app.mode, InputMode::Browse);
    assert!(app.no_shift_tab);
}

#[test]
fn help_toggle_and_quit() {
    let mut app = App::new(false);
    app.toggle_help();
    assert!(app.show_help);
    app.toggle_help();
    assert!(!app.show_help);
    assert!(!app.shutting_down);
    app.quit();
    assert!(app.shutting_down);
}

#[test]
fn mode_labels() {
    assert_eq!(InputMode::Browse.label(), " BROWSE ");
    assert_eq!(InputMode::Focus.label(), " FOCUS ");
}

#[test]
fn status_bar_holds_its_inputs() {
    let bar = StatusBar::new(InputMode::Focus, true);
    assert_eq!(bar.mode, InputMode::Focus);
    assert!(bar.no_shift_tab);
    let _help = HelpPopup::new();
}
