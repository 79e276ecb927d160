use panex::supervisor::{ProcessConfig, ProcessManager};
use panex::viewport::{display_line_count, scroll_down, scroll_to_bottom, scroll_to_top, scroll_up};

fn manager_one(wrap: bool) -> ProcessManager {
    let mut pm = ProcessManager::new(80, 10, 5000);
    pm.add_process(ProcessConfig {
        name: "p".to_string(),
        command: "true".to_string(),
        no_shift_tab: false,
        wrap_enabled: wrap,
    });
    pm.start_process("p").unwrap();
    pm.confirm_start("p");
    pm
}

fn feed_lines(pm: &mut ProcessManager, n: usize) {
    for i in 0..n {
        let line = format!("line {}\n", i);
        pm.handle_output("p", 1, line.as_bytes());
    }
}

#[test]
fn auto_scroll_tracks_new_output() {
    let mut pm = manager_one(false);
    assert!(pm.get_process("p").unwrap().auto_scroll());
    feed_lines(&mut pm, 30);
    let p = pm.get_process("p").unwrap();
    assert!(p.auto_scroll());
    // 30 content lines, 10 visible: the viewport sits 20 lines down.
    assert_eq!(p.scroll_offset(), 20);
}

#[test]
fn scroll_up_unpins() {
    let mut pm = manager_one(false);
    feed_lines(&mut pm, 30);
    let p = pm.get_process_mut("p").unwrap();
    scroll_up(p, 5);
    assert_eq!(p.scroll_offset(), 15);
    assert!(!p.auto_scroll());
    drop(p);
    // output no longer moves the viewport
    feed_lines(&mut pm, 5);
    let p = pm.get_process("p").unwrap();
    assert_eq!(p.scroll_offset(), 15);
    assert!(!p.auto_scroll());
}

#[test]
fn scroll_up_saturates_at_top() {
    let mut pm = manager_one(false);
    feed_lines(&mut pm, 3);
    let p = pm.get_process_mut("p").unwrap();
    scroll_up(p, 100);
    assert_eq!(p.scroll_offset(), 0);
    assert!(!p.auto_scroll());
}

#[test]
fn scroll_to_top_unpins() {
    let mut pm = manager_one(false);
    feed_lines(&mut pm, 30);
    let p = pm.get_process_mut("p").unwrap();
    scroll_to_top(p);
    assert_eq!(p.scroll_offset(), 0);
    assert!(!p.auto_scroll());
}

#[test]
fn scroll_to_bottom_pins_and_stays_pinned() {
    let mut pm = manager_one(false);
    feed_lines(&mut pm, 30);
    let p = pm.get_process_mut("p").unwrap();
    scroll_to_top(p);
    scroll_to_bottom(p, 10, 80);
    assert_eq!(p.scroll_offset(), 20);
    assert!(p.auto_scroll());
    drop(p);
    feed_lines(&mut pm, 10);
    let p = pm.get_process("p").unwrap();
    assert!(p.auto_scroll());
    assert_eq!(p.scroll_offset(), 30);
}

#[test]
fn scroll_down_repins_only_at_bottom() {
    let mut pm = manager_one(false);
    feed_lines(&mut pm, 30);
    let p = pm.get_process_mut("p").unwrap();
    scroll_to_top(p);
    scroll_down(p, 5, 10, 80);
    assert_eq!(p.scroll_offset(), 5);
    assert!(!p.auto_scroll());
    scroll_down(p, 100, 10, 80);
    assert_eq!(p.scroll_offset(), 20);
    assert!(p.auto_scroll());
}

#[test]
fn display_count_without_wrap_is_content_count() {
    let mut pm = manager_one(false);
    feed_lines(&mut pm, 7);
    let p = pm.get_process("p").unwrap();
    assert_eq!(display_line_count(p, 80), 7);
}

#[test]
fn display_count_with_wrap_splits_long_lines() {
    let mut pm = manager_one(true);
    pm.handle_output("p", 1, b"abcde");
    let p = pm.get_process("p").unwrap();
    // one stored line of five cells at width two: three display rows
    assert_eq!(display_line_count(p, 2), 3);
    // width zero falls back to the unwrapped count
    assert_eq!(display_line_count(p, 0), 1);
}

#[test]
fn wrap_mode_auto_scroll_uses_wrapped_rows() {
    let mut pm = ProcessManager::new(2, 3, 5000);
    pm.add_process(ProcessConfig {
        name: "p".to_string(),
        command: "true".to_string(),
        no_shift_tab: false,
        wrap_enabled: true,
    });
    pm.start_process("p").unwrap();
    pm.confirm_start("p");
    // five cells at width two: three display rows, three visible: no offset
    pm.handle_output("p", 1, b"abcde");
    assert_eq!(pm.get_process("p").unwrap().scroll_offset(), 0);
    // ten cells: five display rows, three visible: offset two
    pm.handle_output("p", 1, b"fghij");
    assert_eq!(pm.get_process("p").unwrap().scroll_offset(), 2);
}

#[test]
fn pin_toggle_via_manual_flag() {
    let mut pm = manager_one(false);
    feed_lines(&mut pm, 30);
    let p = pm.get_process_mut("p").unwrap();
    assert!(p.auto_scroll());
    p.set_manual_scroll();
    assert!(!p.auto_scroll());
    scroll_to_bottom(p, 10, 80);
    assert!(p.auto_scroll());
}
