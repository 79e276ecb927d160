use panex::supervisor::{ProcessConfig, ProcessManager, ProcessStatus, SupervisorError};

fn config(name: &str, command: &str) -> ProcessConfig {
    ProcessConfig {
        name: name.to_string(),
        command: command.to_string(),
        no_shift_tab: false,
        wrap_enabled: false,
    }
}

fn manager_with(names: &[&str]) -> ProcessManager {
    let mut pm = ProcessManager::new(80, 24, 5000);
    for n in names {
        pm.add_process(config(n, "true"));
    }
    pm
}

fn buffer_text(pm: &ProcessManager, name: &str) -> String {
    let p = pm.get_process(name).unwrap();
    let mut out = String::new();
    for line in p.buffer().get_all_lines().iter() {
        for cell in line.cells.iter() {
            out.push(cell.c);
        }
        out.push('\n');
    }
    out
}

#[test]
fn add_keeps_declaration_order() {
    let pm = manager_with(&["b", "a", "c"]);
    assert_eq!(pm.process_count(), 3);
    assert_eq!(pm.process_names(), vec!["b", "a", "c"]);
}

#[test]
fn duplicate_name_is_ignored() {
    let mut pm = manager_with(&["a"]);
    pm.add_process(config("a", "other"));
    assert_eq!(pm.process_count(), 1);
    assert_eq!(pm.get_process("a").unwrap().config().command, "true");
}

#[test]
fn generation_increments_exactly_once_per_start() {
    let mut pm = manager_with(&["a"]);
    assert_eq!(pm.get_process("a").unwrap().generation(), 0);
    let req = pm.start_process("a").unwrap();
    assert_eq!(req.generation, 1);
    assert_eq!(req.command, "true");
    assert_eq!(req.cols, 80);
    assert_eq!(req.rows, 24);
    assert_eq!(pm.get_process("a").unwrap().generation(), 1);
    pm.confirm_start("a");
    assert_eq!(*pm.get_process("a").unwrap().status(), ProcessStatus::Running);
    let req2 = pm.start_process("a").unwrap();
    assert_eq!(req2.generation, 2);
}

#[test]
fn start_unknown_process_fails() {
    let mut pm = manager_with(&["a"]);
    assert!(matches!(
        pm.start_process("missing"),
        Err(SupervisorError::UnknownProcess)
    ));
}

#[test]
fn stale_generation_output_is_discarded() {
    let mut pm = manager_with(&["a"]);
    pm.start_process("a").unwrap();
    pm.confirm_start("a");
    let before = buffer_text(&pm, "a");
    let responses = pm.handle_output("a", 999, b"garbage\x1b[6n");
    assert!(responses.is_empty());
    assert_eq!(buffer_text(&pm, "a"), before);
}

#[test]
fn live_generation_output_is_applied() {
    let mut pm = manager_with(&["a"]);
    pm.start_process("a").unwrap();
    pm.confirm_start("a");
    let responses = pm.handle_output("a", 1, b"hi\x1b[6n");
    assert_eq!(responses, vec![b"\x1b[1;3R".to_vec()]);
    assert!(buffer_text(&pm, "a").starts_with("hi"));
}

#[test]
fn kill_on_stopped_process_is_noop() {
    let mut pm = manager_with(&["a"]);
    let had = pm.kill_process("a");
    assert!(!had);
    assert_eq!(*pm.get_process("a").unwrap().status(), ProcessStatus::Stopped);
    assert_eq!(pm.get_process("a").unwrap().generation(), 0);
}

#[test]
fn kill_running_process_stops_it() {
    let mut pm = manager_with(&["a"]);
    pm.start_process("a").unwrap();
    pm.confirm_start("a");
    let had = pm.kill_process("a");
    assert!(had);
    assert_eq!(*pm.get_process("a").unwrap().status(), ProcessStatus::Stopped);
    assert!(!pm.kill_process("a"));
}

#[test]
fn stale_events_after_restart_have_no_effect() {
    let mut pm = manager_with(&["a"]);
    pm.start_process("a").unwrap();
    pm.confirm_start("a");
    pm.handle_output("a", 1, b"first instance");
    pm.kill_process("a");
    pm.start_process("a").unwrap();
    pm.confirm_start("a");
    assert_eq!(pm.get_process("a").unwrap().generation(), 2);
    let before = buffer_text(&pm, "a");

    let responses = pm.handle_output("a", 1, b"late bytes from the dead");
    assert!(responses.is_empty());
    assert_eq!(buffer_text(&pm, "a"), before);
    assert_eq!(*pm.get_process("a").unwrap().status(), ProcessStatus::Running);

    assert!(!pm.handle_exit("a", 1, Some(9)));
    assert_eq!(*pm.get_process("a").unwrap().status(), ProcessStatus::Running);
    assert!(!pm.handle_error("a", 1, "boom"));
    assert_eq!(*pm.get_process("a").unwrap().status(), ProcessStatus::Running);

    assert!(pm.handle_exit("a", 2, Some(3)));
    assert_eq!(*pm.get_process("a").unwrap().status(), ProcessStatus::Exited(3));
}

#[test]
fn exit_without_code_counts_as_zero() {
    let mut pm = manager_with(&["a"]);
    pm.start_process("a").unwrap();
    pm.confirm_start("a");
    assert!(pm.handle_exit("a", 1, None));
    assert_eq!(*pm.get_process("a").unwrap().status(), ProcessStatus::Exited(0));
}

#[test]
fn error_records_failure_text() {
    let mut pm = manager_with(&["a"]);
    pm.start_process("a").unwrap();
    pm.confirm_start("a");
    assert!(pm.handle_error("a", 1, "spawn failed"));
    assert_eq!(
        *pm.get_process("a").unwrap().status(),
        ProcessStatus::Failed("spawn failed".to_string())
    );
}

#[test]
fn events_for_unknown_names_are_ignored() {
    let mut pm = manager_with(&["a"]);
    assert!(pm.handle_output("nope", 0, b"x").is_empty());
    assert!(!pm.handle_exit("nope", 0, None));
    assert!(!pm.handle_error("nope", 0, "x"));
}

#[test]
fn stopped_count_and_any_running() {
    let mut pm = manager_with(&["a", "b", "c"]);
    assert_eq!(pm.stopped_count(), 3);
    assert!(!pm.any_running());
    pm.start_process("b").unwrap();
    pm.confirm_start("b");
    assert_eq!(pm.stopped_count(), 2);
    assert!(pm.any_running());
}

#[test]
fn resize_updates_geometry_for_new_starts() {
    let mut pm = manager_with(&["a"]);
    pm.resize(120, 40);
    let req = pm.start_process("a").unwrap();
    assert_eq!(req.cols, 120);
    assert_eq!(req.rows, 40);
}

#[test]
fn finish_shutdown_stops_everything_running() {
    let mut pm = manager_with(&["a", "b"]);
    pm.start_process("a").unwrap();
    pm.confirm_start("a");
    pm.finish_shutdown();
    assert_eq!(*pm.get_process("a").unwrap().status(), ProcessStatus::Stopped);
    assert_eq!(*pm.get_process("b").unwrap().status(), ProcessStatus::Stopped);
    assert!(!pm.any_running());
}

#[test]
fn status_icons() {
    assert_eq!(ProcessStatus::Running.icon(), "●");
    assert_eq!(ProcessStatus::Exited(0).icon(), "○");
    assert_eq!(ProcessStatus::Exited(1).icon(), "✗");
    assert_eq!(ProcessStatus::Failed("x".to_string()).icon(), "✗");
    assert_eq!(ProcessStatus::Stopped.icon(), "○");
}
