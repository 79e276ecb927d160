use panex::config::PanexConfig;

fn strings(items: &[&str]) -> Vec<String> {
    items.iter().map(|s| s.to_string()).collect()
}

#[test]
fn default_names_are_numbered() {
    let cfg = PanexConfig::from_args(strings(&["echo a", "echo b"]), None, false, 5000);
    assert_eq!(cfg.processes.len(), 2);
    assert_eq!(cfg.processes[0].name, "proc1");
    assert_eq!(cfg.processes[1].name, "proc2");
    assert_eq!(cfg.processes[0].command, "echo a");
    assert_eq!(cfg.processes[1].command, "echo b");
    assert!(!cfg.processes[0].no_shift_tab);
    assert!(!cfg.processes[0].wrap_enabled);
}

#[test]
fn names_are_split_and_trimmed() {
    let cfg = PanexConfig::from_args(
        strings(&["a", "b", "c"]),
        Some(" one, two ,three".to_string()),
        false,
        5000,
    );
    assert_eq!(cfg.processes[0].name, "one");
    assert_eq!(cfg.processes[1].name, "two");
    assert_eq!(cfg.processes[2].name, "three");
}

#[test]
fn missing_names_fall_back_to_numbered() {
    let cfg = PanexConfig::from_args(
        strings(&["a", "b", "c"]),
        Some("only".to_string()),
        false,
        5000,
    );
    assert_eq!(cfg.processes[0].name, "only");
    assert_eq!(cfg.processes[1].name, "proc2");
    assert_eq!(cfg.processes[2].name, "proc3");
}

#[test]
fn suffixes_set_flags_but_name_keeps_raw_form() {
    let cfg = PanexConfig::from_args(
        strings(&["a", "b", "c"]),
        Some("plain,noexit!,wrapped:w".to_string()),
        false,
        5000,
    );
    assert_eq!(cfg.processes[0].name, "plain");
    assert!(!cfg.processes[0].no_shift_tab);
    assert!(!cfg.processes[0].wrap_enabled);

    assert_eq!(cfg.processes[1].name, "noexit!");
    assert!(cfg.processes[1].no_shift_tab);
    assert!(!cfg.processes[1].wrap_enabled);

    assert_eq!(cfg.processes[2].name, "wrapped:w");
    assert!(!cfg.processes[2].no_shift_tab);
    assert!(cfg.processes[2].wrap_enabled);
}

#[test]
fn stacked_suffixes_in_any_order() {
    let cfg = PanexConfig::from_args(
        strings(&["a", "b"]),
        Some("x:w!,y!:w".to_string()),
        false,
        5000,
    );
    assert!(cfg.processes[0].no_shift_tab);
    assert!(cfg.processes[0].wrap_enabled);
    assert_eq!(cfg.processes[0].name, "x:w!");
    assert!(cfg.processes[1].no_shift_tab);
    assert!(cfg.processes[1].wrap_enabled);
    assert_eq!(cfg.processes[1].name, "y!:w");
}

#[test]
fn global_flags_pass_through() {
    let cfg = PanexConfig::from_args(strings(&["a"]), None, true, 1234);
    assert!(cfg.no_shift_tab);
    assert_eq!(cfg.timeout, 1234);
}
