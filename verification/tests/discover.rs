use kr::discover::{active_folders, discover_lines, parse_krrc, KrConfig, Mode};

fn strings(v: &[&str]) -> Vec<String> {
    v.iter().map(|s| s.to_string()).collect()
}

fn no_config() -> KrConfig {
    KrConfig { mode: None, folders: vec![] }
}

#[test]
fn krrc_mode_and_folders_are_read() {
    let c = parse_krrc("mode: all\nfolders:\n  - /tmp/extra-kr\n  - /srv/kr\n");
    assert_eq!(c.mode, Some(Mode::All));
    assert_eq!(c.folders, strings(&["/tmp/extra-kr", "/srv/kr"]));
    let single = parse_krrc("  mode:   single  \r\n");
    assert_eq!(single.mode, Some(Mode::Single));
    assert!(single.folders.is_empty());
}

#[test]
fn krrc_last_mode_wins_and_unknown_modes_are_ignored() {
    assert_eq!(parse_krrc("mode: all\nmode: single\n").mode, Some(Mode::Single));
    assert_eq!(parse_krrc("mode: all\nmode: sometimes\n").mode, Some(Mode::All));
    assert_eq!(parse_krrc("mode: override\n").mode, None);
    assert_eq!(parse_krrc("").mode, None);
    assert_eq!(parse_krrc("-\n-   \nfolders:\n").folders, Vec::<String>::new());
}

#[test]
fn folder_flag_overrides_everything() {
    let c = parse_krrc("mode: all\nfolders:\n  - /x\n");
    let (mode, folders) = active_folders(
        &strings(&["/tmp/a", "/tmp/b", "/tmp/a"]),
        &c,
        &Some("/env".to_string()),
        &Some("/cwd/.kr".to_string()),
        "/home/u/.kr",
    );
    assert_eq!(mode, Mode::Override);
    assert_eq!(folders, strings(&["/tmp/a", "/tmp/b"]));
}

#[test]
fn single_mode_takes_one_folder() {
    let home = "/home/u/.kr";
    let env = Some("/env".to_string());
    let local = Some("/cwd/.kr".to_string());
    assert_eq!(active_folders(&vec![], &no_config(), &env, &local, home), (Mode::Single, strings(&["/env"])));
    assert_eq!(active_folders(&vec![], &no_config(), &None, &local, home), (Mode::Single, strings(&[home])));
    assert_eq!(active_folders(&vec![], &no_config(), &None, &None, home), (Mode::Single, strings(&[home])));
    let single = parse_krrc("mode: single\n");
    assert_eq!(active_folders(&vec![], &single, &None, &None, home).0, Mode::Single);
}

#[test]
fn all_mode_takes_local_default_and_listed_folders_once() {
    let c = parse_krrc("mode: all\nfolders:\n  - /tmp/extra-kr\n  - /home/u/.kr\n");
    let (mode, folders) = active_folders(&vec![], &c, &None, &Some("/cwd/.kr".to_string()), "/home/u/.kr");
    assert_eq!(mode, Mode::All);
    assert_eq!(folders, strings(&["/cwd/.kr", "/home/u/.kr", "/tmp/extra-kr"]));
    let (_, with_env) = active_folders(&vec![], &c, &Some("/env".to_string()), &None, "/home/u/.kr");
    assert_eq!(with_env, strings(&["/env", "/tmp/extra-kr", "/home/u/.kr"]));
}

#[test]
fn discover_prints_mode_and_folders() {
    assert_eq!(
        discover_lines(Mode::Override, &strings(&["/tmp/a", "/tmp/b"])),
        strings(&["Mode: override", "Active kr folders:", "  /tmp/a", "  /tmp/b"])
    );
    assert_eq!(discover_lines(Mode::Single, &vec![]), strings(&["Mode: single", "Active kr folders:"]));
    assert_eq!(discover_lines(Mode::All, &strings(&["x"]))[0], "Mode: all");
}
