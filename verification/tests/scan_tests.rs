use gameproc::Platform;
use gameproc::scan::DirEntry;
use gameproc::scan::scan_entries;
use gameproc::scan::strip_launch_args;

fn entry(name: &str, is_file: bool, unix_mode: u32) -> DirEntry {
    DirEntry { name: name.to_string(), is_file, unix_mode }
}

#[test]
fn scan_example_windows() {
    let entries = vec![entry("launcher.exe", true, 0), entry("notes.txt", true, 0)];
    let found = scan_entries(Platform::Windows, &entries);
    assert_eq!(found, vec!["launcher.exe".to_string()]);
}

#[test]
fn scan_example_linux() {
    let entries = vec![entry("launcher.exe", true, 0o755), entry("notes.txt", true, 0o644)];
    let found = scan_entries(Platform::Linux, &entries);
    assert_eq!(found, vec!["launcher.exe".to_string()]);
}

#[test]
fn scan_no_qualifying_executables_is_empty() {
    let entries = vec![
        entry("notes.txt", true, 0o644),
        entry("readme.md", true, 0o600),
        entry("data.bin", true, 0o644),
    ];
    assert!(scan_entries(Platform::Windows, &entries).is_empty());
    assert!(scan_entries(Platform::Linux, &entries).is_empty());
    let none: Vec<DirEntry> = Vec::new();
    assert!(scan_entries(Platform::Windows, &none).is_empty());
    assert!(scan_entries(Platform::Linux, &none).is_empty());
}

#[test]
fn scan_linux_extension_rules() {
    let entries = vec![
        entry("game", true, 0o755),
        entry("run.sh", true, 0o700),
        entry("libfoo.so", true, 0o755),
        entry("win.exe", true, 0o111),
        entry("doc.txt", true, 0o755),
        entry("game.cfg", true, 0o777),
    ];
    let found = scan_entries(Platform::Linux, &entries);
    assert_eq!(
        found,
        vec![
            "game".to_string(),
            "run.sh".to_string(),
            "libfoo.so".to_string(),
            "win.exe".to_string()
        ]
    );
}

#[test]
fn scan_linux_requires_execute_bit() {
    let entries = vec![entry("game", true, 0o644), entry("run.sh", true, 0o600)];
    assert!(scan_entries(Platform::Linux, &entries).is_empty());
}

#[test]
fn scan_skips_non_files() {
    let entries = vec![entry("dir.exe", false, 0o755), entry("sub", false, 0o755)];
    assert!(scan_entries(Platform::Windows, &entries).is_empty());
    assert!(scan_entries(Platform::Linux, &entries).is_empty());
}

#[test]
fn scan_windows_ignores_permissions() {
    let entries = vec![entry("Game.EXE", true, 0), entry("game.exe", true, 0)];
    let found = scan_entries(Platform::Windows, &entries);
    // The suffix check is exact; case variants of the suffix itself do not pass.
    assert_eq!(found, vec!["game.exe".to_string()]);
}

#[test]
fn strip_launch_args_cuts_trailing_flags() {
    assert_eq!(strip_launch_args("/games/foo -l launch"), "/games/foo".to_string());
    assert_eq!(strip_launch_args("a -b"), "a".to_string());
}

#[test]
fn strip_launch_args_keeps_plain_paths() {
    assert_eq!(strip_launch_args("/games/foo"), "/games/foo".to_string());
    assert_eq!(strip_launch_args("C:/Games/My Game"), "C:/Games/My Game".to_string());
    assert_eq!(strip_launch_args(""), "".to_string());
    assert_eq!(strip_launch_args(" -x"), " -x".to_string());
}

#[test]
fn strip_launch_args_takes_first_cut() {
    assert_eq!(strip_launch_args("game -a -b"), "game".to_string());
    assert_eq!(strip_launch_args("game -1 -b"), "game -1".to_string());
}
