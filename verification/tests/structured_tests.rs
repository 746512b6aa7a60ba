use gameproc::Platform;
use gameproc::enumerate_from_output;
use gameproc::matching::get_game_processes;
use gameproc::structured::parse_structured_listing;

#[test]
fn structured_listing_yields_records() {
    let raw = r#"[
        {"ProcessName": "Game.exe", "ProcessId": 42, "ExecutablePath": "C:/g/Game.exe"},
        {"ProcessName": "idle.exe", "ProcessId": 7, "ExecutablePath": "C:/i/idle.exe"}
    ]"#;
    let records = parse_structured_listing(raw);
    assert_eq!(records.len(), 2);
    assert_eq!(records[0].name, "Game.exe");
    assert_eq!(records[0].pid, 42);
    assert_eq!(records[0].exe, "C:/g/Game.exe");
    assert_eq!(records[1].name, "idle.exe");
    assert_eq!(records[1].pid, 7);
}

#[test]
fn element_without_textual_name_is_dropped() {
    let raw = r#"[
        {"ProcessId": 1, "ExecutablePath": "/a"},
        {"ProcessName": 5, "ProcessId": 2, "ExecutablePath": "/b"},
        {"ProcessName": "kept.exe", "ProcessId": 3, "ExecutablePath": "/c"}
    ]"#;
    let records = parse_structured_listing(raw);
    assert_eq!(records.len(), 1);
    assert_eq!(records[0].name, "kept.exe");
}

#[test]
fn missing_fields_degrade_not_abort() {
    let raw = r#"[{"ProcessName": "bare.exe"}]"#;
    let records = parse_structured_listing(raw);
    assert_eq!(records.len(), 1);
    assert_eq!(records[0].pid, 0);
    assert_eq!(records[0].exe, "");
}

#[test]
fn oversized_identifier_is_truncated() {
    let raw = r#"[{"ProcessName": "t.exe", "ProcessId": 4294967297, "ExecutablePath": "/t"}]"#;
    let records = parse_structured_listing(raw);
    assert_eq!(records.len(), 1);
    assert_eq!(records[0].pid, 1);
}

#[test]
fn textual_identifier_degrades_to_zero() {
    let raw = r#"[{"ProcessName": "s.exe", "ProcessId": "42", "ExecutablePath": "/s"}]"#;
    let records = parse_structured_listing(raw);
    assert_eq!(records.len(), 1);
    assert_eq!(records[0].pid, 0);
}

#[test]
fn unparseable_or_non_array_degrades_to_empty() {
    assert!(parse_structured_listing("not json at all").is_empty());
    assert!(parse_structured_listing(r#"{"ProcessName": "x"}"#).is_empty());
    assert!(parse_structured_listing("").is_empty());
    assert!(parse_structured_listing("[]").is_empty());
}

#[test]
fn windows_discovery_pipeline() {
    let raw = r#"[
        {"ProcessName": "game.exe", "ProcessId": 11, "ExecutablePath": "C:/g/game.exe"},
        {"ProcessName": "sam.game.exe", "ProcessId": 12, "ExecutablePath": "C:/sam.exe"},
        {"ProcessName": "other.exe", "ProcessId": 13, "ExecutablePath": "C:/o.exe"}
    ]"#;
    let table = enumerate_from_output(Platform::Windows, raw);
    let scanned: Vec<String> = Vec::new();
    let found =
        get_game_processes(Some("GAME.EXE".to_string()), &scanned, Platform::Windows, &table);
    assert_eq!(found.len(), 2);
    assert_eq!(found[0].pid, 11);
    assert_eq!(found[0].exe, "C:/g/game.exe");
    assert_eq!(found[1].pid, 12);
}

#[test]
fn enumerate_dispatches_to_the_structured_path() {
    let raw = r#"[{"ProcessName": "w.exe", "ProcessId": 9, "ExecutablePath": "C:/w.exe"}]"#;
    let records = enumerate_from_output(Platform::Windows, raw);
    assert_eq!(records.len(), 1);
    assert_eq!(records[0].name, "w.exe");
    assert_eq!(records[0].pid, 9);
}
