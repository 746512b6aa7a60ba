use gameproc::Platform;
use gameproc::enumerate_from_output;
use gameproc::listing::parse_ps_line;
use gameproc::listing::parse_ps_listing;

#[test]
fn malformed_lines_are_dropped_without_aborting() {
    let raw = "COMMAND PID CMD\ngame.exe 123 /usr/bin/game\nmalformed\nx 12\nfoo 99 /bin/foo --flag\n";
    let records = parse_ps_listing(raw);
    assert_eq!(records.len(), 2);
    assert_eq!(records[0].name, "game.exe");
    assert_eq!(records[0].pid, 123);
    assert_eq!(records[0].exe, "/usr/bin/game");
    assert_eq!(records[1].name, "foo");
    assert_eq!(records[1].pid, 99);
    assert_eq!(records[1].exe, "/bin/foo --flag");
}

#[test]
fn header_line_is_not_a_record() {
    // "PID" is not a digit run, so the header has no identifier token.
    assert!(parse_ps_line("COMMAND PID CMD").is_none());
}

#[test]
fn line_needs_all_three_tokens() {
    assert!(parse_ps_line("").is_none());
    assert!(parse_ps_line("onlyname").is_none());
    assert!(parse_ps_line("name 42").is_none());
    assert!(parse_ps_line("name 42 ").is_none());
    assert!(parse_ps_line("  leading 42 /path").is_none());
    assert!(parse_ps_line("name 4x2 /path").is_none());
}

#[test]
fn line_with_blank_tail_keeps_empty_path() {
    let rec = parse_ps_line("name 42  ").expect("two trailing blanks leave an empty path token");
    assert_eq!(rec.name, "name");
    assert_eq!(rec.pid, 42);
    assert_eq!(rec.exe, "");
}

#[test]
fn identifier_overflow_degrades_to_zero() {
    let rec = parse_ps_line("big 99999999999 /bin/big").unwrap();
    assert_eq!(rec.pid, 0);
    let rec = parse_ps_line("edge 4294967295 /bin/edge").unwrap();
    assert_eq!(rec.pid, u32::MAX);
    let rec = parse_ps_line("over 4294967296 /bin/over").unwrap();
    assert_eq!(rec.pid, 0);
}

#[test]
fn tabs_delimit_tokens_too() {
    let rec = parse_ps_line("svc\t7\t/usr/sbin/svc").unwrap();
    assert_eq!(rec.name, "svc");
    assert_eq!(rec.pid, 7);
    assert_eq!(rec.exe, "/usr/sbin/svc");
}

#[test]
fn carriage_returns_are_stripped_per_line() {
    let records = parse_ps_listing("a 1 /x\r\nb 2 /y\r\n");
    assert_eq!(records.len(), 2);
    assert_eq!(records[0].exe, "/x");
    assert_eq!(records[1].exe, "/y");
}

#[test]
fn enumerate_is_deterministic_on_equal_output() {
    let raw = "game 5 /g\nother 6 /o\n";
    let first = enumerate_from_output(Platform::Linux, raw);
    let second = enumerate_from_output(Platform::Linux, raw);
    assert_eq!(first.len(), second.len());
    for (a, b) in first.iter().zip(second.iter()) {
        assert_eq!(a.name, b.name);
        assert_eq!(a.pid, b.pid);
        assert_eq!(a.exe, b.exe);
    }
}

#[test]
fn linux_discovery_pipeline() {
    let raw = "game 21 /usr/games/game\nbash 22 /bin/bash\nGAME 23 /opt/game\n";
    let table = enumerate_from_output(Platform::Linux, raw);
    let scanned = vec!["Game".to_string()];
    let found = gameproc::matching::get_game_processes(None, &scanned, Platform::Linux, &table);
    assert_eq!(found.len(), 2);
    assert_eq!(found[0].pid, 21);
    assert_eq!(found[0].exe, "/usr/games/game");
    assert_eq!(found[1].pid, 23);
    assert_eq!(found[1].exe, "/opt/game");
}

#[test]
fn enumerate_set_equal_under_reordering() {
    let fwd = enumerate_from_output(Platform::Linux, "a 1 /x\nb 2 /y\n");
    let rev = enumerate_from_output(Platform::Linux, "b 2 /y\na 1 /x\n");
    assert_eq!(fwd.len(), 2);
    assert_eq!(rev.len(), 2);
    let mut fwd_keys: Vec<(String, u32, String)> =
        fwd.iter().map(|r| (r.name.clone(), r.pid, r.exe.clone())).collect();
    let mut rev_keys: Vec<(String, u32, String)> =
        rev.iter().map(|r| (r.name.clone(), r.pid, r.exe.clone())).collect();
    fwd_keys.sort();
    rev_keys.sort();
    assert_eq!(fwd_keys, rev_keys);
}
