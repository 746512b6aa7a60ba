use gameproc::liveness::is_process_running;

#[test]
fn identifier_beyond_signed_range_is_not_alive() {
    // The liveness query cannot even represent this identifier on the
    // platform, so it reports not-alive deterministically.
    assert!(!is_process_running(4_000_000_000));
}

#[test]
fn the_initial_process_is_alive() {
    assert!(is_process_running(1));
}
