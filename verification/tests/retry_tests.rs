use gameproc::retry::RetryStep;
use gameproc::retry::default_policy;
use gameproc::retry::retry_step;
use gameproc::retry::run_with_policy;

#[test]
fn default_policy_values() {
    let p = default_policy();
    assert_eq!(p.max_attempts, 10);
    assert_eq!(p.interval_ms, 250);
}

#[test]
fn exhaustion_after_exactly_the_bound() {
    let p = default_policy();
    let script = vec![false; 10];
    let run = run_with_policy(&p, &script);
    assert_eq!(run.succeeded_at, None);
    assert_eq!(run.attempts, 10);
}

#[test]
fn immediate_success_takes_one_attempt() {
    let p = default_policy();
    let mut script = vec![false; 10];
    script[0] = true;
    let run = run_with_policy(&p, &script);
    assert_eq!(run.succeeded_at, Some(0));
    assert_eq!(run.attempts, 1);
}

#[test]
fn late_success_counts_every_attempt() {
    let p = default_policy();
    let mut script = vec![false; 10];
    script[3] = true;
    script[7] = true;
    let run = run_with_policy(&p, &script);
    assert_eq!(run.succeeded_at, Some(3));
    assert_eq!(run.attempts, 4);
}

#[test]
fn success_on_the_last_attempt_still_counts() {
    let p = default_policy();
    let mut script = vec![false; 10];
    script[9] = true;
    let run = run_with_policy(&p, &script);
    assert_eq!(run.succeeded_at, Some(9));
    assert_eq!(run.attempts, 10);
}

#[test]
fn step_decisions() {
    let p = default_policy();
    assert_eq!(retry_step(&p, 0, true), RetryStep::Done);
    assert_eq!(retry_step(&p, 0, false), RetryStep::Sleep(250));
    assert_eq!(retry_step(&p, 8, false), RetryStep::Sleep(250));
    assert_eq!(retry_step(&p, 9, false), RetryStep::Fallback);
    assert_eq!(retry_step(&p, 9, true), RetryStep::Done);
}
