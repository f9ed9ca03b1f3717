use portscanner::probe::{
    another_attempt, check_port, check_port_with_retries, is_conclusive, ConnectOutcome,
};
use portscanner::results::ResultType;

fn s(x: &str) -> Option<String> {
    Some(x.to_string())
}

const TIMEOUT: &str = "Connection timed out - host may be unreachable";

#[test]
fn one_attempt_verdicts() {
    assert_eq!(check_port(ConnectOutcome::Connected), (ResultType::Open, None));
    assert_eq!(check_port(ConnectOutcome::Refused), (ResultType::Closed, None));
    assert_eq!(check_port(ConnectOutcome::TimedOut), (ResultType::Error, s(TIMEOUT)));
    assert_eq!(
        check_port(ConnectOutcome::Failed("No route to host".to_string())),
        (ResultType::Error, s("No route to host"))
    );
}

#[test]
fn conclusive_verdicts_stop_retries() {
    assert!(is_conclusive(ResultType::Open));
    assert!(is_conclusive(ResultType::Closed));
    assert!(!is_conclusive(ResultType::Error));
    assert!(!is_conclusive(ResultType::Filtered));
}

#[test]
fn first_answer_decides() {
    assert_eq!(check_port_with_retries(&vec![(ResultType::Open, None)]), (ResultType::Open, None));
    assert_eq!(check_port_with_retries(&vec![(ResultType::Closed, None)]), (ResultType::Closed, None));
}

#[test]
fn only_timeouts_mean_filtered() {
    let t = (ResultType::Error, s(TIMEOUT));
    let expected = (ResultType::Filtered, s("All connection attempts timed out"));
    assert_eq!(check_port_with_retries(&vec![t.clone()]), expected);
    assert_eq!(check_port_with_retries(&vec![t.clone(), t.clone(), t.clone()]), expected);
    assert_eq!(
        check_port_with_retries(&vec![(ResultType::Error, s("TimedOut")), t.clone()]),
        expected
    );
}

#[test]
fn other_errors_report_the_first_message() {
    let attempts = vec![
        (ResultType::Error, s("Network is unreachable")),
        (ResultType::Error, s(TIMEOUT)),
        (ResultType::Error, s("Host is down")),
    ];
    assert_eq!(check_port_with_retries(&attempts), (ResultType::Error, s("Network is unreachable")));
}

#[test]
fn a_timeout_then_an_answer() {
    // one timeout then an accepted connection: errors are all timeouts
    let attempts = vec![(ResultType::Error, s(TIMEOUT)), (ResultType::Open, None)];
    assert_eq!(
        check_port_with_retries(&attempts),
        (ResultType::Filtered, s("All connection attempts timed out"))
    );
    // a plain error then a refusal: a tie that prefers closed
    let attempts = vec![(ResultType::Error, s("reset")), (ResultType::Closed, None)];
    assert_eq!(check_port_with_retries(&attempts), (ResultType::Closed, None));
    // a plain error then an accepted connection: a tie that prefers open
    let attempts = vec![(ResultType::Error, s("reset")), (ResultType::Open, None)];
    assert_eq!(check_port_with_retries(&attempts), (ResultType::Open, None));
}

#[test]
fn no_attempt_is_closed() {
    assert_eq!(check_port_with_retries(&vec![]), (ResultType::Closed, None));
}

#[test]
fn retries_stop_at_the_limit_or_an_answer() {
    let err = (ResultType::Error, s("reset"));
    assert!(another_attempt(&vec![], 0));
    assert!(!another_attempt(&vec![err.clone()], 0));
    assert!(another_attempt(&vec![err.clone(), err.clone()], 2));
    assert!(!another_attempt(&vec![err.clone(), err.clone(), err.clone()], 2));
    assert!(!another_attempt(&vec![(ResultType::Open, None)], 2));
    assert!(!another_attempt(&vec![err.clone(), (ResultType::Closed, None)], 2));
    // the loop that asks before each attempt makes retries + 1 attempts at most
    let mut attempts = Vec::new();
    while another_attempt(&attempts, 2) {
        attempts.push(err.clone());
    }
    assert_eq!(attempts.len(), 3);
}
