use portscanner::results::{reset_results, ResultType, ScanResult, ScanResults};

fn result(port: u16, kind: ResultType, info: Option<&str>) -> ScanResult {
    ScanResult { port, result: kind, additional_info: info.map(|s| s.to_string()) }
}

fn all(r: &ScanResults) -> Vec<ScanResult> {
    (0..r.len()).map(|i| r.get(i).clone()).collect()
}

#[test]
fn describes_a_result() {
    assert_eq!(result(22, ResultType::Open, None).to_string(), "Port 22 is Open");
    assert_eq!(result(0, ResultType::Closed, None).to_string(), "Port 0 is Closed");
    assert_eq!(
        result(65535, ResultType::Error, Some("boom")).to_string(),
        "Port 65535 is Error: boom"
    );
    assert_eq!(
        result(8080, ResultType::Filtered, Some("All connection attempts timed out")).to_string(),
        "Port 8080 is Filtered: All connection attempts timed out"
    );
}

#[test]
fn duplicate_copies() {
    let a = result(9, ResultType::Error, Some("x"));
    assert_eq!(a.duplicate(), a);
}

#[test]
fn results_stay_ordered_without_duplicates() {
    let mut r = ScanResults::new();
    assert!(r.insert(result(443, ResultType::Open, None)));
    assert!(r.insert(result(22, ResultType::Closed, None)));
    assert!(r.insert(result(80, ResultType::Error, Some("b"))));
    assert!(r.insert(result(80, ResultType::Error, Some("a"))));
    assert!(r.insert(result(80, ResultType::Error, None)));
    assert!(r.insert(result(80, ResultType::Open, None)));
    assert!(!r.insert(result(22, ResultType::Closed, None)));
    assert!(!r.insert(result(80, ResultType::Error, Some("a"))));
    let expected = vec![
        result(22, ResultType::Closed, None),
        result(80, ResultType::Open, None),
        result(80, ResultType::Error, None),
        result(80, ResultType::Error, Some("a")),
        result(80, ResultType::Error, Some("b")),
        result(443, ResultType::Open, None),
    ];
    assert_eq!(all(&r), expected);
    let mut sorted = expected.clone();
    sorted.sort();
    assert_eq!(sorted, expected);
}

#[test]
fn insertion_order_does_not_matter() {
    let items = vec![
        result(5, ResultType::Open, None),
        result(3, ResultType::Filtered, Some("t")),
        result(9, ResultType::Closed, None),
        result(3, ResultType::Filtered, Some("s")),
    ];
    let mut a = ScanResults::new();
    for it in items.iter() {
        a.insert(it.clone());
    }
    let mut b = ScanResults::new();
    for it in items.iter().rev() {
        b.insert(it.clone());
    }
    assert_eq!(all(&a), all(&b));
}

#[test]
fn results_of_one_kind() {
    let mut r = ScanResults::new();
    r.insert(result(1, ResultType::Open, None));
    r.insert(result(2, ResultType::Closed, None));
    r.insert(result(3, ResultType::Open, None));
    r.insert(result(4, ResultType::Filtered, Some("All connection attempts timed out")));
    let open: Vec<u16> = r.results_of(ResultType::Open).iter().map(|x| x.port).collect();
    assert_eq!(open, vec![1, 3]);
    assert_eq!(r.results_of(ResultType::Error).len(), 0);
    assert_eq!(r.results_of(ResultType::Filtered)[0].port, 4);
}

#[test]
fn reset_forgets_everything() {
    let mut r = ScanResults::new();
    r.insert(result(1, ResultType::Open, None));
    reset_results(&mut r);
    assert_eq!(r.len(), 0);
    r.insert(result(2, ResultType::Open, None));
    r.clear();
    assert_eq!(r.len(), 0);
}

#[test]
fn a_scan_records_one_result_per_port() {
    let mut r = ScanResults::new();
    r.insert(result(7, ResultType::Open, None));
    reset_results(&mut r);
    let ports = vec![30, 10, 20];
    let verdicts = vec![
        (ResultType::Closed, None),
        (ResultType::Open, None),
        (ResultType::Error, Some("reset".to_string())),
    ];
    r.record_scan(&ports, &verdicts);
    assert_eq!(
        all(&r),
        vec![
            result(10, ResultType::Open, None),
            result(20, ResultType::Error, Some("reset")),
            result(30, ResultType::Closed, None),
        ]
    );
    r.record_scan(&vec![], &vec![]);
    assert_eq!(r.len(), 3);
}
