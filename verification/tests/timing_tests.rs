use portscanner::config::{OperatingMode, ScanConfig};
use portscanner::gui::Gui;
use portscanner::plan::{plan_scan, ScanStrategy};
use portscanner::probe::ConnectOutcome;
use portscanner::results::{ResultType, ScanResult, ScanResults};
use portscanner::timing::{
    calculate_dynamic_timeout, measure_rtt, median_of, next_rtt_attempt, pacing_delay_from,
    pacing_delay_ms, sample_ports, sort_samples, Probe,
};

#[test]
fn sorting_and_median() {
    assert_eq!(sort_samples(&vec![5, 1, 4, 1, 3]), vec![1, 1, 3, 4, 5]);
    assert_eq!(median_of(&vec![5, 1, 4, 1, 3]), Some(3));
    assert_eq!(median_of(&vec![10, 20]), Some(20));
    assert_eq!(median_of(&vec![7]), Some(7));
    assert_eq!(median_of(&vec![]), None);
    assert_eq!(median_of(&vec![3, 1, 5, 4, 1]), median_of(&vec![1, 1, 3, 4, 5]));
}

fn probe(outcome: ConnectOutcome, ms: u64) -> Probe {
    Probe { outcome, elapsed_ms: ms }
}

#[test]
fn round_trip_time_from_answered_attempts() {
    let probes = vec![
        probe(ConnectOutcome::Connected, 30),
        probe(ConnectOutcome::TimedOut, 1000),
        probe(ConnectOutcome::Refused, 10),
    ];
    assert_eq!(measure_rtt(&probes), Some(30));
    let probes = vec![
        probe(ConnectOutcome::TimedOut, 1000),
        probe(ConnectOutcome::Failed("x".to_string()), 5),
    ];
    assert_eq!(measure_rtt(&probes), None);
    assert_eq!(measure_rtt(&vec![probe(ConnectOutcome::Refused, 12)]), Some(12));
}

#[test]
fn sample_ports_prefer_well_known() {
    let range: Vec<u16> = (1..=1000).collect();
    assert_eq!(sample_ports(&range), vec![22, 80, 443]);
    assert_eq!(sample_ports(&vec![80, 81, 82, 83]), vec![80, 80, 81]);
    assert_eq!(sample_ports(&vec![22, 23]), vec![22, 22, 23]);
    assert_eq!(sample_ports(&vec![1000, 1001, 1002, 1003]), vec![1000, 1001, 1002]);
    assert_eq!(sample_ports(&vec![5]), vec![5]);
    assert_eq!(sample_ports(&vec![]), Vec::<u16>::new());
}

#[test]
fn dynamic_timeout_is_clamped() {
    assert_eq!(calculate_dynamic_timeout(&vec![None, None]), (None, 2000));
    assert_eq!(calculate_dynamic_timeout(&vec![]), (None, 2000));
    assert_eq!(calculate_dynamic_timeout(&vec![Some(100), None, Some(300)]), (Some(300), 900));
    assert_eq!(calculate_dynamic_timeout(&vec![Some(1), Some(2), Some(3)]), (Some(2), 50));
    assert_eq!(calculate_dynamic_timeout(&vec![Some(900)]), (Some(900), 2000));
    assert_eq!(
        calculate_dynamic_timeout(&vec![Some(300), Some(100), None]),
        calculate_dynamic_timeout(&vec![None, Some(100), Some(300)])
    );
}

#[test]
fn pacing_delay_is_between_50_and_149() {
    assert_eq!(pacing_delay_from(0), 50);
    assert_eq!(pacing_delay_from(99), 149);
    assert_eq!(pacing_delay_from(12345), 95);
    assert_eq!(pacing_delay_from(u64::MAX), 65);
    for _ in 0..100 {
        let d = pacing_delay_ms();
        assert!((50..150).contains(&d));
    }
}

fn config(mode: OperatingMode, ports: Vec<u16>) -> ScanConfig {
    let mut c = ScanConfig::new();
    c.working_mode = mode;
    c.port_range = ports;
    c
}

#[test]
fn scan_plans() {
    let p = plan_scan(&config(OperatingMode::Fast, vec![80]));
    assert_eq!(p.mode, OperatingMode::Safe);
    assert_eq!(p.strategy, ScanStrategy::OneByOne);
    assert_eq!(p.fixed_timeout_ms, Some(2000));
    assert_eq!(p.retries, 0);
    let p = plan_scan(&config(OperatingMode::Fast, (1..=11).collect()));
    assert_eq!(p.mode, OperatingMode::Fast);
    assert_eq!(p.strategy, ScanStrategy::InParallelWithRetries);
    assert_eq!(p.fixed_timeout_ms, None);
    assert_eq!(p.retries, 2);
    let p = plan_scan(&config(OperatingMode::Fast, (1..=10).collect()));
    assert_eq!(p.strategy, ScanStrategy::OneByOneWithRetries);
    let p = plan_scan(&config(OperatingMode::Safe, (1..=100).collect()));
    assert_eq!(p.strategy, ScanStrategy::OneByOne);
}

#[test]
fn form_defaults_and_popup() {
    let mut g = Gui::default();
    assert_eq!((g.ip1, g.ip2, g.ip3, g.ip4), (192, 168, 2, 136));
    assert_eq!((g.port_start, g.port_end), (1, 100));
    assert_eq!(g.operating_mode, OperatingMode::Fast);
    assert!(g.popup_message.is_none());
    g.show_popup("Scan completed!".to_string());
    assert_eq!(g.popup_message.as_deref(), Some("Scan completed!"));
}

#[test]
fn start_button_sets_up_the_scan() {
    let mut c = ScanConfig::new();
    let mut r = ScanResults::new();
    r.insert(ScanResult { port: 1, result: ResultType::Open, additional_info: None });
    let out = Gui::start_scan(&mut c, &mut r, 10, 0, 0, 7, 20, 22, OperatingMode::Fast);
    assert_eq!(out, (true, Ok(())));
    assert_eq!(r.len(), 0);
    assert_eq!(c.target_ip, "10.0.0.7");
    assert_eq!(c.port_range, vec![20, 21, 22]);
    assert_eq!(c.working_mode, OperatingMode::Fast);

    // refused address and range leave the earlier ones in place
    let out = Gui::start_scan(&mut c, &mut r, 300, 0, 0, 1, 0, 5, OperatingMode::Safe);
    assert_eq!(out.0, false);
    assert!(out.1.is_err());
    assert_eq!(c.target_ip, "10.0.0.7");
    assert_eq!(c.port_range, vec![20, 21, 22]);
    assert_eq!(c.working_mode, OperatingMode::Safe);
}

#[test]
fn rtt_measurement_makes_three_attempts_of_one_second() {
    let mut timeouts = Vec::new();
    while let Some(ms) = next_rtt_attempt(timeouts.len()) {
        timeouts.push(ms);
    }
    assert_eq!(timeouts, vec![1000, 1000, 1000]);
    assert_eq!(next_rtt_attempt(7), None);
}

#[test]
fn form_copy_keeps_every_field() {
    let mut g = Gui::default();
    g.ip3 = 9;
    g.port_end = 443;
    g.operating_mode = OperatingMode::Safe;
    g.show_popup("hi".to_string());
    let c = g.duplicate();
    assert_eq!((c.ip1, c.ip2, c.ip3, c.ip4), (192, 168, 9, 136));
    assert_eq!((c.port_start, c.port_end), (1, 443));
    assert_eq!(c.operating_mode, OperatingMode::Safe);
    assert_eq!(c.popup_message.as_deref(), Some("hi"));
}
