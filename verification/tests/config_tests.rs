use portscanner::config::{
    ask_target_ip, check_for_valid_input, check_for_valid_ip, check_for_valid_port,
    check_working_mode, get_port_range, get_target_ip, get_working_mode, port_accepted,
    set_port_range, set_target_ip, set_working_mode, AllowedInput, OperatingMode, PortRangeError,
    ScanConfig,
};

fn pair(a: &str, b: &str) -> (String, String) {
    (a.to_string(), b.to_string())
}

#[test]
fn valid_ports_are_digits_from_one_up() {
    assert!(check_for_valid_port("1"));
    assert!(check_for_valid_port("80"));
    assert!(check_for_valid_port("65535"));
    assert!(check_for_valid_port("0080"));
    assert!(!check_for_valid_port("0"));
    assert!(!check_for_valid_port("65536"));
    assert!(!check_for_valid_port(""));
    assert!(!check_for_valid_port("+80"));
    assert!(!check_for_valid_port("-1"));
    assert!(!check_for_valid_port(" 80"));
    assert!(!check_for_valid_port("8a"));
    assert!(!check_for_valid_port("99999999999999999999"));
}

#[test]
fn port_decision_from_match_result() {
    assert!(port_accepted(Some(true), "443"));
    assert!(!port_accepted(Some(false), "443"));
    assert!(!port_accepted(None, "443"));
    assert!(!port_accepted(Some(true), "0"));
    assert!(port_accepted(Some(true), "+22"));
}

#[test]
fn valid_ips_are_dotted_quads() {
    assert!(check_for_valid_ip(&"192.168.2.136".to_string()));
    assert!(check_for_valid_ip(&"0.0.0.0".to_string()));
    assert!(check_for_valid_ip(&"255.255.255.255".to_string()));
    assert!(check_for_valid_ip(&"010.001.000.099".to_string()));
    assert!(!check_for_valid_ip(&"256.1.1.1".to_string()));
    assert!(!check_for_valid_ip(&"1.2.3".to_string()));
    assert!(!check_for_valid_ip(&"1.2.3.4.5".to_string()));
    assert!(!check_for_valid_ip(&"a.b.c.d".to_string()));
    assert!(!check_for_valid_ip(&"".to_string()));
    assert!(!check_for_valid_ip(&"300.168.2.1".to_string()));
}

#[test]
fn set_port_range_fills_the_range() {
    let mut c = ScanConfig::new();
    assert_eq!(set_port_range(&mut c, pair("20", "25")), Ok(()));
    assert_eq!(c.port_range, vec![20, 21, 22, 23, 24, 25]);
    assert_eq!(set_port_range(&mut c, pair("7", "7")), Ok(()));
    assert_eq!(c.port_range, vec![7]);
}

#[test]
fn set_port_range_refusals_leave_the_range() {
    let mut c = ScanConfig::new();
    assert_eq!(set_port_range(&mut c, pair("1", "3")), Ok(()));
    assert_eq!(set_port_range(&mut c, pair("x", "3")), Err(PortRangeError::InvalidStartPort));
    assert_eq!(set_port_range(&mut c, pair("0", "3")), Err(PortRangeError::InvalidStartPort));
    assert_eq!(set_port_range(&mut c, pair("3", "70000")), Err(PortRangeError::InvalidEndPort));
    assert_eq!(set_port_range(&mut c, pair("9", "3")), Err(PortRangeError::StartAfterEnd));
    assert_eq!(c.port_range, vec![1, 2, 3]);
    assert_eq!(
        PortRangeError::StartAfterEnd.message(),
        "Start port must be less than or equal to end port. Port range not set."
    );
    assert_eq!(PortRangeError::InvalidStartPort.message(), "Invalid start port. Port range not set.");
    assert_eq!(PortRangeError::InvalidEndPort.message(), "Invalid end port. Port range not set.");
}

#[test]
fn set_port_range_twice_is_once() {
    let mut a = ScanConfig::new();
    let mut b = ScanConfig::new();
    let _ = set_port_range(&mut a, pair("100", "104"));
    let _ = set_port_range(&mut b, pair("100", "104"));
    let _ = set_port_range(&mut b, pair("100", "104"));
    assert_eq!(a.port_range, b.port_range);
}

#[test]
fn target_read_after_write() {
    let mut c = ScanConfig::new();
    assert_eq!(get_target_ip(&c), "");
    assert!(set_target_ip(&mut c, "10.0.0.1".to_string()));
    assert_eq!(get_target_ip(&c), "10.0.0.1");
    assert!(!set_target_ip(&mut c, "10.0.0.256".to_string()));
    assert_eq!(get_target_ip(&c), "10.0.0.1");
}

#[test]
fn working_mode_is_set() {
    let mut c = ScanConfig::new();
    assert_eq!(c.working_mode, OperatingMode::Safe);
    set_working_mode(&mut c, &OperatingMode::Fast);
    assert_eq!(c.working_mode, OperatingMode::Fast);
}

#[test]
fn allowed_input_matches_whole_answers() {
    let allowed = || AllowedInput { string_array: vec!["yes".to_string(), "no".to_string()] };
    assert!(check_for_valid_input(allowed(), "yes"));
    assert!(check_for_valid_input(allowed(), "no"));
    assert!(!check_for_valid_input(allowed(), "ye"));
    assert!(!check_for_valid_input(allowed(), "yes "));
    assert!(!check_for_valid_input(AllowedInput { string_array: vec![] }, ""));
}

#[test]
fn mode_prompt_answers() {
    assert_eq!(check_working_mode("1"), (true, "Safe mode selected."));
    assert_eq!(check_working_mode("2"), (true, "Fast mode selected."));
    assert_eq!(check_working_mode("os"), (true, "OS mode selected."));
    assert_eq!(check_working_mode("3"), (false, "Invalid mode selected."));
    let mut c = ScanConfig::new();
    assert_eq!(get_working_mode(&mut c, "2"), (true, "Fast mode selected."));
    assert_eq!(c.working_mode, OperatingMode::Fast);
    assert_eq!(get_working_mode(&mut c, "fast"), (false, "Invalid mode selected."));
    assert_eq!(c.working_mode, OperatingMode::Fast);
    assert_eq!(get_working_mode(&mut c, "os"), (true, "OS mode selected."));
    assert_eq!(c.working_mode, OperatingMode::Safe);
}

#[test]
fn port_prompts_append() {
    let mut c = ScanConfig::new();
    assert!(get_port_range(&mut c, "5", "7"));
    assert_eq!(c.port_range, vec![5, 6, 7]);
    assert!(!get_port_range(&mut c, "5", "zero"));
    assert_eq!(c.port_range, vec![5, 6, 7]);
    assert!(get_port_range(&mut c, "9", "8"));
    assert_eq!(c.port_range, vec![5, 6, 7]);
    assert!(get_port_range(&mut c, "1", "2"));
    assert_eq!(c.port_range, vec![5, 6, 7, 1, 2]);
}

#[test]
fn address_prompt_keeps_the_first_answer() {
    let mut c = ScanConfig::new();
    let answers = vec!["1.1.1.1".to_string()];
    assert_eq!(ask_target_ip(&mut c, &answers), Some(0));
    assert_eq!(c.target_ip, "1.1.1.1");

    let mut c = ScanConfig::new();
    let answers = vec!["nope".to_string(), "999.1.1.1".to_string(), "8.8.8.8".to_string()];
    assert_eq!(ask_target_ip(&mut c, &answers), Some(2));
    assert_eq!(c.target_ip, "nope");

    let mut c = ScanConfig::new();
    let answers = vec!["nope".to_string()];
    assert_eq!(ask_target_ip(&mut c, &answers), None);
    assert_eq!(c.target_ip, "");
}
