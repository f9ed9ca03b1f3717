//! The scan configuration (mode, ports and target address), the checks
//! that user input passes before it enters the configuration, and the
//! steps of the terminal dialog that fill it in.
use vstd::prelude::*;
use crate::matching::{dotted_quad, regex_is_match};
use crate::text::{
    all_digits, digits_value, is_ascii_digit, parse_u16, spec_parse_u16, str_eq, unsigned_body,
};

verus! {

/// How carefully the ports are probed.
#[derive(PartialEq, Eq, Clone, Copy, Debug, Structural)]
pub enum OperatingMode {
    Safe,
    Fast,
}

/// What a scan is asked to do: the mode, the ports in the order they are
/// probed, and the target's IPv4 address.
pub struct ScanConfig {
    pub working_mode: OperatingMode,
    pub port_range: Vec<u16>,
    pub target_ip: String,
}

/// A scan configuration as plain values.
pub struct ScanConfigView {
    pub working_mode: OperatingMode,
    pub port_range: Seq<u16>,
    pub target_ip: Seq<char>,
}

impl View for ScanConfig {
    type V = ScanConfigView;

    open spec fn view(&self) -> ScanConfigView {
        ScanConfigView {
            working_mode: self.working_mode,
            port_range: self.port_range@,
            target_ip: self.target_ip@,
        }
    }
}

impl ScanConfig {
    /// The configuration before any input: safe mode, no ports, no target.
    pub fn new() -> (c: ScanConfig)
        ensures
            c@.working_mode == OperatingMode::Safe,
            c@.port_range == Seq::<u16>::empty(),
            c@.target_ip == Seq::<char>::empty(),
    {
        ScanConfig { working_mode: OperatingMode::Safe, port_range: Vec::new(), target_ip: String::new() }
    }
}

/// `c` with the mode `m`.
pub open spec fn with_mode(c: ScanConfigView, m: OperatingMode) -> ScanConfigView {
    ScanConfigView { working_mode: m, port_range: c.port_range, target_ip: c.target_ip }
}

/// `c` with the ports `p`.
pub open spec fn with_ports(c: ScanConfigView, p: Seq<u16>) -> ScanConfigView {
    ScanConfigView { working_mode: c.working_mode, port_range: p, target_ip: c.target_ip }
}

/// `c` with the target `t`.
pub open spec fn with_target(c: ScanConfigView, t: Seq<char>) -> ScanConfigView {
    ScanConfigView { working_mode: c.working_mode, port_range: c.port_range, target_ip: t }
}

/// The ports from `start` to `end`, both included, in ascending order
/// (none when `start > end`).
pub open spec fn ports_between(start: u16, end: u16) -> Seq<u16> {
    if start <= end {
        Seq::new((end - start + 1) as nat, |i: int| (start + i) as u16)
    } else {
        Seq::<u16>::empty()
    }
}

/// What the check of a port decides, given what matching it against the
/// port expression gave: it matched, and it parses as a port from 1 up.
pub open spec fn port_verdict(matched: Option<bool>, port: Seq<char>) -> bool {
    &&& matched == Some(true)
    &&& spec_parse_u16(port) is Some
    &&& spec_parse_u16(port).unwrap() >= 1
}

/// `port` is accepted as a port number: one or more ASCII digits whose
/// value is from 1 to 65535 (leading zeros allowed).
pub open spec fn valid_port(port: Seq<char>) -> bool {
    &&& port.len() > 0
    &&& all_digits(port)
    &&& 1 <= digits_value(port) <= 65535
}

/// `ip` is accepted as an IPv4 address: four numbers from 0 to 255, each of
/// one to three ASCII digits, joined by dots.
pub open spec fn valid_ip(ip: Seq<char>) -> bool {
    dotted_quad(ip)
}

/// A digit string without a leading `+` parses as the number it denotes.
proof fn lemma_parse_plain_digits(port: Seq<char>)
    requires
        port.len() > 0,
        port[0] != '+',
    ensures
        spec_parse_u16(port) is Some <==> (all_digits(port) && digits_value(port) <= 65535),
        spec_parse_u16(port) is Some ==> spec_parse_u16(port).unwrap() == digits_value(port),
{
    assert(unsigned_body(port) == port);
}

/// The port number that an accepted port string denotes.
pub open spec fn port_value(port: Seq<char>) -> u16 {
    digits_value(port) as u16
}

/// Sets the scan mode.
pub fn set_working_mode(config: &mut ScanConfig, mode: &OperatingMode)
    ensures
        final(config)@ == with_mode(old(config)@, *mode),
{
    config.working_mode = *mode;
}

/// Why a port range was refused.
#[derive(PartialEq, Eq, Clone, Copy, Debug, Structural)]
pub enum PortRangeError {
    InvalidStartPort,
    InvalidEndPort,
    StartAfterEnd,
}

impl PortRangeError {
    /// The message that tells the user why the range was not set.
    pub fn message(&self) -> (m: &'static str)
        ensures
            m@ == match *self {
                PortRangeError::InvalidStartPort => "Invalid start port. Port range not set."@,
                PortRangeError::InvalidEndPort => "Invalid end port. Port range not set."@,
                PortRangeError::StartAfterEnd =>
                    "Start port must be less than or equal to end port. Port range not set."@,
            },
    {
        match self {
            PortRangeError::InvalidStartPort => "Invalid start port. Port range not set.",
            PortRangeError::InvalidEndPort => "Invalid end port. Port range not set.",
            PortRangeError::StartAfterEnd =>
                "Start port must be less than or equal to end port. Port range not set.",
        }
    }
}

/// What setting the range from `start` to `end` gives: the error, if any,
/// checked in this order.
pub open spec fn port_range_outcome(start: Seq<char>, end: Seq<char>) -> Result<(), PortRangeError> {
    if !valid_port(start) {
        Err(PortRangeError::InvalidStartPort)
    } else if !valid_port(end) {
        Err(PortRangeError::InvalidEndPort)
    } else if port_value(start) > port_value(end) {
        Err(PortRangeError::StartAfterEnd)
    } else {
        Ok(())
    }
}

/// The configuration after setting the range from `start` to `end`.
pub open spec fn spec_set_port_range(c: ScanConfigView, start: Seq<char>, end: Seq<char>) -> ScanConfigView {
    if port_range_outcome(start, end) is Ok {
        with_ports(c, ports_between(port_value(start), port_value(end)))
    } else {
        c
    }
}

/// Appends the ports from `start` to `end`, both included, to `ports`.
fn push_ports_between(ports: &mut Vec<u16>, start: u16, end: u16)
    ensures
        final(ports)@ == old(ports)@ + ports_between(start, end),
{
    if start > end {
        assert(old(ports)@ + ports_between(start, end) =~= old(ports)@);
        return;
    }
    let ghost base = ports@;
    let mut port: u16 = start;
    loop
        invariant
            start <= port <= end,
            base == old(ports)@,
            ports@ =~= base + ports_between(start, end).take(port - start),
        decreases end - port,
    {
        ports.push(port);
        assert(ports_between(start, end).take(port - start + 1) =~= ports_between(start, end).take(
            port - start,
        ).push(port));
        if port == end {
            assert(ports_between(start, end).take(port - start + 1) =~= ports_between(start, end));
            return;
        }
        port = port + 1;
    }
}

/// Replaces the port range by the ports from `ports.0` to `ports.1`, after
/// checking both ends; on a refusal the configuration is left as it was.
pub fn set_port_range(config: &mut ScanConfig, ports: (String, String)) -> (r: Result<(), PortRangeError>)
    ensures
        r == port_range_outcome(ports.0@, ports.1@),
        final(config)@ == spec_set_port_range(old(config)@, ports.0@, ports.1@),
{
    let (start_port_str, end_port_str) = ports;
    if !check_for_valid_port(start_port_str.as_str()) {
        return Err(PortRangeError::InvalidStartPort);
    }
    if !check_for_valid_port(end_port_str.as_str()) {
        return Err(PortRangeError::InvalidEndPort);
    }
    let start_port = match parse_u16(start_port_str.as_str()) {
        Some(p) => p,
        None => {
            return Err(PortRangeError::InvalidStartPort);
        },
    };
    let end_port = match parse_u16(end_port_str.as_str()) {
        Some(p) => p,
        None => {
            return Err(PortRangeError::InvalidEndPort);
        },
    };
    if start_port > end_port {
        return Err(PortRangeError::StartAfterEnd);
    }
    let mut fresh: Vec<u16> = Vec::new();
    push_ports_between(&mut fresh, start_port, end_port);
    assert(fresh@ =~= ports_between(start_port, end_port));
    config.port_range = fresh;
    Ok(())
}

/// The configuration after setting the target to `ip`.
pub open spec fn spec_set_target_ip(c: ScanConfigView, ip: Seq<char>) -> ScanConfigView {
    if valid_ip(ip) {
        with_target(c, ip)
    } else {
        c
    }
}

/// Sets the target address when `ip` is a valid IPv4 address, and tells
/// whether it did.
pub fn set_target_ip(config: &mut ScanConfig, ip: String) -> (accepted: bool)
    ensures
        accepted == valid_ip(ip@),
        final(config)@ == spec_set_target_ip(old(config)@, ip@),
{
    if !check_for_valid_ip(&ip) {
        return false;
    }
    config.target_ip = ip;
    true
}

/// The answers a prompt accepts.
pub struct AllowedInput {
    pub string_array: Vec<String>,
}

/// Tells whether `input` is one of the allowed answers.
pub fn check_for_valid_input(allowed_input: AllowedInput, input: &str) -> (r: bool)
    ensures
        r == exists|i: int|
            0 <= i < allowed_input.string_array@.len() && #[trigger] allowed_input.string_array@[i]@
                == input@,
{
    let n = allowed_input.string_array.len();
    let mut i: usize = 0;
    while i < n
        invariant
            i <= n,
            n == allowed_input.string_array@.len(),
            forall|j: int| 0 <= j < i ==> #[trigger] allowed_input.string_array@[j]@ != input@,
        decreases n - i,
    {
        if str_eq(input, allowed_input.string_array[i].as_str()) {
            return true;
        }
        i = i + 1;
    }
    false
}

/// Decides a port string, given what matching it against the port
/// expression gave.
pub fn port_accepted(matched: Option<bool>, port: &str) -> (r: bool)
    ensures
        r == port_verdict(matched, port@),
{
    if matched != Some(true) {
        return false;
    }
    match parse_u16(port) {
        Some(port_num) => port_num >= 1,
        None => false,
    }
}

/// Tells whether `port` is a port number: digits only, from 1 to 65535.
pub fn check_for_valid_port(port: &str) -> (r: bool)
    ensures
        r == valid_port(port@),
{
    let matched = regex_is_match("^\\d+$", port);
    let r = port_accepted(matched, port);
    proof {
        let p = port@;
        if p.len() > 0 && all_digits(p) {
            assert(is_ascii_digit(p[0]));
            lemma_parse_plain_digits(p);
        }
        if r {
            assert(p.contains(p[0]));
            lemma_parse_plain_digits(p);
        }
    }
    r
}

/// Tells whether `ip` is an IPv4 address in dotted-decimal form.
pub fn check_for_valid_ip(ip: &String) -> (r: bool)
    ensures
        r == valid_ip(ip@),
{
    let matched = regex_is_match(
        "^(25[0-5]|2[0-4][0-9]|[01]?[0-9][0-9]?)\\.(25[0-5]|2[0-4][0-9]|[01]?[0-9][0-9]?)\\.(25[0-5]|2[0-4][0-9]|[01]?[0-9][0-9]?)\\.(25[0-5]|2[0-4][0-9]|[01]?[0-9][0-9]?)$",
        ip.as_str(),
    );
    matched == Some(true)
}

/// The answers the mode prompt accepts: `1`, `2` and `os`.
pub open spec fn mode_accepted(mode: Seq<char>) -> bool {
    mode == "1"@ || mode == "2"@ || mode == "os"@
}

/// What the mode prompt answers to `mode`.
pub open spec fn mode_message(mode: Seq<char>) -> Seq<char> {
    if mode == "1"@ {
        "Safe mode selected."@
    } else if mode == "2"@ {
        "Fast mode selected."@
    } else if mode == "os"@ {
        "OS mode selected."@
    } else {
        "Invalid mode selected."@
    }
}

/// The mode an accepted answer selects: `2` is fast, any other is safe.
pub open spec fn mode_choice(mode: Seq<char>) -> OperatingMode {
    if mode == "2"@ {
        OperatingMode::Fast
    } else {
        OperatingMode::Safe
    }
}

/// Checks an answer to the mode prompt: whether it is accepted, and the
/// message that answers it.
pub fn check_working_mode(mode: &str) -> (r: (bool, &'static str))
    ensures
        r.0 == mode_accepted(mode@),
        r.1@ == mode_message(mode@),
{
    let valid_input = AllowedInput {
        string_array: vec![String::from_str("1"), String::from_str("2"), String::from_str("os")],
    };
    let ghost allowed = valid_input.string_array@;
    let message = if str_eq(mode, "1") {
        "Safe mode selected."
    } else if str_eq(mode, "2") {
        "Fast mode selected."
    } else if str_eq(mode, "os") {
        "OS mode selected."
    } else {
        "Invalid mode selected."
    };
    let accepted = check_for_valid_input(valid_input, mode);
    proof {
        if mode_accepted(mode@) {
            if mode@ == "1"@ {
                assert(allowed[0]@ == mode@);
            } else if mode@ == "2"@ {
                assert(allowed[1]@ == mode@);
            } else {
                assert(allowed[2]@ == mode@);
            }
        }
    }
    (accepted, message)
}

/// The configuration after the mode prompt got the answer `input`.
pub open spec fn spec_get_working_mode(c: ScanConfigView, input: Seq<char>) -> ScanConfigView {
    if mode_accepted(input) {
        with_mode(c, mode_choice(input))
    } else {
        c
    }
}

/// One round of the mode prompt: checks the answer `input` and, when it is
/// accepted, sets the mode it selects. Returns whether the answer was
/// accepted (else the prompt is asked again) and the message to show.
pub fn get_working_mode(config: &mut ScanConfig, input: &str) -> (r: (bool, &'static str))
    ensures
        r.0 == mode_accepted(input@),
        r.1@ == mode_message(input@),
        final(config)@ == spec_get_working_mode(old(config)@, input@),
{
    let (accepted, message) = check_working_mode(input);
    if accepted {
        let operating_mode = if str_eq(input, "1") {
            OperatingMode::Safe
        } else if str_eq(input, "2") {
            OperatingMode::Fast
        } else {
            OperatingMode::Safe
        };
        config.working_mode = operating_mode;
        proof {
            reveal_strlit("1");
            reveal_strlit("2");
            assert("1"@[0] != "2"@[0]);
            assert("1"@ != "2"@);
        }
        assert(operating_mode == mode_choice(input@));
    }
    (accepted, message)
}

/// The configuration after the port prompts got the answers `start` and
/// `end`: the ports between them are added after those already there.
pub open spec fn spec_get_port_range(c: ScanConfigView, start: Seq<char>, end: Seq<char>) -> ScanConfigView {
    if valid_port(start) && valid_port(end) {
        with_ports(c, c.port_range + ports_between(port_value(start), port_value(end)))
    } else {
        c
    }
}

/// The last round of the port prompts: when both answers are ports, adds
/// the ports from `start` to `end` (none when `start` is the greater) after
/// those already configured. Returns whether both answers were accepted.
pub fn get_port_range(config: &mut ScanConfig, start: &str, end: &str) -> (accepted: bool)
    ensures
        accepted == (valid_port(start@) && valid_port(end@)),
        final(config)@ == spec_get_port_range(old(config)@, start@, end@),
{
    if !check_for_valid_port(start) || !check_for_valid_port(end) {
        return false;
    }
    let start_port = match parse_u16(start) {
        Some(p) => p,
        None => {
            return false;
        },
    };
    let end_port = match parse_u16(end) {
        Some(p) => p,
        None => {
            return false;
        },
    };
    push_ports_between(&mut config.port_range, start_port, end_port);
    true
}

/// The position of the first valid address among `attempts`, if any.
pub open spec fn first_valid_ip(attempts: Seq<Seq<char>>) -> Option<int> {
    if exists|i: int| 0 <= i < attempts.len() && valid_ip(#[trigger] attempts[i]) {
        Some(
            choose|i: int|
                0 <= i < attempts.len() && valid_ip(#[trigger] attempts[i]) && forall|j: int|
                    0 <= j < i ==> !valid_ip(#[trigger] attempts[j]),
        )
    } else {
        None
    }
}

/// The answers of a sequence of prompts, as plain values.
pub open spec fn answer_views(attempts: Seq<String>) -> Seq<Seq<char>> {
    attempts.map_values(|s: String| s@)
}

/// The address prompt, asked until an answer is a valid address, given the
/// answers in the order they came. Each refused answer asks the prompt
/// again, and the answers are stored in the reverse order of their
/// arrival once a valid one came, so the first answer is the one that
/// stays. Returns the position of the first valid answer (`None` when
/// there is none, and the configuration is then left as it was).
pub fn ask_target_ip(config: &mut ScanConfig, attempts: &Vec<String>) -> (r: Option<usize>)
    ensures
        r matches Some(k) ==> (first_valid_ip(answer_views(attempts@)) == Some(k as int)
            && final(config)@ == with_target(old(config)@, attempts@[0]@)),
        r is None ==> (first_valid_ip(answer_views(attempts@)) is None && final(config)@ == old(
            config,
        )@),
{
    let ghost answers = answer_views(attempts@);
    let n = attempts.len();
    let mut i: usize = 0;
    while i < n
        invariant
            i <= n,
            n == attempts@.len(),
            answers == answer_views(attempts@),
            config@ == old(config)@,
            forall|j: int| 0 <= j < i ==> !valid_ip(#[trigger] answers[j]),
        decreases n - i,
    {
        if check_for_valid_ip(&attempts[i]) {
            proof {
                assert(answers[i as int] == attempts@[i as int]@);
                assert(valid_ip(answers[i as int]));
                assert(0 <= i < answers.len() && valid_ip(answers[i as int]) && forall|j: int|
                    0 <= j < i ==> !valid_ip(#[trigger] answers[j]));
                let k = choose|k: int|
                    0 <= k < answers.len() && valid_ip(#[trigger] answers[k]) && forall|j: int|
                        0 <= j < k ==> !valid_ip(#[trigger] answers[j]);
                if k < i {
                    assert(!valid_ip(answers[k]));
                } else if k > i {
                    assert(!valid_ip(answers[i as int]));
                }
                assert(first_valid_ip(answers) == Some(i as int));
            }
            config.target_ip = attempts[0].clone();
            return Some(i);
        }
        assert(answers[i as int] == attempts@[i as int]@);
        i = i + 1;
    }
    assert forall|j: int| 0 <= j < answers.len() implies !valid_ip(#[trigger] answers[j]) by {}
    None
}

/// The current target address.
pub fn get_target_ip(config: &ScanConfig) -> (ip: String)
    ensures
        ip@ == config@.target_ip,
{
    config.target_ip.clone()
}

/// What is read back of the target after setting it: the new address when
/// it is valid, else the earlier one; the mode and the ports stay as they
/// were.
pub proof fn law_target_read_after_write(c: ScanConfigView, ip: Seq<char>)
    ensures
        spec_set_target_ip(c, ip).target_ip == if valid_ip(ip) {
            ip
        } else {
            c.target_ip
        },
        spec_set_target_ip(c, ip).working_mode == c.working_mode,
        spec_set_target_ip(c, ip).port_range == c.port_range,
{
}

/// After a range is accepted, the ports to scan are exactly those from the
/// start to the end, each once, in ascending order; a refused range leaves
/// the configuration as it was.
pub proof fn law_port_range_contents(c: ScanConfigView, start: Seq<char>, end: Seq<char>)
    ensures
        port_range_outcome(start, end) is Ok ==> {
            let ports = spec_set_port_range(c, start, end).port_range;
            &&& ports.len() == port_value(end) - port_value(start) + 1
            &&& forall|p: u16| ports.contains(p) <==> port_value(start) <= p <= port_value(end)
            &&& forall|i: int, j: int| 0 <= i < j < ports.len() ==> ports[i] < ports[j]
            &&& ports.no_duplicates()
            &&& ports[0] == port_value(start)
        },
        port_range_outcome(start, end) is Err ==> spec_set_port_range(c, start, end) == c,
{
    if port_range_outcome(start, end) is Ok {
        let a = port_value(start);
        let b = port_value(end);
        let ports = ports_between(a, b);
        assert forall|p: u16| ports.contains(p) <==> a <= p <= b by {
            if a <= p <= b {
                assert(ports[p - a] == p);
            }
        }
    }
}

/// Setting the same range twice gives what setting it once gives.
pub proof fn law_set_port_range_idempotent(c: ScanConfigView, start: Seq<char>, end: Seq<char>)
    ensures
        spec_set_port_range(spec_set_port_range(c, start, end), start, end) == spec_set_port_range(
            c,
            start,
            end,
        ),
{
}

/// Starting from no ports, the terminal's port prompts and setting the
/// range give the same ports when the start is not above the end.
pub proof fn law_prompts_agree_with_setter(c: ScanConfigView, start: Seq<char>, end: Seq<char>)
    requires
        c.port_range.len() == 0,
        valid_port(start),
        valid_port(end),
        port_value(start) <= port_value(end),
    ensures
        spec_get_port_range(c, start, end) == spec_set_port_range(c, start, end),
{
    assert(c.port_range + ports_between(port_value(start), port_value(end)) =~= ports_between(
        port_value(start),
        port_value(end),
    ));
}

/// The mode prompt selects fast mode for `2` and safe mode for `1` and
/// `os`, and leaves the mode as it was for any other answer.
pub proof fn law_mode_prompt(c: ScanConfigView, input: Seq<char>)
    ensures
        input == "2"@ ==> spec_get_working_mode(c, input).working_mode == OperatingMode::Fast,
        (input == "1"@ || input == "os"@) ==> spec_get_working_mode(c, input).working_mode
            == OperatingMode::Safe,
        !mode_accepted(input) ==> spec_get_working_mode(c, input) == c,
        spec_get_working_mode(c, input).port_range == c.port_range,
        spec_get_working_mode(c, input).target_ip == c.target_ip,
{
    reveal_strlit("1");
    reveal_strlit("2");
    reveal_strlit("os");
    if input == "1"@ || input == "os"@ {
        assert(input[0] != '2');
        assert(input != "2"@);
    }
}

/// After the address prompt, the target is a valid address when the first
/// answer was one (a refused first answer is what stays otherwise).
pub proof fn law_address_prompt_first_answer(c: ScanConfigView, answers: Seq<Seq<char>>)
    requires
        answers.len() > 0,
        valid_ip(answers[0]),
    ensures
        first_valid_ip(answers) == Some(0int),
        valid_ip(with_target(c, answers[0]).target_ip),
{
    assert(0 <= 0 < answers.len() && valid_ip(answers[0]) && forall|j: int|
        0 <= j < 0 ==> !valid_ip(#[trigger] answers[j]));
}

} // verus!
