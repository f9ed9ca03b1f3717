//! The state of the scanner's form and what its start button sets up.
use vstd::prelude::*;
use crate::config::{
    port_range_outcome, port_value, ports_between, set_port_range, set_target_ip,
    set_working_mode, spec_set_port_range, spec_set_target_ip, valid_ip, valid_port, with_mode,
    OperatingMode, PortRangeError, ScanConfig, ScanConfigView,
};
use crate::matching::{dotted_quad, octet_text};
use crate::results::{reset_results, ScanResultView, ScanResults};
use crate::text::{append_decimal, decimal, lemma_decimal_digits};

verus! {

/// What the form shows: the four parts of the target address, the port
/// range, the mode, and a message waiting to be shown.
#[derive(Clone)]
pub struct Gui {
    pub ip1: u16,
    pub ip2: u16,
    pub ip3: u16,
    pub ip4: u16,
    pub port_start: u16,
    pub port_end: u16,
    pub operating_mode: OperatingMode,
    pub popup_message: Option<String>,
}

impl Default for Gui {
    fn default() -> (g: Self)
        ensures
            g.ip1 == 192 && g.ip2 == 168 && g.ip3 == 2 && g.ip4 == 136,
            g.port_start == 1 && g.port_end == 100,
            g.operating_mode == OperatingMode::Fast,
            g.popup_message is None,
    {
        Gui {
            ip1: 192,
            ip2: 168,
            ip3: 2,
            ip4: 136,
            port_start: 1,
            port_end: 100,
            operating_mode: OperatingMode::Fast,
            popup_message: None,
        }
    }
}

/// The dotted text of an address given by its four parts.
pub open spec fn ip_text(ip1: u16, ip2: u16, ip3: u16, ip4: u16) -> Seq<char> {
    decimal(ip1 as nat) + "."@ + decimal(ip2 as nat) + "."@ + decimal(ip3 as nat) + "."@ + decimal(
        ip4 as nat,
    )
}

/// The configuration the start button sets up from `c`.
pub open spec fn spec_start_scan(
    c: ScanConfigView,
    ip1: u16,
    ip2: u16,
    ip3: u16,
    ip4: u16,
    start_port: u16,
    end_port: u16,
    mode: OperatingMode,
) -> ScanConfigView {
    spec_set_port_range(
        spec_set_target_ip(with_mode(c, mode), ip_text(ip1, ip2, ip3, ip4)),
        decimal(start_port as nat),
        decimal(end_port as nat),
    )
}

impl Gui {
    /// A copy of the form, with every field equal to this one's.
    pub fn duplicate(&self) -> (g: Gui)
        ensures
            g.ip1 == self.ip1 && g.ip2 == self.ip2 && g.ip3 == self.ip3 && g.ip4 == self.ip4,
            g.port_start == self.port_start && g.port_end == self.port_end,
            g.operating_mode == self.operating_mode,
            g.popup_message == self.popup_message,
    {
        let popup_message = match &self.popup_message {
            Some(m) => Some(m.clone()),
            None => None,
        };
        Gui {
            ip1: self.ip1,
            ip2: self.ip2,
            ip3: self.ip3,
            ip4: self.ip4,
            port_start: self.port_start,
            port_end: self.port_end,
            operating_mode: self.operating_mode,
            popup_message,
        }
    }

    /// Puts up a message for the user.
    pub fn show_popup(&mut self, message: String)
        ensures
            final(self).popup_message == Some(message),
            final(self).ip1 == old(self).ip1 && final(self).ip2 == old(self).ip2,
            final(self).ip3 == old(self).ip3 && final(self).ip4 == old(self).ip4,
            final(self).port_start == old(self).port_start,
            final(self).port_end == old(self).port_end,
            final(self).operating_mode == old(self).operating_mode,
    {
        self.popup_message = Some(message);
    }

    /// Sets up a scan from the form's values: forgets the earlier results,
    /// sets the mode, the target address written from its four parts, and
    /// the port range written from its two ends. An address or a range that
    /// is refused leaves the earlier one in place. Returns whether the
    /// address was accepted and the outcome of setting the range.
    pub fn start_scan(
        config: &mut ScanConfig,
        results: &mut ScanResults,
        ip1: u16,
        ip2: u16,
        ip3: u16,
        ip4: u16,
        start_port: u16,
        end_port: u16,
        mode: OperatingMode,
    ) -> (r: (bool, Result<(), PortRangeError>))
        ensures
            final(results)@ == Seq::<ScanResultView>::empty(),
            r.0 == valid_ip(ip_text(ip1, ip2, ip3, ip4)),
            r.1 == port_range_outcome(decimal(start_port as nat), decimal(end_port as nat)),
            final(config)@ == spec_start_scan(
                old(config)@,
                ip1,
                ip2,
                ip3,
                ip4,
                start_port,
                end_port,
                mode,
            ),
    {
        reset_results(results);
        let mut ip_address = String::new();
        append_decimal(&mut ip_address, ip1);
        ip_address.append(".");
        append_decimal(&mut ip_address, ip2);
        ip_address.append(".");
        append_decimal(&mut ip_address, ip3);
        ip_address.append(".");
        append_decimal(&mut ip_address, ip4);
        assert(ip_address@ =~= ip_text(ip1, ip2, ip3, ip4));
        set_working_mode(config, &mode);
        let accepted = set_target_ip(config, ip_address);
        let mut start_text = String::new();
        append_decimal(&mut start_text, start_port);
        let mut end_text = String::new();
        append_decimal(&mut end_text, end_port);
        let range = set_port_range(config, (start_text, end_text));
        (accepted, range)
    }
}

/// When the form's range starts at port 1 or above and its start is not
/// above its end, the scan probes exactly the ports from the start to the
/// end; a range that starts at 0 is refused and leaves the earlier ports.
pub proof fn law_form_range_is_scanned(
    c: ScanConfigView,
    ip1: u16,
    ip2: u16,
    ip3: u16,
    ip4: u16,
    start_port: u16,
    end_port: u16,
    mode: OperatingMode,
)
    ensures
        1 <= start_port <= end_port ==> spec_start_scan(
            c,
            ip1,
            ip2,
            ip3,
            ip4,
            start_port,
            end_port,
            mode,
        ).port_range == ports_between(start_port, end_port),
        start_port == 0 ==> spec_start_scan(c, ip1, ip2, ip3, ip4, start_port, end_port, mode).port_range
            == c.port_range,
        spec_start_scan(c, ip1, ip2, ip3, ip4, start_port, end_port, mode).working_mode == mode,
        ports_between(start_port, end_port).no_duplicates(),
{
    lemma_decimal_digits(start_port as nat);
    lemma_decimal_digits(end_port as nat);
    assert(valid_port(decimal(end_port as nat)) == (end_port >= 1));
    assert(valid_port(decimal(start_port as nat)) == (start_port >= 1));
    assert(port_value(decimal(start_port as nat)) == start_port);
    assert(port_value(decimal(end_port as nat)) == end_port);
}

/// The decimal text of a number up to 255 is one part of a dotted address.
proof fn lemma_decimal_octet(n: u16)
    requires
        n <= 255,
    ensures
        octet_text(decimal(n as nat)),
{
    lemma_decimal_digits(n as nat);
    let m = n as nat;
    if m < 10 {
        assert(decimal(m).len() == 1);
    } else if m < 100 {
        assert(decimal(m / 10).len() == 1);
        assert(decimal(m).len() == 2);
    } else {
        assert(m / 10 / 10 < 10);
        assert(decimal(m / 10 / 10).len() == 1);
        assert(decimal(m / 10).len() == 2);
        assert(decimal(m).len() == 3);
    }
}

/// An address whose four parts are at most 255 is accepted by the start
/// button.
pub proof fn law_form_address_accepted(ip1: u16, ip2: u16, ip3: u16, ip4: u16)
    requires
        ip1 <= 255,
        ip2 <= 255,
        ip3 <= 255,
        ip4 <= 255,
    ensures
        valid_ip(ip_text(ip1, ip2, ip3, ip4)),
{
    lemma_decimal_octet(ip1);
    lemma_decimal_octet(ip2);
    lemma_decimal_octet(ip3);
    lemma_decimal_octet(ip4);
    reveal_strlit(".");
    assert("."@ =~= seq!['.']);
    reveal(dotted_quad);
    let a = decimal(ip1 as nat);
    let b = decimal(ip2 as nat);
    let c = decimal(ip3 as nat);
    let d = decimal(ip4 as nat);
    assert(ip_text(ip1, ip2, ip3, ip4) == a + seq!['.'] + b + seq!['.'] + c + seq!['.'] + d);
}

} // verus!
