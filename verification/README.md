# portscanner

A TCP port scanner. The library in `src/` holds its decisions, each with a
contract proved by Verus; the program in `app/` does the terminal and window
input and output, the network connections and the threads.

- `src/config.rs`: the scan configuration, the checks of ports and addresses,
  the steps of the terminal prompts.
- `src/results.rs`: a port's verdict, its text, and the ordered set of verdicts.
- `src/probe.rs`: the verdict from one connection attempt and from several.
- `src/timing.rs`: round-trip times, their median, the sampled ports, the
  derived timeout and the pause between careful probes.
- `src/plan.rs`: how a scan probes its ports.
- `src/gui.rs`: the window's form and what its start button sets up.
- `src/text.rs`: decimal parsing and printing, string comparison and search.
- `src/matching.rs`: regular-expression matching through the `regex` crate.
