//! The scan pipeline from the library's side: the port schedule, the fold
//! of probe verdicts into a report, and the rendered output lines.

use portscan::ports::PortRange;
use portscan::render::closed_count_line;
use portscan::render::open_ports_line;
use portscan::report::aggregate;
use portscan::report::ProbeResult;

fn verdicts(range: PortRange, open: &[u16]) -> Vec<ProbeResult> {
    range
        .ports()
        .iter()
        .map(|&p| ProbeResult { port: p, reachable: open.contains(&p) })
        .collect()
}

#[test]
fn counts_add_up_to_ports_scanned() {
    let range = PortRange { start: 20, end: 29 };
    let report = aggregate(&verdicts(range, &[21, 25]));
    assert_eq!(report.open_ports.len() + report.closed_count, 10);
}

#[test]
fn reachable_port_listed_exactly_once() {
    let range = PortRange { start: 440, end: 450 };
    let report = aggregate(&verdicts(range, &[443]));
    let occurrences = report.open_ports.iter().filter(|&&p| p == 443).count();
    assert_eq!(occurrences, 1);
}

#[test]
fn unreachable_port_never_listed() {
    let range = PortRange { start: 440, end: 450 };
    let report = aggregate(&verdicts(range, &[443]));
    assert!(!report.open_ports.contains(&445));
}

#[test]
fn same_verdicts_fold_to_same_report() {
    let range = PortRange { start: 1, end: 64 };
    let results = verdicts(range, &[7, 22, 53]);
    let first = aggregate(&results);
    let second = aggregate(&results);
    assert_eq!(first.open_ports, second.open_ports);
    assert_eq!(first.closed_count, second.closed_count);
}

#[test]
fn single_port_range_schedules_one_probe() {
    let range = PortRange { start: 8080, end: 8080 };
    let ports = range.ports();
    assert_eq!(ports, vec![8080]);
}

#[test]
fn schedule_covers_range_in_order() {
    let range = PortRange { start: 49999, end: 50001 };
    assert_eq!(range.ports(), vec![49999, 50000, 50001]);
}

#[test]
fn all_closed_scan_reports_empty_open_list() {
    // a probe of one port with nothing listening: one closed, none open
    let range = PortRange { start: 22, end: 22 };
    let report = aggregate(&verdicts(range, &[]));
    assert_eq!(report.closed_count, 1);
    assert!(report.open_ports.is_empty());
    assert_eq!(closed_count_line(&report), "Number of closed ports: 1");
    assert_eq!(open_ports_line(&report), "Open ports: []");
}

#[test]
fn one_listener_in_three_port_scan() {
    // a listener on one port of a three-port range: it alone is open
    let range = PortRange { start: 49999, end: 50001 };
    let report = aggregate(&verdicts(range, &[50000]));
    assert_eq!(report.open_ports, vec![50000]);
    assert_eq!(report.closed_count, 2);
}

#[test]
fn open_ports_keep_verdict_order() {
    let results = vec![
        ProbeResult { port: 443, reachable: true },
        ProbeResult { port: 80, reachable: false },
        ProbeResult { port: 21, reachable: true },
    ];
    let report = aggregate(&results);
    assert_eq!(report.open_ports, vec![443, 21]);
    assert_eq!(report.closed_count, 1);
}

#[test]
fn renders_multi_port_list() {
    let results = vec![
        ProbeResult { port: 21, reachable: true },
        ProbeResult { port: 80, reachable: true },
        ProbeResult { port: 443, reachable: true },
        ProbeResult { port: 8080, reachable: false },
        ProbeResult { port: 8443, reachable: false },
    ];
    let report = aggregate(&results);
    assert_eq!(closed_count_line(&report), "Number of closed ports: 2");
    assert_eq!(open_ports_line(&report), "Open ports: [21, 80, 443]");
}

#[test]
fn renders_zero_closed_count() {
    let report = aggregate(&Vec::new());
    assert_eq!(closed_count_line(&report), "Number of closed ports: 0");
    assert_eq!(open_ports_line(&report), "Open ports: []");
}
