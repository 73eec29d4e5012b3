use port_scanner::scan::{
    classify, count_states, open_positions, service_for, should_report, ConnectOutcome, PortState,
    ScanResult, ScanSummary,
};

fn result(port: u16, outcome: ConnectOutcome) -> ScanResult {
    ScanResult::from_probe("127.0.0.1".to_string(), port, outcome, 3, true, false)
}

#[test]
fn outcomes_classify() {
    assert_eq!(classify(ConnectOutcome::Connected, 12), (PortState::Open, Some(12)));
    assert_eq!(classify(ConnectOutcome::Refused, 12), (PortState::Closed, None));
    assert_eq!(classify(ConnectOutcome::TimedOut, 12), (PortState::Filtered, None));
}

#[test]
fn state_names() {
    assert_eq!(PortState::Open.as_str(), "open");
    assert_eq!(PortState::Closed.as_str(), "closed");
    assert_eq!(PortState::Filtered.as_str(), "filtered");
    assert_eq!(PortState::Open.label(), "OPEN");
    assert_eq!(PortState::Filtered.label(), "FILTERED");
}

#[test]
fn services_only_when_asked() {
    assert_eq!(service_for(22, true, false).as_deref(), Some("SSH"));
    assert_eq!(service_for(22, false, true).as_deref(), Some("SSH"));
    assert_eq!(service_for(22, false, false), None);
    assert_eq!(service_for(1, true, true), None);
}

#[test]
fn reporting_rule() {
    assert!(should_report(PortState::Open, false));
    assert!(!should_report(PortState::Closed, false));
    assert!(should_report(PortState::Filtered, true));
}

#[test]
fn result_from_probe() {
    let r = result(80, ConnectOutcome::Connected);
    assert_eq!(r.target, "127.0.0.1");
    assert_eq!(r.port, 80);
    assert_eq!(r.state, PortState::Open);
    assert_eq!(r.service.as_deref(), Some("HTTP"));
    assert_eq!(r.response_time_ms, Some(3));
    let r = result(81, ConnectOutcome::TimedOut);
    assert_eq!(r.state, PortState::Filtered);
    assert_eq!(r.service, None);
    assert_eq!(r.response_time_ms, None);
}

#[test]
fn counts_add_up() {
    let results = vec![
        result(21, ConnectOutcome::Connected),
        result(22, ConnectOutcome::Refused),
        result(23, ConnectOutcome::TimedOut),
        result(80, ConnectOutcome::Connected),
        result(81, ConnectOutcome::Refused),
    ];
    let counts = count_states(&results);
    assert_eq!((counts.open, counts.closed, counts.filtered), (2, 2, 1));
    assert_eq!(counts.open + counts.closed + counts.filtered, results.len());
    assert_eq!(open_positions(&results), vec![0, 3]);
    let summary = ScanSummary::new(
        "127.0.0.1".to_string(),
        "start".to_string(),
        "end".to_string(),
        42,
        5,
        results,
    );
    assert_eq!(summary.open_ports, 2);
    assert_eq!(summary.closed_ports, 2);
    assert_eq!(summary.filtered_ports, 1);
    assert_eq!(summary.total_ports_scanned, 5);
    assert_eq!(summary.duration_ms, 42);
    assert_eq!(summary.results.len(), 5);
}

#[test]
fn empty_scan() {
    let counts = count_states(&Vec::new());
    assert_eq!((counts.open, counts.closed, counts.filtered), (0, 0, 0));
    assert!(open_positions(&Vec::new()).is_empty());
}
