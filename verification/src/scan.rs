//! The bookkeeping of a TCP connect scan: what a connection attempt says of
//! a port, which results are reported, and the counts of the summary.
use crate::services::{get_service_name, service_table};
use vstd::prelude::*;

verus! {

/// What a scan found out about a port.
#[derive(Clone, Copy, Debug, PartialEq, Eq, Structural)]
pub enum PortState {
    /// A connection was accepted.
    Open,
    /// The connection was refused.
    Closed,
    /// No answer came before the timeout.
    Filtered,
}

/// How one connection attempt ended.
#[derive(Clone, Copy, Debug, PartialEq, Eq, Structural)]
pub enum ConnectOutcome {
    /// The connection was established.
    Connected,
    /// The connection failed with an error.
    Refused,
    /// The timeout ran out first.
    TimedOut,
}

/// The lower-case name of a state, as results record it.
pub open spec fn state_name(state: PortState) -> Seq<char> {
    match state {
        PortState::Open => "open"@,
        PortState::Closed => "closed"@,
        PortState::Filtered => "filtered"@,
    }
}

/// The upper-case name of a state, as progress lines show it.
pub open spec fn state_label(state: PortState) -> Seq<char> {
    match state {
        PortState::Open => "OPEN"@,
        PortState::Closed => "CLOSED"@,
        PortState::Filtered => "FILTERED"@,
    }
}

impl PortState {
    /// The lower-case name of this state.
    pub fn as_str(&self) -> (res: &'static str)
        ensures
            res@ == state_name(*self),
    {
        match self {
            PortState::Open => "open",
            PortState::Closed => "closed",
            PortState::Filtered => "filtered",
        }
    }

    /// The upper-case name of this state.
    pub fn label(&self) -> (res: &'static str)
        ensures
            res@ == state_label(*self),
    {
        match self {
            PortState::Open => "OPEN",
            PortState::Closed => "CLOSED",
            PortState::Filtered => "FILTERED",
        }
    }
}

/// The state a connection attempt shows, and the response time that is kept:
/// only an open port keeps the time the connection took.
pub open spec fn probe_outcome(outcome: ConnectOutcome, elapsed_ms: u64) -> (PortState, Option<u64>) {
    match outcome {
        ConnectOutcome::Connected => (PortState::Open, Some(elapsed_ms)),
        ConnectOutcome::Refused => (PortState::Closed, None),
        ConnectOutcome::TimedOut => (PortState::Filtered, None),
    }
}

/// Classifies a connection attempt that ended with `outcome` after `elapsed_ms`.
pub fn classify(outcome: ConnectOutcome, elapsed_ms: u64) -> (res: (PortState, Option<u64>))
    ensures
        res == probe_outcome(outcome, elapsed_ms),
{
    match outcome {
        ConnectOutcome::Connected => (PortState::Open, Some(elapsed_ms)),
        ConnectOutcome::Refused => (PortState::Closed, None),
        ConnectOutcome::TimedOut => (PortState::Filtered, None),
    }
}

/// Whether `name` is what the service lookup gives for `port`.
pub open spec fn names_service(port: u16, name: Option<String>) -> bool {
    match name {
        Some(n) => service_table().contains_key(port) && n@ == service_table()[port]@,
        None => !service_table().contains_key(port),
    }
}

/// The service name recorded for `port`: looked up when service names are
/// asked for or output is verbose, else none.
pub fn service_for(port: u16, show_services: bool, verbose: bool) -> (res: Option<String>)
    ensures
        (show_services || verbose) ==> names_service(port, res),
        !(show_services || verbose) ==> res is None,
{
    if show_services || verbose {
        get_service_name(port)
    } else {
        None
    }
}

/// Whether the progress of a port is printed: always when verbose, else only
/// for open ports.
pub fn should_report(state: PortState, verbose: bool) -> (res: bool)
    ensures
        res == (verbose || state == PortState::Open),
{
    verbose || state == PortState::Open
}

/// The result of scanning one port.
pub struct ScanResult {
    pub target: String,
    pub port: u16,
    pub state: PortState,
    pub service: Option<String>,
    pub response_time_ms: Option<u64>,
}

impl ScanResult {
    /// The result for `port` of `target` whose connection attempt ended with
    /// `outcome` after `elapsed_ms`.
    pub fn from_probe(
        target: String,
        port: u16,
        outcome: ConnectOutcome,
        elapsed_ms: u64,
        show_services: bool,
        verbose: bool,
    ) -> (res: ScanResult)
        ensures
            res.target@ == target@,
            res.port == port,
            (res.state, res.response_time_ms) == probe_outcome(outcome, elapsed_ms),
            (show_services || verbose) ==> names_service(port, res.service),
            !(show_services || verbose) ==> res.service is None,
    {
        let (state, response_time_ms) = classify(outcome, elapsed_ms);
        let service = service_for(port, show_services, verbose);
        ScanResult { target, port, state, service, response_time_ms }
    }
}

/// How many of `results` are in `state`.
pub open spec fn count_state(results: Seq<ScanResult>, state: PortState) -> nat
    decreases results.len(),
{
    if results.len() == 0 {
        0
    } else {
        count_state(results.drop_last(), state) + if results.last().state == state {
            1nat
        } else {
            0nat
        }
    }
}

/// Every result is open, closed or filtered: the three counts add up to the
/// number of results.
pub proof fn lemma_counts_total(results: Seq<ScanResult>)
    ensures
        count_state(results, PortState::Open) + count_state(results, PortState::Closed)
            + count_state(results, PortState::Filtered) == results.len(),
    decreases results.len(),
{
    if results.len() > 0 {
        lemma_counts_total(results.drop_last());
    }
}

/// The number of open, closed and filtered results of a scan.
pub struct StateCounts {
    pub open: usize,
    pub closed: usize,
    pub filtered: usize,
}

/// Counts the results of each state.
pub fn count_states(results: &Vec<ScanResult>) -> (res: StateCounts)
    ensures
        res.open == count_state(results@, PortState::Open),
        res.closed == count_state(results@, PortState::Closed),
        res.filtered == count_state(results@, PortState::Filtered),
        res.open + res.closed + res.filtered == results@.len(),
        res.open == results@.filter(|r: ScanResult| r.state == PortState::Open).len(),
        res.closed == results@.filter(|r: ScanResult| r.state == PortState::Closed).len(),
        res.filtered == results@.filter(|r: ScanResult| r.state == PortState::Filtered).len(),
{
    let mut open: usize = 0;
    let mut closed: usize = 0;
    let mut filtered: usize = 0;
    let n = results.len();
    let mut i: usize = 0;
    while i < n
        invariant
            n == results@.len(),
            0 <= i <= n,
            open == count_state(results@.take(i as int), PortState::Open),
            closed == count_state(results@.take(i as int), PortState::Closed),
            filtered == count_state(results@.take(i as int), PortState::Filtered),
            open + closed + filtered == i,
        decreases n - i,
    {
        assert(results@.take(i + 1).drop_last() =~= results@.take(i as int));
        match results[i].state {
            PortState::Open => open += 1,
            PortState::Closed => closed += 1,
            PortState::Filtered => filtered += 1,
        }
        i += 1;
    }
    assert(results@.take(n as int) =~= results@);
    proof {
        lemma_count_state_filter(results@, PortState::Open);
        lemma_count_state_filter(results@, PortState::Closed);
        lemma_count_state_filter(results@, PortState::Filtered);
    }
    StateCounts { open, closed, filtered }
}

/// The positions, in rising order, of the open results.
pub fn open_positions(results: &Vec<ScanResult>) -> (res: Vec<usize>)
    ensures
        forall|a: int, b: int| 0 <= a < b < res@.len() ==> res@[a] < res@[b],
        forall|i: usize| #[trigger] res@.contains(i) <==> (i < results@.len() && results@[i as int].state
            == PortState::Open),
{
    let mut res: Vec<usize> = Vec::new();
    let n = results.len();
    let mut i: usize = 0;
    while i < n
        invariant
            n == results@.len(),
            0 <= i <= n,
            forall|a: int, b: int| 0 <= a < b < res@.len() ==> res@[a] < res@[b],
            forall|a: int| 0 <= a < res@.len() ==> res@[a] < i,
            forall|k: usize| #[trigger] res@.contains(k) <==> (k < i && results@[k as int].state
                == PortState::Open),
        decreases n - i,
    {
        let ghost before = res@;
        if results[i].state == PortState::Open {
            res.push(i);
            assert forall|k: usize| #[trigger] res@.contains(k) <==> (k < i + 1
                && results@[k as int].state == PortState::Open) by {
                if before.contains(k) {
                    let w = choose|w: int| 0 <= w < before.len() && before[w] == k;
                    assert(res@[w] == k);
                }
                if k == i {
                    assert(res@[before.len() as int] == i);
                }
                if res@.contains(k) {
                    let w = choose|w: int| 0 <= w < res@.len() && res@[w] == k;
                    if w < before.len() {
                        assert(before[w] == k);
                    }
                }
            }
        }
        i += 1;
    }
    res
}

/// What a scan found, with the counts of each state.
pub struct ScanSummary {
    pub target: String,
    pub start_time: String,
    pub end_time: String,
    pub duration_ms: u64,
    pub total_ports_scanned: usize,
    pub open_ports: usize,
    pub closed_ports: usize,
    pub filtered_ports: usize,
    pub results: Vec<ScanResult>,
}

impl ScanSummary {
    /// The summary of a scan of `total_ports_scanned` ports of `target` that
    /// gave `results`, with the number of results in each state.
    pub fn new(
        target: String,
        start_time: String,
        end_time: String,
        duration_ms: u64,
        total_ports_scanned: usize,
        results: Vec<ScanResult>,
    ) -> (res: ScanSummary)
        ensures
            res.target@ == target@,
            res.start_time@ == start_time@,
            res.end_time@ == end_time@,
            res.duration_ms == duration_ms,
            res.total_ports_scanned == total_ports_scanned,
            res.results@ == results@,
            res.open_ports == count_state(results@, PortState::Open),
            res.closed_ports == count_state(results@, PortState::Closed),
            res.filtered_ports == count_state(results@, PortState::Filtered),
    {
        let counts = count_states(&results);
        ScanSummary {
            target,
            start_time,
            end_time,
            duration_ms,
            total_ports_scanned,
            open_ports: counts.open,
            closed_ports: counts.closed,
            filtered_ports: counts.filtered,
            results,
        }
    }
}


/// What a connection attempt says of a port depends on how it ended alone,
/// not on how long it took: an established connection means open, a refused
/// one closed, a timed-out one filtered; and a response time is kept exactly
/// for an open port, and is then the time the attempt took.
pub proof fn lemma_probe_outcome(outcome: ConnectOutcome, elapsed_ms: u64, other_ms: u64)
    ensures
        probe_outcome(outcome, elapsed_ms).0 == probe_outcome(outcome, other_ms).0,
        probe_outcome(outcome, elapsed_ms).0 == PortState::Open <==> outcome
            == ConnectOutcome::Connected,
        probe_outcome(outcome, elapsed_ms).0 == PortState::Closed <==> outcome
            == ConnectOutcome::Refused,
        probe_outcome(outcome, elapsed_ms).0 == PortState::Filtered <==> outcome
            == ConnectOutcome::TimedOut,
        probe_outcome(outcome, elapsed_ms).1 is Some <==> probe_outcome(outcome, elapsed_ms).0
            == PortState::Open,
        probe_outcome(outcome, elapsed_ms).1 is Some ==> probe_outcome(outcome, elapsed_ms).1
            == Some(elapsed_ms),
{
}

/// The count of a state is the number of results in that state, whatever
/// their other fields hold: the length of the results filtered by state.
pub proof fn lemma_count_state_filter(results: Seq<ScanResult>, state: PortState)
    ensures
        count_state(results, state) == results.filter(|r: ScanResult| r.state == state).len(),
    decreases results.len(),
{
    reveal_with_fuel(Seq::<ScanResult>::filter, 1);
    if results.len() > 0 {
        lemma_count_state_filter(results.drop_last(), state);
    }
}

} // verus!
