//! Folding probe verdicts into a scan report, and what the fold guarantees:
//! every verdict is counted exactly once, a reachable port is listed exactly
//! once, an unreachable one never, and the two tallies always add up to the
//! number of verdicts.

use vstd::prelude::*;

use crate::ports::PortRange;

verus! {

/// The verdict of a single probe: one port, reachable or not.  Produced by
/// the caller's probe of `(address, port)` and consumed once by the fold.
#[derive(Clone, Copy, Debug, PartialEq, Eq, Structural)]
pub struct ProbeResult {
    pub port: u16,
    pub reachable: bool,
}

/// The ports of the reachable verdicts, in verdict order.
pub open spec fn open_ports_of(results: Seq<ProbeResult>) -> Seq<u16> {
    results.filter(|r: ProbeResult| r.reachable).map_values(|r: ProbeResult| r.port)
}

/// How many verdicts were unreachable.
pub open spec fn closed_count_of(results: Seq<ProbeResult>) -> int {
    results.filter(|r: ProbeResult| !r.reachable).len() as int
}

/// No two verdicts speak of the same port.
pub open spec fn distinct_ports(results: Seq<ProbeResult>) -> bool {
    forall|i: int, j: int|
        0 <= i < j < results.len() ==> (#[trigger] results[i]).port != (#[trigger] results[j]).port
}

/// How often `p` occurs in `ports`.
pub open spec fn port_occurrences(ports: Seq<u16>, p: u16) -> int
    decreases ports.len(),
{
    if ports.len() == 0 {
        0
    } else {
        port_occurrences(ports.drop_last(), p) + if ports.last() == p {
            1int
        } else {
            0int
        }
    }
}

/// How one more verdict moves the two tallies.
proof fn lemma_fold_step(prefix: Seq<ProbeResult>, r: ProbeResult)
    ensures
        open_ports_of(prefix.push(r)) == (if r.reachable {
            open_ports_of(prefix).push(r.port)
        } else {
            open_ports_of(prefix)
        }),
        closed_count_of(prefix.push(r)) == closed_count_of(prefix) + (if r.reachable {
            0int
        } else {
            1int
        }),
{
    broadcast use Seq::lemma_filter_push;

    if r.reachable {
        assert(open_ports_of(prefix.push(r)) =~= open_ports_of(prefix).push(r.port));
        assert(closed_count_of(prefix.push(r)) == closed_count_of(prefix));
    } else {
        assert(open_ports_of(prefix.push(r)) =~= open_ports_of(prefix));
        assert(closed_count_of(prefix.push(r)) == closed_count_of(prefix) + 1);
    }
}

/// The aggregate of a finished scan: which ports accepted a connection, and
/// how many did not.
pub struct ScanReport {
    pub open_ports: Vec<u16>,
    pub closed_count: usize,
}

impl ScanReport {
    /// The report faithfully aggregates `results`: the open list carries the
    /// ports of the reachable verdicts in verdict order, and the closed
    /// count tallies the rest.
    pub open spec fn aggregates(self, results: Seq<ProbeResult>) -> bool {
        self.open_ports@ == open_ports_of(results) && self.closed_count == closed_count_of(results)
    }
}

/// Folds every probe verdict into a report.  Each verdict lands in exactly
/// one of the two tallies: a reachable port is appended to the open list,
/// an unreachable one bumps the closed count.
pub fn aggregate(results: &Vec<ProbeResult>) -> (report: ScanReport)
    ensures
        report.aggregates(results@),
{
    broadcast use Seq::lemma_filter_push;

    let mut open_ports: Vec<u16> = Vec::new();
    let mut closed_count: usize = 0;
    let mut i: usize = 0;
    while i < results.len()
        invariant
            i <= results@.len(),
            open_ports@ == open_ports_of(results@.take(i as int)),
            closed_count == closed_count_of(results@.take(i as int)),
            closed_count <= i,
        decreases results@.len() - i,
    {
        let r = results[i];
        proof {
            let prefix = results@.take(i as int);
            assert(results@.take(i + 1) =~= prefix.push(r));
            lemma_fold_step(prefix, r);
        }
        if r.reachable {
            open_ports.push(r.port);
        } else {
            closed_count = closed_count + 1;
        }
        i = i + 1;
    }
    proof {
        assert(results@.take(results@.len() as int) =~= results@);
    }
    ScanReport { open_ports, closed_count }
}

/// Every verdict is accounted for: the number of open ports plus the closed
/// count equals the number of verdicts.  No verdict is dropped and none is
/// counted twice.
pub proof fn lemma_report_accounts_for_all(results: Seq<ProbeResult>)
    ensures
        open_ports_of(results).len() + closed_count_of(results) == results.len(),
    decreases results.len(),
{
    if results.len() > 0 {
        let prefix = results.drop_last();
        lemma_report_accounts_for_all(prefix);
        assert(results =~= prefix.push(results.last()));
        lemma_fold_step(prefix, results.last());
    }
}

/// Helper: a port probed by none of the verdicts in `results` never shows
/// up among the open ports.
proof fn lemma_unprobed_port_absent(results: Seq<ProbeResult>, p: u16)
    requires
        forall|i: int| 0 <= i < results.len() ==> !((#[trigger] results[i]).port == p
            && results[i].reachable),
    ensures
        port_occurrences(open_ports_of(results), p) == 0,
    decreases results.len(),
{
    if results.len() > 0 {
        let prefix = results.drop_last();
        let r = results.last();
        assert(forall|i: int| 0 <= i < prefix.len() ==> prefix[i] == results[i]);
        lemma_unprobed_port_absent(prefix, p);
        assert(results =~= prefix.push(r));
        lemma_fold_step(prefix, r);
        if r.reachable {
            assert(open_ports_of(results) == open_ports_of(prefix).push(r.port));
            assert(open_ports_of(prefix).push(r.port).drop_last() =~= open_ports_of(prefix));
        }
    }
}

/// A port whose probe came back reachable is listed among the open ports
/// exactly once — provided each port was probed once, as a scan does.
pub proof fn lemma_open_port_listed_once(results: Seq<ProbeResult>, p: u16)
    requires
        distinct_ports(results),
        exists|i: int| 0 <= i < results.len() && (#[trigger] results[i]).port == p
            && results[i].reachable,
    ensures
        port_occurrences(open_ports_of(results), p) == 1,
    decreases results.len(),
{
    let prefix = results.drop_last();
    let r = results.last();
    assert(forall|i: int| 0 <= i < prefix.len() ==> prefix[i] == results[i]);
    assert(results =~= prefix.push(r));
    lemma_fold_step(prefix, r);
    if r.port == p {
        assert(forall|i: int| 0 <= i < prefix.len() ==> !((#[trigger] prefix[i]).port == p
            && prefix[i].reachable));
        lemma_unprobed_port_absent(prefix, p);
        assert(r.reachable) by {
            let w = choose|i: int|
                0 <= i < results.len() && (#[trigger] results[i]).port == p
                    && results[i].reachable;
            assert(w == results.len() - 1);
        }
        assert(open_ports_of(results) == open_ports_of(prefix).push(r.port));
        assert(open_ports_of(prefix).push(r.port).drop_last() =~= open_ports_of(prefix));
    } else {
        let w = choose|i: int|
            0 <= i < results.len() && (#[trigger] results[i]).port == p && results[i].reachable;
        assert(w < results.len() - 1);
        assert(prefix[w] == results[w]);
        lemma_open_port_listed_once(prefix, p);
        if r.reachable {
            assert(open_ports_of(results) == open_ports_of(prefix).push(r.port));
            assert(open_ports_of(prefix).push(r.port).drop_last() =~= open_ports_of(prefix));
        }
    }
}

/// A port whose probe came back unreachable is classified closed and never
/// appears among the open ports — provided each port was probed once.
pub proof fn lemma_closed_port_never_listed(results: Seq<ProbeResult>, p: u16)
    requires
        distinct_ports(results),
        exists|i: int| 0 <= i < results.len() && (#[trigger] results[i]).port == p
            && !results[i].reachable,
    ensures
        port_occurrences(open_ports_of(results), p) == 0,
        !open_ports_of(results).contains(p),
{
    let w = choose|i: int|
        0 <= i < results.len() && (#[trigger] results[i]).port == p && !results[i].reachable;
    assert forall|i: int| 0 <= i < results.len() implies !((#[trigger] results[i]).port == p
        && results[i].reachable) by {
        if results[i].port == p && results[i].reachable {
            assert(i != w);
        }
    }
    lemma_unprobed_port_absent(results, p);
    lemma_occurrences_zero_absent(open_ports_of(results), p);
}

/// Helper: a port that occurs zero times is not contained.
proof fn lemma_occurrences_zero_absent(ports: Seq<u16>, p: u16)
    requires
        port_occurrences(ports, p) == 0,
    ensures
        !ports.contains(p),
    decreases ports.len(),
{
    if ports.len() > 0 {
        lemma_occurrences_nonneg(ports.drop_last(), p);
        lemma_occurrences_zero_absent(ports.drop_last(), p);
        assert forall|i: int| 0 <= i < ports.len() implies ports[i] != p by {
            if i < ports.len() - 1 {
                assert(ports.drop_last()[i] == ports[i]);
                assert(!ports.drop_last().contains(p));
            }
        }
    }
}

/// Helper: an occurrence count is never negative.
proof fn lemma_occurrences_nonneg(ports: Seq<u16>, p: u16)
    ensures
        port_occurrences(ports, p) >= 0,
    decreases ports.len(),
{
    if ports.len() > 0 {
        lemma_occurrences_nonneg(ports.drop_last(), p);
    }
}

/// Verdicts gathered one per port of a range — the i-th verdict speaking of
/// the i-th port, as the schedule hands them out — never probe a port
/// twice, so the listing laws above apply to every scan of a range.
pub proof fn lemma_range_verdicts_distinct(range: PortRange, results: Seq<ProbeResult>)
    requires
        range.wf(),
        results.len() == range.port_count(),
        forall|i: int| 0 <= i < results.len() ==> (#[trigger] results[i]).port == range.start + i,
    ensures
        distinct_ports(results),
{
}

/// A full scan of a range accounts for every port of the range: with one
/// verdict gathered per port, the open count plus the closed count equals
/// the number of ports the range covers.
pub proof fn lemma_scan_covers_range(range: PortRange, results: Seq<ProbeResult>)
    requires
        range.wf(),
        results.len() == range.port_count(),
    ensures
        open_ports_of(results).len() + closed_count_of(results) == range.port_count(),
{
    lemma_report_accounts_for_all(results);
}

/// Scanning is idempotent at the classification level: two runs that gather
/// the same verdicts — a static target with no service-state change — fold
/// to the same open list and the same closed count.
pub proof fn lemma_classification_deterministic(
    first: Seq<ProbeResult>,
    second: Seq<ProbeResult>,
)
    requires
        first == second,
    ensures
        open_ports_of(first) == open_ports_of(second),
        closed_count_of(first) == closed_count_of(second),
{
}

} // verus!
