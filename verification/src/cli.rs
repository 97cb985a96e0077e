//! Command-line choices: the subcommands with their options, which one
//! runs by default, which interface is captured on, and how flows are
//! ranked for display.

use vstd::prelude::*;
use crate::flow::{FlowRecord, millis_toward_zero};
use crate::rank::{is_top, top_indices};

verus! {

/// Output format for headless commands.
#[derive(Debug, Clone, Copy, PartialEq, Eq, Structural)]
pub enum OutputFormat {
    Table,
    Json,
    Csv,
}

/// Column that flows are ranked by, largest first.
#[derive(Debug, Clone, Copy, PartialEq, Eq, Structural)]
pub enum FlowSort {
    Bytes,
    Packets,
    Duration,
}

/// A subcommand with its options.
#[derive(Debug)]
pub enum Command {
    /// The interactive dashboard, refreshed every `interval_ms`
    /// milliseconds.
    Watch { interval_ms: u64 },
    /// Capture `count` packets (0: until interrupted) and print them.
    Capture { count: u64, write: Option<String> },
    /// Read and analyse a capture file, optionally through a display
    /// filter.
    Read { file: String, display_filter: Option<String> },
    /// Traffic statistics for `duration` seconds (0: until interrupted).
    Stats { duration: u64 },
    /// List the network interfaces.
    Interfaces,
    /// The active flows, ranked by `sort`.
    Flows { sort: FlowSort },
}

/// The parsed command line.
#[derive(Debug)]
pub struct Cli {
    pub command: Option<Command>,
    /// Interface to capture from; the first one that is not loopback when
    /// absent.
    pub interface: Option<String>,
    /// Capture filter expression.
    pub bpf: Option<String>,
    /// How many times verbose logging was asked for.
    pub verbose: u8,
    pub output: OutputFormat,
}

/// The subcommand that runs: the one given, else the dashboard refreshed
/// every 500 ms.
pub open spec fn chosen_command(c: Option<Command>) -> Command {
    match c {
        Some(c) => c,
        None => Command::Watch { interval_ms: 500 },
    }
}

impl Cli {
    /// What runs: the subcommand, the interface asked for, and the capture
    /// filter.
    pub fn run(self) -> (r: (Command, Option<String>, Option<String>))
        ensures
            r.0 == chosen_command(self.command),
            r.1 == self.interface,
            r.2 == self.bpf,
    {
        let command = match self.command {
            Some(c) => c,
            None => Command::Watch { interval_ms: 500 },
        };
        (command, self.interface, self.bpf)
    }
}

/// The first device, each given by its name and whether it is a loopback
/// interface, that is not a loopback interface.
pub open spec fn first_non_loopback(devices: Seq<(String, bool)>) -> Option<int> {
    if exists|i: int| 0 <= i < devices.len() && !devices[i].1 {
        Some(choose|i: int| 0 <= i < devices.len() && !devices[i].1 && forall|j: int| 0 <= j < i ==> devices[j].1)
    } else {
        None
    }
}

/// The interface to capture on: the one given, else the first device, each
/// given by its name and its loopback flag, whose flag is clear.
pub fn choose_interface(given: Option<String>, devices: &Vec<(String, bool)>) -> (r: Option<String>)
    ensures
        match given {
            Some(g) => r == Some(g),
            None => match first_non_loopback(devices@) {
                Some(i) => r matches Some(n) && n@ == devices@[i].0@,
                None => r is None,
            },
        },
{
    if let Some(g) = given {
        return Some(g);
    }
    let mut i: usize = 0;
    while i < devices.len()
        invariant
            given is None,
            i <= devices@.len(),
            forall|j: int| 0 <= j < i ==> devices@[j].1,
        decreases devices@.len() - i,
    {
        if !devices[i].1 {
            proof {
                let w = choose|w: int| 0 <= w < devices@.len() && !devices@[w].1 && forall|j: int| 0 <= j < w ==> devices@[j].1;
                assert(0 <= i < devices@.len() && !devices@[i as int].1 && forall|j: int| 0 <= j < i ==> devices@[j].1);
                if w < i {
                } else if w > i {
                    assert(devices@[i as int].1);
                }
            }
            return Some(devices[i].0.clone());
        }
        i = i + 1;
    }
    None
}

/// The value a flow is ranked by.
pub open spec fn rank_key(f: FlowRecord, sort: FlowSort) -> int {
    match sort {
        FlowSort::Bytes => f.bytes_fwd + f.bytes_rev,
        FlowSort::Packets => f.packets_fwd + f.packets_rev,
        FlowSort::Duration => millis_toward_zero(f.last_seen - f.first_seen),
    }
}

fn key_of(f: &FlowRecord, sort: FlowSort) -> (k: i128)
    ensures
        k == rank_key(*f, sort),
{
    match sort {
        FlowSort::Bytes => (f.bytes_fwd as i128) + (f.bytes_rev as i128),
        FlowSort::Packets => (f.packets_fwd as i128) + (f.packets_rev as i128),
        FlowSort::Duration => {
            let d = (f.last_seen as i128) - (f.first_seen as i128);
            if d >= 0 {
                d / 1000
            } else {
                -((-d) / 1000)
            }
        },
    }
}

/// `r` is the first `limit` flows of `flows` ranked by `sort`, largest
/// first (ties in any order).
pub open spec fn ranks(flows: Seq<FlowRecord>, sort: FlowSort, limit: nat, r: Seq<FlowRecord>) -> bool {
    let keys = Seq::new(flows.len(), |i: int| rank_key(flows[i], sort) as i128);
    exists|idx: Seq<usize>|
        {
            &&& is_top(keys, idx, limit)
            &&& r.len() == idx.len()
            &&& forall|i: int| 0 <= i < r.len() ==> #[trigger] r[i] == flows[idx[i] as int]
        }
}

/// The first `limit` flows ranked by `sort`, largest first.
pub fn rank_flows(flows: &Vec<FlowRecord>, sort: FlowSort, limit: usize) -> (r: Vec<FlowRecord>)
    ensures
        ranks(flows@, sort, limit as nat, r@),
{
    let ghost spec_keys = Seq::new(flows@.len(), |i: int| rank_key(flows@[i], sort) as i128);
    let mut keys: Vec<i128> = Vec::new();
    let mut i: usize = 0;
    while i < flows.len()
        invariant
            i <= flows@.len(),
            keys@.len() == i,
            forall|j: int| 0 <= j < i ==> #[trigger] keys@[j] == rank_key(flows@[j], sort) as i128,
        decreases flows@.len() - i,
    {
        keys.push(key_of(&flows[i], sort));
        i = i + 1;
    }
    assert(keys@ =~= spec_keys);
    let idx = top_indices(&keys, limit);
    let mut r: Vec<FlowRecord> = Vec::new();
    let mut k: usize = 0;
    while k < idx.len()
        invariant
            k <= idx@.len(),
            r@.len() == k,
            forall|q: int| 0 <= q < idx@.len() ==> #[trigger] idx@[q] < flows@.len(),
            forall|q: int| 0 <= q < k ==> #[trigger] r@[q] == flows@[idx@[q] as int],
        decreases idx@.len() - k,
    {
        r.push(flows[idx[k]]);
        k = k + 1;
    }
    assert(is_top(spec_keys, idx@, limit as nat));
    r
}

/// Ranking flows: the result holds `limit` flows, or all of them where
/// there are fewer, each one of the given flows and none twice; ranked by
/// bytes (both directions together) or by packets, each flow comes before
/// every one with fewer, and no flow left out has more than the last one
/// taken.
pub proof fn law_ranking(flows: Seq<FlowRecord>, sort: FlowSort, limit: nat, r: Seq<FlowRecord>)
    requires
        ranks(flows, sort, limit, r),
    ensures
        r.len() == (if limit < flows.len() { limit } else { flows.len() }),
        forall|i: int| 0 <= i < r.len() ==> flows.contains(#[trigger] r[i]),
        sort == FlowSort::Bytes ==> forall|i: int, j: int| 0 <= i < j < r.len() ==> #[trigger] r[i].bytes_fwd + r[i].bytes_rev >= #[trigger] r[j].bytes_fwd + r[j].bytes_rev,
        sort == FlowSort::Packets ==> forall|i: int, j: int| 0 <= i < j < r.len() ==> #[trigger] r[i].packets_fwd + r[i].packets_rev >= #[trigger] r[j].packets_fwd + r[j].packets_rev,
{
    let keys = Seq::new(flows.len(), |i: int| rank_key(flows[i], sort) as i128);
    let idx = choose|idx: Seq<usize>|
        {
            &&& is_top(keys, idx, limit)
            &&& r.len() == idx.len()
            &&& forall|i: int| 0 <= i < r.len() ==> #[trigger] r[i] == flows[idx[i] as int]
        };
    assert forall|i: int| 0 <= i < r.len() implies flows.contains(#[trigger] r[i]) by {
        assert(idx[i] < flows.len());
        assert(r[i] == flows[idx[i] as int]);
    }
    assert forall|i: int, j: int| 0 <= i < j < r.len() implies rank_key(#[trigger] r[i], sort) >= rank_key(#[trigger] r[j], sort) by {
        assert(keys[idx[i] as int] >= keys[idx[j] as int]);
        assert(idx[i] < flows.len() && idx[j] < flows.len());
        assert(r[i] == flows[idx[i] as int]);
        assert(r[j] == flows[idx[j] as int]);
        lemma_rank_key_fits(flows[idx[i] as int], sort);
        lemma_rank_key_fits(flows[idx[j] as int], sort);
    }
}

proof fn lemma_rank_key_fits(f: FlowRecord, sort: FlowSort)
    ensures
        -0x1_0000_0000_0000_0000_0000 < rank_key(f, sort) < 0x1_0000_0000_0000_0000_0000,
        rank_key(f, sort) as i128 == rank_key(f, sort),
{
    let d = f.last_seen - f.first_seen;
    if d >= 0 {
        assert(d / 1000 <= d) by (nonlinear_arith)
            requires
                d >= 0,
        ;
    } else {
        assert((-d) / 1000 <= -d) by (nonlinear_arith)
            requires
                -d > 0,
        ;
    }
}

} // verus!
