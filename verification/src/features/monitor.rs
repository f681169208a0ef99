//! Live system health: the recent history of each measure.
use vstd::prelude::*;

verus! {

/// How many samples each history keeps.
pub const HISTORY_LENGTH: usize = 100;

/// `history` after recording `value`: the oldest sample is dropped once the
/// history is full.
pub open spec fn pushed(history: Seq<u64>, value: u64) -> Seq<u64> {
    if history.len() >= HISTORY_LENGTH {
        history.drop_first().push(value)
    } else {
        history.push(value)
    }
}

/// Records a sample, dropping the oldest one when the history is full.
pub fn push_history(history: &mut Vec<u64>, value: u64)
    ensures
        final(history)@ == pushed(old(history)@, value),
{
    if history.len() >= HISTORY_LENGTH {
        history.remove(0);
    }
    history.push(value);
    assert(history@ =~= pushed(old(history)@, value));
}

/// A full history of zeros.
fn empty_history() -> (v: Vec<u64>)
    ensures
        v@ == Seq::new(HISTORY_LENGTH as nat, |i: int| 0u64),
{
    let mut v: Vec<u64> = Vec::new();
    while v.len() < HISTORY_LENGTH
        invariant
            v.len() <= HISTORY_LENGTH,
            forall|i: int| 0 <= i < v.len() ==> v@[i] == 0,
        decreases HISTORY_LENGTH - v.len(),
    {
        v.push(0);
    }
    assert(v@ =~= Seq::new(HISTORY_LENGTH as nat, |i: int| 0u64));
    v
}

/// The measures kept between samples.
#[derive(Debug)]
pub struct MonitorHistory {
    pub cpu_history: Vec<u64>,
    pub memory_history: Vec<u64>,
    pub net_rx_history: Vec<u64>,
    pub net_tx_history: Vec<u64>,
    pub core_usage: Vec<u64>,
    pub mem_total: u64,
    pub mem_used: u64,
    pub net_rx: u64,
    pub net_tx: u64,
}

/// Each history holds exactly `HISTORY_LENGTH` samples.
pub open spec fn histories_full(m: MonitorHistory) -> bool {
    &&& m.cpu_history@.len() == HISTORY_LENGTH
    &&& m.memory_history@.len() == HISTORY_LENGTH
    &&& m.net_rx_history@.len() == HISTORY_LENGTH
    &&& m.net_tx_history@.len() == HISTORY_LENGTH
}

/// Traffic since the previous sample, in KiB (0 if a counter went back).
pub open spec fn kib_since(total: u64, previous: u64) -> u64 {
    if total >= previous {
        ((total - previous) / 1024) as u64
    } else {
        0
    }
}

impl MonitorHistory {
    /// Histories of zeros and no measures yet.
    pub fn new() -> (m: Self)
        ensures
            histories_full(m),
            m.cpu_history@ == Seq::new(HISTORY_LENGTH as nat, |i: int| 0u64),
            m.memory_history@ == Seq::new(HISTORY_LENGTH as nat, |i: int| 0u64),
            m.net_rx_history@ == Seq::new(HISTORY_LENGTH as nat, |i: int| 0u64),
            m.net_tx_history@ == Seq::new(HISTORY_LENGTH as nat, |i: int| 0u64),
            m.core_usage@.len() == 0,
            m.mem_total == 0,
            m.mem_used == 0,
            m.net_rx == 0,
            m.net_tx == 0,
    {
        MonitorHistory {
            cpu_history: empty_history(),
            memory_history: empty_history(),
            net_rx_history: empty_history(),
            net_tx_history: empty_history(),
            core_usage: Vec::new(),
            mem_total: 0,
            mem_used: 0,
            net_rx: 0,
            net_tx: 0,
        }
    }

    /// Records one sample: the overall and per-core processor use, the memory
    /// figures and use in percent, and the total traffic counters; the
    /// network histories get the traffic since the previous sample in KiB.
    pub fn record(
        &mut self,
        cpu_percent: u64,
        cores: Vec<u64>,
        mem_total: u64,
        mem_used: u64,
        mem_percent: u64,
        rx_total: u64,
        tx_total: u64,
    )
        ensures
            final(self).cpu_history@ == pushed(old(self).cpu_history@, cpu_percent),
            final(self).memory_history@ == pushed(old(self).memory_history@, mem_percent),
            final(self).net_rx_history@ == pushed(
                old(self).net_rx_history@,
                kib_since(rx_total, old(self).net_rx),
            ),
            final(self).net_tx_history@ == pushed(
                old(self).net_tx_history@,
                kib_since(tx_total, old(self).net_tx),
            ),
            final(self).core_usage@ == cores@,
            final(self).mem_total == mem_total,
            final(self).mem_used == mem_used,
            final(self).net_rx == rx_total,
            final(self).net_tx == tx_total,
    {
        push_history(&mut self.cpu_history, cpu_percent);
        self.core_usage = cores;
        self.mem_total = mem_total;
        self.mem_used = mem_used;
        push_history(&mut self.memory_history, mem_percent);
        push_history(&mut self.net_rx_history, rx_total.saturating_sub(self.net_rx) / 1024);
        push_history(&mut self.net_tx_history, tx_total.saturating_sub(self.net_tx) / 1024);
        self.net_rx = rx_total;
        self.net_tx = tx_total;
    }
}

impl Default for MonitorHistory {
    fn default() -> (m: Self)
        ensures
            histories_full(m),
            m.cpu_history@ == Seq::new(HISTORY_LENGTH as nat, |i: int| 0u64),
            m.memory_history@ == Seq::new(HISTORY_LENGTH as nat, |i: int| 0u64),
            m.net_rx_history@ == Seq::new(HISTORY_LENGTH as nat, |i: int| 0u64),
            m.net_tx_history@ == Seq::new(HISTORY_LENGTH as nat, |i: int| 0u64),
            m.core_usage@.len() == 0,
            m.mem_total == 0,
            m.mem_used == 0,
            m.net_rx == 0,
            m.net_tx == 0,
    {
        MonitorHistory::new()
    }
}

/// Recording a sample into a full history keeps it full: the window slides.
pub proof fn law_history_window(history: Seq<u64>, value: u64)
    requires
        history.len() == HISTORY_LENGTH,
    ensures
        pushed(history, value).len() == HISTORY_LENGTH,
        pushed(history, value).last() == value,
        forall|i: int|
            0 <= i < HISTORY_LENGTH - 1 ==> #[trigger] pushed(history, value)[i] == history[i + 1],
{
}

/// Traffic is counted in whole KiB of 1024 bytes since the previous sample,
/// the part of a KiB left over dropped; a counter that went back counts as
/// no traffic.
pub proof fn law_traffic_in_kib(previous: u64, kib: nat, rest: nat, total: u64)
    ensures
        rest < 1024 && total == previous + 1024 * kib + rest ==> kib_since(total, previous) == kib,
        total < previous ==> kib_since(total, previous) == 0,
{
    if rest < 1024 && total == previous + 1024 * kib + rest {
        assert((1024 * kib + rest) / 1024 == kib) by (nonlinear_arith)
            requires
                rest < 1024,
        ;
    }
}

} // verus!
