//! Time-series metrics: rows kept for a retention window that every insert
//! enforces, the node sample derived from system totals, and the integer
//! parts of a container's stats.
use vstd::prelude::*;
use crate::compose::strs;
use crate::containers::{stack_members, belongs_to_stack};
use crate::runtime::ContainerInfo;

verus! {

/// Days that node and container metrics are kept.
pub const METRICS_RETENTION_DAYS: i64 = 7;

/// Days that legacy resource metrics are kept.
pub const RESOURCE_RETENTION_DAYS: i64 = 30;

/// The rows of `rows` stamped at `cutoff` or later, in order.
pub open spec fn kept<T>(rows: Seq<(i64, T)>, cutoff: i64) -> Seq<(i64, T)>
    decreases rows.len(),
{
    if rows.len() == 0 {
        Seq::empty()
    } else {
        let prev = kept(rows.drop_last(), cutoff);
        if rows.last().0 >= cutoff {
            prev.push(rows.last())
        } else {
            prev
        }
    }
}

/// The rows of `rows` stamped after `since`, in order.
pub open spec fn stamped_after<T>(rows: Seq<(i64, T)>, since: i64) -> Seq<(i64, T)>
    decreases rows.len(),
{
    if rows.len() == 0 {
        Seq::empty()
    } else {
        let prev = stamped_after(rows.drop_last(), since);
        if rows.last().0 > since {
            prev.push(rows.last())
        } else {
            prev
        }
    }
}

/// The start of a query window of `last_hours` hours (24 where none is
/// given) before `now`, bounded below by the earliest timestamp.
pub fn window_start(now: i64, last_hours: Option<i32>) -> (r: i64)
    ensures
        r == clamp_i64(now - match last_hours {
            Some(x) => x as int,
            None => 24,
        } * 3600),
{
    let h: i64 = match last_hours {
        Some(x) => x as i64,
        None => 24,
    };
    clamp_to_i64(now as i128 - (h as i128) * 3600)
}

/// `x` bounded to the range of `i64`.
pub open spec fn clamp_i64(x: int) -> i64 {
    if x < i64::MIN {
        i64::MIN
    } else if x > i64::MAX {
        i64::MAX
    } else {
        x as i64
    }
}

/// `x` bounded to the range of `i64`.
pub fn clamp_to_i64(x: i128) -> (r: i64)
    ensures
        r == clamp_i64(x as int),
{
    if x < i64::MIN as i128 {
        i64::MIN
    } else if x > i64::MAX as i128 {
        i64::MAX
    } else {
        x as i64
    }
}

/// The earliest timestamp that a window of `days` days before `now` keeps.
pub open spec fn cutoff_of(now: i64, days: i64) -> int {
    now - days * 86400
}

/// A time series: rows stamped in seconds since the Unix epoch.
pub struct MetricsTable<T> {
    rows: Vec<(i64, T)>,
}

impl<T> MetricsTable<T> {
    pub closed spec fn view(&self) -> Seq<(i64, T)> {
        self.rows@
    }

    /// An empty table.
    pub fn new() -> (r: Self)
        ensures
            r@ == Seq::<(i64, T)>::empty(),
    {
        MetricsTable { rows: Vec::new() }
    }

    /// The rows, oldest insert first.
    pub fn rows(&self) -> (r: &Vec<(i64, T)>)
        ensures
            r@ == self@,
    {
        &self.rows
    }

    /// Appends a row stamped `ts`, dropping nothing.
    pub fn append_row(&mut self, ts: i64, row: T)
        ensures
            final(self)@ == old(self)@.push((ts, row)),
    {
        self.rows.push((ts, row));
    }

    /// The rows stamped after `since`, oldest insert first.
    pub fn rows_after(&self, since: i64) -> (r: Vec<&(i64, T)>)
        ensures
            r@.map_values(|x: &(i64, T)| *x) == stamped_after(self@, since),
    {
        let mut out: Vec<&(i64, T)> = Vec::new();
        let mut i: usize = 0;
        while i < self.rows.len()
            invariant
                i <= self.rows@.len(),
                out@.map_values(|x: &(i64, T)| *x) == stamped_after(self.rows@.subrange(0, i as int), since),
            decreases self.rows.len() - i,
        {
            proof {
                assert(self.rows@.subrange(0, i + 1).drop_last() =~= self.rows@.subrange(0, i as int));
            }
            let row = &self.rows[i];
            if row.0 > since {
                let ghost before = out@;
                out.push(row);
                assert(out@.map_values(|x: &(i64, T)| *x) =~= before.map_values(|x: &(i64, T)| *x).push(*row));
            }
            i = i + 1;
        }
        assert(self.rows@.subrange(0, self.rows@.len() as int) =~= self.rows@);
        out
    }

    /// Drops the rows stamped before `cutoff`.
    pub fn prune_before(&mut self, cutoff: i64)
        ensures
            final(self)@ == kept(old(self)@, cutoff),
    {
        let mut rem: Vec<(i64, T)> = Vec::new();
        std::mem::swap(&mut rem, &mut self.rows);
        let ghost all = rem@;
        let ghost mut k: int = 0;
        let mut out: Vec<(i64, T)> = Vec::new();
        assert(all.subrange(0, 0) =~= Seq::<(i64, T)>::empty());
        while rem.len() > 0
            invariant
                0 <= k <= all.len(),
                rem@ == all.subrange(k, all.len() as int),
                out@ == kept(all.subrange(0, k), cutoff),
            decreases rem.len(),
        {
            let ghost b = rem@;
            let row = rem.remove(0);
            assert(row == all[k]);
            assert(all.subrange(0, k + 1).drop_last() =~= all.subrange(0, k));
            if row.0 >= cutoff {
                out.push(row);
            }
            proof {
                k = k + 1;
            }
            assert(rem@ =~= all.subrange(k, all.len() as int));
        }
        assert(all.subrange(0, k) =~= all);
        self.rows = out;
    }

    /// Appends a row stamped `ts`, then drops the rows stamped more than
    /// `days` days before `now`.
    pub fn insert(&mut self, ts: i64, row: T, now: i64, days: i64)
        ensures
            final(self)@ == kept(old(self)@.push((ts, row)), clamp_i64(cutoff_of(now, days))),
    {
        self.rows.push((ts, row));
        let cutoff = clamp_to_i64(now as i128 - (days as i128) * 86400);
        self.prune_before(cutoff);
    }
}

/// Inserting a row stamped more than seven days ago and then a row within
/// the window leaves only the new row.
pub proof fn lemma_retention<T>(old_ts: i64, old_row: T, new_ts: i64, new_row: T, now: i64)
    requires
        old_ts < cutoff_of(now, 7),
        new_ts >= cutoff_of(now, 7),
    ensures
        ({
            let c = clamp_i64(cutoff_of(now, 7));
            let first = kept(Seq::<(i64, T)>::empty().push((old_ts, old_row)), c);
            kept(first.push((new_ts, new_row)), c) == seq![(new_ts, new_row)]
        }),
{
    let c = clamp_i64(cutoff_of(now, 7));
    let s1 = Seq::<(i64, T)>::empty().push((old_ts, old_row));
    assert(s1.drop_last() =~= Seq::<(i64, T)>::empty());
    assert(kept(Seq::<(i64, T)>::empty(), c) =~= Seq::<(i64, T)>::empty());
    assert(s1.last().0 == old_ts);
    let first = kept(s1, c);
    assert(first =~= Seq::<(i64, T)>::empty());
    let s2 = first.push((new_ts, new_row));
    assert(s2.drop_last() =~= first);
    assert(kept(s2, c) =~= seq![(new_ts, new_row)]);
}

/// Node-wide totals as the system reports them.
#[derive(Clone, Copy, Debug)]
pub struct SystemStats {
    /// One-minute load average, in hundredths.
    pub load_one_centi: u64,
    pub memory_total_kb: u64,
    pub memory_available_kb: u64,
    pub disk_total_bytes: u64,
    pub disk_available_bytes: u64,
}

/// The source of node-wide totals; implemented where the host is read.
pub trait SystemProvider {
    fn get_stats(&self) -> Option<SystemStats>;
}

/// One node sample.
#[derive(Clone, Copy, Debug)]
pub struct NodeSample {
    /// CPU estimate in hundredths of a percent: ten times the load average.
    pub cpu_percent_centi: u64,
    pub memory_usage: u64,
    pub memory_total: u64,
    pub disk_usage: u64,
    pub disk_total: u64,
}

pub open spec fn sat(x: int) -> u64 {
    if x < 0 {
        0
    } else if x > u64::MAX {
        u64::MAX
    } else {
        x as u64
    }
}

/// `a * b`, or `u64::MAX` where the product does not fit.
fn mul_saturating(a: u64, b: u64) -> (r: u64)
    ensures
        r == sat(a * b),
{
    match a.checked_mul(b) {
        Some(p) => p,
        None => {
            assert(a * b >= 0) by (nonlinear_arith);
            u64::MAX
        },
    }
}

/// The node sample of one sweep: CPU as ten times the one-minute load,
/// memory in use as (total - available) KiB in bytes, disk in use as
/// total - available; each saturates at the bounds of `u64`.
pub fn node_sample(s: &SystemStats) -> (r: NodeSample)
    ensures
        r.cpu_percent_centi == sat(s.load_one_centi * 10),
        r.memory_usage == sat((s.memory_total_kb - s.memory_available_kb) * 1024),
        r.memory_total == sat(s.memory_total_kb * 1024),
        r.disk_usage == sat(s.disk_total_bytes - s.disk_available_bytes),
        r.disk_total == s.disk_total_bytes,
{
    let mem_used_kb = s.memory_total_kb.saturating_sub(s.memory_available_kb);
    NodeSample {
        cpu_percent_centi: mul_saturating(s.load_one_centi, 10),
        memory_usage: mul_saturating(mem_used_kb, 1024),
        memory_total: mul_saturating(s.memory_total_kb, 1024),
        disk_usage: s.disk_total_bytes.saturating_sub(s.disk_available_bytes),
        disk_total: s.disk_total_bytes,
    }
}

/// The sums of a sequence of (received, sent) byte counts.
pub open spec fn rx_sum(n: Seq<(u64, u64)>) -> int
    decreases n.len(),
{
    if n.len() == 0 {
        0
    } else {
        rx_sum(n.drop_last()) + n.last().0
    }
}

pub open spec fn tx_sum(n: Seq<(u64, u64)>) -> int
    decreases n.len(),
{
    if n.len() == 0 {
        0
    } else {
        tx_sum(n.drop_last()) + n.last().1
    }
}

pub proof fn lemma_sums_nonneg(n: Seq<(u64, u64)>)
    ensures
        rx_sum(n) >= 0,
        tx_sum(n) >= 0,
    decreases n.len(),
{
    if n.len() > 0 {
        lemma_sums_nonneg(n.drop_last());
    }
}

/// Bytes received and sent over all interfaces, saturating at `u64::MAX`.
pub fn network_totals(nets: &Vec<(u64, u64)>) -> (r: (u64, u64))
    ensures
        r.0 == sat(rx_sum(nets@)),
        r.1 == sat(tx_sum(nets@)),
{
    let mut rx: u64 = 0;
    let mut tx: u64 = 0;
    let mut i: usize = 0;
    while i < nets.len()
        invariant
            i <= nets@.len(),
            rx == sat(rx_sum(nets@.subrange(0, i as int))),
            tx == sat(tx_sum(nets@.subrange(0, i as int))),
        decreases nets.len() - i,
    {
        proof {
            assert(nets@.subrange(0, i + 1).drop_last() =~= nets@.subrange(0, i as int));
            lemma_sums_nonneg(nets@.subrange(0, i as int));
        }
        rx = rx.saturating_add(nets[i].0);
        tx = tx.saturating_add(nets[i].1);
        i = i + 1;
    }
    assert(nets@.subrange(0, nets@.len() as int) =~= nets@);
    (rx, tx)
}

/// The CPU usage and system usage since the previous reading, where both
/// grew; a CPU percentage is computed only from these.
pub fn cpu_deltas(total: u64, pre_total: u64, system: u64, pre_system: u64) -> (r: Option<(u64, u64)>)
    ensures
        r is Some <==> (total > pre_total && system > pre_system),
        r matches Some(d) ==> d.0 == total - pre_total && d.1 == system - pre_system,
{
    if total > pre_total && system > pre_system {
        Some((total - pre_total, system - pre_system))
    } else {
        None
    }
}

/// The memory limit a percentage is taken against: the reported limit, or 1.
pub fn memory_limit_or_one(limit: Option<u64>) -> (r: u64)
    ensures
        r == match limit {
            Some(l) => l,
            None => 1,
        },
{
    match limit {
        Some(l) => l,
        None => 1,
    }
}

/// (stack, container) for every container of every stack, stacks in order
/// and containers in list order.
pub open spec fn sweep_targets(stacks: Seq<Seq<char>>, cs: Seq<ContainerInfo>) -> Seq<(Seq<char>, Seq<char>)>
    decreases stacks.len(),
{
    if stacks.len() == 0 {
        Seq::empty()
    } else {
        sweep_targets(stacks.drop_last(), cs)
            + stack_members(cs, stacks.last()).map_values(|c: ContainerInfo| (stacks.last(), c.id@))
    }
}

/// What one sweep of the collector reads stats of: (stack, container) for
/// each container labelled with one of `stack_ids`.
pub fn collection_targets(stack_ids: &Vec<String>, cs: &Vec<ContainerInfo>) -> (r: Vec<(String, String)>)
    ensures
        crate::assoc::pairs_view(r@) == sweep_targets(strs(stack_ids@), cs@),
{
    let mut out: Vec<(String, String)> = Vec::new();
    let mut i: usize = 0;
    while i < stack_ids.len()
        invariant
            i <= stack_ids@.len(),
            crate::assoc::pairs_view(out@) == sweep_targets(strs(stack_ids@.subrange(0, i as int)), cs@),
        decreases stack_ids.len() - i,
    {
        let sid = &stack_ids[i];
        let ghost start = crate::assoc::pairs_view(out@);
        let ghost members = stack_members(cs@, sid@);
        let mut j: usize = 0;
        let ghost mut taken: Seq<ContainerInfo> = Seq::empty();
        assert(cs@.subrange(0, cs@.len() as int) =~= cs@);
        assert(Seq::<ContainerInfo>::empty() + stack_members(cs@, sid@) =~= stack_members(cs@, sid@));
        assert(Seq::<ContainerInfo>::empty().map_values(|c: ContainerInfo| (sid@, c.id@)) =~= Seq::<(Seq<char>, Seq<char>)>::empty());
        assert(start + Seq::<(Seq<char>, Seq<char>)>::empty() =~= start);
        while j < cs.len()
            invariant
                j <= cs@.len(),
                members == stack_members(cs@, sid@),
                stack_members(cs@, sid@) == taken + stack_members(cs@.subrange(j as int, cs@.len() as int), sid@),
                crate::assoc::pairs_view(out@) == start + taken.map_values(|c: ContainerInfo| (sid@, c.id@)),
            decreases cs.len() - j,
        {
            let ghost rest = cs@.subrange(j as int, cs@.len() as int);
            assert(rest.drop_first() =~= cs@.subrange(j + 1, cs@.len() as int));
            assert(rest[0] == cs@[j as int]);
            if belongs_to_stack(&cs[j], sid.as_str()) {
                let ghost before = out@;
                let e = (sid.clone(), cs[j].id.clone());
                out.push(e);
                assert(crate::assoc::pairs_view(out@) =~= crate::assoc::pairs_view(before).push((e.0@, e.1@)));
                proof {
                    let t2 = taken.push(cs@[j as int]);
                    assert(t2.map_values(|c: ContainerInfo| (sid@, c.id@)) =~= taken.map_values(|c: ContainerInfo| (sid@, c.id@)).push((sid@, cs@[j as int].id@)));
                    assert(taken + stack_members(rest, sid@) =~= t2 + stack_members(rest.drop_first(), sid@));
                    taken = t2;
                }
            }
            j = j + 1;
        }
        proof {
            assert(cs@.subrange(cs@.len() as int, cs@.len() as int) =~= Seq::<ContainerInfo>::empty());
            assert(taken + Seq::<ContainerInfo>::empty() =~= taken);
            assert(strs(stack_ids@.subrange(0, i + 1)).drop_last() =~= strs(stack_ids@.subrange(0, i as int)));
            assert(strs(stack_ids@.subrange(0, i + 1)).last() == sid@);
        }
        i = i + 1;
    }
    assert(stack_ids@.subrange(0, stack_ids@.len() as int) =~= stack_ids@);
    out
}

} // verus!
