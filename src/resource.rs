//! Per-service resource limits and the legacy per-container usage series.
use vstd::prelude::*;
use crate::deploy::ResourceLimits;
use crate::error::AppError;
use crate::metrics::{MetricsTable, kept, cutoff_of, clamp_i64, clamp_to_i64, RESOURCE_RETENTION_DAYS};
use crate::stack::{StackStore, owns};
use crate::text::str_eq;

verus! {

/// The limits set for one service of a stack.
pub struct ContainerResource {
    pub stack_id: String,
    pub service_name: String,
    pub limits: ResourceLimits,
}

/// One usage reading of a container.
pub struct ResourceMetric {
    pub container_id: String,
    pub stack_id: String,
    /// Hundredths of a percent.
    pub cpu_usage_centi: u64,
    pub memory_usage: i64,
}

pub open spec fn limit_at(v: Seq<ContainerResource>, stack_id: Seq<char>, service: Seq<char>, i: int) -> bool {
    &&& 0 <= i < v.len()
    &&& v[i].stack_id@ == stack_id
    &&& v[i].service_name@ == service
    &&& forall|j: int| 0 <= j < i ==> !((#[trigger] v[j]).stack_id@ == stack_id && v[j].service_name@ == service)
}

/// The limits of a service: its first entry, if any.
pub open spec fn limits_of(v: Seq<ContainerResource>, stack_id: Seq<char>, service: Seq<char>) -> Option<ResourceLimits> {
    if exists|i: int| limit_at(v, stack_id, service, i) {
        Some(v[choose|i: int| limit_at(v, stack_id, service, i)].limits)
    } else {
        None
    }
}

/// The limit entries of stack `stack_id`, in order.
pub open spec fn limits_in_stack(v: Seq<ContainerResource>, stack_id: Seq<char>) -> Seq<ContainerResource>
    decreases v.len(),
{
    if v.len() == 0 {
        Seq::empty()
    } else {
        let prev = limits_in_stack(v.drop_last(), stack_id);
        if v.last().stack_id@ == stack_id {
            prev.push(v.last())
        } else {
            prev
        }
    }
}

/// The readings of stack `stack_id` stamped at `since` or later, in order.
pub open spec fn readings_since(v: Seq<(i64, ResourceMetric)>, stack_id: Seq<char>, since: i64) -> Seq<(i64, ResourceMetric)>
    decreases v.len(),
{
    if v.len() == 0 {
        Seq::empty()
    } else {
        let prev = readings_since(v.drop_last(), stack_id, since);
        if v.last().0 >= since && v.last().1.stack_id@ == stack_id {
            prev.push(v.last())
        } else {
            prev
        }
    }
}

/// Resource limits by service, and usage readings.
pub struct ResourceUsecase {
    limits: Vec<ContainerResource>,
    metrics: MetricsTable<ResourceMetric>,
}

/// Seconds that a metrics range names: `1h`, `6h`, `24h`, `7d`, `30d`;
/// any other reads as one hour.
pub open spec fn range_span(range: Seq<char>) -> i64 {
    if range == "6h"@ {
        21600
    } else if range == "24h"@ {
        86400
    } else if range == "7d"@ {
        604800
    } else if range == "30d"@ {
        2592000
    } else {
        3600
    }
}

/// Seconds that a metrics range names.
pub fn range_seconds(range: &str) -> (r: i64)
    ensures
        r == range_span(range@),
{
    if str_eq(range, "6h") {
        21600
    } else if str_eq(range, "24h") {
        86400
    } else if str_eq(range, "7d") {
        604800
    } else if str_eq(range, "30d") {
        2592000
    } else {
        3600
    }
}

impl ResourceUsecase {
    pub closed spec fn limits_view(&self) -> Seq<ContainerResource> {
        self.limits@
    }

    pub closed spec fn metrics_view(&self) -> Seq<(i64, ResourceMetric)> {
        self.metrics@
    }

    /// No limits and no readings.
    pub fn new() -> (r: ResourceUsecase)
        ensures
            r.limits_view() == Seq::<ContainerResource>::empty(),
            r.metrics_view() == Seq::<(i64, ResourceMetric)>::empty(),
    {
        ResourceUsecase { limits: Vec::new(), metrics: MetricsTable::new() }
    }

    fn find(&self, stack_id: &str, service: &str) -> (r: Option<usize>)
        ensures
            match r {
                Some(i) => limit_at(self.limits_view(), stack_id@, service@, i as int),
                None => forall|j: int| 0 <= j < self.limits_view().len() ==>
                    !((#[trigger] self.limits_view()[j]).stack_id@ == stack_id@ && self.limits_view()[j].service_name@ == service@),
            },
    {
        let mut i: usize = 0;
        while i < self.limits.len()
            invariant
                i <= self.limits@.len(),
                forall|j: int| 0 <= j < i ==> !((#[trigger] self.limits@[j]).stack_id@ == stack_id@ && self.limits@[j].service_name@ == service@),
            decreases self.limits.len() - i,
        {
            if str_eq(self.limits[i].stack_id.as_str(), stack_id) && str_eq(self.limits[i].service_name.as_str(), service) {
                return Some(i);
            }
            i = i + 1;
        }
        None
    }

    /// The limits set for a service of a stack.
    pub fn get_resource_limits(&self, stack_id: &str, service: &str) -> (r: Option<ResourceLimits>)
        ensures
            r == limits_of(self.limits_view(), stack_id@, service@),
    {
        match self.find(stack_id, service) {
            Some(i) => {
                proof {
                    let c = choose|k: int| limit_at(self.limits@, stack_id@, service@, k);
                    if c < i {
                        assert(!(self.limits@[c].stack_id@ == stack_id@ && self.limits@[c].service_name@ == service@));
                    } else if i < c {
                        assert(!(self.limits@[i as int].stack_id@ == stack_id@ && self.limits@[i as int].service_name@ == service@));
                    }
                }
                Some(self.limits[i].limits)
            },
            None => {
                proof {
                    if exists|k: int| limit_at(self.limits@, stack_id@, service@, k) {
                        let k = choose|k: int| limit_at(self.limits@, stack_id@, service@, k);
                        assert(!(self.limits@[k].stack_id@ == stack_id@ && self.limits@[k].service_name@ == service@));
                    }
                }
                None
            },
        }
    }

    /// Sets the limits of a service, if `user_id` owns the stack; `NotFound` otherwise.
    pub fn update_limits(
        &mut self,
        stacks: &StackStore,
        stack_id: &str,
        service_name: &str,
        user_id: &str,
        cpu: Option<i64>,
        memory: Option<i64>,
    ) -> (r: Result<(), AppError>)
        requires
            stacks.wf(),
        ensures
            r is Ok <==> owns(stacks@, stack_id@, user_id@),
            r is Ok ==> limits_of(final(self).limits_view(), stack_id@, service_name@)
                == Some(ResourceLimits { cpu_limit: cpu, memory_limit: memory }),
            r is Err ==> final(self).limits_view() == old(self).limits_view(),
            r matches Err(e) ==> e is NotFound,
            final(self).metrics_view() == old(self).metrics_view(),
    {
        match stacks.find_by_id(stack_id, user_id) {
            Ok(_) => {},
            Err(e) => return Err(e),
        }
        let l = ResourceLimits { cpu_limit: cpu, memory_limit: memory };
        let ghost before = self.limits@;
        match self.find(stack_id, service_name) {
            Some(i) => {
                self.limits[i].limits = l;
                proof {
                    assert(limit_at(self.limits@, stack_id@, service_name@, i as int));
                    let c = choose|k: int| limit_at(self.limits@, stack_id@, service_name@, k);
                    if c < i {
                        assert(!(self.limits@[c].stack_id@ == stack_id@ && self.limits@[c].service_name@ == service_name@));
                    } else if i < c {
                        assert(!(self.limits@[i as int].stack_id@ == stack_id@ && self.limits@[i as int].service_name@ == service_name@));
                    }
                }
            },
            None => {
                self.limits.push(ContainerResource { stack_id: stack_id.to_owned(), service_name: service_name.to_owned(), limits: l });
                proof {
                    let n = before.len() as int;
                    assert forall|j: int| 0 <= j < n implies !((#[trigger] self.limits@[j]).stack_id@ == stack_id@ && self.limits@[j].service_name@ == service_name@) by {
                        assert(self.limits@[j] == before[j]);
                    }
                    assert(limit_at(self.limits@, stack_id@, service_name@, n));
                    let c = choose|k: int| limit_at(self.limits@, stack_id@, service_name@, k);
                    if c < n {
                        assert(!(self.limits@[c].stack_id@ == stack_id@ && self.limits@[c].service_name@ == service_name@));
                    }
                }
            },
        }
        Ok(())
    }

    /// The limits set for the services of stack `stack_id`, if `user_id`
    /// owns it; `NotFound` otherwise.
    pub fn get_limits(&self, stacks: &StackStore, stack_id: &str, user_id: &str) -> (r: Result<Vec<&ContainerResource>, AppError>)
        requires
            stacks.wf(),
        ensures
            r is Ok <==> owns(stacks@, stack_id@, user_id@),
            r matches Ok(v) ==> v@.map_values(|x: &ContainerResource| *x) == limits_in_stack(self.limits_view(), stack_id@),
            r matches Err(e) ==> e is NotFound,
    {
        match stacks.find_by_id(stack_id, user_id) {
            Ok(_) => {},
            Err(e) => return Err(e),
        }
        let mut out: Vec<&ContainerResource> = Vec::new();
        let mut i: usize = 0;
        while i < self.limits.len()
            invariant
                i <= self.limits@.len(),
                out@.map_values(|x: &ContainerResource| *x) == limits_in_stack(self.limits@.subrange(0, i as int), stack_id@),
            decreases self.limits.len() - i,
        {
            proof {
                assert(self.limits@.subrange(0, i + 1).drop_last() =~= self.limits@.subrange(0, i as int));
            }
            let l = &self.limits[i];
            if str_eq(l.stack_id.as_str(), stack_id) {
                let ghost before = out@;
                out.push(l);
                assert(out@.map_values(|x: &ContainerResource| *x) =~= before.map_values(|x: &ContainerResource| *x).push(*l));
            }
            i = i + 1;
        }
        assert(self.limits@.subrange(0, self.limits@.len() as int) =~= self.limits@);
        Ok(out)
    }

    /// The usage readings of stack `stack_id` within `range` before `now`
    /// (see `range_seconds`), if `user_id` owns it; `NotFound` otherwise.
    pub fn get_metrics(&self, stacks: &StackStore, stack_id: &str, user_id: &str, range: &str, now: i64) -> (r: Result<Vec<&(i64, ResourceMetric)>, AppError>)
        requires
            stacks.wf(),
        ensures
            r is Ok <==> owns(stacks@, stack_id@, user_id@),
            r matches Ok(v) ==> v@.map_values(|x: &(i64, ResourceMetric)| *x)
                == readings_since(self.metrics_view(), stack_id@, clamp_i64(now - range_span(range@))),
            r matches Err(e) ==> e is NotFound,
    {
        match stacks.find_by_id(stack_id, user_id) {
            Ok(_) => {},
            Err(e) => return Err(e),
        }
        let since = clamp_to_i64(now as i128 - range_seconds(range) as i128);
        let rows = self.metrics.rows();
        let mut out: Vec<&(i64, ResourceMetric)> = Vec::new();
        let mut i: usize = 0;
        while i < rows.len()
            invariant
                i <= rows@.len(),
                rows@ == self.metrics_view(),
                out@.map_values(|x: &(i64, ResourceMetric)| *x) == readings_since(rows@.subrange(0, i as int), stack_id@, since),
            decreases rows.len() - i,
        {
            proof {
                assert(rows@.subrange(0, i + 1).drop_last() =~= rows@.subrange(0, i as int));
            }
            let row = &rows[i];
            if row.0 >= since && str_eq(row.1.stack_id.as_str(), stack_id) {
                let ghost before = out@;
                out.push(row);
                assert(out@.map_values(|x: &(i64, ResourceMetric)| *x) =~= before.map_values(|x: &(i64, ResourceMetric)| *x).push(*row));
            }
            i = i + 1;
        }
        assert(rows@.subrange(0, rows@.len() as int) =~= rows@);
        Ok(out)
    }

    /// Records a usage reading stamped `ts`.
    pub fn save_metric(&mut self, ts: i64, metric: ResourceMetric)
        ensures
            final(self).metrics_view() == old(self).metrics_view().push((ts, metric)),
            final(self).limits_view() == old(self).limits_view(),
    {
        let mut rows = MetricsTable::new();
        std::mem::swap(&mut rows, &mut self.metrics);
        rows.append_row(ts, metric);
        self.metrics = rows;
    }

    /// Drops the readings older than thirty days before `now`.
    pub fn prune_old_metrics(&mut self, now: i64)
        ensures
            final(self).metrics_view() == kept(old(self).metrics_view(), clamp_i64(cutoff_of(now, 30))),
            final(self).limits_view() == old(self).limits_view(),
    {
        let cutoff = clamp_to_i64(now as i128 - (RESOURCE_RETENTION_DAYS as i128) * 86400);
        self.metrics.prune_before(cutoff);
    }
}

} // verus!
