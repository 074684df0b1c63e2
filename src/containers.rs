//! Decisions over the containers of a stack: which belong to it, what it
//! runs, how healthy it is, and what its logs read.
use vstd::prelude::*;
use crate::assoc::{pairs_view, find_key, first_key_at, assoc_insert, insert_pair, lemma_first_key_unique, lemma_first_key_exists};
use crate::compose::strs;
use crate::runtime::{ContainerInfo, label_of, names_view, stack_id_label, compose_service_label};
use crate::text::{concat, starts_with, str_eq};

verus! {

/// The value of label `key` on `c`.
pub fn label_value<'a>(c: &'a ContainerInfo, key: &str) -> (r: Option<&'a String>)
    ensures
        match r {
            Some(v) => label_of(*c, key@) == Some(v@),
            None => label_of(*c, key@) is None,
        },
{
    match find_key(&c.labels, key) {
        Some(i) => {
            proof {
                lemma_first_key_exists(pairs_view(c.labels@), key@);
                let k = choose|j: int| first_key_at(pairs_view(c.labels@), key@, j);
                lemma_first_key_unique(pairs_view(c.labels@), key@, k, i as int);
            }
            Some(&c.labels[i].1)
        },
        None => None,
    }
}

/// The container carries the stack-id label with value `stack_id`.
pub open spec fn in_stack(c: ContainerInfo, stack_id: Seq<char>) -> bool {
    label_of(c, stack_id_label()) == Some(stack_id)
}

/// The containers of `cs` that belong to stack `stack_id`, in list order.
pub open spec fn stack_members(cs: Seq<ContainerInfo>, stack_id: Seq<char>) -> Seq<ContainerInfo>
    decreases cs.len(),
{
    if cs.len() == 0 {
        Seq::empty()
    } else {
        let rest = stack_members(cs.drop_first(), stack_id);
        if in_stack(cs[0], stack_id) {
            seq![cs[0]] + rest
        } else {
            rest
        }
    }
}

/// Whether `c` belongs to stack `stack_id`.
pub fn belongs_to_stack(c: &ContainerInfo, stack_id: &str) -> (r: bool)
    ensures
        r == in_stack(*c, stack_id@),
{
    match label_value(c, "labuh.stack.id") {
        Some(v) => str_eq(v.as_str(), stack_id),
        None => false,
    }
}

/// The containers that belong to stack `stack_id`, in list order.
pub fn stack_containers(all: Vec<ContainerInfo>, stack_id: &str) -> (r: Vec<ContainerInfo>)
    ensures
        r@ == stack_members(all@, stack_id@),
{
    let mut rem = all;
    let mut out: Vec<ContainerInfo> = Vec::new();
    while rem.len() > 0
        invariant
            out@ + stack_members(rem@, stack_id@) == stack_members(all@, stack_id@),
        decreases rem.len(),
    {
        let ghost before_rem = rem@;
        let ghost before_out = out@;
        let c = rem.remove(0);
        assert(rem@ =~= before_rem.drop_first());
        if belongs_to_stack(&c, stack_id) {
            out.push(c);
            assert(out@ =~= before_out + seq![c]);
            assert(out@ + stack_members(rem@, stack_id@) =~= before_out + (seq![c] + stack_members(rem@, stack_id@)));
        }
    }
    assert(out@ + Seq::<ContainerInfo>::empty() =~= out@);
    out
}

/// The container carries a stack-id label naming one of `stack_ids`.
pub open spec fn in_any_stack(c: ContainerInfo, stack_ids: Seq<Seq<char>>) -> bool {
    label_of(c, stack_id_label()) matches Some(sid) && stack_ids.contains(sid)
}

/// The containers of `cs` that belong to one of `stack_ids`, in list order.
pub open spec fn members_of_any(cs: Seq<ContainerInfo>, stack_ids: Seq<Seq<char>>) -> Seq<ContainerInfo>
    decreases cs.len(),
{
    if cs.len() == 0 {
        Seq::empty()
    } else {
        let rest = members_of_any(cs.drop_first(), stack_ids);
        if in_any_stack(cs[0], stack_ids) {
            seq![cs[0]] + rest
        } else {
            rest
        }
    }
}

/// The containers that belong to one of the stacks `stack_ids`, in list
/// order: what a user who owns those stacks is shown.
pub fn containers_of_stacks(all: Vec<ContainerInfo>, stack_ids: &Vec<String>) -> (r: Vec<ContainerInfo>)
    ensures
        r@ == members_of_any(all@, strs(stack_ids@)),
{
    let mut rem = all;
    let mut out: Vec<ContainerInfo> = Vec::new();
    while rem.len() > 0
        invariant
            out@ + members_of_any(rem@, strs(stack_ids@)) == members_of_any(all@, strs(stack_ids@)),
        decreases rem.len(),
    {
        let ghost before_rem = rem@;
        let ghost before_out = out@;
        let c = rem.remove(0);
        assert(rem@ =~= before_rem.drop_first());
        let keep = match label_value(&c, "labuh.stack.id") {
            Some(sid) => crate::order::contains_str(stack_ids, sid.as_str()),
            None => false,
        };
        if keep {
            out.push(c);
            assert(out@ =~= before_out + seq![c]);
            assert(out@ + members_of_any(rem@, strs(stack_ids@)) =~= before_out + (seq![c] + members_of_any(rem@, strs(stack_ids@))));
        }
    }
    assert(out@ + Seq::<ContainerInfo>::empty() =~= out@);
    out
}

/// `names` that start with `prefix`, with the prefix taken off, each bound to `image`.
pub open spec fn images_from_names(
    m: Seq<(Seq<char>, Seq<char>)>,
    names: Seq<Seq<char>>,
    prefix: Seq<char>,
    image: Seq<char>,
) -> Seq<(Seq<char>, Seq<char>)>
    decreases names.len(),
{
    if names.len() == 0 {
        m
    } else {
        let prev = images_from_names(m, names.drop_last(), prefix, image);
        let n = names.last();
        if prefix.is_prefix_of(n) {
            assoc_insert(prev, n.subrange(prefix.len() as int, n.len() as int), image)
        } else {
            prev
        }
    }
}

/// Service name to image for the containers `cs` of stack `stack_name`:
/// the service is read from the compose-service label, or else from each
/// name `/{stack}-{service}`.
pub open spec fn running_images(cs: Seq<ContainerInfo>, stack_name: Seq<char>) -> Seq<(Seq<char>, Seq<char>)>
    decreases cs.len(),
{
    if cs.len() == 0 {
        Seq::empty()
    } else {
        let prev = running_images(cs.drop_last(), stack_name);
        let c = cs.last();
        match label_of(c, compose_service_label()) {
            Some(svc) => assoc_insert(prev, svc, c.image@),
            None => images_from_names(prev, names_view(c.names@), seq!['/'] + stack_name + seq!['-'], c.image@),
        }
    }
}

/// The characters of `s` from position `from` on.
fn suffix_from(s: &str, from: usize) -> (r: String)
    requires
        from <= s@.len(),
    ensures
        r@ == s@.subrange(from as int, s@.len() as int),
{
    let n = s.unicode_len();
    s.substring_char(from, n).to_owned()
}

/// The images that the containers `cs` of stack `stack_name` run, by
/// service; `None` where no service could be told.
pub fn stable_images(cs: &Vec<ContainerInfo>, stack_name: &str) -> (r: Option<Vec<(String, String)>>)
    ensures
        match r {
            Some(m) => pairs_view(m@) == running_images(cs@, stack_name@) && m@.len() > 0,
            None => running_images(cs@, stack_name@).len() == 0,
        },
{
    let a = concat("/", stack_name);
    let prefix = concat(a.as_str(), "-");
    proof {
        reveal_strlit("/");
        reveal_strlit("-");
        assert(prefix@ =~= seq!['/'] + stack_name@ + seq!['-']);
    }
    let plen = prefix.unicode_len();
    let mut m: Vec<(String, String)> = Vec::new();
    let mut i: usize = 0;
    assert(pairs_view(m@) =~= Seq::<(Seq<char>, Seq<char>)>::empty());
    while i < cs.len()
        invariant
            i <= cs@.len(),
            plen == prefix@.len(),
            prefix@ == seq!['/'] + stack_name@ + seq!['-'],
            pairs_view(m@) == running_images(cs@.subrange(0, i as int), stack_name@),
        decreases cs.len() - i,
    {
        proof {
            assert(cs@.subrange(0, i + 1).drop_last() =~= cs@.subrange(0, i as int));
        }
        let c = &cs[i];
        match label_value(c, "com.docker.compose.service") {
            Some(svc) => {
                insert_pair(&mut m, svc.clone(), c.image.clone());
            },
            None => {
                let ghost start = pairs_view(m@);
                let mut j: usize = 0;
                while j < c.names.len()
                    invariant
                        j <= c.names@.len(),
                        plen == prefix@.len(),
                        pairs_view(m@) == images_from_names(start, names_view(c.names@).subrange(0, j as int), prefix@, c.image@),
                    decreases c.names.len() - j,
                {
                    proof {
                        assert(names_view(c.names@).subrange(0, j + 1).drop_last() =~= names_view(c.names@).subrange(0, j as int));
                    }
                    let n = &c.names[j];
                    if starts_with(n.as_str(), prefix.as_str()) {
                        let svc = suffix_from(n.as_str(), plen);
                        insert_pair(&mut m, svc, c.image.clone());
                    }
                    j = j + 1;
                }
                assert(names_view(c.names@).subrange(0, c.names@.len() as int) =~= names_view(c.names@));
            },
        }
        i = i + 1;
    }
    assert(cs@.subrange(0, cs@.len() as int) =~= cs@);
    if m.len() == 0 {
        None
    } else {
        Some(m)
    }
}

pub open spec fn is_running(c: ContainerInfo) -> bool {
    c.state@ == "running"@
}

pub open spec fn is_stopped(c: ContainerInfo) -> bool {
    c.state@ == "exited"@ || c.state@ == "created"@
}

/// The ids of the containers of `cs` whose running state is `running`, in order.
pub open spec fn ids_where(cs: Seq<ContainerInfo>, running: bool) -> Seq<Seq<char>>
    decreases cs.len(),
{
    if cs.len() == 0 {
        Seq::empty()
    } else {
        let prev = ids_where(cs.drop_last(), running);
        if is_running(cs.last()) == running {
            prev.push(cs.last().id@)
        } else {
            prev
        }
    }
}

/// The containers that starting a stack starts (`running == false`: those
/// not running) or that stopping it stops (`running == true`: those running).
pub fn lifecycle_targets(cs: &Vec<ContainerInfo>, running: bool) -> (r: Vec<String>)
    ensures
        strs(r@) == ids_where(cs@, running),
{
    let mut out: Vec<String> = Vec::new();
    let mut i: usize = 0;
    while i < cs.len()
        invariant
            i <= cs@.len(),
            strs(out@) == ids_where(cs@.subrange(0, i as int), running),
        decreases cs.len() - i,
    {
        proof {
            assert(cs@.subrange(0, i + 1).drop_last() =~= cs@.subrange(0, i as int));
        }
        if str_eq(cs[i].state.as_str(), "running") == running {
            let ghost before = out@;
            let id = cs[i].id.clone();
            out.push(id);
            assert(strs(out@) =~= strs(before).push(id@));
        }
        i = i + 1;
    }
    assert(cs@.subrange(0, cs@.len() as int) =~= cs@);
    out
}

/// How many containers of `cs` satisfy `f`.
pub open spec fn count_where(cs: Seq<ContainerInfo>, f: spec_fn(ContainerInfo) -> bool) -> nat
    decreases cs.len(),
{
    if cs.len() == 0 {
        0
    } else {
        count_where(cs.drop_last(), f) + if f(cs.last()) { 1nat } else { 0nat }
    }
}

pub proof fn lemma_count_le(cs: Seq<ContainerInfo>, f: spec_fn(ContainerInfo) -> bool)
    ensures
        count_where(cs, f) <= cs.len(),
    decreases cs.len(),
{
    if cs.len() > 0 {
        lemma_count_le(cs.drop_last(), f);
    }
}

/// The overall health of a stack.
#[derive(PartialEq, Eq, Structural, Clone, Copy, Debug)]
pub enum HealthStatus {
    Empty,
    Healthy,
    Partial,
    Stopped,
}

impl HealthStatus {
    pub fn as_str(&self) -> (r: &'static str)
        ensures
            r@ == match self {
                HealthStatus::Empty => "empty"@,
                HealthStatus::Healthy => "healthy"@,
                HealthStatus::Partial => "partial"@,
                HealthStatus::Stopped => "stopped"@,
            },
    {
        match self {
            HealthStatus::Empty => "empty",
            HealthStatus::Healthy => "healthy",
            HealthStatus::Partial => "partial",
            HealthStatus::Stopped => "stopped",
        }
    }
}

/// The health that counts of `total` containers, `running` of them running
/// and `stopped` of them exited or created, give.
pub open spec fn classify(total: nat, running: nat, stopped: nat) -> HealthStatus {
    if total == 0 {
        HealthStatus::Empty
    } else if running == total {
        HealthStatus::Healthy
    } else if running > 0 {
        HealthStatus::Partial
    } else if stopped == total {
        HealthStatus::Stopped
    } else {
        HealthStatus::Partial
    }
}

/// One container in a health report.
pub struct ContainerHealth {
    pub id: String,
    pub name: String,
    pub state: String,
    pub status: String,
}

/// The health report of a stack.
pub struct StackHealth {
    pub status: HealthStatus,
    pub total: usize,
    pub running: usize,
    pub stopped: usize,
    pub unhealthy: usize,
    pub containers: Vec<ContainerHealth>,
}

/// The first name of `c`, or the empty string.
pub open spec fn first_name(c: ContainerInfo) -> Seq<char> {
    if c.names@.len() > 0 {
        c.names@[0]@
    } else {
        Seq::empty()
    }
}

pub open spec fn health_entry_matches(h: ContainerHealth, c: ContainerInfo) -> bool {
    &&& h.id@ == c.id@
    &&& h.name@ == first_name(c)
    &&& h.state@ == c.state@
    &&& h.status@ == c.status@
}

/// The health report of the containers `cs` of a stack: counts of running,
/// stopped (exited or created) and other containers, the overall status,
/// and one entry per container.
pub fn stack_health(cs: &Vec<ContainerInfo>) -> (r: StackHealth)
    ensures
        r.total == cs@.len(),
        r.running == count_where(cs@, |c: ContainerInfo| is_running(c)),
        r.stopped == count_where(cs@, |c: ContainerInfo| is_stopped(c)),
        r.unhealthy == count_where(cs@, |c: ContainerInfo| !is_running(c) && !is_stopped(c)),
        r.status == classify(r.total as nat, r.running as nat, r.stopped as nat),
        r.containers@.len() == cs@.len(),
        forall|i: int| 0 <= i < cs@.len() ==> health_entry_matches(#[trigger] r.containers@[i], cs@[i]),
{
    let ghost fr = |c: ContainerInfo| is_running(c);
    let ghost fs = |c: ContainerInfo| is_stopped(c);
    let ghost fu = |c: ContainerInfo| !is_running(c) && !is_stopped(c);
    let mut running: usize = 0;
    let mut stopped: usize = 0;
    let mut unhealthy: usize = 0;
    let mut entries: Vec<ContainerHealth> = Vec::new();
    let mut i: usize = 0;
    while i < cs.len()
        invariant
            i <= cs@.len(),
            fr == (|c: ContainerInfo| is_running(c)),
            fs == (|c: ContainerInfo| is_stopped(c)),
            fu == (|c: ContainerInfo| !is_running(c) && !is_stopped(c)),
            running == count_where(cs@.subrange(0, i as int), fr),
            stopped == count_where(cs@.subrange(0, i as int), fs),
            unhealthy == count_where(cs@.subrange(0, i as int), fu),
            entries@.len() == i,
            forall|j: int| 0 <= j < i ==> health_entry_matches(#[trigger] entries@[j], cs@[j]),
        decreases cs.len() - i,
    {
        proof {
            assert(cs@.subrange(0, i + 1).drop_last() =~= cs@.subrange(0, i as int));
            lemma_count_le(cs@.subrange(0, i as int), fr);
            lemma_count_le(cs@.subrange(0, i as int), fs);
            lemma_count_le(cs@.subrange(0, i as int), fu);
        }
        let c = &cs[i];
        let r = str_eq(c.state.as_str(), "running");
        let st = str_eq(c.state.as_str(), "exited") || str_eq(c.state.as_str(), "created");
        assert(cs@.subrange(0, i + 1).last() == cs@[i as int]);
        assert(fr(cs@[i as int]) == r);
        assert(fs(cs@[i as int]) == st);
        assert(fu(cs@[i as int]) == (!r && !st));
        if r {
            running = running + 1;
        }
        if st {
            stopped = stopped + 1;
        }
        if !r && !st {
            unhealthy = unhealthy + 1;
        }
        let name = if c.names.len() > 0 {
            c.names[0].clone()
        } else {
            String::new()
        };
        entries.push(ContainerHealth { id: c.id.clone(), name, state: c.state.clone(), status: c.status.clone() });
        i = i + 1;
    }
    assert(cs@.subrange(0, cs@.len() as int) =~= cs@);
    let total = cs.len();
    let status = if total == 0 {
        HealthStatus::Empty
    } else if running == total {
        HealthStatus::Healthy
    } else if running > 0 {
        HealthStatus::Partial
    } else if stopped == total {
        HealthStatus::Stopped
    } else {
        HealthStatus::Partial
    };
    StackHealth { status, total, running, stopped, unhealthy, containers: entries }
}

/// `s` without its leading slashes.
pub open spec fn strip_slashes(s: Seq<char>) -> Seq<char>
    decreases s.len(),
{
    if s.len() > 0 && s[0] == '/' {
        strip_slashes(s.drop_first())
    } else {
        s
    }
}

/// `s` without its leading slashes.
pub fn trim_leading_slashes(s: &str) -> (r: String)
    ensures
        r@ == strip_slashes(s@),
{
    let n = s.unicode_len();
    let mut i: usize = 0;
    assert(s@.subrange(0, n as int) =~= s@);
    while i < n && s.get_char(i) == '/'
        invariant
            i <= n,
            n == s@.len(),
            strip_slashes(s@) == strip_slashes(s@.subrange(i as int, n as int)),
        decreases n - i,
    {
        assert(s@.subrange(i as int, n as int).drop_first() =~= s@.subrange(i + 1, n as int));
        i = i + 1;
    }
    s.substring_char(i, n).to_owned()
}

/// The name that log lines of `c` carry: its first name without leading
/// slashes, or its id where it has no name.
pub open spec fn log_source(c: ContainerInfo) -> Seq<char> {
    if c.names@.len() > 0 {
        strip_slashes(c.names@[0]@)
    } else {
        c.id@
    }
}

pub fn log_source_name(c: &ContainerInfo) -> (r: String)
    ensures
        r@ == log_source(*c),
{
    if c.names.len() > 0 {
        trim_leading_slashes(c.names[0].as_str())
    } else {
        c.id.clone()
    }
}

/// The log lines fetched from one container, or the runtime's error message.
pub struct LogFetch {
    pub container: String,
    pub result: Result<Vec<String>, String>,
}

/// One line of a stack's aggregated log.
pub struct StackLogEntry {
    pub container: String,
    pub message: String,
}

pub open spec fn error_line(msg: Seq<char>) -> Seq<char> {
    "[error fetching logs: "@ + msg + "]"@
}

/// The entries that one fetch gives: one per line, or one that reports the error.
pub open spec fn fetch_entries(f: LogFetch) -> Seq<(Seq<char>, Seq<char>)> {
    match f.result {
        Ok(lines) => lines@.map_values(|l: String| (f.container@, l@)),
        Err(m) => seq![(f.container@, error_line(m@))],
    }
}

/// The aggregated log of a stack: the entries of each fetch, in order.
pub open spec fn aggregated(fs: Seq<LogFetch>) -> Seq<(Seq<char>, Seq<char>)>
    decreases fs.len(),
{
    if fs.len() == 0 {
        Seq::empty()
    } else {
        aggregated(fs.drop_last()) + fetch_entries(fs.last())
    }
}

pub open spec fn entries_view(v: Seq<StackLogEntry>) -> Seq<(Seq<char>, Seq<char>)> {
    v.map_values(|e: StackLogEntry| (e.container@, e.message@))
}

/// The aggregated log of a stack. A fetch that failed becomes an entry
/// `[error fetching logs: ...]` and does not stop the others.
pub fn aggregate_logs(fetches: &Vec<LogFetch>) -> (r: Vec<StackLogEntry>)
    ensures
        entries_view(r@) == aggregated(fetches@),
{
    let mut out: Vec<StackLogEntry> = Vec::new();
    let mut i: usize = 0;
    while i < fetches.len()
        invariant
            i <= fetches@.len(),
            entries_view(out@) == aggregated(fetches@.subrange(0, i as int)),
        decreases fetches.len() - i,
    {
        proof {
            assert(fetches@.subrange(0, i + 1).drop_last() =~= fetches@.subrange(0, i as int));
        }
        let f = &fetches[i];
        let ghost start = entries_view(out@);
        match &f.result {
            Ok(lines) => {
                let mut j: usize = 0;
                while j < lines.len()
                    invariant
                        j <= lines@.len(),
                        entries_view(out@) == start + lines@.subrange(0, j as int).map_values(|l: String| (f.container@, l@)),
                    decreases lines.len() - j,
                {
                    let ghost before = out@;
                    let e = StackLogEntry { container: f.container.clone(), message: lines[j].clone() };
                    out.push(e);
                    assert(entries_view(out@) =~= entries_view(before).push((e.container@, e.message@)));
                    assert(lines@.subrange(0, j + 1).map_values(|l: String| (f.container@, l@))
                        =~= lines@.subrange(0, j as int).map_values(|l: String| (f.container@, l@)).push((f.container@, lines@[j as int]@)));
                    j = j + 1;
                }
                assert(lines@.subrange(0, lines@.len() as int) =~= lines@);
            },
            Err(m) => {
                let a = concat("[error fetching logs: ", m.as_str());
                let msg = concat(a.as_str(), "]");
                let e = StackLogEntry { container: f.container.clone(), message: msg };
                let ghost before = out@;
                out.push(e);
                assert(entries_view(out@) =~= entries_view(before).push((e.container@, e.message@)));
                assert(entries_view(out@) =~= start + fetch_entries(*f));
            },
        }
        i = i + 1;
    }
    assert(fetches@.subrange(0, fetches@.len() as int) =~= fetches@);
    out
}

} // verus!
