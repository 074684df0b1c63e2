//! Deployment plans: for each service, in dependency order, pull its image,
//! stop and remove the containers that hold its name, then create it.
use vstd::prelude::*;
use crate::assoc::{pairs_view, lookup, find_key, first_key_at, lemma_first_key_unique, lemma_first_key_exists};
use crate::compose::{ParsedService, ServiceModel, models, strs, request_model, container_name, service_to_container_request, env_entry};
use crate::runtime::{ContainerConfig, ConfigModel, ContainerInfo, names_view};
use crate::text::{concat, starts_with, str_eq};
use crate::order::contains_str;
use crate::outside::{lower_of, lowercase};

verus! {

/// CPU and memory limits of a service.
#[derive(Clone, Copy, Debug)]
pub struct ResourceLimits {
    /// Billionths of a core.
    pub cpu_limit: Option<i64>,
    /// Bytes.
    pub memory_limit: Option<i64>,
}

/// What a deployment takes for one service from outside the compose
/// document: environment variables and resource limits.
pub struct ServiceOverrides {
    pub service_name: String,
    pub env: Vec<(String, String)>,
    pub limits: Option<ResourceLimits>,
}

pub struct OverridesModel {
    pub env: Seq<(Seq<char>, Seq<char>)>,
    pub limits: Option<ResourceLimits>,
}

/// Position `i` holds the first entry for service `name`.
pub open spec fn first_override_at(o: Seq<ServiceOverrides>, name: Seq<char>, i: int) -> bool {
    &&& 0 <= i < o.len()
    &&& o[i].service_name@ == name
    &&& forall|j: int| 0 <= j < i ==> (#[trigger] o[j]).service_name@ != name
}

/// The overrides of service `name`: its first entry, or none.
pub open spec fn overrides_for(o: Seq<ServiceOverrides>, name: Seq<char>) -> OverridesModel {
    if exists|i: int| first_override_at(o, name, i) {
        let i = choose|i: int| first_override_at(o, name, i);
        OverridesModel { env: pairs_view(o[i].env@), limits: o[i].limits }
    } else {
        OverridesModel { env: Seq::empty(), limits: None }
    }
}

/// Position `i` holds the first entry of `list` that starts with `p`.
pub open spec fn first_prefixed_at(list: Seq<Seq<char>>, p: Seq<char>, i: int) -> bool {
    &&& 0 <= i < list.len()
    &&& p.is_prefix_of(list[i])
    &&& forall|j: int| 0 <= j < i ==> !p.is_prefix_of(#[trigger] list[j])
}

/// `K=V` put in place of the first entry for `K`, or appended.
pub open spec fn env_set(list: Seq<Seq<char>>, k: Seq<char>, v: Seq<char>) -> Seq<Seq<char>> {
    let p = k + seq!['='];
    if exists|i: int| first_prefixed_at(list, p, i) {
        list.update(choose|i: int| first_prefixed_at(list, p, i), env_entry(k, v))
    } else {
        list.push(env_entry(k, v))
    }
}

/// The entries of `db` applied to `list` in order.
pub open spec fn env_merge(list: Seq<Seq<char>>, db: Seq<(Seq<char>, Seq<char>)>) -> Seq<Seq<char>>
    decreases db.len(),
{
    if db.len() == 0 {
        list
    } else {
        let prev = env_merge(list, db.drop_last());
        env_set(prev, db.last().0, db.last().1)
    }
}

/// A compose environment with outside variables laid over it; unchanged when there are none.
pub open spec fn merged_env(env: Option<Seq<Seq<char>>>, db: Seq<(Seq<char>, Seq<char>)>) -> Option<Seq<Seq<char>>> {
    if db.len() == 0 {
        env
    } else {
        Some(env_merge(
            match env {
                Some(l) => l,
                None => Seq::empty(),
            },
            db,
        ))
    }
}

/// A request with resource limits applied.
pub open spec fn limited(c: ConfigModel, limits: Option<ResourceLimits>) -> ConfigModel {
    match limits {
        Some(l) => ConfigModel { cpu_limit: l.cpu_limit, memory_limit: l.memory_limit, ..c },
        None => c,
    }
}

/// The request that a deployment creates for service `s`.
pub open spec fn deploy_config(s: ServiceModel, stack_id: Seq<char>, stack_name: Seq<char>, o: OverridesModel) -> ConfigModel {
    let base = request_model(s, stack_id, stack_name);
    limited(ConfigModel { env: merged_env(base.env, o.env), ..base }, o.limits)
}

/// The ids of the containers with `name` among their names, in list order.
pub open spec fn ids_named(cs: Seq<ContainerInfo>, name: Seq<char>) -> Seq<Seq<char>>
    decreases cs.len(),
{
    if cs.len() == 0 {
        Seq::empty()
    } else {
        let prev = ids_named(cs.drop_last(), name);
        if names_view(cs.last().names@).contains(name) {
            prev.push(cs.last().id@)
        } else {
            prev
        }
    }
}

/// The name under which the runtime lists a service's container: `/{stack}-{service}`.
pub open spec fn listed_name(stack_name: Seq<char>, service: Seq<char>) -> Seq<char> {
    seq!['/'] + container_name(stack_name, service)
}

/// The work of one service in a deployment.
pub struct ServiceStep {
    pub service: String,
    /// The image pulled first.
    pub image: String,
    /// Containers stopped and then removed, in order.
    pub replaced: Vec<String>,
    /// The container created last.
    pub config: ContainerConfig,
}

pub struct StepModel {
    pub service: Seq<char>,
    pub image: Seq<char>,
    pub replaced: Seq<Seq<char>>,
    pub config: ConfigModel,
}

impl ServiceStep {
    pub open spec fn model(&self) -> StepModel {
        StepModel {
            service: self.service@,
            image: self.image@,
            replaced: strs(self.replaced@),
            config: self.config.model(),
        }
    }
}

pub open spec fn step_models(v: Seq<ServiceStep>) -> Seq<StepModel> {
    v.map_values(|s: ServiceStep| s.model())
}

/// The step of service `s` in a deployment or redeployment.
pub open spec fn deploy_step(
    s: ServiceModel,
    stack_id: Seq<char>,
    stack_name: Seq<char>,
    o: Seq<ServiceOverrides>,
    cs: Seq<ContainerInfo>,
) -> StepModel {
    let c = deploy_config(s, stack_id, stack_name, overrides_for(o, s.name));
    StepModel {
        service: s.name,
        image: c.image,
        replaced: ids_named(cs, listed_name(stack_name, s.name)),
        config: c,
    }
}

/// A deployment of `services`, one step per service, in their order.
pub open spec fn deploy_steps(
    services: Seq<ServiceModel>,
    stack_id: Seq<char>,
    stack_name: Seq<char>,
    o: Seq<ServiceOverrides>,
    cs: Seq<ContainerInfo>,
) -> Seq<StepModel> {
    services.map_values(|s: ServiceModel| deploy_step(s, stack_id, stack_name, o, cs))
}

/// The first entry of `o` for service `name`.
pub fn find_overrides(o: &Vec<ServiceOverrides>, name: &str) -> (r: Option<usize>)
    ensures
        match r {
            Some(i) => first_override_at(o@, name@, i as int),
            None => !exists|i: int| first_override_at(o@, name@, i),
        },
{
    let mut i: usize = 0;
    while i < o.len()
        invariant
            i <= o@.len(),
            forall|j: int| 0 <= j < i ==> (#[trigger] o@[j]).service_name@ != name@,
        decreases o.len() - i,
    {
        if crate::text::str_eq(o[i].service_name.as_str(), name) {
            return Some(i);
        }
        i = i + 1;
    }
    None
}

/// The first entry of `list` that starts with `p`.
pub fn find_prefixed(list: &Vec<String>, p: &str) -> (r: Option<usize>)
    ensures
        match r {
            Some(i) => first_prefixed_at(strs(list@), p@, i as int),
            None => !exists|i: int| first_prefixed_at(strs(list@), p@, i),
        },
{
    let mut i: usize = 0;
    while i < list.len()
        invariant
            i <= list@.len(),
            forall|j: int| 0 <= j < i ==> !p@.is_prefix_of(#[trigger] strs(list@)[j]),
        decreases list.len() - i,
    {
        if starts_with(list[i].as_str(), p) {
            return Some(i);
        }
        i = i + 1;
    }
    None
}

/// Lays outside variables over a compose environment: a key already
/// present is replaced where it first stands, a new key is appended.
pub fn merge_env(env: Option<Vec<String>>, db: &Vec<(String, String)>) -> (r: Option<Vec<String>>)
    ensures
        crate::runtime::opt_strs(r) == merged_env(crate::runtime::opt_strs(env), pairs_view(db@)),
{
    if db.len() == 0 {
        return env;
    }
    let mut list = match env {
        Some(l) => l,
        None => Vec::new(),
    };
    let ghost start = strs(list@);
    assert(start =~= match crate::runtime::opt_strs(env) {
        Some(l) => l,
        None => Seq::empty(),
    });
    let mut i: usize = 0;
    proof {
        reveal_strlit("=");
        assert("="@ =~= seq!['=']);
        assert(pairs_view(db@).subrange(0, 0) =~= Seq::<(Seq<char>, Seq<char>)>::empty());
    }
    while i < db.len()
        invariant
            i <= db@.len(),
            "="@ == seq!['='],
            strs(list@) == env_merge(start, pairs_view(db@).subrange(0, i as int)),
        decreases db.len() - i,
    {
        let prefix = concat(db[i].0.as_str(), "=");
        let head = concat(db[i].0.as_str(), "=");
        let entry = concat(head.as_str(), db[i].1.as_str());
        let ghost before = strs(list@);
        proof {
            assert(pairs_view(db@).subrange(0, i + 1).drop_last() =~= pairs_view(db@).subrange(0, i as int));
        }
        match find_prefixed(&list, prefix.as_str()) {
            Some(pos) => {
                proof {
                    let c = choose|j: int| first_prefixed_at(before, prefix@, j);
                    assert(first_prefixed_at(before, prefix@, c));
                    if c < pos {
                        assert(!prefix@.is_prefix_of(before[c]));
                    } else if pos < c {
                        assert(!prefix@.is_prefix_of(before[pos as int]));
                    }
                }
                list[pos] = entry;
                assert(strs(list@) =~= before.update(pos as int, entry@));
            },
            None => {
                list.push(entry);
                assert(strs(list@) =~= before.push(entry@));
            },
        }
        i = i + 1;
    }
    assert(pairs_view(db@).subrange(0, db@.len() as int) =~= pairs_view(db@));
    Some(list)
}

/// The ids of the containers listed under `name`.
pub fn containers_named(cs: &Vec<ContainerInfo>, name: &str) -> (r: Vec<String>)
    ensures
        strs(r@) == ids_named(cs@, name@),
{
    let mut out: Vec<String> = Vec::new();
    let mut i: usize = 0;
    while i < cs.len()
        invariant
            i <= cs@.len(),
            strs(out@) == ids_named(cs@.subrange(0, i as int), name@),
        decreases cs.len() - i,
    {
        proof {
            assert(cs@.subrange(0, i + 1).drop_last() =~= cs@.subrange(0, i as int));
        }
        if contains_str(&cs[i].names, name) {
            let ghost before = out@;
            let id = cs[i].id.clone();
            out.push(id);
            assert(strs(out@) =~= strs(before).push(id@));
        }
        i = i + 1;
    }
    assert(cs@.subrange(0, cs@.len() as int) =~= cs@);
    out
}

/// Sets the resource limits of a request, where there are any.
pub fn apply_resource_limits(config: &mut ContainerConfig, limits: Option<ResourceLimits>)
    ensures
        final(config).model() == limited(old(config).model(), limits),
{
    match limits {
        Some(l) => {
            config.cpu_limit = l.cpu_limit;
            config.memory_limit = l.memory_limit;
        },
        None => {},
    }
}

/// `/{stack}-{service}`.
fn listed_name_of(stack_name: &str, service: &str) -> (r: String)
    ensures
        r@ == listed_name(stack_name@, service@),
{
    let a = concat("/", stack_name);
    let b = concat(a.as_str(), "-");
    let r = concat(b.as_str(), service);
    proof {
        reveal_strlit("/");
        reveal_strlit("-");
        assert(r@ =~= listed_name(stack_name@, service@));
    }
    r
}

/// The overrides of service `name`.
fn overrides_of(o: &Vec<ServiceOverrides>, name: &str) -> (r: (Vec<(String, String)>, Option<ResourceLimits>))
    ensures
        pairs_view(r.0@) == overrides_for(o@, name@).env,
        r.1 == overrides_for(o@, name@).limits,
{
    match find_overrides(o, name) {
        Some(i) => {
            proof {
                let c = choose|j: int| first_override_at(o@, name@, j);
                if c < i {
                    assert(o@[c].service_name@ != name@);
                } else if i < c {
                    assert(o@[i as int].service_name@ != name@);
                }
            }
            (clone_pairs(&o[i].env), o[i].limits)
        },
        None => {
            let v: Vec<(String, String)> = Vec::new();
            assert(pairs_view(v@) =~= Seq::<(Seq<char>, Seq<char>)>::empty());
            (v, None)
        },
    }
}

/// A copy of each pair.
pub fn clone_pairs(v: &Vec<(String, String)>) -> (r: Vec<(String, String)>)
    ensures
        pairs_view(r@) == pairs_view(v@),
{
    let mut out: Vec<(String, String)> = Vec::new();
    let mut i: usize = 0;
    while i < v.len()
        invariant
            i <= v@.len(),
            pairs_view(out@) == pairs_view(v@.subrange(0, i as int)),
        decreases v.len() - i,
    {
        let ghost before = out@;
        let e = (v[i].0.clone(), v[i].1.clone());
        out.push(e);
        assert(pairs_view(out@) =~= pairs_view(before).push((e.0@, e.1@)));
        assert(pairs_view(v@.subrange(0, i + 1)) =~= pairs_view(v@.subrange(0, i as int)).push((v@[i as int].0@, v@[i as int].1@)));
        i = i + 1;
    }
    assert(v@.subrange(0, v@.len() as int) =~= v@);
    out
}

/// The step of one service in a deployment.
pub fn plan_service(
    service: &ParsedService,
    stack_id: &str,
    stack_name: &str,
    overrides: &Vec<ServiceOverrides>,
    containers: &Vec<ContainerInfo>,
) -> (r: ServiceStep)
    ensures
        r.model() == deploy_step(service.model(), stack_id@, stack_name@, overrides@, containers@),
{
    let mut config = service_to_container_request(service, stack_id, stack_name);
    let (env, limits) = overrides_of(overrides, service.name.as_str());
    let merged = merge_env(config.env, &env);
    config.env = merged;
    apply_resource_limits(&mut config, limits);
    let listed = listed_name_of(stack_name, service.name.as_str());
    let replaced = containers_named(containers, listed.as_str());
    let image = config.image.clone();
    ServiceStep { service: service.name.clone(), image, replaced, config }
}

/// A deployment of `services` in their order: each step pulls the image,
/// stops and removes the containers listed under the service's name, and
/// creates the service's container.
pub fn deployment_plan(
    services: &Vec<ParsedService>,
    stack_id: &str,
    stack_name: &str,
    overrides: &Vec<ServiceOverrides>,
    containers: &Vec<ContainerInfo>,
) -> (r: Vec<ServiceStep>)
    ensures
        step_models(r@) == deploy_steps(models(services@), stack_id@, stack_name@, overrides@, containers@),
{
    let mut out: Vec<ServiceStep> = Vec::new();
    let mut i: usize = 0;
    while i < services.len()
        invariant
            i <= services@.len(),
            step_models(out@) == deploy_steps(models(services@.subrange(0, i as int)), stack_id@, stack_name@, overrides@, containers@),
        decreases services.len() - i,
    {
        let ghost before = out@;
        let st = plan_service(&services[i], stack_id, stack_name, overrides, containers);
        out.push(st);
        assert(step_models(out@) =~= step_models(before).push(st.model()));
        assert(models(services@.subrange(0, i + 1)) =~= models(services@.subrange(0, i as int)).push(services@[i as int].model()));
        assert(deploy_steps(models(services@.subrange(0, i + 1)), stack_id@, stack_name@, overrides@, containers@)
            =~= deploy_steps(models(services@.subrange(0, i as int)), stack_id@, stack_name@, overrides@, containers@).push(
                deploy_step(services@[i as int].model(), stack_id@, stack_name@, overrides@, containers@)));
        i = i + 1;
    }
    assert(services@.subrange(0, services@.len() as int) =~= services@);
    out
}

/// The step of service `s` in a rollback to the image `image`: the
/// compose request with that image and the outside environment, without
/// resource limits.
pub open spec fn rollback_step(
    s: ServiceModel,
    image: Seq<char>,
    stack_id: Seq<char>,
    stack_name: Seq<char>,
    o: Seq<ServiceOverrides>,
    cs: Seq<ContainerInfo>,
) -> StepModel {
    let base = request_model(s, stack_id, stack_name);
    let c = ConfigModel { image: image, env: merged_env(base.env, overrides_for(o, s.name).env), ..base };
    StepModel {
        service: s.name,
        image: image,
        replaced: ids_named(cs, listed_name(stack_name, s.name)),
        config: c,
    }
}

/// A rollback: one step for each service that has a stable image, in
/// service order; the others are left alone.
pub open spec fn rollback_steps(
    services: Seq<ServiceModel>,
    stable: Seq<(Seq<char>, Seq<char>)>,
    stack_id: Seq<char>,
    stack_name: Seq<char>,
    o: Seq<ServiceOverrides>,
    cs: Seq<ContainerInfo>,
) -> Seq<StepModel>
    decreases services.len(),
{
    if services.len() == 0 {
        Seq::empty()
    } else {
        let prev = rollback_steps(services.drop_last(), stable, stack_id, stack_name, o, cs);
        let s = services.last();
        match lookup(stable, s.name) {
            Some(img) => prev.push(rollback_step(s, img, stack_id, stack_name, o, cs)),
            None => prev,
        }
    }
}

/// A rollback of `services` to the images of `stable` (service to image).
pub fn rollback_plan(
    services: &Vec<ParsedService>,
    stable: &Vec<(String, String)>,
    stack_id: &str,
    stack_name: &str,
    overrides: &Vec<ServiceOverrides>,
    containers: &Vec<ContainerInfo>,
) -> (r: Vec<ServiceStep>)
    ensures
        step_models(r@) == rollback_steps(models(services@), pairs_view(stable@), stack_id@, stack_name@, overrides@, containers@),
{
    let mut out: Vec<ServiceStep> = Vec::new();
    let mut i: usize = 0;
    while i < services.len()
        invariant
            i <= services@.len(),
            step_models(out@) == rollback_steps(models(services@.subrange(0, i as int)), pairs_view(stable@), stack_id@, stack_name@, overrides@, containers@),
        decreases services.len() - i,
    {
        let ghost before = out@;
        proof {
            assert(models(services@.subrange(0, i + 1)).drop_last() =~= models(services@.subrange(0, i as int)));
            assert(models(services@.subrange(0, i + 1)).last() == services@[i as int].model());
        }
        let service = &services[i];
        match find_key(stable, service.name.as_str()) {
            Some(k) => {
                proof {
                    lemma_first_key_exists(pairs_view(stable@), service.name@);
                    let c = choose|j: int| first_key_at(pairs_view(stable@), service.name@, j);
                    lemma_first_key_unique(pairs_view(stable@), service.name@, c, k as int);
                }
                let mut config = service_to_container_request(service, stack_id, stack_name);
                config.image = stable[k].1.clone();
                let (env, _limits) = overrides_of(overrides, service.name.as_str());
                config.env = merge_env(config.env, &env);
                let listed = listed_name_of(stack_name, service.name.as_str());
                let replaced = containers_named(containers, listed.as_str());
                let image = stable[k].1.clone();
                let st = ServiceStep { service: service.name.clone(), image, replaced, config };
                out.push(st);
                assert(step_models(out@) =~= step_models(before).push(st.model()));
            },
            None => {},
        }
        i = i + 1;
    }
    assert(services@.subrange(0, services@.len() as int) =~= services@);
    out
}

/// One call to the container runtime.
pub enum RuntimeAction {
    /// Pull an image; a failure ends the deployment.
    Pull { image: String },
    /// Stop a container; a failure is ignored.
    Stop { id: String },
    /// Remove a container by force; a failure is ignored.
    Remove { id: String },
    /// Create a container; a failure ends the deployment.
    Create { config: ContainerConfig },
}

pub enum ActionModel {
    Pull(Seq<char>),
    Stop(Seq<char>),
    Remove(Seq<char>),
    Create(ConfigModel),
}

impl RuntimeAction {
    pub open spec fn model(&self) -> ActionModel {
        match self {
            RuntimeAction::Pull { image } => ActionModel::Pull(image@),
            RuntimeAction::Stop { id } => ActionModel::Stop(id@),
            RuntimeAction::Remove { id } => ActionModel::Remove(id@),
            RuntimeAction::Create { config } => ActionModel::Create(config.model()),
        }
    }

    /// Whether a failure of this action ends the deployment.
    pub fn is_fatal(&self) -> (r: bool)
        ensures
            r == (self is Pull || self is Create),
    {
        match self {
            RuntimeAction::Pull { .. } => true,
            RuntimeAction::Create { .. } => true,
            _ => false,
        }
    }
}

pub open spec fn action_models(v: Seq<RuntimeAction>) -> Seq<ActionModel> {
    v.map_values(|a: RuntimeAction| a.model())
}

/// Stop then remove, for each id in order.
pub open spec fn stop_remove(ids: Seq<Seq<char>>) -> Seq<ActionModel>
    decreases ids.len(),
{
    if ids.len() == 0 {
        Seq::empty()
    } else {
        stop_remove(ids.drop_last()) + seq![ActionModel::Stop(ids.last()), ActionModel::Remove(ids.last())]
    }
}

/// The calls of one step: pull, stop and remove each replaced container, create.
pub open spec fn step_actions(st: StepModel) -> Seq<ActionModel> {
    seq![ActionModel::Pull(st.image)] + stop_remove(st.replaced) + seq![ActionModel::Create(st.config)]
}

/// The calls of a whole plan, step after step.
pub open spec fn plan_actions(steps: Seq<StepModel>) -> Seq<ActionModel>
    decreases steps.len(),
{
    if steps.len() == 0 {
        Seq::empty()
    } else {
        plan_actions(steps.drop_last()) + step_actions(steps.last())
    }
}

/// The runtime calls of a plan, in the order they are to be made.
pub fn plan_to_actions(steps: Vec<ServiceStep>) -> (r: Vec<RuntimeAction>)
    ensures
        action_models(r@) == plan_actions(step_models(steps@)),
{
    let mut out: Vec<RuntimeAction> = Vec::new();
    let mut rem = steps;
    let ghost all = step_models(steps@);
    let ghost mut k: int = 0;
    assert(all.subrange(0, 0) =~= Seq::<StepModel>::empty());
    while rem.len() > 0
        invariant
            0 <= k <= all.len(),
            step_models(rem@) == all.subrange(k, all.len() as int),
            action_models(out@) == plan_actions(all.subrange(0, k)),
        decreases rem.len(),
    {
        let ghost before_rem = rem@;
        assert(step_models(before_rem).len() == all.len() - k);
        assert(step_models(before_rem)[0] == before_rem[0].model());
        assert(all.subrange(k, all.len() as int)[0] == all[k]);
        let st = rem.remove(0);
        assert(step_models(rem@) =~= step_models(before_rem).drop_first());
        assert(st.model() == all[k]);
        let ServiceStep { service: _, image, replaced, config } = st;
        let ghost start = action_models(out@);
        out.push(RuntimeAction::Pull { image });
        let mut j: usize = 0;
        assert(replaced@.subrange(0, 0) =~= Seq::<String>::empty());
        assert(action_models(out@) =~= start + seq![ActionModel::Pull(all[k].image)] + stop_remove(strs(replaced@.subrange(0, 0))));
        while j < replaced.len()
            invariant
                j <= replaced@.len(),
                0 <= k < all.len(),
                strs(replaced@) == all[k].replaced,
                action_models(out@) == start + seq![ActionModel::Pull(all[k].image)] + stop_remove(strs(replaced@.subrange(0, j as int))),
            decreases replaced.len() - j,
        {
            let ghost b = action_models(out@);
            out.push(RuntimeAction::Stop { id: replaced[j].clone() });
            out.push(RuntimeAction::Remove { id: replaced[j].clone() });
            assert(strs(replaced@.subrange(0, j + 1)).drop_last() =~= strs(replaced@.subrange(0, j as int)));
            assert(action_models(out@) =~= b + seq![ActionModel::Stop(replaced@[j as int]@), ActionModel::Remove(replaced@[j as int]@)]);
            j = j + 1;
        }
        assert(replaced@.subrange(0, replaced@.len() as int) =~= replaced@);
        let ghost b2 = action_models(out@);
        out.push(RuntimeAction::Create { config });
        assert(action_models(out@) =~= b2.push(ActionModel::Create(all[k].config)));
        assert(all.subrange(0, k + 1).drop_last() =~= all.subrange(0, k));
        assert(action_models(out@) =~= plan_actions(all.subrange(0, k + 1)));
        proof {
            k = k + 1;
        }
        assert(step_models(rem@) =~= all.subrange(k, all.len() as int));
    }
    assert(all.subrange(0, k) =~= all);
    out
}

/// Every container that a deployment creates carries the three ownership
/// labels, with the stack's id and name and the service's name, and is
/// named `{stack}-{service}`.
pub proof fn lemma_deploy_labels(
    services: Seq<ServiceModel>,
    stack_id: Seq<char>,
    stack_name: Seq<char>,
    o: Seq<ServiceOverrides>,
    cs: Seq<ContainerInfo>,
    i: int,
)
    requires
        0 <= i < services.len(),
    ensures
        deploy_steps(services, stack_id, stack_name, o, cs)[i].config.labels
            == Some(crate::compose::ownership_labels(stack_id, stack_name, services[i].name)),
        deploy_steps(services, stack_id, stack_name, o, cs)[i].config.name == container_name(stack_name, services[i].name),
{
}

/// Every container that a rollback creates carries the three ownership labels.
pub proof fn lemma_rollback_labels(
    services: Seq<ServiceModel>,
    stable: Seq<(Seq<char>, Seq<char>)>,
    stack_id: Seq<char>,
    stack_name: Seq<char>,
    o: Seq<ServiceOverrides>,
    cs: Seq<ContainerInfo>,
    i: int,
)
    requires
        0 <= i < rollback_steps(services, stable, stack_id, stack_name, o, cs).len(),
    ensures
        ({
            let st = rollback_steps(services, stable, stack_id, stack_name, o, cs)[i];
            st.config.labels == Some(crate::compose::ownership_labels(stack_id, stack_name, st.service))
                && st.config.name == container_name(stack_name, st.service)
        }),
    decreases services.len(),
{
    let prev = rollback_steps(services.drop_last(), stable, stack_id, stack_name, o, cs);
    if i < prev.len() {
        lemma_rollback_labels(services.drop_last(), stable, stack_id, stack_name, o, cs, i);
    }
}

/// A redeployment goes service by service in the given order, and the
/// runtime sees for each: the pull of its image, then a stop and a removal
/// of each container listed under its name, then the creation of its
/// container.
pub proof fn lemma_redeploy_order(
    services: Seq<ServiceModel>,
    stack_id: Seq<char>,
    stack_name: Seq<char>,
    o: Seq<ServiceOverrides>,
    cs: Seq<ContainerInfo>,
    i: int,
)
    requires
        0 <= i < services.len(),
    ensures
        ({
            let steps = deploy_steps(services, stack_id, stack_name, o, cs);
            let acts = step_actions(steps[i]);
            &&& steps.len() == services.len()
            &&& steps[i].service == services[i].name
            &&& acts[0] == ActionModel::Pull(steps[i].image)
            &&& acts.last() == ActionModel::Create(steps[i].config)
            &&& acts.len() == 2 * steps[i].replaced.len() + 2
            &&& forall|j: int| 0 <= j < steps[i].replaced.len() ==>
                acts[1 + 2 * j] == ActionModel::Stop(#[trigger] steps[i].replaced[j])
                && acts[2 + 2 * j] == ActionModel::Remove(steps[i].replaced[j])
        }),
{
    let steps = deploy_steps(services, stack_id, stack_name, o, cs);
    lemma_stop_remove_shape(steps[i].replaced);
}

pub proof fn lemma_stop_remove_shape(ids: Seq<Seq<char>>)
    ensures
        stop_remove(ids).len() == 2 * ids.len(),
        forall|j: int| 0 <= j < ids.len() ==>
            stop_remove(ids)[2 * j] == ActionModel::Stop(#[trigger] ids[j])
            && stop_remove(ids)[2 * j + 1] == ActionModel::Remove(ids[j]),
    decreases ids.len(),
{
    if ids.len() > 0 {
        lemma_stop_remove_shape(ids.drop_last());
        assert forall|j: int| 0 <= j < ids.len() implies
            stop_remove(ids)[2 * j] == ActionModel::Stop(#[trigger] ids[j])
            && stop_remove(ids)[2 * j + 1] == ActionModel::Remove(ids[j]) by {
            if j < ids.len() - 1 {
                assert(ids.drop_last()[j] == ids[j]);
            }
        }
    }
}

/// Rolling back twice to the same stable images creates the same
/// containers, whatever containers were there before: each created from
/// the stable image of its service.
pub proof fn lemma_rollback_repeatable(
    services: Seq<ServiceModel>,
    stable: Seq<(Seq<char>, Seq<char>)>,
    stack_id: Seq<char>,
    stack_name: Seq<char>,
    o: Seq<ServiceOverrides>,
    cs1: Seq<ContainerInfo>,
    cs2: Seq<ContainerInfo>,
)
    ensures
        ({
            let a = rollback_steps(services, stable, stack_id, stack_name, o, cs1);
            let b = rollback_steps(services, stable, stack_id, stack_name, o, cs2);
            &&& a.len() == b.len()
            &&& forall|i: int| 0 <= i < a.len() ==> (#[trigger] a[i]).config == b[i].config && a[i].service == b[i].service
            &&& forall|i: int| 0 <= i < a.len() ==> lookup(stable, (#[trigger] a[i]).service) == Some(a[i].config.image)
        }),
    decreases services.len(),
{
    if services.len() > 0 {
        lemma_rollback_repeatable(services.drop_last(), stable, stack_id, stack_name, o, cs1, cs2);
    }
}

/// Service `s` of stack `stack_name` answers to `query` when, compared
/// without case, the query is its name or its container name.
pub open spec fn answers_to(s: ServiceModel, stack_name: Seq<char>, lowered_query: Seq<char>) -> bool {
    lower_of(s.name) == lowered_query || lower_of(container_name(stack_name, s.name)) == lowered_query
}

/// Whether a service answers to a query, given the lowercase forms of its
/// name, of its container name and of the query.
pub fn service_answers(lowered_name: &str, lowered_container: &str, lowered_query: &str) -> (r: bool)
    ensures
        r == (lowered_name@ == lowered_query@ || lowered_container@ == lowered_query@),
{
    str_eq(lowered_name, lowered_query) || str_eq(lowered_container, lowered_query)
}

/// The first service of `services` that answers to `query`.
pub fn find_service(services: &Vec<ParsedService>, stack_name: &str, query: &str) -> (r: Option<usize>)
    ensures
        match r {
            Some(i) => i < services@.len() && answers_to(services@[i as int].model(), stack_name@, lower_of(query@))
                && forall|j: int| 0 <= j < i ==> !answers_to(#[trigger] services@[j].model(), stack_name@, lower_of(query@)),
            None => forall|j: int| 0 <= j < services@.len() ==> !answers_to(#[trigger] services@[j].model(), stack_name@, lower_of(query@)),
        },
{
    let q = lowercase(query);
    let mut i: usize = 0;
    while i < services.len()
        invariant
            i <= services@.len(),
            q@ == lower_of(query@),
            forall|j: int| 0 <= j < i ==> !answers_to(#[trigger] services@[j].model(), stack_name@, q@),
        decreases services.len() - i,
    {
        let n = lowercase(services[i].name.as_str());
        let head = concat(stack_name, "-");
        let full = concat(head.as_str(), services[i].name.as_str());
        let fl = lowercase(full.as_str());
        proof {
            reveal_strlit("-");
            assert(full@ =~= container_name(stack_name@, services@[i as int].name@));
        }
        if service_answers(n.as_str(), fl.as_str(), q.as_str()) {
            return Some(i);
        }
        i = i + 1;
    }
    None
}

/// A deployment onto no existing containers, as creating a stack makes:
/// each service's calls are the pull of its image, then the creation of
/// its container, and nothing else; nothing is stopped, removed or started.
pub proof fn lemma_fresh_deploy_calls(
    services: Seq<ServiceModel>,
    stack_id: Seq<char>,
    stack_name: Seq<char>,
    o: Seq<ServiceOverrides>,
    i: int,
)
    requires
        0 <= i < services.len(),
    ensures
        ({
            let st = deploy_steps(services, stack_id, stack_name, o, Seq::<ContainerInfo>::empty())[i];
            &&& st.replaced == Seq::<Seq<char>>::empty()
            &&& step_actions(st) == seq![ActionModel::Pull(st.image), ActionModel::Create(st.config)]
            &&& st.config == deploy_config(services[i], stack_id, stack_name, overrides_for(o, services[i].name))
        }),
{
    let st = deploy_steps(services, stack_id, stack_name, o, Seq::<ContainerInfo>::empty())[i];
    assert(ids_named(Seq::<ContainerInfo>::empty(), listed_name(stack_name, services[i].name)) =~= Seq::<Seq<char>>::empty());
    assert(stop_remove(Seq::<Seq<char>>::empty()) =~= Seq::<ActionModel>::empty());
    assert(step_actions(st) =~= seq![ActionModel::Pull(st.image), ActionModel::Create(st.config)]);
}

pub proof fn lemma_plan_actions_concat(a: Seq<StepModel>, b: Seq<StepModel>)
    ensures
        plan_actions(a + b) == plan_actions(a) + plan_actions(b),
    decreases b.len(),
{
    if b.len() == 0 {
        assert(a + b =~= a);
        assert(plan_actions(a) + plan_actions(b) =~= plan_actions(a));
    } else {
        lemma_plan_actions_concat(a, b.drop_last());
        assert((a + b).drop_last() =~= a + b.drop_last());
        assert((a + b).last() == b.last());
        assert(plan_actions(a + b) =~= plan_actions(a) + plan_actions(b));
    }
}

/// The calls of a plan are the blocks of its steps one after another:
/// the block of step `i` stands, whole, after the blocks of the steps
/// before it and before those of the steps after it.
pub proof fn lemma_plan_blocks(steps: Seq<StepModel>, i: int)
    requires
        0 <= i < steps.len(),
    ensures
        plan_actions(steps) == plan_actions(steps.subrange(0, i)) + step_actions(steps[i])
            + plan_actions(steps.subrange(i + 1, steps.len() as int)),
{
    let a = steps.subrange(0, i);
    let b = steps.subrange(i, i + 1);
    let c = steps.subrange(i + 1, steps.len() as int);
    assert(steps =~= a + b + c);
    lemma_plan_actions_concat(a + b, c);
    lemma_plan_actions_concat(a, b);
    assert(b.drop_last() =~= Seq::<StepModel>::empty());
    assert(plan_actions(Seq::<StepModel>::empty()) =~= Seq::<ActionModel>::empty());
    assert(b.last() == steps[i]);
    assert(plan_actions(b) =~= step_actions(steps[i]));
}

} // verus!
