//! The stages of a redeploy: save the stable images, replace the services,
//! start the stack, check its health, and roll back when the check fails.
use vstd::prelude::*;
use crate::stack::StackStatus;
use crate::compose::ServiceModel;
use crate::deploy::{ServiceOverrides, deploy_steps, plan_actions, step_actions, ActionModel, lemma_plan_blocks, lemma_redeploy_order};
use crate::runtime::ContainerInfo;

verus! {

/// Where a redeploy stands.
#[derive(PartialEq, Eq, Structural, Clone, Copy, Debug)]
pub enum RedeployStage {
    SavingStable,
    Replacing,
    Starting,
    HealthChecking,
    RollingBack,
    Finished,
    Aborted,
}

/// The stage after `stage` when its work succeeded (`ok`) or failed, and
/// the status to record on entering it.
pub open spec fn next_stage(stage: RedeployStage, ok: bool) -> (RedeployStage, Option<StackStatus>) {
    match stage {
        RedeployStage::SavingStable => if ok {
            (RedeployStage::Replacing, Some(StackStatus::Deploying))
        } else {
            (RedeployStage::Aborted, None)
        },
        RedeployStage::Replacing => if ok {
            (RedeployStage::Starting, None)
        } else {
            (RedeployStage::Aborted, None)
        },
        RedeployStage::Starting => if ok {
            (RedeployStage::HealthChecking, Some(StackStatus::Running))
        } else {
            (RedeployStage::Aborted, None)
        },
        RedeployStage::HealthChecking => if ok {
            (RedeployStage::Finished, None)
        } else {
            (RedeployStage::RollingBack, Some(StackStatus::RollingBack))
        },
        RedeployStage::RollingBack => if ok {
            (RedeployStage::Finished, Some(StackStatus::RolledBack))
        } else {
            (RedeployStage::Aborted, None)
        },
        RedeployStage::Finished => (RedeployStage::Finished, None),
        RedeployStage::Aborted => (RedeployStage::Aborted, None),
    }
}

/// The stage after `stage` and the status to record on entering it.
pub fn advance(stage: RedeployStage, ok: bool) -> (r: (RedeployStage, Option<StackStatus>))
    ensures
        r == next_stage(stage, ok),
{
    match stage {
        RedeployStage::SavingStable => if ok {
            (RedeployStage::Replacing, Some(StackStatus::Deploying))
        } else {
            (RedeployStage::Aborted, None)
        },
        RedeployStage::Replacing => if ok {
            (RedeployStage::Starting, None)
        } else {
            (RedeployStage::Aborted, None)
        },
        RedeployStage::Starting => if ok {
            (RedeployStage::HealthChecking, Some(StackStatus::Running))
        } else {
            (RedeployStage::Aborted, None)
        },
        RedeployStage::HealthChecking => if ok {
            (RedeployStage::Finished, None)
        } else {
            (RedeployStage::RollingBack, Some(StackStatus::RollingBack))
        },
        RedeployStage::RollingBack => if ok {
            (RedeployStage::Finished, Some(StackStatus::RolledBack))
        } else {
            (RedeployStage::Aborted, None)
        },
        RedeployStage::Finished => (RedeployStage::Finished, None),
        RedeployStage::Aborted => (RedeployStage::Aborted, None),
    }
}

/// The stage reached from `stage` through the outcomes `outcomes`, and the
/// statuses recorded on the way, in order.
pub open spec fn run(stage: RedeployStage, outcomes: Seq<bool>) -> (RedeployStage, Seq<StackStatus>)
    decreases outcomes.len(),
{
    if outcomes.len() == 0 {
        (stage, Seq::empty())
    } else {
        let (next, st) = next_stage(stage, outcomes[0]);
        let (last, rest) = run(next, outcomes.drop_first());
        (last, match st {
            Some(s) => seq![s] + rest,
            None => rest,
        })
    }
}

/// A redeploy whose health check fails, and whose other stages succeed,
/// records `deploying`, `running`, `rolling_back`, `rolled_back` in that
/// order and finishes; the rollback runs only after the check.
pub proof fn lemma_failed_health_rolls_back()
    ensures
        run(RedeployStage::SavingStable, seq![true, true, true, false, true]) == (
            RedeployStage::Finished,
            seq![StackStatus::Deploying, StackStatus::Running, StackStatus::RollingBack, StackStatus::RolledBack],
        ),
{
    reveal_with_fuel(run, 6);
    let o = seq![true, true, true, false, true];
    assert(o.drop_first() =~= seq![true, true, false, true]);
    assert(o.drop_first().drop_first() =~= seq![true, false, true]);
    assert(o.drop_first().drop_first().drop_first() =~= seq![false, true]);
    assert(o.drop_first().drop_first().drop_first().drop_first() =~= seq![true]);
    assert(seq![true].drop_first() =~= Seq::<bool>::empty());
    assert(run(RedeployStage::Finished, Seq::<bool>::empty()).1 =~= Seq::<StackStatus>::empty());
    assert(run(RedeployStage::RollingBack, seq![true]).1 =~= seq![StackStatus::RolledBack]);
    assert(run(RedeployStage::HealthChecking, seq![false, true]).1 =~= seq![StackStatus::RollingBack, StackStatus::RolledBack]);
    assert(run(RedeployStage::Starting, seq![true, false, true]).1 =~= seq![StackStatus::Running, StackStatus::RollingBack, StackStatus::RolledBack]);
    assert(run(RedeployStage::Replacing, seq![true, true, false, true]).1 =~= seq![StackStatus::Running, StackStatus::RollingBack, StackStatus::RolledBack]);
    assert(run(RedeployStage::SavingStable, o).1 =~= seq![StackStatus::Deploying, StackStatus::Running, StackStatus::RollingBack, StackStatus::RolledBack]);
}

/// The stages whose work is done, in order, from `stage` through the outcomes `outcomes`.
pub open spec fn visited(stage: RedeployStage, outcomes: Seq<bool>) -> Seq<RedeployStage>
    decreases outcomes.len(),
{
    if outcomes.len() == 0 {
        Seq::empty()
    } else {
        seq![stage] + visited(next_stage(stage, outcomes[0]).0, outcomes.drop_first())
    }
}

proof fn lemma_terminal_stays(stage: RedeployStage, outcomes: Seq<bool>)
    requires
        stage == RedeployStage::Finished || stage == RedeployStage::Aborted,
    ensures
        !visited(stage, outcomes).contains(RedeployStage::HealthChecking),
    decreases outcomes.len(),
{
    if outcomes.len() > 0 {
        lemma_terminal_stays(stage, outcomes.drop_first());
        let v = visited(stage, outcomes);
        let rest = visited(stage, outcomes.drop_first());
        assert(v =~= seq![stage] + rest);
        if v.contains(RedeployStage::HealthChecking) {
            let k = choose|k: int| 0 <= k < v.len() && v[k] == RedeployStage::HealthChecking;
            assert(k > 0);
            assert(rest[k - 1] == RedeployStage::HealthChecking);
        }
    }
}

/// A redeploy reaches its health check only after saving the stable
/// images, replacing the services and starting the stack, each of which
/// succeeded, in that order.
pub proof fn lemma_health_check_after_start(outcomes: Seq<bool>)
    requires
        visited(RedeployStage::SavingStable, outcomes).contains(RedeployStage::HealthChecking),
    ensures
        outcomes.len() >= 4,
        outcomes[0] && outcomes[1] && outcomes[2],
        visited(RedeployStage::SavingStable, outcomes).subrange(0, 4)
            == seq![RedeployStage::SavingStable, RedeployStage::Replacing, RedeployStage::Starting, RedeployStage::HealthChecking],
{
    let v = visited(RedeployStage::SavingStable, outcomes);
    let k = choose|k: int| 0 <= k < v.len() && v[k] == RedeployStage::HealthChecking;
    let o1 = outcomes.drop_first();
    assert(v =~= seq![RedeployStage::SavingStable] + visited(next_stage(RedeployStage::SavingStable, outcomes[0]).0, o1));
    if !outcomes[0] {
        lemma_terminal_stays(RedeployStage::Aborted, o1);
        assert(v[k] == visited(RedeployStage::Aborted, o1)[k - 1]);
        return;
    }
    let v1 = visited(RedeployStage::Replacing, o1);
    assert(v1[k - 1] == RedeployStage::HealthChecking);
    assert(o1.len() > 0);
    let o2 = o1.drop_first();
    assert(v1 =~= seq![RedeployStage::Replacing] + visited(next_stage(RedeployStage::Replacing, o1[0]).0, o2));
    if !o1[0] {
        lemma_terminal_stays(RedeployStage::Aborted, o2);
        assert(visited(RedeployStage::Aborted, o2)[k - 2] == RedeployStage::HealthChecking);
        return;
    }
    let v2 = visited(RedeployStage::Starting, o2);
    assert(v2[k - 2] == RedeployStage::HealthChecking);
    assert(o2.len() > 0);
    let o3 = o2.drop_first();
    assert(v2 =~= seq![RedeployStage::Starting] + visited(next_stage(RedeployStage::Starting, o2[0]).0, o3));
    if !o2[0] {
        lemma_terminal_stays(RedeployStage::Aborted, o3);
        assert(visited(RedeployStage::Aborted, o3)[k - 3] == RedeployStage::HealthChecking);
        return;
    }
    let v3 = visited(RedeployStage::HealthChecking, o3);
    assert(o3.len() > 0);
    assert(v3 =~= seq![RedeployStage::HealthChecking] + visited(next_stage(RedeployStage::HealthChecking, o3[0]).0, o3.drop_first()));
    assert(v.subrange(0, 4) =~= seq![RedeployStage::SavingStable, RedeployStage::Replacing, RedeployStage::Starting, RedeployStage::HealthChecking]);
}

/// A redeploy that reaches its health check has, in order: saved the
/// stable images; made the calls of its whole plan, the block of each
/// service whole and in service order (the pull of its image, a stop and a
/// removal of each container listed under its name, the creation of its
/// container); started the stack; and only then checked health.
pub proof fn lemma_redeploy_sequence(
    services: Seq<ServiceModel>,
    stack_id: Seq<char>,
    stack_name: Seq<char>,
    o: Seq<ServiceOverrides>,
    cs: Seq<ContainerInfo>,
    outcomes: Seq<bool>,
    i: int,
)
    requires
        visited(RedeployStage::SavingStable, outcomes).contains(RedeployStage::HealthChecking),
        0 <= i < services.len(),
    ensures
        visited(RedeployStage::SavingStable, outcomes).subrange(0, 4)
            == seq![RedeployStage::SavingStable, RedeployStage::Replacing, RedeployStage::Starting, RedeployStage::HealthChecking],
        ({
            let steps = deploy_steps(services, stack_id, stack_name, o, cs);
            let acts = step_actions(steps[i]);
            &&& steps[i].service == services[i].name
            &&& plan_actions(steps) == plan_actions(steps.subrange(0, i)) + acts
                + plan_actions(steps.subrange(i + 1, steps.len() as int))
            &&& acts[0] == ActionModel::Pull(steps[i].image)
            &&& acts.last() == ActionModel::Create(steps[i].config)
            &&& acts.len() == 2 * steps[i].replaced.len() + 2
            &&& forall|j: int| 0 <= j < steps[i].replaced.len() ==>
                acts[1 + 2 * j] == ActionModel::Stop(#[trigger] steps[i].replaced[j])
                && acts[2 + 2 * j] == ActionModel::Remove(steps[i].replaced[j])
        }),
{
    lemma_health_check_after_start(outcomes);
    lemma_redeploy_order(services, stack_id, stack_name, o, cs, i);
    lemma_plan_blocks(deploy_steps(services, stack_id, stack_name, o, cs), i);
}

/// A health path is checked over HTTP only when it starts with `http`; an
/// absent or empty path, or another form, passes without a check.
pub open spec fn needs_http_check(path: Option<Seq<char>>) -> bool {
    path matches Some(p) && p.len() > 0 && "http"@.is_prefix_of(p)
}

/// Whether the health check of a stack with this path makes an HTTP request.
pub fn health_check_is_http(path: &Option<String>) -> (r: bool)
    ensures
        r == needs_http_check(crate::runtime::opt_view(*path)),
{
    match path {
        Some(p) => {
            proof {
                reveal_strlit("http");
            }
            p.as_str().unicode_len() > 0 && crate::text::starts_with(p.as_str(), "http")
        },
        None => false,
    }
}

/// Seconds to wait before a health check.
pub const HEALTH_SETTLE_SECONDS: u64 = 5;

/// Seconds a health request may take.
pub const HEALTH_TIMEOUT_SECONDS: u64 = 10;

/// Whether an HTTP status passes the health check: 2xx only.
pub fn health_status_ok(code: u16) -> (r: bool)
    ensures
        r == (200 <= code && code < 300),
{
    200 <= code && code < 300
}

} // verus!
