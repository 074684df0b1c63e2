//! Stack records, keyed by id and owned by a user, and the operations on
//! them: ownership lookups, status, webhook tokens, stable images.
use vstd::prelude::*;
use crate::compose::{ComposeFile, ParsedCompose, parse_compose, models, service_models, strs, network_names};
use crate::error::AppError;
use crate::order::dependency_order;
use crate::outside::{is_alphanumeric, random_alphanumeric, new_uuid, now_unix_seconds};
use crate::runtime::{ContainerInfo, label_of, stack_id_label, opt_view};
use crate::containers::label_value;
use crate::deploy::{ServiceOverrides, ServiceStep, deployment_plan, step_models, deploy_steps};
use crate::text::str_eq;

verus! {

/// The lifecycle status of a stack.
#[derive(PartialEq, Eq, Structural, Clone, Copy, Debug)]
pub enum StackStatus {
    Creating,
    Stopped,
    Running,
    Deploying,
    RollingBack,
    RolledBack,
}

impl StackStatus {
    /// The name under which the status is stored.
    pub fn as_str(&self) -> (r: &'static str)
        ensures
            r@ == match self {
                StackStatus::Creating => "creating"@,
                StackStatus::Stopped => "stopped"@,
                StackStatus::Running => "running"@,
                StackStatus::Deploying => "deploying"@,
                StackStatus::RollingBack => "rolling_back"@,
                StackStatus::RolledBack => "rolled_back"@,
            },
    {
        match self {
            StackStatus::Creating => "creating",
            StackStatus::Stopped => "stopped",
            StackStatus::Running => "running",
            StackStatus::Deploying => "deploying",
            StackStatus::RollingBack => "rolling_back",
            StackStatus::RolledBack => "rolled_back",
        }
    }
}

/// A stack record.
pub struct Stack {
    pub id: String,
    pub name: String,
    pub user_id: String,
    pub compose_content: Option<String>,
    pub status: StackStatus,
    pub webhook_token: Option<String>,
    pub cron_schedule: Option<String>,
    pub health_check_path: Option<String>,
    /// Seconds between health checks.
    pub health_check_interval: i32,
    /// Service name to image, as JSON, from before the last redeploy.
    pub last_stable_images: Option<String>,
    /// Seconds since the Unix epoch.
    pub created_at: i64,
    pub updated_at: i64,
}

/// Length of a webhook token.
pub const TOKEN_LEN: usize = 32;

/// Seconds between health checks of a new stack.
pub const DEFAULT_HEALTH_INTERVAL: i32 = 30;

/// The stack records, ids unique.
pub struct StackStore {
    stacks: Vec<Stack>,
}

/// Position `i` holds the stack `id`.
pub open spec fn at_id(s: Seq<Stack>, id: Seq<char>, i: int) -> bool {
    0 <= i < s.len() && s[i].id@ == id
}

pub open spec fn has_id(s: Seq<Stack>, id: Seq<char>) -> bool {
    exists|i: int| at_id(s, id, i)
}

/// Stack `id` exists and belongs to `user`.
pub open spec fn owns(s: Seq<Stack>, id: Seq<char>, user: Seq<char>) -> bool {
    exists|i: int| at_id(s, id, i) && s[i].user_id@ == user
}

/// Stack `id` exists and its webhook token is `token`.
pub open spec fn token_valid(s: Seq<Stack>, id: Seq<char>, token: Seq<char>) -> bool {
    exists|i: int| at_id(s, id, i) && opt_view(s[i].webhook_token) == Some(token)
}

/// The stacks of `user`, in order.
pub open spec fn owned_by(s: Seq<Stack>, user: Seq<char>) -> Seq<Stack>
    decreases s.len(),
{
    if s.len() == 0 {
        Seq::empty()
    } else {
        let prev = owned_by(s.drop_last(), user);
        if s.last().user_id@ == user {
            prev.push(s.last())
        } else {
            prev
        }
    }
}

pub open spec fn ids_unique(s: Seq<Stack>) -> bool {
    forall|i: int, j: int| 0 <= i < s.len() && 0 <= j < s.len() && s[i].id@ == s[j].id@ ==> i == j
}

/// The record of stack `id` (which exists), with its webhook token set to `token`.
pub open spec fn with_token(s: Seq<Stack>, id: Seq<char>, token: String) -> Seq<Stack> {
    let i = choose|i: int| at_id(s, id, i);
    s.update(i, Stack { webhook_token: Some(token), ..s[i] })
}

/// A new record with status `creating` and the default health interval.
pub open spec fn new_record(r: Stack, name: Seq<char>, user: Seq<char>, content: Seq<char>) -> bool {
    &&& r.name@ == name
    &&& r.user_id@ == user
    &&& opt_view(r.compose_content) == Some(content)
    &&& r.status == StackStatus::Creating
    &&& r.webhook_token matches Some(t) && t@.len() == 32 && forall|k: int| 0 <= k < t@.len() ==> is_alphanumeric(#[trigger] t@[k])
    &&& r.cron_schedule is None
    &&& r.health_check_path is None
    &&& r.health_check_interval == 30
    &&& r.last_stable_images is None
}

/// Whether `a` and `b` hold the same characters, in time that depends on
/// their lengths only.
pub fn tokens_match(a: &str, b: &str) -> (r: bool)
    ensures
        r == (a@ == b@),
{
    let n = a.unicode_len();
    let m = b.unicode_len();
    let mut same = n == m;
    let mut i: usize = 0;
    while i < n
        invariant
            i <= n,
            n == a@.len(),
            m == b@.len(),
            same == (n == m && forall|j: int| 0 <= j < i ==> a@[j] == b@[j]),
        decreases n - i,
    {
        let x = a.get_char(i);
        let y = if i < m { b.get_char(i) } else { x };
        same = same && x == y;
        i = i + 1;
    }
    proof {
        if same {
            assert(a@ =~= b@);
        }
    }
    same
}

impl StackStore {
    pub closed spec fn view(&self) -> Seq<Stack> {
        self.stacks@
    }

    pub open spec fn wf(&self) -> bool {
        ids_unique(self@)
    }

    /// An empty store.
    pub fn new() -> (r: StackStore)
        ensures
            r@ == Seq::<Stack>::empty(),
            r.wf(),
    {
        StackStore { stacks: Vec::new() }
    }

    /// The stacks of `user_id`, in the order they were created.
    pub fn list_by_user(&self, user_id: &str) -> (r: Vec<&Stack>)
        ensures
            r@.map_values(|x: &Stack| *x) == owned_by(self@, user_id@),
    {
        let mut out: Vec<&Stack> = Vec::new();
        let mut i: usize = 0;
        while i < self.stacks.len()
            invariant
                i <= self.stacks@.len(),
                out@.map_values(|x: &Stack| *x) == owned_by(self.stacks@.subrange(0, i as int), user_id@),
            decreases self.stacks.len() - i,
        {
            proof {
                assert(self.stacks@.subrange(0, i + 1).drop_last() =~= self.stacks@.subrange(0, i as int));
            }
            let st = &self.stacks[i];
            if str_eq(st.user_id.as_str(), user_id) {
                let ghost before = out@;
                out.push(st);
                assert(out@.map_values(|x: &Stack| *x) =~= before.map_values(|x: &Stack| *x).push(*st));
            }
            i = i + 1;
        }
        assert(self.stacks@.subrange(0, self.stacks@.len() as int) =~= self.stacks@);
        out
    }

    /// The ids of all stacks, in the order they were created.
    pub fn list_ids(&self) -> (r: Vec<String>)
        ensures
            r@.map_values(|x: String| x@) == self@.map_values(|st: Stack| st.id@),
    {
        let mut out: Vec<String> = Vec::new();
        let mut i: usize = 0;
        while i < self.stacks.len()
            invariant
                i <= self.stacks@.len(),
                out@.map_values(|x: String| x@) == self.stacks@.subrange(0, i as int).map_values(|st: Stack| st.id@),
            decreases self.stacks.len() - i,
        {
            let ghost before = out@;
            let id = self.stacks[i].id.clone();
            out.push(id);
            assert(out@.map_values(|x: String| x@) =~= before.map_values(|x: String| x@).push(id@));
            assert(self.stacks@.subrange(0, i + 1).map_values(|st: Stack| st.id@)
                =~= self.stacks@.subrange(0, i as int).map_values(|st: Stack| st.id@).push(self.stacks@[i as int].id@));
            i = i + 1;
        }
        assert(self.stacks@.subrange(0, self.stacks@.len() as int) =~= self.stacks@);
        out
    }

    /// The position of stack `id`.
    fn index_of(&self, id: &str) -> (r: Option<usize>)
        ensures
            match r {
                Some(i) => at_id(self@, id@, i as int),
                None => !has_id(self@, id@),
            },
    {
        let mut i: usize = 0;
        while i < self.stacks.len()
            invariant
                i <= self.stacks@.len(),
                forall|j: int| 0 <= j < i ==> self.stacks@[j].id@ != id@,
            decreases self.stacks.len() - i,
        {
            if str_eq(self.stacks[i].id.as_str(), id) {
                return Some(i);
            }
            i = i + 1;
        }
        None
    }

    /// The position of stack `id` if `user` owns it; `NotFound` otherwise.
    fn owned_index(&self, id: &str, user_id: &str) -> (r: Result<usize, AppError>)
        requires
            self.wf(),
        ensures
            r is Ok <==> owns(self@, id@, user_id@),
            r matches Ok(i) ==> at_id(self@, id@, i as int) && self@[i as int].user_id@ == user_id@,
            r matches Err(e) ==> e is NotFound,
    {
        match self.index_of(id) {
            Some(i) => {
                if str_eq(self.stacks[i].user_id.as_str(), user_id) {
                    Ok(i)
                } else {
                    Err(AppError::NotFound("Stack not found".to_owned()))
                }
            },
            None => Err(AppError::NotFound("Stack not found".to_owned())),
        }
    }

    /// Stack `id`, if `user_id` owns it; `NotFound` otherwise.
    pub fn find_by_id(&self, id: &str, user_id: &str) -> (r: Result<&Stack, AppError>)
        requires
            self.wf(),
        ensures
            r is Ok <==> owns(self@, id@, user_id@),
            r matches Ok(st) ==> exists|i: int| at_id(self@, id@, i) && self@[i] == *st && st.user_id@ == user_id@,
            r matches Err(e) ==> e is NotFound,
    {
        match self.owned_index(id, user_id) {
            Ok(i) => Ok(&self.stacks[i]),
            Err(e) => Err(e),
        }
    }

    /// Stack `id`, whoever owns it; `NotFound` where there is none.
    pub fn find_by_id_internal(&self, id: &str) -> (r: Result<&Stack, AppError>)
        ensures
            r is Ok <==> has_id(self@, id@),
            r matches Ok(st) ==> exists|i: int| at_id(self@, id@, i) && self@[i] == *st,
            r matches Err(e) ==> e is NotFound,
    {
        match self.index_of(id) {
            Some(i) => Ok(&self.stacks[i]),
            None => Err(AppError::NotFound("Stack not found".to_owned())),
        }
    }

    /// Stack `id`, if `token` is its webhook token; `NotFound` otherwise.
    /// This is the one lookup that does not ask who the caller is.
    pub fn validate_webhook_token(&self, id: &str, token: &str) -> (r: Result<&Stack, AppError>)
        requires
            self.wf(),
        ensures
            r is Ok <==> token_valid(self@, id@, token@),
            r matches Ok(st) ==> exists|i: int| at_id(self@, id@, i) && self@[i] == *st,
            r matches Err(e) ==> e is NotFound,
    {
        match self.index_of(id) {
            Some(i) => {
                match &self.stacks[i].webhook_token {
                    Some(t) => {
                        if tokens_match(t.as_str(), token) {
                            return Ok(&self.stacks[i]);
                        }
                    },
                    None => {},
                }
                Err(AppError::NotFound("Invalid webhook token".to_owned()))
            },
            None => Err(AppError::NotFound("Invalid webhook token".to_owned())),
        }
    }

    /// Records a new stack with status `creating` and a fresh 32-character
    /// alphanumeric webhook token, once `file`, the decoded form of
    /// `compose_content`, has been parsed, and returns its id, the parsed
    /// document and the plan that creates its containers: for each service
    /// in dependency order, a pull of its image and the creation of its
    /// container, with `overrides` applied and nothing replaced or started.
    /// A document with a service lacking an image gives `Validation`; an id
    /// that is already taken gives `Internal` (never on an empty store).
    /// An error leaves the store as it was.
    pub fn create_stack(
        &mut self,
        name: &str,
        compose_content: &str,
        file: &ComposeFile,
        user_id: &str,
        overrides: &Vec<ServiceOverrides>,
    ) -> (r: Result<(String, ParsedCompose, Vec<ServiceStep>), AppError>)
        requires
            old(self).wf(),
        ensures
            final(self).wf(),
            crate::compose::all_have_images(file.services@) <==> !(r matches Err(AppError::Validation(_))),
            r matches Err(AppError::Validation(_)) ==> exists|i: int| crate::compose::first_without_image(file.services@, i)
                && crate::compose::missing_image_error(file.services@, i, r->Err_0),
            r matches Err(AppError::Internal(_)) ==> old(self)@.len() > 0,
            r is Err ==> (r matches Err(AppError::Validation(_)) || r matches Err(AppError::Internal(_))),
            r is Err ==> final(self)@ == old(self)@,
            r matches Ok((id, p, plan)) ==> {
                &&& final(self)@.len() == old(self)@.len() + 1
                &&& final(self)@.drop_last() == old(self)@
                &&& final(self)@.last().id == id
                &&& new_record(final(self)@.last(), name@, user_id@, compose_content@)
                &&& models(p.services@) == dependency_order(service_models(file.services@))
                &&& strs(p.networks@) == network_names(file.networks@)
                &&& step_models(plan@) == deploy_steps(models(p.services@), id@, name@, overrides@, Seq::<ContainerInfo>::empty())
            },
    {
        let parsed = match parse_compose(file) {
            Ok(p) => p,
            Err(e) => return Err(e),
        };
        let id = new_uuid();
        if self.index_of(id.as_str()).is_some() {
            return Err(AppError::Internal("Stack id already in use".to_owned()));
        }
        let none: Vec<ContainerInfo> = Vec::new();
        let plan = deployment_plan(&parsed.services, id.as_str(), name, overrides, &none);
        assert(none@ =~= Seq::<ContainerInfo>::empty());
        let token = random_alphanumeric(TOKEN_LEN);
        let now = now_unix_seconds();
        let stack = Stack {
            id: id.clone(),
            name: name.to_owned(),
            user_id: user_id.to_owned(),
            compose_content: Some(compose_content.to_owned()),
            status: StackStatus::Creating,
            webhook_token: Some(token),
            cron_schedule: None,
            health_check_path: None,
            health_check_interval: DEFAULT_HEALTH_INTERVAL,
            last_stable_images: None,
            created_at: now,
            updated_at: now,
        };
        let ghost before = self.stacks@;
        self.stacks.push(stack);
        assert(self.stacks@.drop_last() =~= before);
        assert forall|i: int, j: int|
            0 <= i < self.stacks@.len() && 0 <= j < self.stacks@.len() && self.stacks@[i].id@ == self.stacks@[j].id@
            implies i == j by {
            let n = before.len() as int;
            if i < n && j == n {
                assert(at_id(before, id@, i));
            } else if j < n && i == n {
                assert(at_id(before, id@, j));
            }
        }
        Ok((id, parsed, plan))
    }

    /// Sets the status of stack `id`; `NotFound` where there is none.
    pub fn update_status(&mut self, id: &str, status: StackStatus) -> (r: Result<(), AppError>)
        requires
            old(self).wf(),
        ensures
            final(self).wf(),
            r is Ok <==> has_id(old(self)@, id@),
            r is Ok ==> exists|i: int| at_id(old(self)@, id@, i)
                && final(self)@ == old(self)@.update(i, Stack { status: status, ..old(self)@[i] }),
            r matches Err(e) ==> e is NotFound && final(self)@ == old(self)@,
    {
        match self.index_of(id) {
            Some(i) => {
                self.stacks[i].status = status;
                Ok(())
            },
            None => Err(AppError::NotFound("Stack not found".to_owned())),
        }
    }

    /// Sets the webhook token of stack `id`; `NotFound` where there is none.
    pub fn update_webhook_token(&mut self, id: &str, token: String) -> (r: Result<(), AppError>)
        requires
            old(self).wf(),
        ensures
            final(self).wf(),
            r is Ok <==> has_id(old(self)@, id@),
            r is Ok ==> final(self)@ == with_token(old(self)@, id@, token),
            r matches Err(e) ==> e is NotFound && final(self)@ == old(self)@,
    {
        match self.index_of(id) {
            Some(i) => {
                proof {
                    let c = choose|j: int| at_id(old(self)@, id@, j);
                    assert(c == i);
                }
                self.stacks[i].webhook_token = Some(token);
                Ok(())
            },
            None => Err(AppError::NotFound("Stack not found".to_owned())),
        }
    }

    /// Gives stack `id`, if `user_id` owns it, a fresh 32-character
    /// alphanumeric webhook token and returns it; `NotFound` otherwise.
    pub fn regenerate_webhook_token(&mut self, id: &str, user_id: &str) -> (r: Result<String, AppError>)
        requires
            old(self).wf(),
        ensures
            final(self).wf(),
            r is Ok <==> owns(old(self)@, id@, user_id@),
            r matches Ok(t) ==> t@.len() == 32 && (forall|k: int| 0 <= k < t@.len() ==> is_alphanumeric(#[trigger] t@[k]))
                && final(self)@ == with_token(old(self)@, id@, t),
            r matches Err(e) ==> e is NotFound && final(self)@ == old(self)@,
    {
        match self.owned_index(id, user_id) {
            Ok(_) => {},
            Err(e) => return Err(e),
        }
        let token = random_alphanumeric(TOKEN_LEN);
        let kept = token.clone();
        match self.update_webhook_token(id, token) {
            Ok(()) => Ok(kept),
            Err(e) => Err(e),
        }
    }

    /// Records the stable images (JSON) of stack `id`; `NotFound` where there is none.
    pub fn update_last_stable_images(&mut self, id: &str, images: Option<String>) -> (r: Result<(), AppError>)
        requires
            old(self).wf(),
        ensures
            final(self).wf(),
            r is Ok <==> has_id(old(self)@, id@),
            r is Ok ==> exists|i: int| at_id(old(self)@, id@, i)
                && final(self)@ == old(self)@.update(i, Stack { last_stable_images: images, ..old(self)@[i] }),
            r matches Err(e) ==> e is NotFound && final(self)@ == old(self)@,
    {
        match self.index_of(id) {
            Some(i) => {
                self.stacks[i].last_stable_images = images;
                Ok(())
            },
            None => Err(AppError::NotFound("Stack not found".to_owned())),
        }
    }

    /// Sets the automation fields of stack `id`, if `user_id` owns it; `NotFound` otherwise.
    pub fn update_automation(
        &mut self,
        id: &str,
        user_id: &str,
        cron: Option<String>,
        health_path: Option<String>,
        health_interval: i32,
    ) -> (r: Result<(), AppError>)
        requires
            old(self).wf(),
        ensures
            final(self).wf(),
            r is Ok <==> owns(old(self)@, id@, user_id@),
            r is Ok ==> exists|i: int| at_id(old(self)@, id@, i)
                && final(self)@ == old(self)@.update(i, Stack {
                    cron_schedule: cron,
                    health_check_path: health_path,
                    health_check_interval: health_interval,
                    ..old(self)@[i]
                }),
            r matches Err(e) ==> e is NotFound && final(self)@ == old(self)@,
    {
        match self.owned_index(id, user_id) {
            Ok(i) => {
                self.stacks[i].cron_schedule = cron;
                self.stacks[i].health_check_path = health_path;
                self.stacks[i].health_check_interval = health_interval;
                Ok(())
            },
            Err(e) => Err(e),
        }
    }

    /// Replaces the compose document of stack `id`, if `user_id` owns it and
    /// `file`, the decoded form of `compose_content`, parses.
    pub fn update_compose(&mut self, id: &str, user_id: &str, compose_content: &str, file: &ComposeFile) -> (r: Result<ParsedCompose, AppError>)
        requires
            old(self).wf(),
        ensures
            final(self).wf(),
            !owns(old(self)@, id@, user_id@) ==> r matches Err(AppError::NotFound(_)),
            owns(old(self)@, id@, user_id@) ==> (r is Ok <==> crate::compose::all_have_images(file.services@)),
            r matches Ok(p) ==> models(p.services@) == dependency_order(service_models(file.services@))
                && exists|i: int| at_id(old(self)@, id@, i)
                && opt_view(final(self)@[i].compose_content) == Some(compose_content@)
                && final(self)@ == old(self)@.update(i, Stack { compose_content: final(self)@[i].compose_content, ..old(self)@[i] }),
            r is Err ==> final(self)@ == old(self)@,
    {
        let i = match self.owned_index(id, user_id) {
            Ok(i) => i,
            Err(e) => return Err(e),
        };
        let parsed = match parse_compose(file) {
            Ok(p) => p,
            Err(e) => return Err(e),
        };
        self.stacks[i].compose_content = Some(compose_content.to_owned());
        Ok(parsed)
    }

    /// Removes stack `id`, if `user_id` owns it; `NotFound` otherwise.
    pub fn delete(&mut self, id: &str, user_id: &str) -> (r: Result<(), AppError>)
        requires
            old(self).wf(),
        ensures
            final(self).wf(),
            r is Ok <==> owns(old(self)@, id@, user_id@),
            r is Ok ==> exists|i: int| at_id(old(self)@, id@, i) && final(self)@ == old(self)@.remove(i),
            r is Ok ==> !has_id(final(self)@, id@),
            r matches Err(e) ==> e is NotFound && final(self)@ == old(self)@,
    {
        match self.owned_index(id, user_id) {
            Ok(i) => {
                let ghost before = self.stacks@;
                let _ = self.stacks.remove(i);
                proof {
                    assert(self.stacks@ =~= before.remove(i as int));
                    assert forall|a: int, b: int|
                        0 <= a < self.stacks@.len() && 0 <= b < self.stacks@.len() && self.stacks@[a].id@ == self.stacks@[b].id@
                        implies a == b by {
                        let a2 = if a < i { a } else { a + 1 };
                        let b2 = if b < i { b } else { b + 1 };
                        assert(before[a2].id@ == before[b2].id@);
                    }
                    if has_id(self.stacks@, id@) {
                        let w = choose|w: int| at_id(self.stacks@, id@, w);
                        let w2 = if w < i { w } else { w + 1 };
                        assert(before[w2].id@ == before[i as int].id@);
                    }
                }
                Ok(())
            },
            Err(e) => Err(e),
        }
    }

    /// The container `c`, as the runtime reported it on inspection, may be
    /// acted on by `user_id`: it carries the stack-id label (`Forbidden`
    /// otherwise) and that stack is owned by `user_id` (`NotFound` otherwise).
    pub fn verify_container_ownership(&self, c: &ContainerInfo, user_id: &str) -> (r: Result<(), AppError>)
        requires
            self.wf(),
        ensures
            r is Ok <==> (label_of(*c, stack_id_label()) matches Some(sid) && owns(self@, sid, user_id@)),
            label_of(*c, stack_id_label()) is None ==> r matches Err(AppError::Forbidden(_)),
            label_of(*c, stack_id_label()) is Some && r is Err ==> r matches Err(AppError::NotFound(_)),
    {
        match label_value(c, "labuh.stack.id") {
            Some(sid) => match self.owned_index(sid.as_str(), user_id) {
                Ok(_) => Ok(()),
                Err(e) => Err(e),
            },
            None => Err(AppError::Forbidden("Container not managed by Labuh".to_owned())),
        }
    }
}

/// An operation on a single container.
#[derive(PartialEq, Eq, Structural, Clone, Copy, Debug)]
pub enum ContainerOp {
    Start,
    Stop,
    Restart,
    Remove,
    Logs,
    Stats,
    Exec,
}

/// `user` may act on container `c`: it carries the stack-id label of a
/// stack that `user` owns.
pub open spec fn may_act_on(s: Seq<Stack>, c: ContainerInfo, user: Seq<char>) -> bool {
    label_of(c, stack_id_label()) matches Some(sid) && owns(s, sid, user)
}

impl StackStore {
    /// The operation to perform on container `c` for `user_id`, handed back
    /// only when the ownership check passes; the runtime is to be called
    /// with nothing else.
    pub fn authorize_container_op(&self, c: &ContainerInfo, user_id: &str, op: ContainerOp) -> (r: Result<ContainerOp, AppError>)
        requires
            self.wf(),
        ensures
            r is Ok <==> may_act_on(self@, *c, user_id@),
            r matches Ok(o) ==> o == op,
            label_of(*c, stack_id_label()) is None ==> r matches Err(AppError::Forbidden(_)),
            label_of(*c, stack_id_label()) is Some && r is Err ==> r matches Err(AppError::NotFound(_)),
    {
        match self.verify_container_ownership(c, user_id) {
            Ok(()) => Ok(op),
            Err(e) => Err(e),
        }
    }
}

/// A container whose stack-id label names a stack that `user` does not own
/// is refused, with `NotFound`, or with `Forbidden` where the label is
/// missing; no operation is handed out for it.
pub proof fn lemma_foreign_container_refused(s: Seq<Stack>, c: ContainerInfo, user: Seq<char>)
    requires
        ids_unique(s),
        label_of(c, stack_id_label()) matches Some(sid) ==> !owns(s, sid, user),
    ensures
        !may_act_on(s, c, user),
{
}

/// After a rotation of the webhook token of stack `id`, the previous token
/// no longer opens the stack and the new one does.
pub proof fn lemma_webhook_rotation(s: Seq<Stack>, id: Seq<char>, new_token: String, old_token: Seq<char>)
    requires
        ids_unique(s),
        has_id(s, id),
        old_token != new_token@,
    ensures
        !token_valid(with_token(s, id, new_token), id, old_token),
        token_valid(with_token(s, id, new_token), id, new_token@),
{
    let i = choose|i: int| at_id(s, id, i);
    let t = with_token(s, id, new_token);
    assert(at_id(t, id, i));
    if token_valid(t, id, old_token) {
        let j = choose|j: int| at_id(t, id, j) && opt_view(t[j].webhook_token) == Some(old_token);
        assert(s[j].id@ == s[i].id@);
    }
}

} // verus!
