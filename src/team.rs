//! Teams and the roles of their members.
use vstd::prelude::*;
use crate::error::AppError;
use crate::outside::{new_uuid, now_unix_seconds};
use crate::text::str_eq;

verus! {

/// A member's role, from most to least privileged.
#[derive(PartialEq, Eq, Structural, Clone, Copy, Debug)]
pub enum TeamRole {
    Owner,
    Admin,
    Developer,
    Viewer,
}

/// The rank of a role: 4 for owners down to 1 for viewers.
pub open spec fn rank(r: TeamRole) -> u8 {
    match r {
        TeamRole::Owner => 4,
        TeamRole::Admin => 3,
        TeamRole::Developer => 2,
        TeamRole::Viewer => 1,
    }
}

/// The role stored under `s`; unknown names read as `Viewer`.
pub open spec fn role_named(s: Seq<char>) -> TeamRole {
    if s == "OWNER"@ {
        TeamRole::Owner
    } else if s == "ADMIN"@ {
        TeamRole::Admin
    } else if s == "DEVELOPER"@ {
        TeamRole::Developer
    } else {
        TeamRole::Viewer
    }
}

impl TeamRole {
    /// The name under which the role is stored.
    pub fn as_str(&self) -> (r: &'static str)
        ensures
            r@ == match self {
                TeamRole::Owner => "OWNER"@,
                TeamRole::Admin => "ADMIN"@,
                TeamRole::Developer => "DEVELOPER"@,
                TeamRole::Viewer => "VIEWER"@,
            },
    {
        match self {
            TeamRole::Owner => "OWNER",
            TeamRole::Admin => "ADMIN",
            TeamRole::Developer => "DEVELOPER",
            TeamRole::Viewer => "VIEWER",
        }
    }

    /// The role stored under `s`; unknown names read as `Viewer`.
    pub fn from_name(s: &str) -> (r: TeamRole)
        ensures
            r == role_named(s@),
    {
        if str_eq(s, "OWNER") {
            TeamRole::Owner
        } else if str_eq(s, "ADMIN") {
            TeamRole::Admin
        } else if str_eq(s, "DEVELOPER") {
            TeamRole::Developer
        } else {
            TeamRole::Viewer
        }
    }

    /// The rank of the role: 4 for owners down to 1 for viewers.
    pub fn priority(&self) -> (r: u8)
        ensures
            r == rank(*self),
    {
        match self {
            TeamRole::Owner => 4,
            TeamRole::Admin => 3,
            TeamRole::Developer => 2,
            TeamRole::Viewer => 1,
        }
    }
}

impl From<String> for TeamRole {
    fn from(s: String) -> (r: TeamRole) {
        TeamRole::from_name(s.as_str())
    }
}

impl vstd::std_specs::convert::FromSpecImpl<String> for TeamRole {
    open spec fn obeys_from_spec() -> bool {
        true
    }

    open spec fn from_spec(s: String) -> TeamRole {
        role_named(s@)
    }
}

/// A team.
pub struct Team {
    pub id: String,
    pub name: String,
    /// Seconds since the Unix epoch.
    pub created_at: i64,
    pub updated_at: i64,
}

impl Team {
    /// A copy of the team.
    pub fn duplicate(&self) -> (r: Team)
        ensures
            r.id@ == self.id@,
            r.name@ == self.name@,
            r.created_at == self.created_at,
            r.updated_at == self.updated_at,
    {
        Team { id: self.id.clone(), name: self.name.clone(), created_at: self.created_at, updated_at: self.updated_at }
    }
}

/// A member of a team as listed with the user's details.
pub struct TeamMember {
    pub team_id: String,
    pub user_id: String,
    pub user_name: Option<String>,
    pub user_email: String,
    pub role: String,
    pub created_at: i64,
    pub updated_at: i64,
}

/// A request to create a team.
pub struct CreateTeamRequest {
    pub name: String,
}

/// A team with the caller's role in it.
pub struct TeamResponse {
    pub team: Team,
    pub role: TeamRole,
}

/// A membership: team id, user id, role.
pub struct Membership {
    pub team_id: String,
    pub user_id: String,
    pub role: TeamRole,
}

/// Teams and memberships; one membership per team and user.
pub struct TeamUsecase {
    teams: Vec<Team>,
    members: Vec<Membership>,
}

pub open spec fn member_at(m: Seq<Membership>, team: Seq<char>, user: Seq<char>, i: int) -> bool {
    0 <= i < m.len() && m[i].team_id@ == team && m[i].user_id@ == user
}

/// The role of `user` in `team`, if a member.
pub open spec fn role_in(m: Seq<Membership>, team: Seq<char>, user: Seq<char>) -> Option<TeamRole> {
    if exists|i: int| member_at(m, team, user, i) {
        Some(m[choose|i: int| member_at(m, team, user, i)].role)
    } else {
        None
    }
}

pub open spec fn memberships_unique(m: Seq<Membership>) -> bool {
    forall|i: int, j: int|
        0 <= i < m.len() && 0 <= j < m.len() && m[i].team_id@ == m[j].team_id@ && m[i].user_id@ == m[j].user_id@ ==> i == j
}

/// (team id, role) for each team of `teams` that `user` is a member of, in order.
pub open spec fn teams_of(teams: Seq<Team>, m: Seq<Membership>, user: Seq<char>) -> Seq<(Seq<char>, TeamRole)>
    decreases teams.len(),
{
    if teams.len() == 0 {
        Seq::empty()
    } else {
        let prev = teams_of(teams.drop_last(), m, user);
        match role_in(m, teams.last().id@, user) {
            Some(r) => prev.push((teams.last().id@, r)),
            None => prev,
        }
    }
}

/// Owners and admins manage members.
pub open spec fn manages(r: Option<TeamRole>) -> bool {
    r == Some(TeamRole::Owner) || r == Some(TeamRole::Admin)
}

impl TeamUsecase {
    pub closed spec fn members_view(&self) -> Seq<Membership> {
        self.members@
    }

    pub closed spec fn teams_view(&self) -> Seq<Team> {
        self.teams@
    }

    pub open spec fn wf(&self) -> bool {
        memberships_unique(self.members_view())
    }

    /// No teams and no members.
    pub fn new() -> (r: TeamUsecase)
        ensures
            r.wf(),
            r.members_view() == Seq::<Membership>::empty(),
            r.teams_view() == Seq::<Team>::empty(),
    {
        TeamUsecase { teams: Vec::new(), members: Vec::new() }
    }

    fn member_index(&self, team_id: &str, user_id: &str) -> (r: Option<usize>)
        ensures
            match r {
                Some(i) => member_at(self.members_view(), team_id@, user_id@, i as int),
                None => !exists|i: int| member_at(self.members_view(), team_id@, user_id@, i),
            },
    {
        let mut i: usize = 0;
        while i < self.members.len()
            invariant
                i <= self.members@.len(),
                forall|j: int| 0 <= j < i ==> !member_at(self.members@, team_id@, user_id@, j),
            decreases self.members.len() - i,
        {
            if str_eq(self.members[i].team_id.as_str(), team_id) && str_eq(self.members[i].user_id.as_str(), user_id) {
                return Some(i);
            }
            i = i + 1;
        }
        None
    }

    /// The role of `user_id` in `team_id`, if a member.
    pub fn get_user_role(&self, team_id: &str, user_id: &str) -> (r: Option<TeamRole>)
        requires
            self.wf(),
        ensures
            r == role_in(self.members_view(), team_id@, user_id@),
    {
        match self.member_index(team_id, user_id) {
            Some(i) => {
                proof {
                    let c = choose|j: int| member_at(self.members@, team_id@, user_id@, j);
                    assert(member_at(self.members@, self.members@[c].team_id@, self.members@[c].user_id@, i as int));
                }
                Some(self.members[i].role)
            },
            None => None,
        }
    }

    /// Gives `user_id` the role `role` in `team_id`, replacing a role it had.
    fn set_member(&mut self, team_id: &str, user_id: &str, role: TeamRole)
        requires
            old(self).wf(),
        ensures
            final(self).wf(),
            final(self).teams_view() == old(self).teams_view(),
            role_in(final(self).members_view(), team_id@, user_id@) == Some(role),
            forall|t: Seq<char>, u: Seq<char>| !(t == team_id@ && u == user_id@) ==>
                role_in(final(self).members_view(), t, u) == role_in(old(self).members_view(), t, u),
    {
        let ghost before = self.members@;
        let ghost mut w: int = 0;
        match self.member_index(team_id, user_id) {
            Some(i) => {
                self.members[i].role = role;
                proof {
                    w = i as int;
                }
            },
            None => {
                self.members.push(Membership { team_id: team_id.to_owned(), user_id: user_id.to_owned(), role });
                proof {
                    w = before.len() as int;
                }
            },
        }
        proof {
            let after = self.members@;
            let n = before.len() as int;
            assert(forall|k: int| 0 <= k < n ==> after[k].team_id@ == before[k].team_id@ && after[k].user_id@ == before[k].user_id@);
            assert(memberships_unique(after)) by {
                assert forall|a: int, b: int|
                    0 <= a < after.len() && 0 <= b < after.len() && after[a].team_id@ == after[b].team_id@
                        && after[a].user_id@ == after[b].user_id@ implies a == b by {
                    if a < n && b == n {
                        assert(member_at(before, team_id@, user_id@, a));
                    } else if a == n && b < n {
                        assert(member_at(before, team_id@, user_id@, b));
                    }
                }
            }
            assert(member_at(after, team_id@, user_id@, w));
            let c = choose|k: int| member_at(after, team_id@, user_id@, k);
            assert(after[c].role == role) by {
                if c < n {
                    assert(member_at(before, team_id@, user_id@, c));
                }
            }
            assert forall|t: Seq<char>, u: Seq<char>| !(t == team_id@ && u == user_id@) implies
                role_in(after, t, u) == role_in(before, t, u) by {
                assert forall|k: int| member_at(after, t, u, k) <==> member_at(before, t, u, k) by {
                    if member_at(after, t, u, k) && k >= n {
                        assert(after[k].team_id@ == team_id@ && after[k].user_id@ == user_id@);
                    }
                }
            }
        }
    }

    /// Creates a team with `owner_id` as its owner.
    pub fn create_team(&mut self, name: &str, owner_id: &str) -> (r: Team)
        requires
            old(self).wf(),
        ensures
            final(self).wf(),
            r.name@ == name@,
            final(self).teams_view().len() == old(self).teams_view().len() + 1,
            final(self).teams_view().last().id@ == r.id@,
            role_in(final(self).members_view(), r.id@, owner_id@) == Some(TeamRole::Owner),
            forall|t: Seq<char>, u: Seq<char>| t != r.id@ ==>
                role_in(final(self).members_view(), t, u) == role_in(old(self).members_view(), t, u),
    {
        let now = now_unix_seconds();
        let team = Team { id: new_uuid(), name: name.to_owned(), created_at: now, updated_at: now };
        self.teams.push(team.duplicate());
        assert(self.teams@.last().id@ == team.id@);
        self.set_member(team.id.as_str(), owner_id, TeamRole::Owner);
        team
    }

    /// The teams `user_id` belongs to, with its role in each, in the order
    /// the teams were created.
    pub fn get_user_teams(&self, user_id: &str) -> (r: Vec<TeamResponse>)
        requires
            self.wf(),
        ensures
            r@.map_values(|x: TeamResponse| (x.team.id@, x.role)) == teams_of(self.teams_view(), self.members_view(), user_id@),
    {
        let mut out: Vec<TeamResponse> = Vec::new();
        let mut i: usize = 0;
        while i < self.teams.len()
            invariant
                i <= self.teams@.len(),
                self.wf(),
                out@.map_values(|x: TeamResponse| (x.team.id@, x.role)) == teams_of(self.teams@.subrange(0, i as int), self.members@, user_id@),
            decreases self.teams.len() - i,
        {
            proof {
                assert(self.teams@.subrange(0, i + 1).drop_last() =~= self.teams@.subrange(0, i as int));
            }
            match self.get_user_role(self.teams[i].id.as_str(), user_id) {
                Some(role) => {
                    let ghost before = out@;
                    let team = self.teams[i].duplicate();
                    out.push(TeamResponse { team, role });
                    assert(out@.map_values(|x: TeamResponse| (x.team.id@, x.role))
                        =~= before.map_values(|x: TeamResponse| (x.team.id@, x.role)).push((self.teams@[i as int].id@, role)));
                },
                None => {},
            }
            i = i + 1;
        }
        assert(self.teams@.subrange(0, self.teams@.len() as int) =~= self.teams@);
        out
    }

    /// Adds `user_id` to `team_id` with `role`, on behalf of `actor_id`, who
    /// must be an owner or admin of the team (`Forbidden` otherwise).
    pub fn add_member(&mut self, team_id: &str, user_id: &str, role: TeamRole, actor_id: &str) -> (r: Result<(), AppError>)
        requires
            old(self).wf(),
        ensures
            final(self).wf(),
            r is Ok <==> manages(role_in(old(self).members_view(), team_id@, actor_id@)),
            r is Ok ==> role_in(final(self).members_view(), team_id@, user_id@) == Some(role),
            r matches Err(e) ==> e is Forbidden && final(self).members_view() == old(self).members_view(),
    {
        let actor = self.get_user_role(team_id, actor_id);
        match actor {
            Some(TeamRole::Owner) | Some(TeamRole::Admin) => {},
            _ => return Err(AppError::Forbidden("Access denied".to_owned())),
        }
        self.set_member(team_id, user_id, role);
        Ok(())
    }

    /// Removes `user_id` from `team_id` on behalf of `actor_id`. The actor
    /// must be a member (`Forbidden`), and an owner or admin unless removing
    /// itself (`Forbidden`); the target must be a member (`NotFound`) and
    /// not the owner (`BadRequest`).
    pub fn remove_member(&mut self, team_id: &str, user_id: &str, actor_id: &str) -> (r: Result<(), AppError>)
        requires
            old(self).wf(),
        ensures
            final(self).wf(),
            ({
                let m = old(self).members_view();
                let actor = role_in(m, team_id@, actor_id@);
                let target = role_in(m, team_id@, user_id@);
                &&& actor is None ==> (r matches Err(AppError::Forbidden(_)))
                &&& (actor is Some && !manages(actor) && user_id@ != actor_id@) ==> (r matches Err(AppError::Forbidden(_)))
                &&& (actor is Some && (manages(actor) || user_id@ == actor_id@) && target is None) ==> (r matches Err(AppError::NotFound(_)))
                &&& (actor is Some && (manages(actor) || user_id@ == actor_id@) && target == Some(TeamRole::Owner)) ==> (r matches Err(AppError::BadRequest(_)))
                &&& r is Ok <==> (actor is Some && (manages(actor) || user_id@ == actor_id@) && target is Some && target != Some(TeamRole::Owner))
            }),
            r is Ok ==> role_in(final(self).members_view(), team_id@, user_id@) is None,
            r is Err ==> final(self).members_view() == old(self).members_view(),
    {
        let actor = match self.get_user_role(team_id, actor_id) {
            Some(a) => a,
            None => return Err(AppError::Forbidden("Access denied".to_owned())),
        };
        if actor != TeamRole::Owner && actor != TeamRole::Admin {
            if !str_eq(user_id, actor_id) {
                return Err(AppError::Forbidden("Access denied".to_owned()));
            }
        }
        let target = match self.get_user_role(team_id, user_id) {
            Some(t) => t,
            None => return Err(AppError::NotFound("Member not found".to_owned())),
        };
        if target == TeamRole::Owner {
            return Err(AppError::BadRequest("Cannot remove the owner of the team".to_owned()));
        }
        let i = self.member_index(team_id, user_id).unwrap();
        let ghost before = self.members@;
        let _ = self.members.remove(i);
        proof {
            let after = self.members@;
            assert(after =~= before.remove(i as int));
            assert forall|a: int, b: int|
                0 <= a < after.len() && 0 <= b < after.len() && after[a].team_id@ == after[b].team_id@
                    && after[a].user_id@ == after[b].user_id@ implies a == b by {
                let a2 = if a < i { a } else { a + 1 };
                let b2 = if b < i { b } else { b + 1 };
                assert(before[a2] == after[a] && before[b2] == after[b]);
            }
            assert forall|k: int| !member_at(after, team_id@, user_id@, k) by {
                if member_at(after, team_id@, user_id@, k) {
                    let k2 = if k < i { k } else { k + 1 };
                    assert(before[k2] == after[k]);
                }
            }
        }
        Ok(())
    }

    /// Succeeds when `user_id` holds in `team_id` a role ranked at least as
    /// high as `required`; `Forbidden` otherwise.
    pub fn verify_permission(&self, team_id: &str, user_id: &str, required_role: TeamRole) -> (r: Result<(), AppError>)
        requires
            self.wf(),
        ensures
            r is Ok <==> (role_in(self.members_view(), team_id@, user_id@) matches Some(role) && rank(role) >= rank(required_role)),
            r matches Err(e) ==> e is Forbidden,
    {
        let role = match self.get_user_role(team_id, user_id) {
            Some(r) => r,
            None => return Err(AppError::Forbidden("Access denied".to_owned())),
        };
        if role.priority() < required_role.priority() {
            return Err(AppError::Forbidden("Access denied".to_owned()));
        }
        Ok(())
    }
}

} // verus!
