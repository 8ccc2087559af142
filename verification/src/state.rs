//! The state of the workspace: four stores of records, each kept in the order
//! in which its records were first stored and looked up by key.
//!
//! As mathematics a store is the sequence of its records. What is looked up
//! in it is a map, from the key to the record found under the key
//! (`user_map`, `team_map`, `project_map`, `invite_map`); the operations say
//! both what they do to the sequence and what they do to the map.
//!
//! In a well-formed state no two users share a principal or a username, no
//! two teams, projects or invitations share an identifier, and nobody is
//! listed twice among the members of one team or project.

use crate::keys::{as_map, find, lemma_find, lemma_first_at, lemma_not_found};
use crate::trusted::same_principal;
use crate::types::{
    Invite, InviteView, Project, ProjectMember, ProjectView, Team, TeamMember, TeamView, User,
    UserView,
};
use candid::Principal;
use vstd::prelude::*;

verus! {

/// The views of users, in order.
pub open spec fn user_views(users: Seq<User>) -> Seq<UserView> {
    Seq::new(users.len(), |i: int| users[i]@)
}

/// The views of teams, in order.
pub open spec fn team_views(teams: Seq<Team>) -> Seq<TeamView> {
    Seq::new(teams.len(), |i: int| teams[i]@)
}

/// The views of projects, in order.
pub open spec fn project_views(projects: Seq<Project>) -> Seq<ProjectView> {
    Seq::new(projects.len(), |i: int| projects[i]@)
}

/// The views of invitations, in order.
pub open spec fn invite_views(invites: Seq<Invite>) -> Seq<InviteView> {
    Seq::new(invites.len(), |i: int| invites[i]@)
}

/// The principals of the members of a team, in order.
pub open spec fn team_member_ids(members: Seq<TeamMember>) -> Seq<Principal> {
    Seq::new(members.len(), |i: int| members[i].principal)
}

/// The principals of the members of a project, in order.
pub open spec fn project_member_ids(members: Seq<ProjectMember>) -> Seq<Principal> {
    Seq::new(members.len(), |i: int| members[i].principal)
}

/// The state as mathematics: each store is the sequence of the views of its
/// records.
pub struct StateView {
    pub users: Seq<UserView>,
    pub teams: Seq<TeamView>,
    pub projects: Seq<ProjectView>,
    pub invites: Seq<InviteView>,
}

/// What an operation leaves behind: the state after it, and what it returned.
pub struct Outcome<T> {
    pub state: StateView,
    pub result: T,
}

impl StateView {
    /// The state in which nothing is stored.
    pub open spec fn empty() -> StateView {
        StateView {
            users: Seq::empty(),
            teams: Seq::empty(),
            projects: Seq::empty(),
            invites: Seq::empty(),
        }
    }

    /// The keys of the user store.
    pub open spec fn principals(self) -> Seq<Principal> {
        Seq::new(self.users.len(), |i: int| self.users[i].principal)
    }

    /// The usernames in use, in the order of the user store.
    pub open spec fn usernames(self) -> Seq<Seq<char>> {
        Seq::new(self.users.len(), |i: int| self.users[i].profile.username)
    }

    /// The keys of the team store.
    pub open spec fn team_ids(self) -> Seq<Seq<char>> {
        Seq::new(self.teams.len(), |i: int| self.teams[i].id)
    }

    /// The keys of the project store.
    pub open spec fn project_ids(self) -> Seq<Seq<char>> {
        Seq::new(self.projects.len(), |i: int| self.projects[i].id)
    }

    /// The keys of the invitation store.
    pub open spec fn invite_ids(self) -> Seq<Seq<char>> {
        Seq::new(self.invites.len(), |i: int| self.invites[i].id)
    }

    /// Where the user with this principal is stored, if there is one.
    pub open spec fn find_user(self, p: Principal) -> Option<int> {
        find(self.principals(), p)
    }

    /// Whether the principal is registered.
    pub open spec fn has_user(self, p: Principal) -> bool {
        self.user_map().contains_key(p)
    }

    /// The record of a registered principal.
    pub open spec fn user(self, p: Principal) -> UserView {
        self.user_map()[p]
    }

    /// Whether a team is stored under the identifier.
    pub open spec fn has_team(self, id: Seq<char>) -> bool {
        self.team_map().contains_key(id)
    }

    /// The team stored under the identifier.
    pub open spec fn team(self, id: Seq<char>) -> TeamView {
        self.team_map()[id]
    }

    /// Whether a project is stored under the identifier.
    pub open spec fn has_project(self, id: Seq<char>) -> bool {
        self.project_map().contains_key(id)
    }

    /// The project stored under the identifier.
    pub open spec fn project(self, id: Seq<char>) -> ProjectView {
        self.project_map()[id]
    }

    /// Whether an invitation is stored under the identifier.
    pub open spec fn has_invite(self, id: Seq<char>) -> bool {
        self.invite_map().contains_key(id)
    }

    /// The invitation stored under the identifier.
    pub open spec fn invite(self, id: Seq<char>) -> InviteView {
        self.invite_map()[id]
    }

    /// Whether some user has this username, compared character by character.
    pub open spec fn username_taken(self, name: Seq<char>) -> bool {
        self.usernames().contains(name)
    }

    /// Whether some user other than `p` has this username. The record of `p`
    /// itself does not count: a name is not taken from its holder.
    pub open spec fn username_taken_by_another(self, p: Principal, name: Seq<char>) -> bool {
        exists|i: int|
            0 <= i < self.users.len() && #[trigger] self.usernames()[i] == name
                && self.principals()[i] != p
    }

    /// Where the team with this identifier is stored, if there is one.
    pub open spec fn find_team(self, id: Seq<char>) -> Option<int> {
        find(self.team_ids(), id)
    }

    /// Where the project with this identifier is stored, if there is one.
    pub open spec fn find_project(self, id: Seq<char>) -> Option<int> {
        find(self.project_ids(), id)
    }

    /// Where the invitation with this identifier is stored, if there is one.
    pub open spec fn find_invite(self, id: Seq<char>) -> Option<int> {
        find(self.invite_ids(), id)
    }

    /// The users by principal.
    pub open spec fn user_map(self) -> Map<Principal, UserView> {
        as_map(self.principals(), self.users)
    }

    /// The teams by identifier.
    pub open spec fn team_map(self) -> Map<Seq<char>, TeamView> {
        as_map(self.team_ids(), self.teams)
    }

    /// The projects by identifier.
    pub open spec fn project_map(self) -> Map<Seq<char>, ProjectView> {
        as_map(self.project_ids(), self.projects)
    }

    /// The invitations by identifier.
    pub open spec fn invite_map(self) -> Map<Seq<char>, InviteView> {
        as_map(self.invite_ids(), self.invites)
    }

    /// The invariant of the state: principals, usernames and identifiers are
    /// unique in their stores, and nobody is listed twice among the members
    /// of one team or project.
    pub open spec fn wf(self) -> bool {
        &&& self.principals().no_duplicates()
        &&& self.usernames().no_duplicates()
        &&& self.team_ids().no_duplicates()
        &&& self.project_ids().no_duplicates()
        &&& self.invite_ids().no_duplicates()
        &&& forall|i: int|
            0 <= i < self.teams.len() ==> team_member_ids(
                #[trigger] self.teams[i].members,
            ).no_duplicates()
        &&& forall|i: int|
            0 <= i < self.projects.len() ==> project_member_ids(
                #[trigger] self.projects[i].members,
            ).no_duplicates()
    }

    /// The state with one more user at the end of the user store.
    pub open spec fn add_user(self, user: UserView) -> StateView {
        StateView { users: self.users.push(user), ..self }
    }

    /// The state with the user at position `i` replaced.
    pub open spec fn set_user(self, i: int, user: UserView) -> StateView {
        StateView { users: self.users.update(i, user), ..self }
    }

    /// The state after storing a team under its identifier: a team stored
    /// under that identifier before is replaced where it stands, a new one
    /// comes last.
    pub open spec fn put_team(self, team: TeamView) -> StateView {
        if self.has_team(team.id) {
            self.set_team(self.find_team(team.id)->0, team)
        } else {
            StateView { teams: self.teams.push(team), ..self }
        }
    }

    /// The state with the team at position `i` replaced.
    pub open spec fn set_team(self, i: int, team: TeamView) -> StateView {
        StateView { teams: self.teams.update(i, team), ..self }
    }

    /// The state without the team at position `i`.
    pub open spec fn drop_team(self, i: int) -> StateView {
        StateView { teams: self.teams.remove(i), ..self }
    }

    /// The state after storing a project under its identifier.
    pub open spec fn put_project(self, project: ProjectView) -> StateView {
        if self.has_project(project.id) {
            self.set_project(self.find_project(project.id)->0, project)
        } else {
            StateView { projects: self.projects.push(project), ..self }
        }
    }

    /// The state with the project at position `i` replaced.
    pub open spec fn set_project(self, i: int, project: ProjectView) -> StateView {
        StateView { projects: self.projects.update(i, project), ..self }
    }

    /// The state without the project at position `i`.
    pub open spec fn drop_project(self, i: int) -> StateView {
        StateView { projects: self.projects.remove(i), ..self }
    }

    /// The state after storing an invitation under its identifier.
    pub open spec fn put_invite(self, invite: InviteView) -> StateView {
        if self.has_invite(invite.id) {
            self.set_invite(self.find_invite(invite.id)->0, invite)
        } else {
            StateView { invites: self.invites.push(invite), ..self }
        }
    }

    /// The state with the invitation at position `i` replaced.
    pub open spec fn set_invite(self, i: int, invite: InviteView) -> StateView {
        StateView { invites: self.invites.update(i, invite), ..self }
    }
}

/// The whole state of the workspace. It is made empty and changed only by
/// the operations of this crate, each of which keeps it well formed.
///
/// Each store is a vector that is searched by key. The keys are text and
/// principals, and of a hash map with such keys nothing could be proved: not
/// even that it holds what was just put into it.
pub struct State {
    pub(crate) users: Vec<User>,
    pub(crate) teams: Vec<Team>,
    pub(crate) projects: Vec<Project>,
    pub(crate) invites: Vec<Invite>,
}

impl View for State {
    type V = StateView;

    open(crate) spec fn view(&self) -> StateView {
        StateView {
            users: user_views(self.users@),
            teams: team_views(self.teams@),
            projects: project_views(self.projects@),
            invites: invite_views(self.invites@),
        }
    }
}

impl State {
    /// The invariant of the state, stated of its view.
    pub open spec fn wf(&self) -> bool {
        self@.wf()
    }

    /// The state in which nothing is stored.
    pub fn new() -> (state: State)
        ensures
            state.wf(),
            state@ == StateView::empty(),
    {
        let state = State {
            users: Vec::new(),
            teams: Vec::new(),
            projects: Vec::new(),
            invites: Vec::new(),
        };
        assert(state@.users =~= Seq::empty());
        assert(state@.teams =~= Seq::empty());
        assert(state@.projects =~= Seq::empty());
        assert(state@.invites =~= Seq::empty());
        state
    }

    /// Every user, in the order of registration. This is the store itself,
    /// for whoever keeps the state; what a caller is shown is `get_users`.
    pub fn users(&self) -> (users: &Vec<User>)
        ensures
            user_views(users@) == self@.users,
    {
        &self.users
    }

    /// Every team, in the order in which the teams were first stored. This is
    /// the store itself; what a caller is shown is `get_team` and the lists.
    pub fn teams(&self) -> (teams: &Vec<Team>)
        ensures
            team_views(teams@) == self@.teams,
    {
        &self.teams
    }

    /// Every project, in the order in which the projects were first stored.
    /// This is the store itself; what a caller is shown is `get_project` and
    /// the lists.
    pub fn projects(&self) -> (projects: &Vec<Project>)
        ensures
            project_views(projects@) == self@.projects,
    {
        &self.projects
    }

    /// Every invitation, in the order in which they were first stored. This
    /// is the store itself; what a caller is shown is `get_invites`.
    pub fn invites(&self) -> (invites: &Vec<Invite>)
        ensures
            invite_views(invites@) == self@.invites,
    {
        &self.invites
    }

    /// Whether the principal is registered.
    pub fn user_exists(&self, p: &Principal) -> (known: bool)
        ensures
            known == self@.has_user(*p),
            known == self@.principals().contains(*p),
    {
        proof {
            lemma_find(self@.principals(), *p);
        }
        self.find_user(p).is_some()
    }

    /// Where the user with this principal is stored.
    pub(crate) fn find_user(&self, p: &Principal) -> (found: Option<usize>)
        ensures
            match found {
                Some(i) => self@.find_user(*p) == Some(i as int) && i < self.users@.len(),
                None => self@.find_user(*p) is None,
            },
    {
        let ghost keys = self@.principals();
        let mut i: usize = 0;
        while i < self.users.len()
            invariant
                i <= self.users@.len(),
                keys == self@.principals(),
                forall|j: int| 0 <= j < i ==> keys[j] != *p,
            decreases self.users@.len() - i,
        {
            if same_principal(&self.users[i].principal, p) {
                proof {
                    lemma_first_at(keys, *p, i as int);
                }
                return Some(i);
            }
            i += 1;
        }
        proof {
            lemma_not_found(keys, *p);
        }
        None
    }

    /// Whether some user other than `p` has this username.
    pub(crate) fn username_taken_by_another(&self, p: &Principal, name: &String) -> (taken: bool)
        ensures
            taken == self@.username_taken_by_another(*p, name@),
    {
        let ghost names = self@.usernames();
        let ghost holders = self@.principals();
        let mut i: usize = 0;
        while i < self.users.len()
            invariant
                i <= self.users@.len(),
                names == self@.usernames(),
                holders == self@.principals(),
                forall|j: int| 0 <= j < i ==> !(#[trigger] names[j] == name@ && holders[j] != *p),
            decreases self.users@.len() - i,
        {
            if !same_principal(&self.users[i].principal, p) && self.users[i].profile.username
                == *name {
                assert(names[i as int] == name@ && holders[i as int] != *p);
                return true;
            }
            i += 1;
        }
        false
    }

    /// Where the team with this identifier is stored.
    pub(crate) fn find_team(&self, id: &String) -> (found: Option<usize>)
        ensures
            match found {
                Some(i) => self@.find_team(id@) == Some(i as int) && i < self.teams@.len(),
                None => self@.find_team(id@) is None,
            },
    {
        let ghost keys = self@.team_ids();
        let mut i: usize = 0;
        while i < self.teams.len()
            invariant
                i <= self.teams@.len(),
                keys == self@.team_ids(),
                forall|j: int| 0 <= j < i ==> keys[j] != id@,
            decreases self.teams@.len() - i,
        {
            if self.teams[i].id == *id {
                proof {
                    lemma_first_at(keys, id@, i as int);
                }
                return Some(i);
            }
            i += 1;
        }
        proof {
            lemma_not_found(keys, id@);
        }
        None
    }

    /// Where the project with this identifier is stored.
    pub(crate) fn find_project(&self, id: &String) -> (found: Option<usize>)
        ensures
            match found {
                Some(i) => self@.find_project(id@) == Some(i as int) && i < self.projects@.len(),
                None => self@.find_project(id@) is None,
            },
    {
        let ghost keys = self@.project_ids();
        let mut i: usize = 0;
        while i < self.projects.len()
            invariant
                i <= self.projects@.len(),
                keys == self@.project_ids(),
                forall|j: int| 0 <= j < i ==> keys[j] != id@,
            decreases self.projects@.len() - i,
        {
            if self.projects[i].id == *id {
                proof {
                    lemma_first_at(keys, id@, i as int);
                }
                return Some(i);
            }
            i += 1;
        }
        proof {
            lemma_not_found(keys, id@);
        }
        None
    }

    /// Where the invitation with this identifier is stored.
    pub(crate) fn find_invite(&self, id: &String) -> (found: Option<usize>)
        ensures
            match found {
                Some(i) => self@.find_invite(id@) == Some(i as int) && i < self.invites@.len(),
                None => self@.find_invite(id@) is None,
            },
    {
        let ghost keys = self@.invite_ids();
        let mut i: usize = 0;
        while i < self.invites.len()
            invariant
                i <= self.invites@.len(),
                keys == self@.invite_ids(),
                forall|j: int| 0 <= j < i ==> keys[j] != id@,
            decreases self.invites@.len() - i,
        {
            if self.invites[i].id == *id {
                proof {
                    lemma_first_at(keys, id@, i as int);
                }
                return Some(i);
            }
            i += 1;
        }
        proof {
            lemma_not_found(keys, id@);
        }
        None
    }
}

} // verus!
