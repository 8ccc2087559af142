//! Histories: what the state is after any sequence of calls, and what holds
//! of it however long the sequence.

use crate::invite::{lemma_put_invite_wf, lemma_set_invite_wf};
use crate::keys::{lemma_find, lemma_first_at};
use crate::project::{
    lemma_drop_project_wf, lemma_joined_project_unique, lemma_left_project_unique,
    lemma_put_project_wf, lemma_set_project_wf,
};
use crate::state::{project_member_ids, team_member_ids, StateView};
use crate::team::{
    lemma_drop_team_wf, lemma_joined_unique, lemma_left_unique, lemma_put_team_wf,
    lemma_set_team_wf,
};
use crate::types::{
    InviteStatus, InviteTargetView, InviteView, OwnerView, ProjectUpdateView, ProjectView, Role,
    TeamUpdateView, TeamView, ThemePreferencesView, Timestamp, UserProfileUpdateView,
    UserProfileView, UserView,
};
use crate::user::{lemma_add_user_wf, lemma_set_user_wf, valid_username};
use candid::Principal;
use vstd::prelude::*;

verus! {

/// One call that may change the state, with its arguments as mathematics.
pub enum Call {
    CreateUser { caller: Principal, now: Timestamp, profile: UserProfileView },
    UpdateProfile {
        caller: Principal,
        now: Timestamp,
        principal: Principal,
        profile_update: UserProfileUpdateView,
    },
    UpdateThemePreferences { caller: Principal, now: Timestamp, theme: ThemePreferencesView },
    UpdateUsername { caller: Principal, now: Timestamp, principal: Principal, username: Seq<char> },
    CreateTeam {
        caller: Principal,
        now: Timestamp,
        id: Seq<char>,
        name: Seq<char>,
        description: Seq<char>,
        is_public: bool,
    },
    UpdateTeam { caller: Principal, now: Timestamp, id: Seq<char>, team_update: TeamUpdateView },
    DeleteTeam { caller: Principal, id: Seq<char> },
    AddUserToTeam { now: Timestamp, id: Seq<char>, principal: Principal, role: Role },
    RemoveUserFromTeam { now: Timestamp, id: Seq<char>, principal: Principal },
    CreateProject {
        caller: Principal,
        now: Timestamp,
        id: Seq<char>,
        name: Seq<char>,
        description: Seq<char>,
        owner: OwnerView,
    },
    UpdateProject {
        caller: Principal,
        now: Timestamp,
        id: Seq<char>,
        project_update: ProjectUpdateView,
    },
    DeleteProject { caller: Principal, id: Seq<char> },
    TransferOwnership { caller: Principal, now: Timestamp, id: Seq<char>, new_owner: OwnerView },
    AddUserToProject { now: Timestamp, id: Seq<char>, principal: Principal, role: Role },
    RemoveUserFromProject { now: Timestamp, id: Seq<char>, principal: Principal },
    InviteUser {
        caller: Principal,
        now: Timestamp,
        id: Seq<char>,
        target: InviteTargetView,
        role: Role,
        invited: Principal,
    },
    AcceptInvite { caller: Principal, now: Timestamp, id: Seq<char> },
    DeclineInvite { caller: Principal, id: Seq<char> },
    CancelInvite { caller: Principal, id: Seq<char> },
    RemoveMember {
        caller: Principal,
        now: Timestamp,
        target: InviteTargetView,
        principal: Principal,
    },
}

impl StateView {
    /// The state after one call, whether the call succeeds or fails.
    pub open spec fn after(self, call: Call) -> StateView {
        match call {
            Call::CreateUser { caller, now, profile } => self.create_user(
                caller,
                now,
                profile,
            ).state,
            Call::UpdateProfile { caller, now, principal, profile_update } => self.update_profile(
                caller,
                now,
                principal,
                profile_update,
            ).state,
            Call::UpdateThemePreferences { caller, now, theme } => self.update_theme_preferences(
                caller,
                now,
                theme,
            ).state,
            Call::UpdateUsername { caller, now, principal, username } => self.update_username(
                caller,
                now,
                principal,
                username,
            ).state,
            Call::CreateTeam { caller, now, id, name, description, is_public } => self.create_team(
                caller,
                now,
                id,
                name,
                description,
                is_public,
            ).state,
            Call::UpdateTeam { caller, now, id, team_update } => self.update_team(
                caller,
                now,
                id,
                team_update,
            ).state,
            Call::DeleteTeam { caller, id } => self.delete_team(caller, id).state,
            Call::AddUserToTeam { now, id, principal, role } => self.add_user_to_team(
                now,
                id,
                principal,
                role,
            ).state,
            Call::RemoveUserFromTeam { now, id, principal } => self.remove_user_from_team(
                now,
                id,
                principal,
            ).state,
            Call::CreateProject { caller, now, id, name, description, owner } => {
                self.create_project(caller, now, id, name, description, owner).state
            },
            Call::UpdateProject { caller, now, id, project_update } => self.update_project(
                caller,
                now,
                id,
                project_update,
            ).state,
            Call::DeleteProject { caller, id } => self.delete_project(caller, id).state,
            Call::TransferOwnership { caller, now, id, new_owner } => self.transfer_ownership(
                caller,
                now,
                id,
                new_owner,
            ).state,
            Call::AddUserToProject { now, id, principal, role } => self.add_user_to_project(
                now,
                id,
                principal,
                role,
            ).state,
            Call::RemoveUserFromProject { now, id, principal } => self.remove_user_from_project(
                now,
                id,
                principal,
            ).state,
            Call::InviteUser { caller, now, id, target, role, invited } => self.invite_user(
                caller,
                now,
                id,
                target,
                role,
                invited,
            ).state,
            Call::AcceptInvite { caller, now, id } => self.accept_invite(caller, now, id).state,
            Call::DeclineInvite { caller, id } => self.decline_invite(caller, id).state,
            Call::CancelInvite { caller, id } => self.cancel_invite(caller, id).state,
            Call::RemoveMember { caller, now, target, principal } => self.remove_member(
                caller,
                now,
                target,
                principal,
            ).state,
        }
    }

    /// The state after a sequence of calls, made one after the other.
    pub open spec fn after_all(self, calls: Seq<Call>) -> StateView
        decreases calls.len(),
    {
        if calls.len() == 0 {
            self
        } else {
            self.after_all(calls.drop_last()).after(calls.last())
        }
    }
}

/// Enrolment in a team keeps the state well formed.
proof fn lemma_add_user_to_team_wf(
    s: StateView,
    now: Timestamp,
    id: Seq<char>,
    p: Principal,
    role: Role,
)
    requires
        s.wf(),
    ensures
        s.add_user_to_team(now, id, p, role).state.wf(),
{
    lemma_find(s.team_ids(), id);
    if s.add_user_to_team(now, id, p, role).result is Ok {
        let i = s.find_team(id)->0;
        lemma_joined_unique(s.teams[i], p, role, now);
        lemma_set_team_wf(s, i, s.teams[i].joined(p, role, now));
    }
}

/// Enrolment in a project keeps the state well formed.
proof fn lemma_add_user_to_project_wf(
    s: StateView,
    now: Timestamp,
    id: Seq<char>,
    p: Principal,
    role: Role,
)
    requires
        s.wf(),
    ensures
        s.add_user_to_project(now, id, p, role).state.wf(),
{
    lemma_find(s.project_ids(), id);
    if s.add_user_to_project(now, id, p, role).result is Ok {
        let i = s.find_project(id)->0;
        lemma_joined_project_unique(s.projects[i], p, role, now);
        lemma_set_project_wf(s, i, s.projects[i].joined(p, role, now));
    }
}

/// Removal from a team keeps the state well formed.
proof fn lemma_remove_user_from_team_wf(s: StateView, now: Timestamp, id: Seq<char>, p: Principal)
    requires
        s.wf(),
    ensures
        s.remove_user_from_team(now, id, p).state.wf(),
{
    lemma_find(s.team_ids(), id);
    if let Some(i) = s.find_team(id) {
        lemma_left_unique(s.teams[i], p, now);
        lemma_set_team_wf(s, i, s.teams[i].left(p, now));
    }
}

/// Removal from a project keeps the state well formed.
proof fn lemma_remove_user_from_project_wf(
    s: StateView,
    now: Timestamp,
    id: Seq<char>,
    p: Principal,
)
    requires
        s.wf(),
    ensures
        s.remove_user_from_project(now, id, p).state.wf(),
{
    lemma_find(s.project_ids(), id);
    if let Some(i) = s.find_project(id) {
        lemma_left_project_unique(s.projects[i], p, now);
        lemma_set_project_wf(s, i, s.projects[i].left(p, now));
    }
}

/// Whatever is called, with whatever arguments, a well-formed state stays
/// well formed: usernames, principals and identifiers stay unique, and
/// nobody is listed twice among the members of a team or project.
pub proof fn every_call_keeps_the_state_well_formed(s: StateView, call: Call)
    requires
        s.wf(),
    ensures
        s.after(call).wf(),
{
    match call {
        Call::CreateUser { caller, now, profile } => {
            if s.create_user(caller, now, profile).result is Ok {
                lemma_add_user_wf(
                    s,
                    UserView { principal: caller, profile, created_at: now, updated_at: now },
                );
            }
        },
        Call::UpdateProfile { caller, now, principal, profile_update } => {
            lemma_find(s.principals(), principal);
            if s.update_profile(caller, now, principal, profile_update).result is Ok {
                let i = s.find_user(principal)->0;
                lemma_set_user_wf(s, i, s.users[i].revised(profile_update, now));
            }
        },
        Call::UpdateThemePreferences { caller, now, theme } => {
            lemma_find(s.principals(), caller);
            if let Some(i) = s.find_user(caller) {
                lemma_set_user_wf(s, i, s.users[i].themed(theme, now));
            }
        },
        Call::UpdateUsername { caller, now, principal, username } => {
            lemma_find(s.principals(), principal);
            if s.update_username(caller, now, principal, username).result is Ok {
                let i = s.find_user(principal)->0;
                lemma_set_user_wf(s, i, s.users[i].renamed(username, now));
            }
        },
        Call::CreateTeam { caller, now, id, name, description, is_public } => {
            let team = TeamView::founded(id, name, description, is_public, caller, now);
            assert(team_member_ids(team.members) =~= seq![caller]);
            lemma_put_team_wf(s, team);
        },
        Call::UpdateTeam { caller, now, id, team_update } => {
            lemma_find(s.team_ids(), id);
            if let Some(i) = s.find_team(id) {
                lemma_set_team_wf(s, i, s.teams[i].revised(team_update, now));
            }
        },
        Call::DeleteTeam { caller, id } => {
            lemma_find(s.team_ids(), id);
            if let Some(i) = s.find_team(id) {
                lemma_drop_team_wf(s, i);
            }
        },
        Call::AddUserToTeam { now, id, principal, role } => {
            lemma_add_user_to_team_wf(s, now, id, principal, role);
        },
        Call::RemoveUserFromTeam { now, id, principal } => {
            lemma_remove_user_from_team_wf(s, now, id, principal);
        },
        Call::CreateProject { caller, now, id, name, description, owner } => {
            let project = ProjectView::founded(id, name, description, owner, now);
            assert(project_member_ids(project.members) =~= Seq::empty());
            lemma_put_project_wf(s, project);
        },
        Call::UpdateProject { caller, now, id, project_update } => {
            lemma_find(s.project_ids(), id);
            if let Some(i) = s.find_project(id) {
                lemma_set_project_wf(s, i, s.projects[i].revised(project_update, now));
            }
        },
        Call::DeleteProject { caller, id } => {
            lemma_find(s.project_ids(), id);
            if let Some(i) = s.find_project(id) {
                lemma_drop_project_wf(s, i);
            }
        },
        Call::TransferOwnership { caller, now, id, new_owner } => {
            lemma_find(s.project_ids(), id);
            if let Some(i) = s.find_project(id) {
                lemma_set_project_wf(s, i, s.projects[i].handed_to(new_owner, now));
            }
        },
        Call::AddUserToProject { now, id, principal, role } => {
            lemma_add_user_to_project_wf(s, now, id, principal, role);
        },
        Call::RemoveUserFromProject { now, id, principal } => {
            lemma_remove_user_from_project_wf(s, now, id, principal);
        },
        Call::InviteUser { caller, now, id, target, role, invited } => {
            lemma_put_invite_wf(
                s,
                InviteView::issued(id, target, role, caller, invited, now),
            );
        },
        Call::AcceptInvite { caller, now, id } => {
            lemma_find(s.invite_ids(), id);
            if s.accept_invite(caller, now, id).result is Ok {
                let i = s.find_invite(id)->0;
                let invite = s.invites[i];
                let joined = s.join(now, invite.target, caller, invite.role);
                match invite.target {
                    InviteTargetView::Team(team_id) => {
                        lemma_add_user_to_team_wf(s, now, team_id, caller, invite.role);
                    },
                    InviteTargetView::Project(project_id) => {
                        lemma_add_user_to_project_wf(s, now, project_id, caller, invite.role);
                    },
                }
                assert(joined.state.invites == s.invites);
                lemma_set_invite_wf(joined.state, i, invite.resolved(InviteStatus::Accepted));
            }
        },
        Call::DeclineInvite { caller, id } => {
            lemma_find(s.invite_ids(), id);
            if s.decline_invite(caller, id).result is Ok {
                let i = s.find_invite(id)->0;
                lemma_set_invite_wf(s, i, s.invites[i].resolved(InviteStatus::Declined));
            }
        },
        Call::CancelInvite { caller, id } => {
            lemma_find(s.invite_ids(), id);
            if s.cancel_invite(caller, id).result is Ok {
                let i = s.find_invite(id)->0;
                lemma_set_invite_wf(s, i, s.invites[i].resolved(InviteStatus::Cancelled));
            }
        },
        Call::RemoveMember { caller, now, target, principal } => {
            match target {
                InviteTargetView::Team(team_id) => {
                    lemma_remove_user_from_team_wf(s, now, team_id, principal);
                },
                InviteTargetView::Project(project_id) => {
                    lemma_remove_user_from_project_wf(s, now, project_id, principal);
                },
            }
        },
    }
}

/// After any sequence of calls on the empty state, the state is well formed.
/// In particular no two users share a username, at any point of any history.
pub proof fn every_history_is_well_formed(calls: Seq<Call>)
    ensures
        StateView::empty().after_all(calls).wf(),
        StateView::empty().after_all(calls).usernames().no_duplicates(),
    decreases calls.len(),
{
    if calls.len() == 0 {
        let e = StateView::empty();
        assert(e.principals() =~= Seq::empty());
        assert(e.usernames() =~= Seq::empty());
        assert(e.team_ids() =~= Seq::empty());
        assert(e.project_ids() =~= Seq::empty());
        assert(e.invite_ids() =~= Seq::empty());
    } else {
        every_history_is_well_formed(calls.drop_last());
        every_call_keeps_the_state_well_formed(
            StateView::empty().after_all(calls.drop_last()),
            calls.last(),
        );
    }
}

/// Whatever is called, every username in use stays valid: not blank, and no
/// longer than the limit.
pub proof fn every_call_keeps_usernames_valid(s: StateView, call: Call)
    requires
        s.usernames_valid(),
    ensures
        s.after(call).usernames_valid(),
{
    let t = s.after(call);
    assert forall|j: int| 0 <= j < t.users.len() implies valid_username(
        #[trigger] t.users[j].profile.username,
    ) by {
        match call {
            Call::CreateUser { caller, now, profile } => {
                if j < s.users.len() {
                    assert(t.users[j] == s.users[j]);
                }
            },
            Call::UpdateProfile { caller, now, principal, profile_update } => {
                lemma_find(s.principals(), principal);
                assert(valid_username(s.users[j].profile.username));
            },
            Call::UpdateThemePreferences { caller, now, theme } => {
                lemma_find(s.principals(), caller);
                assert(valid_username(s.users[j].profile.username));
            },
            Call::UpdateUsername { caller, now, principal, username } => {
                lemma_find(s.principals(), principal);
                assert(valid_username(s.users[j].profile.username));
            },
            _ => {
                assert(t.users == s.users);
            },
        }
    }
}

/// After any sequence of calls on the empty state, every username in use is
/// valid.
pub proof fn every_history_has_valid_usernames(calls: Seq<Call>)
    ensures
        StateView::empty().after_all(calls).usernames_valid(),
    decreases calls.len(),
{
    if calls.len() > 0 {
        every_history_has_valid_usernames(calls.drop_last());
        every_call_keeps_usernames_valid(
            StateView::empty().after_all(calls.drop_last()),
            calls.last(),
        );
    }
}

/// Users are never removed: whoever is registered stays registered, under
/// the same principal and at the same place, whatever is called.
pub proof fn users_are_never_removed(s: StateView, call: Call, p: Principal)
    requires
        s.wf(),
        s.has_user(p),
    ensures
        s.after(call).has_user(p),
        s.after(call).find_user(p) == s.find_user(p),
        s.after(call).principals().len() >= s.principals().len(),
{
    let t = s.after(call);
    lemma_find(s.principals(), p);
    let i = s.find_user(p)->0;
    match call {
        Call::CreateUser { caller, now, profile } => {
            if s.create_user(caller, now, profile).result is Ok {
                assert(t.principals() =~= s.principals().push(caller));
                assert(t.principals()[i] == p);
                lemma_first_at(t.principals(), p, i);
            }
        },
        Call::UpdateProfile { caller, now, principal, profile_update } => {
            lemma_find(s.principals(), principal);
            assert(t.principals() =~= s.principals());
        },
        Call::UpdateThemePreferences { caller, now, theme } => {
            lemma_find(s.principals(), caller);
            assert(t.principals() =~= s.principals());
        },
        Call::UpdateUsername { caller, now, principal, username } => {
            lemma_find(s.principals(), principal);
            assert(t.principals() =~= s.principals());
        },
        _ => {
            assert(t.users == s.users);
        },
    }
}

/// A resolved invitation is never reopened and never changed: whatever is
/// called, it stays under its identifier as it is. The one exception is the
/// issue of a new invitation under the same identifier, which replaces it.
pub proof fn resolved_invitations_are_never_reopened(s: StateView, call: Call, id: Seq<char>)
    requires
        s.wf(),
        s.has_invite(id),
        !s.invite(id).is_open(),
        !(call is InviteUser && call->InviteUser_id == id),
    ensures
        s.after(call).has_invite(id),
        s.after(call).invite(id) == s.invite(id),
        s.after(call).find_invite(id) == s.find_invite(id),
{
    let t = s.after(call);
    let ids = s.invite_ids();
    lemma_find(ids, id);
    let i = s.find_invite(id)->0;
    assert forall|j: int| 0 <= j < ids.len() && j != i implies ids[j] != id by {
        assert(ids[i] == id);
    }
    match call {
        Call::InviteUser { caller, now, id: used, target, role, invited } => {
            lemma_find(ids, used);
            let issued = InviteView::issued(used, target, role, caller, invited, now);
            if s.invite_user(caller, now, used, target, role, invited).result is Ok {
                match s.find_invite(used) {
                    Some(j) => {
                        lemma_set_invite_wf(s, j, issued);
                    },
                    None => {
                        assert(t.invite_ids() =~= ids.push(used));
                        lemma_first_at(t.invite_ids(), id, i);
                    },
                }
            }
        },
        Call::AcceptInvite { caller, now, id: used } => {
            lemma_find(ids, used);
            if s.accept_invite(caller, now, used).result is Ok {
                let j = s.find_invite(used)->0;
                let invite = s.invites[j];
                let joined = s.join(now, invite.target, caller, invite.role);
                assert(joined.state.invites == s.invites);
                assert(joined.state.invite_ids() =~= ids);
                assert(t.invite_ids() =~= ids);
            }
        },
        Call::DeclineInvite { caller, id: used } => {
            lemma_find(ids, used);
            if s.decline_invite(caller, used).result is Ok {
                assert(t.invite_ids() =~= ids);
            }
        },
        Call::CancelInvite { caller, id: used } => {
            lemma_find(ids, used);
            if s.cancel_invite(caller, used).result is Ok {
                assert(t.invite_ids() =~= ids);
            }
        },
        _ => {
            assert(t.invites == s.invites);
        },
    }
}

} // verus!
