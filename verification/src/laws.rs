//! What holds of the workspace whatever is asked of it, stated of the
//! operations as mathematics and proved once and for all.

use crate::auth::authorized;
use crate::history::{every_call_keeps_the_state_well_formed, Call};
use crate::invite::{lemma_set_invite_wf, party_to, pending_for, still_open};
use crate::keys::{lemma_filter_twice, lemma_find};
use crate::project::{lemma_put_project_wf, lemma_set_project_wf};
use crate::state::{project_member_ids, StateView};
use crate::team::{lemma_founded_roles, lemma_put_team_wf};
use crate::types::{
    ErrorView, InviteStatus, InviteTargetView, OwnerView, ProjectUpdateView, ProjectView, Role,
    TeamMember, TeamUpdateView, TeamView, ThemePreferencesView, Timestamp,
    UserProfileUpdateView, UserProfileView, UserView,
};
use crate::user::{lemma_set_user_wf, valid_username};
use candid::Principal;
use vstd::prelude::*;

verus! {

/// In a well-formed state no two users share a username or a principal:
/// users stored at different places differ in both.
pub proof fn usernames_are_unique(s: StateView, i: int, j: int)
    requires
        s.wf(),
        0 <= i < s.users.len(),
        0 <= j < s.users.len(),
        i != j,
    ensures
        s.users[i].profile.username != s.users[j].profile.username,
        s.users[i].principal != s.users[j].principal,
{
    assert(s.usernames()[i] != s.usernames()[j]);
    assert(s.principals()[i] != s.principals()[j]);
}

/// Registration and every change of a profile keep the state well formed,
/// and with it the usernames distinct, whether they succeed or fail.
pub proof fn directory_keeps_usernames_unique(
    s: StateView,
    caller: Principal,
    now: Timestamp,
    profile: UserProfileView,
    principal: Principal,
    update: UserProfileUpdateView,
    username: Seq<char>,
    theme: ThemePreferencesView,
)
    requires
        s.wf(),
    ensures
        s.create_user(caller, now, profile).state.wf(),
        s.update_profile(caller, now, principal, update).state.wf(),
        s.update_username(caller, now, principal, username).state.wf(),
        s.update_theme_preferences(caller, now, theme).state.wf(),
        s.create_user(caller, now, profile).state.usernames().no_duplicates(),
        s.update_profile(caller, now, principal, update).state.usernames().no_duplicates(),
        s.update_username(caller, now, principal, username).state.usernames().no_duplicates(),
        s.update_theme_preferences(caller, now, theme).state.usernames().no_duplicates(),
{
    every_call_keeps_the_state_well_formed(s, Call::CreateUser { caller, now, profile });
    every_call_keeps_the_state_well_formed(
        s,
        Call::UpdateProfile { caller, now, principal, profile_update: update },
    );
    every_call_keeps_the_state_well_formed(
        s,
        Call::UpdateUsername { caller, now, principal, username },
    );
    every_call_keeps_the_state_well_formed(s, Call::UpdateThemePreferences { caller, now, theme });
}

/// A team has its creator as its only member, in the role `Owner`, right
/// after its creation.
pub proof fn new_team_has_its_creator_as_owner(
    s: StateView,
    caller: Principal,
    now: Timestamp,
    id: Seq<char>,
    name: Seq<char>,
    description: Seq<char>,
    is_public: bool,
)
    requires
        s.wf(),
        s.create_team(caller, now, id, name, description, is_public).result is Ok,
    ensures
        ({
            let after = s.create_team(caller, now, id, name, description, is_public);
            let team = after.state.team(id);
            &&& after.result == Ok::<Seq<char>, ErrorView>(id)
            &&& after.state.wf()
            &&& after.state.has_team(id)
            &&& team.members == seq![
                TeamMember { principal: caller, role: Role::Owner, joined_at: now },
            ]
            &&& team.members.len() >= 1
            &&& team.role_of(caller) == Some(Role::Owner)
            &&& team.owner_principal == caller
        }),
{
    let team = TeamView::founded(id, name, description, is_public, caller, now);
    lemma_founded_roles(id, name, description, is_public, caller, now);
    lemma_put_team_wf(s, team);
}

/// A project has no members right after its creation, whether a user or a
/// team owns it.
pub proof fn new_project_has_no_members(
    s: StateView,
    caller: Principal,
    now: Timestamp,
    id: Seq<char>,
    name: Seq<char>,
    description: Seq<char>,
    owner: OwnerView,
)
    requires
        s.wf(),
        s.create_project(caller, now, id, name, description, owner).result is Ok,
    ensures
        ({
            let after = s.create_project(caller, now, id, name, description, owner);
            let project = after.state.project(id);
            &&& after.result == Ok::<Seq<char>, ErrorView>(id)
            &&& after.state.wf()
            &&& after.state.has_project(id)
            &&& project.members.len() == 0
            &&& project.owner == owner
        }),
{
    let project = ProjectView::founded(id, name, description, owner, now);
    assert(project_member_ids(project.members) =~= Seq::empty());
    lemma_put_project_wf(s, project);
}

/// An invitation is resolved once. On one that is no longer pending,
/// accepting, declining and cancelling all fail and change nothing, whoever
/// asks; the invited user who accepts or declines, and the inviter who
/// cancels, are told `InviteExpired`.
pub proof fn resolved_invitations_stay_resolved(
    s: StateView,
    caller: Principal,
    now: Timestamp,
    id: Seq<char>,
)
    requires
        s.has_invite(id),
        !s.invite(id).is_open(),
    ensures
        ({
            let accepted = s.accept_invite(caller, now, id);
            let declined = s.decline_invite(caller, id);
            let cancelled = s.cancel_invite(caller, id);
            let expired = Err::<(), ErrorView>(ErrorView::InviteExpired);
            &&& accepted.result is Err && accepted.state == s
            &&& declined.result is Err && declined.state == s
            &&& cancelled.result is Err && cancelled.state == s
            &&& s.has_user(caller) && s.invite(id).invited_user == caller ==> accepted.result
                == expired && declined.result == expired
            &&& s.has_user(caller) && s.invite(id).invited_by == caller ==> cancelled.result
                == expired
        }),
{
}

/// Accepting, declining or cancelling an invitation with success leaves it
/// under its identifier in a terminal status, so that it is never resolved
/// again; and a failed attempt leaves everything as it was.
pub proof fn resolution_is_final(s: StateView, caller: Principal, now: Timestamp, id: Seq<char>)
    requires
        s.wf(),
    ensures
        ({
            let after = s.accept_invite(caller, now, id);
            if after.result is Ok {
                &&& after.state.wf()
                &&& after.state.has_invite(id)
                &&& after.state.invite(id) == s.invite(id).resolved(InviteStatus::Accepted)
            } else {
                after.state == s
            }
        }),
        ({
            let after = s.decline_invite(caller, id);
            if after.result is Ok {
                &&& after.state.wf()
                &&& after.state.has_invite(id)
                &&& after.state.invite(id) == s.invite(id).resolved(InviteStatus::Declined)
            } else {
                after.state == s
            }
        }),
        ({
            let after = s.cancel_invite(caller, id);
            if after.result is Ok {
                &&& after.state.wf()
                &&& after.state.has_invite(id)
                &&& after.state.invite(id) == s.invite(id).resolved(InviteStatus::Cancelled)
            } else {
                after.state == s
            }
        }),
{
    lemma_find(s.invite_ids(), id);
    every_call_keeps_the_state_well_formed(s, Call::AcceptInvite { caller, now, id });
    every_call_keeps_the_state_well_formed(s, Call::DeclineInvite { caller, id });
    every_call_keeps_the_state_well_formed(s, Call::CancelInvite { caller, id });
    let at = s.find_invite(id)->0;
    if s.accept_invite(caller, now, id).result is Ok {
        let invite = s.invite(id);
        let joined = s.join(now, invite.target, caller, invite.role);
        assert(joined.state.invite_ids() =~= s.invite_ids());
        lemma_set_invite_wf(joined.state, at, invite.resolved(InviteStatus::Accepted));
    }
    if s.decline_invite(caller, id).result is Ok {
        lemma_set_invite_wf(s, at, s.invite(id).resolved(InviteStatus::Declined));
    }
    if s.cancel_invite(caller, id).result is Ok {
        lemma_set_invite_wf(s, at, s.invite(id).resolved(InviteStatus::Cancelled));
    }
}

/// Accepting a pending invitation to a team or project of which the invited
/// user is a member already fails and changes nothing, whoever asks: the
/// invitation stays pending and the members stay as they are. The invited
/// user is told `AlreadyExists`.
pub proof fn accepting_as_a_member_changes_nothing(
    s: StateView,
    caller: Principal,
    now: Timestamp,
    id: Seq<char>,
)
    requires
        s.has_invite(id),
        s.invite(id).is_open(),
        match s.invite(id).target {
            InviteTargetView::Team(team_id) => s.has_team(team_id) && s.team(
                team_id,
            ).has_member(s.invite(id).invited_user),
            InviteTargetView::Project(project_id) => s.has_project(project_id) && s.project(
                project_id,
            ).has_member(s.invite(id).invited_user),
        },
    ensures
        ({
            let after = s.accept_invite(caller, now, id);
            &&& after.result is Err
            &&& after.state == s
            &&& after.state.invite(id).status == InviteStatus::Pending
            &&& s.has_user(caller) && caller == s.invite(id).invited_user ==> after.result == Err::<
                (),
                ErrorView,
            >(ErrorView::AlreadyExists)
        }),
{
}

/// Whoever holds a role below `Manager` in a team manages nothing there:
/// updating the team, removing a member from it, and creating a project for
/// it all fail and change nothing.
pub proof fn team_management_needs_a_manager(
    s: StateView,
    caller: Principal,
    now: Timestamp,
    team_id: Seq<char>,
    update: TeamUpdateView,
    member: Principal,
    project_id: Seq<char>,
    name: Seq<char>,
    description: Seq<char>,
)
    requires
        s.has_team(team_id),
        s.team(team_id).has_member(caller),
        !authorized(Role::Manager, s.team(team_id).roles()[caller]),
    ensures
        ({
            let updated = s.update_team(caller, now, team_id, update);
            let removed = s.remove_member(caller, now, InviteTargetView::Team(team_id), member);
            let created = s.create_project(
                caller,
                now,
                project_id,
                name,
                description,
                OwnerView::Team(team_id),
            );
            &&& s.team(team_id).role_of(caller) == Some(Role::Collaborator)
            &&& updated.result == Err::<(), ErrorView>(ErrorView::InsufficientPermissions)
            &&& updated.state == s
            &&& removed.result == Err::<(), ErrorView>(ErrorView::InsufficientPermissions)
            &&& removed.state == s
            &&& created.result is Err && created.state == s
            &&& s.has_user(caller) ==> created.result == Err::<Seq<char>, ErrorView>(
                ErrorView::InsufficientPermissions,
            )
        }),
{
}

/// Whoever holds a role below `Manager` in a project manages nothing there,
/// and whoever holds a role below `Owner` can neither delete the project nor
/// hand it over: each attempt fails and changes nothing.
pub proof fn project_management_needs_the_role(
    s: StateView,
    caller: Principal,
    now: Timestamp,
    project_id: Seq<char>,
    update: ProjectUpdateView,
    member: Principal,
    new_owner: OwnerView,
)
    requires
        s.has_project(project_id),
        s.project(project_id).has_member(caller),
    ensures
        ({
            let role = s.project(project_id).roles()[caller];
            let denied = Err::<(), ErrorView>(ErrorView::InsufficientPermissions);
            let updated = s.update_project(caller, now, project_id, update);
            let removed = s.remove_member(
                caller,
                now,
                InviteTargetView::Project(project_id),
                member,
            );
            let deleted = s.delete_project(caller, project_id);
            let handed = s.transfer_ownership(caller, now, project_id, new_owner);
            &&& !authorized(Role::Manager, role) ==> {
                &&& updated.result == denied && updated.state == s
                &&& removed.result == denied && removed.state == s
            }
            &&& !authorized(Role::Owner, role) ==> {
                &&& deleted.result == denied && deleted.state == s
                &&& handed.result == denied && handed.state == s
            }
        }),
{
}

/// Handing a project over changes the owner that it records and nothing
/// else but the stamp: the members keep their roles, so whoever could delete
/// the project before can delete it after.
pub proof fn handing_over_keeps_the_roles(
    s: StateView,
    caller: Principal,
    now: Timestamp,
    project_id: Seq<char>,
    new_owner: OwnerView,
    anyone: Principal,
)
    requires
        s.wf(),
        s.transfer_ownership(caller, now, project_id, new_owner).result is Ok,
    ensures
        ({
            let after = s.transfer_ownership(caller, now, project_id, new_owner).state;
            &&& after.wf()
            &&& after.has_project(project_id)
            &&& after.project(project_id).owner == new_owner
            &&& after.project(project_id).members == s.project(project_id).members
            &&& after.project(project_id).roles() == s.project(project_id).roles()
            &&& after.delete_project(anyone, project_id).result == s.delete_project(
                anyone,
                project_id,
            ).result
            &&& after.delete_project(caller, project_id).result is Ok
        }),
{
    lemma_find(s.project_ids(), project_id);
    lemma_set_project_wf(
        s,
        s.find_project(project_id)->0,
        s.project(project_id).handed_to(new_owner, now),
    );
}

/// A caller who is not registered is shown nothing: every query answers it
/// with `None` or with an empty list, whatever is stored.
pub proof fn unregistered_callers_are_shown_nothing(
    s: StateView,
    caller: Principal,
    principal: Principal,
    id: Seq<char>,
)
    requires
        !s.has_user(caller),
    ensures
        s.get_user(caller, caller) is None,
        s.get_users(caller).len() == 0,
        s.get_team(caller, id) is None,
        s.get_user_teams(caller, principal).len() == 0,
        s.get_public_teams(caller).len() == 0,
        s.get_project(caller, id) is None,
        s.get_user_projects(caller, principal).len() == 0,
        s.get_team_projects(caller, id).len() == 0,
        s.get_invites(caller, principal).len() == 0,
        s.get_pending_invites(caller, principal).len() == 0,
{
}

/// The pending invitations of a principal are its invitations, sent and
/// received, without those that are resolved, in the same order.
pub proof fn pending_invitations_are_the_open_ones(
    s: StateView,
    caller: Principal,
    principal: Principal,
)
    ensures
        s.get_pending_invites(caller, principal) == s.get_invites(caller, principal).filter(
            still_open(),
        ),
{
    reveal(Seq::filter);
    if s.has_user(caller) && caller == principal {
        lemma_filter_twice(s.invites, party_to(principal), still_open(), pending_for(principal));
    }
}

/// Whoever is no member of a team lacks the permission to act for it,
/// whether the team is public or not: a registered caller who asks for a
/// project of the team, and any caller who asks to change the team or to
/// remove one of its members, is refused with `InsufficientPermissions`.
/// `TeamNotFound` is for a team that does not exist.
pub proof fn strangers_lack_the_permission(
    s: StateView,
    caller: Principal,
    now: Timestamp,
    id: Seq<char>,
    name: Seq<char>,
    description: Seq<char>,
    team_id: Seq<char>,
    update: TeamUpdateView,
    member: Principal,
)
    requires
        s.has_user(caller),
    ensures
        ({
            let owner = OwnerView::Team(team_id);
            let created = s.create_project(caller, now, id, name, description, owner);
            let updated = s.update_team(caller, now, team_id, update);
            let removed = s.remove_member(caller, now, InviteTargetView::Team(team_id), member);
            let denied = ErrorView::InsufficientPermissions;
            let missing = ErrorView::TeamNotFound;
            &&& s.has_team(team_id) && !s.team(team_id).has_member(caller) ==> {
                &&& created.result == Err::<Seq<char>, ErrorView>(denied) && created.state == s
                &&& updated.result == Err::<(), ErrorView>(denied) && updated.state == s
                &&& removed.result == Err::<(), ErrorView>(denied) && removed.state == s
            }
            &&& created.result == Err::<Seq<char>, ErrorView>(missing) <==> !s.has_team(team_id)
            &&& updated.result == Err::<(), ErrorView>(missing) <==> !s.has_team(team_id)
            &&& removed.result == Err::<(), ErrorView>(missing) <==> !s.has_team(team_id)
        }),
{
}

/// A user may keep its username: giving a record the valid username that it
/// holds already succeeds, and changes nothing but the stamp.
pub proof fn a_user_may_keep_its_username(s: StateView, p: Principal, now: Timestamp)
    requires
        s.wf(),
        s.has_user(p),
        valid_username(s.user(p).profile.username),
    ensures
        ({
            let own = s.user(p).profile.username;
            let after = s.update_username(p, now, p, own);
            &&& !s.username_taken_by_another(p, own)
            &&& after.result == Ok::<(), ErrorView>(())
            &&& after.state.user_map() == s.user_map().insert(
                p,
                UserView { updated_at: now, ..s.user(p) },
            )
        }),
{
    let own = s.user(p).profile.username;
    lemma_find(s.principals(), p);
    let at = s.find_user(p)->0;
    assert(s.usernames()[at] == own);
    let names = s.usernames();
    let holders = s.principals();
    assert forall|i: int| 0 <= i < names.len() && names[i] == own implies holders[i] == p by {
        assert(i == at);
    }
    lemma_set_user_wf(s, at, s.user(p).renamed(own, now));
    assert(s.user(p).renamed(own, now) == UserView { updated_at: now, ..s.user(p) });
}

} // verus!
