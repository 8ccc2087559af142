use backend::invite::{
    accept_invite, cancel_invite, decline_invite, get_invites, get_pending_invites, invite_user,
    remove_member,
};
use backend::project::{add_user_to_project, create_project};
use backend::state::State;
use backend::team::{add_user_to_team, create_team, get_team};
use backend::types::{
    Error, InviteStatus, InviteTarget, Owner, ProjectMember, Role, TeamMember, UserProfile,
};
use backend::user::create_user;
use candid::Principal;

fn invites_principal(n: u8) -> Principal {
    Principal::from_slice(&[n, 3])
}

fn invites_register(state: &mut State, n: u8) -> Principal {
    let p = invites_principal(n);
    let profile = UserProfile {
        name: format!("User {n}"),
        username: format!("user{n}"),
        email: None,
        avatar_url: None,
        bio: None,
        theme_preferences: None,
    };
    assert_eq!(create_user(state, p, 1, profile), Ok(p));
    p
}

fn invites_team(state: &mut State, owner: Principal, seed: u8, is_public: bool) -> String {
    let made =
        create_team(state, owner, 5, &[0x7e, seed], "team".to_string(), "d".to_string(), is_public);
    made.expect("the owner is registered")
}

fn invites_project(state: &mut State, owner: Principal, seed: u8) -> String {
    let made = create_project(
        state,
        owner,
        5,
        &[0x0a, seed],
        "project".to_string(),
        "d".to_string(),
        Owner::User(owner),
    );
    made.expect("a user may own a project")
}

fn invites_to_team(
    state: &mut State,
    from: Principal,
    to: Principal,
    seed: u8,
    team: &str,
    role: Role,
) -> String {
    let made =
        invite_user(state, from, 6, &[0x1e, seed], InviteTarget::Team(team.to_string()), role, to);
    made.expect("both parties are registered")
}

#[test]
fn invite_is_stored_pending() {
    let mut state = State::new();
    let a = invites_register(&mut state, 1);
    let b = invites_register(&mut state, 2);
    let target = InviteTarget::Team("no-such-team".to_string());
    let made = invite_user(&mut state, a, 6, &[0xc0, 0xff, 0xee], target.clone(), Role::Manager, b);
    assert_eq!(made, Ok("c0ffee".to_string()));
    assert_eq!(state.invites().len(), 1);
    let invite = &state.invites()[0];
    assert_eq!(invite.id, "c0ffee");
    assert_eq!(invite.target, target);
    assert_eq!(invite.role, Role::Manager);
    assert_eq!(invite.invited_by, a);
    assert_eq!(invite.invited_user, b);
    assert_eq!(invite.status, InviteStatus::Pending);
    assert_eq!(invite.created_at, 6);
}

#[test]
fn invite_needs_both_parties_registered() {
    let mut state = State::new();
    let a = invites_register(&mut state, 1);
    let stranger = invites_principal(9);
    let target = InviteTarget::Project("p".to_string());
    assert_eq!(
        invite_user(&mut state, stranger, 6, &[1], target.clone(), Role::Owner, a),
        Err(Error::Unauthorized)
    );
    assert_eq!(
        invite_user(&mut state, a, 6, &[1], target.clone(), Role::Owner, stranger),
        Err(Error::UserNotFound)
    );
    assert_eq!(
        invite_user(&mut state, stranger, 6, &[1], target, Role::Owner, stranger),
        Err(Error::Unauthorized)
    );
    assert!(state.invites().is_empty());
}

#[test]
fn invite_needs_no_permission_on_the_target() {
    let mut state = State::new();
    let a = invites_register(&mut state, 1);
    let b = invites_register(&mut state, 2);
    let c = invites_register(&mut state, 3);
    let team = invites_team(&mut state, a, 1, false);
    let invite = invites_to_team(&mut state, b, c, 1, &team, Role::Owner);
    assert_eq!(accept_invite(&mut state, c, 7, invite), Ok(()));
    let team = get_team(&state, c, team).expect("member now");
    assert_eq!(team.members.len(), 2);
    assert_eq!(team.members[1], TeamMember { principal: c, role: Role::Owner, joined_at: 7 });
}

#[test]
fn accept_enrols_in_a_team_and_marks_accepted() {
    let mut state = State::new();
    let a = invites_register(&mut state, 1);
    let b = invites_register(&mut state, 2);
    let team = invites_team(&mut state, a, 1, false);
    let invite = invites_to_team(&mut state, a, b, 1, &team, Role::Collaborator);
    assert_eq!(accept_invite(&mut state, b, 7, invite), Ok(()));
    assert_eq!(state.invites()[0].status, InviteStatus::Accepted);
    assert_eq!(
        state.teams()[0].members,
        vec![
            TeamMember { principal: a, role: Role::Owner, joined_at: 5 },
            TeamMember { principal: b, role: Role::Collaborator, joined_at: 7 },
        ]
    );
    assert_eq!(state.teams()[0].updated_at, 7);
}

#[test]
fn accept_enrols_in_a_project() {
    let mut state = State::new();
    let a = invites_register(&mut state, 1);
    let b = invites_register(&mut state, 2);
    let project = invites_project(&mut state, a, 1);
    let made =
        invite_user(&mut state, a, 6, &[0x1e, 1], InviteTarget::Project(project), Role::Manager, b);
    let invite = made.expect("both parties are registered");
    assert_eq!(accept_invite(&mut state, b, 8, invite), Ok(()));
    assert_eq!(state.invites()[0].status, InviteStatus::Accepted);
    assert_eq!(
        state.projects()[0].members,
        vec![ProjectMember { principal: b, role: Role::Manager, joined_at: 8 }]
    );
}

#[test]
fn accept_errors_in_order() {
    let mut state = State::new();
    let a = invites_register(&mut state, 1);
    let b = invites_register(&mut state, 2);
    let team = invites_team(&mut state, a, 1, false);
    let invite = invites_to_team(&mut state, a, b, 1, &team, Role::Collaborator);
    assert_eq!(
        accept_invite(&mut state, invites_principal(9), 7, invite.clone()),
        Err(Error::Unauthorized)
    );
    assert_eq!(
        accept_invite(&mut state, invites_principal(9), 7, "nope".to_string()),
        Err(Error::Unauthorized)
    );
    assert_eq!(accept_invite(&mut state, b, 7, "nope".to_string()), Err(Error::InviteNotFound));
    assert_eq!(accept_invite(&mut state, a, 7, invite), Err(Error::Unauthorized));
    assert_eq!(state.invites()[0].status, InviteStatus::Pending);
    assert_eq!(state.teams()[0].members.len(), 1);
}

#[test]
fn accept_when_already_a_member_fails_and_the_invite_stays_pending() {
    let mut state = State::new();
    let a = invites_register(&mut state, 1);
    let b = invites_register(&mut state, 2);
    let team = invites_team(&mut state, a, 1, false);
    let invite = invites_to_team(&mut state, a, b, 1, &team, Role::Manager);
    assert_eq!(add_user_to_team(&mut state, 6, &team, &b, &Role::Collaborator), Ok(()));
    assert_eq!(accept_invite(&mut state, b, 7, invite), Err(Error::AlreadyExists));
    assert_eq!(state.invites()[0].status, InviteStatus::Pending);
    assert_eq!(
        state.teams()[0].members,
        vec![
            TeamMember { principal: a, role: Role::Owner, joined_at: 5 },
            TeamMember { principal: b, role: Role::Collaborator, joined_at: 6 },
        ]
    );
    assert_eq!(state.teams()[0].updated_at, 6);
}

#[test]
fn accept_into_a_project_when_already_a_member_fails() {
    let mut state = State::new();
    let a = invites_register(&mut state, 1);
    let b = invites_register(&mut state, 2);
    let project = invites_project(&mut state, a, 1);
    let target = InviteTarget::Project(project.clone());
    let invite = invite_user(&mut state, a, 6, &[0x1e], target, Role::Owner, b).expect("issued");
    assert_eq!(add_user_to_project(&mut state, 6, &project, &b, &Role::Manager), Ok(()));
    assert_eq!(accept_invite(&mut state, b, 7, invite), Err(Error::AlreadyExists));
    assert_eq!(state.invites()[0].status, InviteStatus::Pending);
    assert_eq!(state.projects()[0].members.len(), 1);
}

#[test]
fn accept_for_a_target_that_is_gone_fails_and_stays_pending() {
    let mut state = State::new();
    let a = invites_register(&mut state, 1);
    let b = invites_register(&mut state, 2);
    let first = invites_to_team(&mut state, a, b, 1, "gone", Role::Manager);
    assert_eq!(accept_invite(&mut state, b, 7, first), Err(Error::TeamNotFound));
    let target = InviteTarget::Project("gone".to_string());
    let second = invite_user(&mut state, a, 6, &[0x1e, 2], target, Role::Owner, b).expect("issued");
    assert_eq!(accept_invite(&mut state, b, 7, second), Err(Error::ProjectNotFound));
    assert_eq!(state.invites()[0].status, InviteStatus::Pending);
    assert_eq!(state.invites()[1].status, InviteStatus::Pending);
}

#[test]
fn declined_invite_cannot_be_accepted_and_the_team_is_unchanged() {
    let mut state = State::new();
    let a = invites_register(&mut state, 1);
    let b = invites_register(&mut state, 2);
    let team = invites_team(&mut state, a, 1, false);
    let invite = invites_to_team(&mut state, a, b, 1, &team, Role::Collaborator);
    assert_eq!(decline_invite(&mut state, b, invite.clone()), Ok(()));
    assert_eq!(state.invites()[0].status, InviteStatus::Declined);
    assert_eq!(accept_invite(&mut state, b, 7, invite), Err(Error::InviteExpired));
    assert_eq!(state.invites()[0].status, InviteStatus::Declined);
    assert_eq!(
        state.teams()[0].members,
        vec![TeamMember { principal: a, role: Role::Owner, joined_at: 5 }]
    );
}

#[test]
fn every_resolution_is_one_shot() {
    let statuses = [InviteStatus::Accepted, InviteStatus::Declined, InviteStatus::Cancelled];
    for status in statuses {
        let mut state = State::new();
        let a = invites_register(&mut state, 1);
        let b = invites_register(&mut state, 2);
        let team = invites_team(&mut state, a, 1, false);
        let invite = invites_to_team(&mut state, a, b, 1, &team, Role::Collaborator);
        let first = match status {
            InviteStatus::Accepted => accept_invite(&mut state, b, 7, invite.clone()),
            InviteStatus::Declined => decline_invite(&mut state, b, invite.clone()),
            _ => cancel_invite(&mut state, a, invite.clone()),
        };
        assert_eq!(first, Ok(()));
        assert_eq!(state.invites()[0].status, status);
        let members = state.teams()[0].members.clone();
        assert_eq!(accept_invite(&mut state, b, 8, invite.clone()), Err(Error::InviteExpired));
        assert_eq!(decline_invite(&mut state, b, invite.clone()), Err(Error::InviteExpired));
        assert_eq!(cancel_invite(&mut state, a, invite), Err(Error::InviteExpired));
        assert_eq!(state.invites()[0].status, status);
        assert_eq!(state.teams()[0].members, members);
    }
}

#[test]
fn the_wrong_party_is_unauthorized_even_on_a_resolved_invite() {
    let mut state = State::new();
    let a = invites_register(&mut state, 1);
    let b = invites_register(&mut state, 2);
    let invite = invites_to_team(&mut state, a, b, 1, "t", Role::Collaborator);
    assert_eq!(cancel_invite(&mut state, b, invite.clone()), Err(Error::Unauthorized));
    assert_eq!(decline_invite(&mut state, a, invite.clone()), Err(Error::Unauthorized));
    assert_eq!(cancel_invite(&mut state, a, invite.clone()), Ok(()));
    assert_eq!(state.invites()[0].status, InviteStatus::Cancelled);
    assert_eq!(cancel_invite(&mut state, b, invite.clone()), Err(Error::Unauthorized));
    assert_eq!(accept_invite(&mut state, a, 9, invite), Err(Error::Unauthorized));
    assert_eq!(state.invites()[0].status, InviteStatus::Cancelled);
}

#[test]
fn decline_and_cancel_errors() {
    let mut state = State::new();
    let a = invites_register(&mut state, 1);
    let b = invites_register(&mut state, 2);
    let invite = invites_to_team(&mut state, a, b, 1, "t", Role::Collaborator);
    let stranger = invites_principal(9);
    assert_eq!(decline_invite(&mut state, stranger, invite.clone()), Err(Error::Unauthorized));
    assert_eq!(cancel_invite(&mut state, stranger, invite), Err(Error::Unauthorized));
    assert_eq!(decline_invite(&mut state, b, "i2".to_string()), Err(Error::InviteNotFound));
    assert_eq!(cancel_invite(&mut state, a, "i2".to_string()), Err(Error::InviteNotFound));
    assert_eq!(state.invites()[0].status, InviteStatus::Pending);
}

#[test]
fn remove_member_by_owner_and_manager() {
    let mut state = State::new();
    let a = invites_register(&mut state, 1);
    let m = invites_register(&mut state, 2);
    let k = invites_register(&mut state, 3);
    let id = invites_team(&mut state, a, 1, false);
    assert_eq!(add_user_to_team(&mut state, 6, &id, &m, &Role::Manager), Ok(()));
    assert_eq!(add_user_to_team(&mut state, 6, &id, &k, &Role::Collaborator), Ok(()));
    assert_eq!(remove_member(&mut state, m, 9, InviteTarget::Team(id.clone()), k), Ok(()));
    assert_eq!(state.teams()[0].members.len(), 2);
    assert_eq!(state.teams()[0].updated_at, 9);
    assert_eq!(remove_member(&mut state, a, 10, InviteTarget::Team(id.clone()), m), Ok(()));
    assert_eq!(
        state.teams()[0].members,
        vec![TeamMember { principal: a, role: Role::Owner, joined_at: 5 }]
    );
    assert_eq!(remove_member(&mut state, a, 11, InviteTarget::Team(id), k), Ok(()));
    assert_eq!(state.teams()[0].members.len(), 1);
    assert_eq!(state.teams()[0].updated_at, 11);
}

#[test]
fn remove_member_is_refused_to_collaborators_and_strangers() {
    let mut state = State::new();
    let a = invites_register(&mut state, 1);
    let k = invites_register(&mut state, 2);
    let c = invites_register(&mut state, 3);
    let hidden_id = invites_team(&mut state, a, 1, false);
    let open_id = invites_team(&mut state, a, 2, true);
    assert_eq!(add_user_to_team(&mut state, 6, &hidden_id, &k, &Role::Collaborator), Ok(()));
    let hidden = InviteTarget::Team(hidden_id);
    let open = InviteTarget::Team(open_id);
    assert_eq!(
        remove_member(&mut state, k, 9, hidden.clone(), a),
        Err(Error::InsufficientPermissions)
    );
    assert_eq!(
        remove_member(&mut state, c, 9, hidden.clone(), a),
        Err(Error::InsufficientPermissions)
    );
    assert_eq!(remove_member(&mut state, c, 9, open, a), Err(Error::InsufficientPermissions));
    assert_eq!(
        remove_member(&mut state, invites_principal(9), 9, hidden, a),
        Err(Error::InsufficientPermissions)
    );
    assert_eq!(
        remove_member(&mut state, a, 9, InviteTarget::Team("absent".to_string()), a),
        Err(Error::TeamNotFound)
    );
    assert_eq!(state.teams()[0].members.len(), 2);
    assert_eq!(state.teams()[0].updated_at, 6);
}

#[test]
fn remove_member_from_a_project() {
    let mut state = State::new();
    let a = invites_register(&mut state, 1);
    let m = invites_register(&mut state, 2);
    let k = invites_register(&mut state, 3);
    let id = invites_project(&mut state, a, 1);
    let target = InviteTarget::Project(id.clone());
    assert_eq!(
        remove_member(&mut state, a, 9, target.clone(), m),
        Err(Error::InsufficientPermissions)
    );
    assert_eq!(add_user_to_project(&mut state, 6, &id, &m, &Role::Manager), Ok(()));
    assert_eq!(add_user_to_project(&mut state, 7, &id, &k, &Role::Collaborator), Ok(()));
    assert_eq!(
        remove_member(&mut state, k, 9, target.clone(), m),
        Err(Error::InsufficientPermissions)
    );
    assert_eq!(remove_member(&mut state, m, 9, target.clone(), k), Ok(()));
    assert_eq!(
        state.projects()[0].members,
        vec![ProjectMember { principal: m, role: Role::Manager, joined_at: 6 }]
    );
    assert_eq!(remove_member(&mut state, m, 10, target.clone(), m), Ok(()));
    assert!(state.projects()[0].members.is_empty());
    assert_eq!(remove_member(&mut state, m, 11, target, a), Err(Error::InsufficientPermissions));
    assert_eq!(
        remove_member(&mut state, a, 11, InviteTarget::Project("zz".to_string()), a),
        Err(Error::ProjectNotFound)
    );
}

#[test]
fn get_invites_lists_sent_and_received() {
    let mut state = State::new();
    let a = invites_register(&mut state, 1);
    let b = invites_register(&mut state, 2);
    let c = invites_register(&mut state, 3);
    let i1 = invites_to_team(&mut state, a, b, 1, "t", Role::Collaborator);
    let i2 = invites_to_team(&mut state, b, c, 2, "t", Role::Collaborator);
    let i3 = invites_to_team(&mut state, c, a, 3, "t", Role::Collaborator);
    let i4 = invites_to_team(&mut state, c, b, 4, "t", Role::Collaborator);
    assert_eq!(decline_invite(&mut state, b, i1.clone()), Ok(()));
    let ids: Vec<String> = get_invites(&state, b, b).into_iter().map(|i| i.id).collect();
    assert_eq!(ids, vec![i1.clone(), i2, i4]);
    let ids: Vec<String> = get_invites(&state, a, a).into_iter().map(|i| i.id).collect();
    assert_eq!(ids, vec![i1, i3]);
    assert!(get_invites(&state, a, b).is_empty());
    assert!(get_invites(&state, invites_principal(9), b).is_empty());
}

#[test]
fn get_pending_invites_lists_open_invitations_sent_and_received() {
    let mut state = State::new();
    let a = invites_register(&mut state, 1);
    let b = invites_register(&mut state, 2);
    let c = invites_register(&mut state, 3);
    let i1 = invites_to_team(&mut state, a, b, 1, "t", Role::Collaborator);
    let i2 = invites_to_team(&mut state, a, b, 2, "t", Role::Manager);
    let i3 = invites_to_team(&mut state, b, a, 3, "t", Role::Manager);
    let i4 = invites_to_team(&mut state, a, b, 4, "t", Role::Owner);
    let i5 = invites_to_team(&mut state, c, a, 5, "t", Role::Owner);
    let i6 = invites_to_team(&mut state, b, c, 6, "t", Role::Owner);
    assert_eq!(decline_invite(&mut state, b, i2), Ok(()));
    assert_eq!(cancel_invite(&mut state, c, i5.clone()), Ok(()));
    let pending = get_pending_invites(&state, b, b);
    let ids: Vec<String> = pending.iter().map(|i| i.id.clone()).collect();
    assert_eq!(ids, vec![i1.clone(), i3.clone(), i4.clone(), i6.clone()]);
    assert!(pending
        .iter()
        .all(|i| i.status == InviteStatus::Pending && (i.invited_by == b || i.invited_user == b)));
    let ids: Vec<String> = get_pending_invites(&state, a, a).into_iter().map(|i| i.id).collect();
    assert_eq!(ids, vec![i1, i3, i4]);
    let ids: Vec<String> = get_pending_invites(&state, c, c).into_iter().map(|i| i.id).collect();
    assert_eq!(ids, vec![i6]);
    assert!(get_pending_invites(&state, a, b).is_empty());
    assert!(get_pending_invites(&state, invites_principal(9), invites_principal(9)).is_empty());
}

#[test]
fn get_pending_invites_is_get_invites_without_the_resolved_ones() {
    let mut state = State::new();
    let a = invites_register(&mut state, 1);
    let b = invites_register(&mut state, 2);
    let i1 = invites_to_team(&mut state, a, b, 1, "t", Role::Collaborator);
    let _i2 = invites_to_team(&mut state, b, a, 2, "t", Role::Manager);
    let _i3 = invites_to_team(&mut state, a, b, 3, "t", Role::Manager);
    assert_eq!(cancel_invite(&mut state, a, i1), Ok(()));
    let open: Vec<String> = get_invites(&state, a, a)
        .into_iter()
        .filter(|i| i.status == InviteStatus::Pending)
        .map(|i| i.id)
        .collect();
    let pending: Vec<String> =
        get_pending_invites(&state, a, a).into_iter().map(|i| i.id).collect();
    assert_eq!(pending, open);
    assert_eq!(pending.len(), 2);
}

#[test]
fn invite_under_a_used_identifier_replaces_the_invitation() {
    let mut state = State::new();
    let a = invites_register(&mut state, 1);
    let b = invites_register(&mut state, 2);
    let i1 = invites_to_team(&mut state, a, b, 1, "t", Role::Collaborator);
    let i2 = invites_to_team(&mut state, a, b, 2, "t", Role::Collaborator);
    assert_eq!(decline_invite(&mut state, b, i1.clone()), Ok(()));
    assert_eq!(invites_to_team(&mut state, b, a, 1, "u", Role::Owner), i1);
    assert_eq!(state.invites().len(), 2);
    assert_eq!(state.invites()[0].id, i1);
    assert_eq!(state.invites()[0].invited_by, b);
    assert_eq!(state.invites()[0].target, InviteTarget::Team("u".to_string()));
    assert_eq!(state.invites()[0].status, InviteStatus::Pending);
    assert_eq!(state.invites()[1].id, i2);
}
