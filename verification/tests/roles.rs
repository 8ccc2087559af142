use backend::invite::remove_member;
use backend::project::{
    add_user_to_project, create_project, delete_project, transfer_ownership, update_project,
};
use backend::state::State;
use backend::team::{add_user_to_team, create_team, delete_team, update_team};
use backend::types::{
    Error, InviteTarget, Owner, Project, ProjectUpdate, Role, Team, TeamUpdate, UserProfile,
};
use backend::user::create_user;
use candid::Principal;

fn roles_principal(n: u8) -> Principal {
    Principal::from_slice(&[n, 4])
}

fn roles_register(state: &mut State, n: u8) -> Principal {
    let p = roles_principal(n);
    let profile = UserProfile {
        name: format!("User {n}"),
        username: format!("user{n}"),
        email: None,
        avatar_url: None,
        bio: None,
        theme_preferences: None,
    };
    assert_eq!(create_user(state, p, 1, profile), Ok(p));
    p
}

/// A workspace with one public team and one project, each with an owner,
/// and `member` enrolled in both with `role`.
fn roles_workspace(role: Role) -> (State, Principal, Principal, String, String) {
    let mut state = State::new();
    let owner = roles_register(&mut state, 1);
    let member = roles_register(&mut state, 2);
    let team = create_team(&mut state, owner, 5, &[1], "t".to_string(), "d".to_string(), true)
        .expect("registered");
    let owned = Owner::User(owner);
    let made = create_project(&mut state, owner, 5, &[2], "p".to_string(), "d".to_string(), owned);
    let project = made.expect("own project");
    assert_eq!(add_user_to_project(&mut state, 6, &project, &owner, &Role::Owner), Ok(()));
    assert_eq!(add_user_to_team(&mut state, 7, &team, &member, &role), Ok(()));
    assert_eq!(add_user_to_project(&mut state, 7, &project, &member, &role), Ok(()));
    (state, owner, member, team, project)
}

fn roles_snapshot(state: &State) -> (Vec<Team>, Vec<Project>) {
    (state.teams().clone(), state.projects().clone())
}

#[test]
fn new_state_is_empty() {
    let state = State::new();
    assert!(state.users().is_empty());
    assert!(state.teams().is_empty());
    assert!(state.projects().is_empty());
    assert!(state.invites().is_empty());
    assert!(!state.user_exists(&Principal::anonymous()));
}

#[test]
fn collaborator_never_succeeds_at_managing_or_owning() {
    let (mut state, owner, k, team, project) = roles_workspace(Role::Collaborator);
    let before = roles_snapshot(&state);
    let denied = Err(Error::InsufficientPermissions);
    let rename = TeamUpdate { name: Some("x".to_string()), description: None, is_public: None };
    assert_eq!(update_team(&mut state, k, 9, team.clone(), rename), denied);
    assert_eq!(remove_member(&mut state, k, 9, InviteTarget::Team(team.clone()), owner), denied);
    assert_eq!(
        create_project(
            &mut state,
            k,
            9,
            &[3],
            "n".to_string(),
            "d".to_string(),
            Owner::Team(team.clone())
        ),
        Err(Error::InsufficientPermissions)
    );
    let change = ProjectUpdate { name: Some("x".to_string()), description: None };
    assert_eq!(update_project(&mut state, k, 9, project.clone(), change), denied);
    assert_eq!(delete_project(&mut state, k, project.clone()), denied);
    assert_eq!(transfer_ownership(&mut state, k, 9, project.clone(), Owner::User(k)), denied);
    assert_eq!(
        remove_member(&mut state, k, 9, InviteTarget::Project(project.clone()), owner),
        denied
    );
    assert_eq!(delete_team(&mut state, k, team), denied);
    assert_eq!(roles_snapshot(&state), before);
}

#[test]
fn manager_manages_but_does_not_own() {
    let (mut state, owner, m, team, project) = roles_workspace(Role::Manager);
    let denied = Err(Error::InsufficientPermissions);
    assert_eq!(delete_project(&mut state, m, project.clone()), denied);
    assert_eq!(transfer_ownership(&mut state, m, 9, project.clone(), Owner::User(m)), denied);
    assert_eq!(delete_team(&mut state, m, team.clone()), denied);
    let rename = TeamUpdate { name: Some("x".to_string()), description: None, is_public: None };
    assert_eq!(update_team(&mut state, m, 9, team.clone(), rename), Ok(()));
    let change = ProjectUpdate { name: Some("y".to_string()), description: None };
    assert_eq!(update_project(&mut state, m, 9, project.clone(), change), Ok(()));
    assert_eq!(
        create_project(
            &mut state,
            m,
            9,
            &[3],
            "n".to_string(),
            "d".to_string(),
            Owner::Team(team.clone())
        ),
        Ok("03".to_string())
    );
    assert_eq!(remove_member(&mut state, m, 9, InviteTarget::Team(team), owner), Ok(()));
    assert_eq!(remove_member(&mut state, m, 9, InviteTarget::Project(project), owner), Ok(()));
    assert_eq!(state.teams()[0].name, "x");
    assert_eq!(state.projects()[0].name, "y");
    assert_eq!(state.teams()[0].members.len(), 1);
    assert_eq!(state.projects()[0].members.len(), 1);
}

#[test]
fn owner_role_does_everything() {
    let (mut state, owner, o, team, project) = roles_workspace(Role::Owner);
    assert_eq!(transfer_ownership(&mut state, o, 9, project.clone(), Owner::User(o)), Ok(()));
    assert_eq!(state.projects()[0].owner, Owner::User(o));
    let target = InviteTarget::Project(project.clone());
    assert_eq!(remove_member(&mut state, o, 9, target, owner), Ok(()));
    assert_eq!(delete_project(&mut state, o, project), Ok(()));
    assert!(state.projects().is_empty());
    assert_eq!(delete_team(&mut state, o, team.clone()), Err(Error::InsufficientPermissions));
    assert_eq!(delete_team(&mut state, owner, team), Ok(()));
    assert!(state.teams().is_empty());
}
