use backend::project::{
    add_user_to_project, create_project, delete_project, get_project, get_team_projects,
    get_user_projects, get_user_role_in_project, remove_user_from_project, transfer_ownership,
    update_project,
};
use backend::state::State;
use backend::team::{add_user_to_team, create_team};
use backend::types::{Error, Owner, Project, ProjectMember, ProjectUpdate, Role, UserProfile};
use backend::user::create_user;
use candid::Principal;

fn projects_principal(n: u8) -> Principal {
    Principal::from_slice(&[n, 2])
}

fn projects_register(state: &mut State, n: u8) -> Principal {
    let p = projects_principal(n);
    let profile = UserProfile {
        name: format!("User {n}"),
        username: format!("user{n}"),
        email: None,
        avatar_url: None,
        bio: None,
        theme_preferences: None,
    };
    assert_eq!(create_user(state, p, 1, profile), Ok(p));
    p
}

fn projects_team(state: &mut State, owner: Principal, seed: u8, is_public: bool) -> String {
    let name = "team".to_string();
    let made = create_team(state, owner, 5, &[0x7e, seed], name, "about".to_string(), is_public);
    made.expect("the owner is registered")
}

fn projects_new(
    state: &mut State,
    caller: Principal,
    seed: u8,
    owner: Owner,
) -> Result<String, Error> {
    let name = format!("Project {seed}");
    create_project(state, caller, 10, &[0x0a, seed], name, "what".to_string(), owner)
}

fn projects_own(state: &mut State, owner: Principal, seed: u8) -> String {
    projects_new(state, owner, seed, Owner::User(owner)).expect("a user may own a project")
}

#[test]
fn new_project_has_no_members_whoever_owns_it() {
    let mut state = State::new();
    let a = projects_register(&mut state, 1);
    let team = projects_team(&mut state, a, 1, false);
    assert_eq!(projects_new(&mut state, a, 1, Owner::User(a)), Ok("0a01".to_string()));
    assert_eq!(projects_new(&mut state, a, 2, Owner::Team(team.clone())), Ok("0a02".to_string()));
    assert_eq!(state.projects().len(), 2);
    assert!(state.projects()[0].members.is_empty());
    assert!(state.projects()[1].members.is_empty());
    assert_eq!(state.projects()[0].owner, Owner::User(a));
    assert_eq!(state.projects()[1].owner, Owner::Team(team));
    assert_eq!(state.projects()[0].id, "0a01");
    assert_eq!(state.projects()[0].name, "Project 1");
    assert_eq!(state.projects()[0].description, "what");
    assert_eq!(state.projects()[0].created_at, 10);
    assert_eq!(state.projects()[0].updated_at, 10);
    assert_eq!(get_project(&state, a, "0a01".to_string()), None);
}

#[test]
fn create_project_for_a_team_needs_owner_or_manager_of_the_team() {
    let mut state = State::new();
    let a = projects_register(&mut state, 1);
    let m = projects_register(&mut state, 2);
    let k = projects_register(&mut state, 3);
    let c = projects_register(&mut state, 4);
    let team = projects_team(&mut state, a, 1, true);
    assert_eq!(add_user_to_team(&mut state, 6, &team, &m, &Role::Manager), Ok(()));
    assert_eq!(add_user_to_team(&mut state, 6, &team, &k, &Role::Collaborator), Ok(()));
    assert!(projects_new(&mut state, a, 1, Owner::Team(team.clone())).is_ok());
    assert!(projects_new(&mut state, m, 2, Owner::Team(team.clone())).is_ok());
    assert_eq!(
        projects_new(&mut state, k, 3, Owner::Team(team.clone())),
        Err(Error::InsufficientPermissions)
    );
    assert_eq!(
        projects_new(&mut state, c, 3, Owner::Team(team.clone())),
        Err(Error::InsufficientPermissions)
    );
    assert_eq!(state.projects().len(), 2);
}

#[test]
fn create_project_for_a_private_team_is_refused_to_a_non_member_for_lack_of_permission() {
    let mut state = State::new();
    let a = projects_register(&mut state, 1);
    let c = projects_register(&mut state, 2);
    let hidden = projects_team(&mut state, a, 1, false);
    assert_eq!(
        projects_new(&mut state, c, 1, Owner::Team(hidden.clone())),
        Err(Error::InsufficientPermissions)
    );
    assert!(state.projects().is_empty());
    assert_eq!(projects_new(&mut state, a, 1, Owner::Team(hidden)), Ok("0a01".to_string()));
}

#[test]
fn create_project_for_a_team_that_does_not_exist_is_team_not_found() {
    let mut state = State::new();
    let a = projects_register(&mut state, 1);
    assert_eq!(
        projects_new(&mut state, a, 1, Owner::Team("absent".to_string())),
        Err(Error::TeamNotFound)
    );
    assert_eq!(
        projects_new(&mut state, projects_principal(9), 1, Owner::Team("absent".to_string())),
        Err(Error::Unauthorized)
    );
    assert!(state.projects().is_empty());
}

#[test]
fn create_project_for_another_user_is_refused() {
    let mut state = State::new();
    let a = projects_register(&mut state, 1);
    let b = projects_register(&mut state, 2);
    assert_eq!(projects_new(&mut state, a, 1, Owner::User(b)), Err(Error::InsufficientPermissions));
    assert_eq!(
        projects_new(&mut state, projects_principal(9), 1, Owner::User(projects_principal(9))),
        Err(Error::Unauthorized)
    );
    assert!(state.projects().is_empty());
}

#[test]
fn create_project_under_a_used_identifier_replaces_the_project() {
    let mut state = State::new();
    let a = projects_register(&mut state, 1);
    let b = projects_register(&mut state, 2);
    let p1 = projects_own(&mut state, a, 1);
    let p2 = projects_own(&mut state, a, 2);
    assert_eq!(add_user_to_project(&mut state, 11, &p1, &a, &Role::Owner), Ok(()));
    assert_eq!(projects_own(&mut state, b, 1), p1);
    assert_eq!(state.projects().len(), 2);
    assert_eq!(state.projects()[0].id, p1);
    assert_eq!(state.projects()[0].owner, Owner::User(b));
    assert!(state.projects()[0].members.is_empty());
    assert_eq!(state.projects()[1].id, p2);
}

#[test]
fn get_project_is_for_members_only() {
    let mut state = State::new();
    let a = projects_register(&mut state, 1);
    let b = projects_register(&mut state, 2);
    let id = projects_own(&mut state, a, 1);
    assert_eq!(add_user_to_project(&mut state, 11, &id, &b, &Role::Collaborator), Ok(()));
    let seen = get_project(&state, b, id.clone()).expect("member");
    assert_eq!(
        seen.members,
        vec![ProjectMember { principal: b, role: Role::Collaborator, joined_at: 11 }]
    );
    assert_eq!(seen.updated_at, 11);
    assert_eq!(get_project(&state, a, id.clone()), None);
    assert_eq!(get_project(&state, b, "x".to_string()), None);
    assert_eq!(get_project(&state, projects_principal(9), id), None);
}

#[test]
fn update_project_by_role() {
    let mut state = State::new();
    let a = projects_register(&mut state, 1);
    let m = projects_register(&mut state, 2);
    let k = projects_register(&mut state, 3);
    let id = projects_own(&mut state, a, 1);
    assert_eq!(add_user_to_project(&mut state, 11, &id, &m, &Role::Manager), Ok(()));
    assert_eq!(add_user_to_project(&mut state, 12, &id, &k, &Role::Collaborator), Ok(()));
    let change = ProjectUpdate { name: Some("N".to_string()), description: None };
    assert_eq!(
        update_project(&mut state, a, 20, id.clone(), change.clone()),
        Err(Error::InsufficientPermissions)
    );
    assert_eq!(
        update_project(&mut state, k, 20, id.clone(), change.clone()),
        Err(Error::InsufficientPermissions)
    );
    assert_eq!(
        update_project(&mut state, m, 20, "zz".to_string(), change.clone()),
        Err(Error::ProjectNotFound)
    );
    assert_eq!(state.projects()[0].name, "Project 1");
    assert_eq!(state.projects()[0].updated_at, 12);
    assert_eq!(update_project(&mut state, m, 21, id.clone(), change), Ok(()));
    let more = ProjectUpdate { name: None, description: Some("D".to_string()) };
    assert_eq!(update_project(&mut state, m, 22, id, more), Ok(()));
    assert_eq!(state.projects()[0].name, "N");
    assert_eq!(state.projects()[0].description, "D");
    assert_eq!(state.projects()[0].created_at, 10);
    assert_eq!(state.projects()[0].updated_at, 22);
}

#[test]
fn delete_project_needs_the_owner_role() {
    let mut state = State::new();
    let a = projects_register(&mut state, 1);
    let m = projects_register(&mut state, 2);
    let o = projects_register(&mut state, 3);
    let id = projects_own(&mut state, a, 1);
    let other = projects_own(&mut state, a, 2);
    assert_eq!(add_user_to_project(&mut state, 11, &id, &m, &Role::Manager), Ok(()));
    assert_eq!(add_user_to_project(&mut state, 12, &id, &o, &Role::Owner), Ok(()));
    assert_eq!(delete_project(&mut state, a, id.clone()), Err(Error::InsufficientPermissions));
    assert_eq!(delete_project(&mut state, m, id.clone()), Err(Error::InsufficientPermissions));
    assert_eq!(delete_project(&mut state, o, "zz".to_string()), Err(Error::ProjectNotFound));
    assert_eq!(state.projects().len(), 2);
    assert_eq!(delete_project(&mut state, o, id.clone()), Ok(()));
    assert_eq!(state.projects().len(), 1);
    assert_eq!(state.projects()[0].id, other);
    assert_eq!(delete_project(&mut state, o, id), Err(Error::ProjectNotFound));
}

#[test]
fn transfer_ownership_then_the_former_owner_can_still_delete() {
    let mut state = State::new();
    let a = projects_register(&mut state, 1);
    let b = projects_register(&mut state, 2);
    let id = projects_own(&mut state, a, 1);
    assert_eq!(add_user_to_project(&mut state, 11, &id, &a, &Role::Owner), Ok(()));
    assert_eq!(transfer_ownership(&mut state, a, 20, id.clone(), Owner::User(b)), Ok(()));
    let project = get_project(&state, a, id.clone()).expect("member");
    assert_eq!(project.owner, Owner::User(b));
    assert_eq!(
        project.members,
        vec![ProjectMember { principal: a, role: Role::Owner, joined_at: 11 }]
    );
    assert_eq!(project.updated_at, 20);
    assert_eq!(get_project(&state, b, id.clone()), None);
    assert_eq!(delete_project(&mut state, b, id.clone()), Err(Error::InsufficientPermissions));
    assert_eq!(delete_project(&mut state, a, id), Ok(()));
    assert!(state.projects().is_empty());
}

#[test]
fn transfer_ownership_is_refused_below_owner() {
    let mut state = State::new();
    let a = projects_register(&mut state, 1);
    let m = projects_register(&mut state, 2);
    let id = projects_own(&mut state, a, 1);
    assert_eq!(add_user_to_project(&mut state, 11, &id, &m, &Role::Manager), Ok(()));
    assert_eq!(
        transfer_ownership(&mut state, m, 20, id.clone(), Owner::User(m)),
        Err(Error::InsufficientPermissions)
    );
    assert_eq!(
        transfer_ownership(&mut state, a, 20, id.clone(), Owner::Team("t".to_string())),
        Err(Error::InsufficientPermissions)
    );
    assert_eq!(
        transfer_ownership(&mut state, m, 20, "zz".to_string(), Owner::User(m)),
        Err(Error::ProjectNotFound)
    );
    assert_eq!(state.projects()[0].owner, Owner::User(a));
    assert_eq!(state.projects()[0].updated_at, 11);
}

#[test]
fn transfer_ownership_to_a_team() {
    let mut state = State::new();
    let a = projects_register(&mut state, 1);
    let id = projects_own(&mut state, a, 1);
    assert_eq!(add_user_to_project(&mut state, 11, &id, &a, &Role::Owner), Ok(()));
    assert_eq!(
        transfer_ownership(&mut state, a, 20, id, Owner::Team("anything".to_string())),
        Ok(())
    );
    assert_eq!(state.projects()[0].owner, Owner::Team("anything".to_string()));
}

#[test]
fn get_user_projects_lists_own_memberships() {
    let mut state = State::new();
    let a = projects_register(&mut state, 1);
    let b = projects_register(&mut state, 2);
    let p1 = projects_own(&mut state, a, 1);
    let _p2 = projects_own(&mut state, a, 2);
    let p3 = projects_own(&mut state, a, 3);
    assert_eq!(add_user_to_project(&mut state, 11, &p3, &b, &Role::Manager), Ok(()));
    assert_eq!(add_user_to_project(&mut state, 12, &p1, &b, &Role::Owner), Ok(()));
    let ids: Vec<String> = get_user_projects(&state, b, b).into_iter().map(|p| p.id).collect();
    assert_eq!(ids, vec![p1, p3]);
    assert!(get_user_projects(&state, a, a).is_empty());
    assert!(get_user_projects(&state, a, b).is_empty());
    assert!(get_user_projects(&state, projects_principal(9), b).is_empty());
}

#[test]
fn get_team_projects_is_for_members_of_the_team() {
    let mut state = State::new();
    let a = projects_register(&mut state, 1);
    let b = projects_register(&mut state, 2);
    let t1 = projects_team(&mut state, a, 1, true);
    let t2 = projects_team(&mut state, a, 2, true);
    let p1 = projects_new(&mut state, a, 1, Owner::Team(t1.clone())).expect("owner of the team");
    let _p2 = projects_own(&mut state, a, 2);
    let _p3 = projects_new(&mut state, a, 3, Owner::Team(t2)).expect("owner of the team");
    let p4 = projects_new(&mut state, a, 4, Owner::Team(t1.clone())).expect("owner of the team");
    let ids: Vec<String> =
        get_team_projects(&state, a, t1.clone()).into_iter().map(|p| p.id).collect();
    assert_eq!(ids, vec![p1, p4]);
    assert!(get_team_projects(&state, b, t1.clone()).is_empty());
    assert!(get_team_projects(&state, a, "t9".to_string()).is_empty());
    assert!(get_team_projects(&state, projects_principal(9), t1).is_empty());
}

#[test]
fn role_in_project_of_members_and_others() {
    let a = projects_principal(1);
    let project = Project {
        id: "p".to_string(),
        name: "n".to_string(),
        description: "d".to_string(),
        owner: Owner::User(a),
        members: vec![ProjectMember { principal: a, role: Role::Collaborator, joined_at: 1 }],
        created_at: 1,
        updated_at: 1,
    };
    assert_eq!(get_user_role_in_project(&project, &a), Ok(Role::Collaborator));
    assert_eq!(
        get_user_role_in_project(&project, &projects_principal(2)),
        Err(Error::InsufficientPermissions)
    );
}

#[test]
fn add_and_remove_project_members() {
    let mut state = State::new();
    let a = projects_register(&mut state, 1);
    let b = projects_register(&mut state, 2);
    let id = projects_own(&mut state, a, 1);
    assert_eq!(add_user_to_project(&mut state, 11, &id, &a, &Role::Owner), Ok(()));
    assert_eq!(add_user_to_project(&mut state, 12, &id, &b, &Role::Collaborator), Ok(()));
    assert_eq!(
        add_user_to_project(&mut state, 13, &id, &b, &Role::Manager),
        Err(Error::AlreadyExists)
    );
    assert_eq!(
        add_user_to_project(&mut state, 13, &"zz".to_string(), &b, &Role::Manager),
        Err(Error::ProjectNotFound)
    );
    assert_eq!(state.projects()[0].members.len(), 2);
    assert_eq!(state.projects()[0].updated_at, 12);
    assert_eq!(remove_user_from_project(&mut state, 14, &id, &a), Ok(()));
    assert_eq!(
        state.projects()[0].members,
        vec![ProjectMember { principal: b, role: Role::Collaborator, joined_at: 12 }]
    );
    assert_eq!(remove_user_from_project(&mut state, 15, &id, &a), Ok(()));
    assert_eq!(state.projects()[0].members.len(), 1);
    assert_eq!(state.projects()[0].updated_at, 15);
    assert_eq!(
        remove_user_from_project(&mut state, 16, &"zz".to_string(), &a),
        Err(Error::ProjectNotFound)
    );
}
