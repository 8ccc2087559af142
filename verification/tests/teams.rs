use backend::state::State;
use backend::team::{
    add_user_to_team, create_team, delete_team, get_public_teams, get_team, get_user_role_in_team,
    get_user_teams, remove_user_from_team, update_team,
};
use backend::types::{Error, Role, Team, TeamMember, TeamUpdate, UserProfile};
use backend::user::create_user;
use candid::Principal;

fn teams_principal(n: u8) -> Principal {
    Principal::from_slice(&[n, 1])
}

fn teams_register(state: &mut State, n: u8) -> Principal {
    let p = teams_principal(n);
    let profile = UserProfile {
        name: format!("User {n}"),
        username: format!("user{n}"),
        email: None,
        avatar_url: None,
        bio: None,
        theme_preferences: None,
    };
    assert_eq!(create_user(state, p, 1, profile), Ok(p));
    p
}

fn teams_new(state: &mut State, owner: Principal, seed: u8, is_public: bool) -> String {
    let made = create_team(
        state,
        owner,
        10,
        &[0x7e, seed],
        format!("Team {seed}"),
        "about".to_string(),
        is_public,
    );
    made.expect("the owner is registered")
}

#[test]
fn new_team_has_the_creator_as_its_only_member_and_owner() {
    let mut state = State::new();
    let a = teams_register(&mut state, 1);
    let made = create_team(
        &mut state,
        a,
        10,
        &[0xde, 0xad, 0x01],
        "Crew".to_string(),
        "about".to_string(),
        false,
    );
    assert_eq!(made, Ok("dead01".to_string()));
    let team = get_team(&state, a, "dead01".to_string()).expect("visible to its creator");
    assert_eq!(team.id, "dead01");
    assert_eq!(team.name, "Crew");
    assert_eq!(team.description, "about");
    assert!(!team.is_public);
    assert_eq!(team.owner_principal, a);
    assert_eq!(team.members, vec![TeamMember { principal: a, role: Role::Owner, joined_at: 10 }]);
    assert!(team.members.len() >= 1);
    assert_eq!(team.created_at, 10);
    assert_eq!(team.updated_at, 10);
}

#[test]
fn create_team_needs_a_registered_caller() {
    let mut state = State::new();
    let made = create_team(
        &mut state,
        teams_principal(9),
        1,
        &[1, 2],
        "n".to_string(),
        "d".to_string(),
        true,
    );
    assert_eq!(made, Err(Error::Unauthorized));
    assert!(state.teams().is_empty());
}

#[test]
fn create_team_under_a_used_identifier_replaces_the_team() {
    let mut state = State::new();
    let a = teams_register(&mut state, 1);
    let b = teams_register(&mut state, 2);
    let t1 = teams_new(&mut state, a, 1, false);
    let t2 = teams_new(&mut state, a, 2, false);
    assert_eq!(teams_new(&mut state, b, 1, true), t1);
    assert_eq!(state.teams().len(), 2);
    assert_eq!(state.teams()[0].id, t1);
    assert_eq!(state.teams()[0].owner_principal, b);
    assert!(state.teams()[0].is_public);
    assert_eq!(state.teams()[1].id, t2);
}

#[test]
fn get_team_hides_private_teams_from_strangers() {
    let mut state = State::new();
    let a = teams_register(&mut state, 1);
    let b = teams_register(&mut state, 2);
    let secret = teams_new(&mut state, a, 1, false);
    let open = teams_new(&mut state, a, 2, true);
    assert!(get_team(&state, a, secret.clone()).is_some());
    assert_eq!(get_team(&state, b, secret), None);
    assert!(get_team(&state, b, open.clone()).is_some());
    assert_eq!(get_team(&state, b, "absent".to_string()), None);
    assert_eq!(get_team(&state, teams_principal(9), open), None);
}

#[test]
fn update_team_by_owner_and_manager() {
    let mut state = State::new();
    let a = teams_register(&mut state, 1);
    let b = teams_register(&mut state, 2);
    let id = teams_new(&mut state, a, 1, false);
    assert_eq!(add_user_to_team(&mut state, 11, &id, &b, &Role::Manager), Ok(()));
    let rename = TeamUpdate { name: Some("New".to_string()), description: None, is_public: None };
    assert_eq!(update_team(&mut state, a, 20, id.clone(), rename), Ok(()));
    let publish = TeamUpdate {
        name: None,
        description: Some("more".to_string()),
        is_public: Some(true),
    };
    assert_eq!(update_team(&mut state, b, 30, id.clone(), publish), Ok(()));
    let team = get_team(&state, a, id).expect("visible");
    assert_eq!(team.name, "New");
    assert_eq!(team.description, "more");
    assert!(team.is_public);
    assert_eq!(team.created_at, 10);
    assert_eq!(team.updated_at, 30);
    assert_eq!(team.members.len(), 2);
}

#[test]
fn update_team_is_refused_to_collaborators_and_strangers() {
    let mut state = State::new();
    let a = teams_register(&mut state, 1);
    let b = teams_register(&mut state, 2);
    let c = teams_register(&mut state, 3);
    let id = teams_new(&mut state, a, 1, true);
    assert_eq!(add_user_to_team(&mut state, 11, &id, &b, &Role::Collaborator), Ok(()));
    let change = TeamUpdate { name: Some("x".to_string()), description: None, is_public: None };
    assert_eq!(
        update_team(&mut state, b, 20, id.clone(), change.clone()),
        Err(Error::InsufficientPermissions)
    );
    assert_eq!(
        update_team(&mut state, c, 20, id.clone(), change.clone()),
        Err(Error::InsufficientPermissions)
    );
    assert_eq!(
        update_team(&mut state, a, 20, "nope".to_string(), change),
        Err(Error::TeamNotFound)
    );
    let team = get_team(&state, a, id).expect("visible");
    assert_eq!(team.name, "Team 1");
    assert_eq!(team.updated_at, 11);
}

#[test]
fn delete_team_is_for_the_recorded_owner() {
    let mut state = State::new();
    let a = teams_register(&mut state, 1);
    let b = teams_register(&mut state, 2);
    let t1 = teams_new(&mut state, a, 1, true);
    let t2 = teams_new(&mut state, a, 2, true);
    assert_eq!(add_user_to_team(&mut state, 11, &t1, &b, &Role::Owner), Ok(()));
    assert_eq!(delete_team(&mut state, b, t1.clone()), Err(Error::InsufficientPermissions));
    assert_eq!(delete_team(&mut state, a, "t0".to_string()), Err(Error::TeamNotFound));
    assert_eq!(delete_team(&mut state, a, t1.clone()), Ok(()));
    assert_eq!(get_team(&state, a, t1.clone()), None);
    assert_eq!(delete_team(&mut state, a, t1), Err(Error::TeamNotFound));
    assert_eq!(state.teams().len(), 1);
    assert_eq!(state.teams()[0].id, t2);
}

#[test]
fn delete_team_goes_by_the_owner_field_even_after_the_owner_left() {
    let mut state = State::new();
    let a = teams_register(&mut state, 1);
    let id = teams_new(&mut state, a, 1, true);
    assert_eq!(remove_user_from_team(&mut state, 12, &id, &a), Ok(()));
    assert!(state.teams()[0].members.is_empty());
    assert_eq!(delete_team(&mut state, a, id), Ok(()));
    assert!(state.teams().is_empty());
}

#[test]
fn get_user_teams_lists_own_memberships_in_store_order() {
    let mut state = State::new();
    let a = teams_register(&mut state, 1);
    let b = teams_register(&mut state, 2);
    let t1 = teams_new(&mut state, a, 1, false);
    let t2 = teams_new(&mut state, b, 2, false);
    let t3 = teams_new(&mut state, a, 3, true);
    assert_eq!(add_user_to_team(&mut state, 11, &t2, &a, &Role::Collaborator), Ok(()));
    let ids: Vec<String> = get_user_teams(&state, a, a).into_iter().map(|t| t.id).collect();
    assert_eq!(ids, vec![t1, t2.clone(), t3]);
    let ids: Vec<String> = get_user_teams(&state, b, b).into_iter().map(|t| t.id).collect();
    assert_eq!(ids, vec![t2]);
    assert!(get_user_teams(&state, a, b).is_empty());
    assert!(get_user_teams(&state, teams_principal(9), teams_principal(9)).is_empty());
}

#[test]
fn get_public_teams_lists_the_public_ones() {
    let mut state = State::new();
    let a = teams_register(&mut state, 1);
    let b = teams_register(&mut state, 2);
    assert!(get_public_teams(&state, a).is_empty());
    let t1 = teams_new(&mut state, a, 1, true);
    teams_new(&mut state, a, 2, false);
    let t3 = teams_new(&mut state, a, 3, true);
    let ids: Vec<String> = get_public_teams(&state, a).into_iter().map(|t| t.id).collect();
    assert_eq!(ids, vec![t1.clone(), t3.clone()]);
    let ids: Vec<String> = get_public_teams(&state, b).into_iter().map(|t| t.id).collect();
    assert_eq!(ids, vec![t1, t3]);
}

#[test]
fn get_public_teams_shows_nothing_to_an_unregistered_caller() {
    let mut state = State::new();
    let a = teams_register(&mut state, 1);
    teams_new(&mut state, a, 1, true);
    assert_eq!(get_public_teams(&state, a).len(), 1);
    assert!(get_public_teams(&state, teams_principal(9)).is_empty());
}

#[test]
fn role_in_team_of_members_and_others() {
    let a = teams_principal(1);
    let b = teams_principal(2);
    let team = Team {
        id: "t".to_string(),
        name: "n".to_string(),
        description: "d".to_string(),
        is_public: false,
        owner_principal: a,
        members: vec![
            TeamMember { principal: a, role: Role::Owner, joined_at: 1 },
            TeamMember { principal: b, role: Role::Manager, joined_at: 2 },
            TeamMember { principal: b, role: Role::Collaborator, joined_at: 3 },
        ],
        created_at: 1,
        updated_at: 3,
    };
    assert_eq!(get_user_role_in_team(&team, &a), Ok(Role::Owner));
    assert_eq!(get_user_role_in_team(&team, &b), Ok(Role::Manager));
    assert_eq!(
        get_user_role_in_team(&team, &teams_principal(3)),
        Err(Error::InsufficientPermissions)
    );
}

#[test]
fn add_user_to_team_refuses_a_second_entry() {
    let mut state = State::new();
    let a = teams_register(&mut state, 1);
    let b = teams_register(&mut state, 2);
    let id = teams_new(&mut state, a, 1, false);
    assert_eq!(add_user_to_team(&mut state, 11, &id, &b, &Role::Collaborator), Ok(()));
    assert_eq!(
        add_user_to_team(&mut state, 12, &id, &b, &Role::Owner),
        Err(Error::AlreadyExists)
    );
    assert_eq!(
        add_user_to_team(&mut state, 12, &id, &a, &Role::Manager),
        Err(Error::AlreadyExists)
    );
    assert_eq!(
        add_user_to_team(&mut state, 12, &"t9".to_string(), &b, &Role::Manager),
        Err(Error::TeamNotFound)
    );
    let team = &state.teams()[0];
    assert_eq!(
        team.members,
        vec![
            TeamMember { principal: a, role: Role::Owner, joined_at: 10 },
            TeamMember { principal: b, role: Role::Collaborator, joined_at: 11 },
        ]
    );
    assert_eq!(team.updated_at, 11);
}

#[test]
fn remove_user_from_team_keeps_the_others_in_order() {
    let mut state = State::new();
    let a = teams_register(&mut state, 1);
    let b = teams_register(&mut state, 2);
    let c = teams_register(&mut state, 3);
    let id = teams_new(&mut state, a, 1, false);
    assert_eq!(add_user_to_team(&mut state, 11, &id, &b, &Role::Manager), Ok(()));
    assert_eq!(add_user_to_team(&mut state, 12, &id, &c, &Role::Collaborator), Ok(()));
    assert_eq!(remove_user_from_team(&mut state, 13, &id, &b), Ok(()));
    let team = &state.teams()[0];
    assert_eq!(
        team.members,
        vec![
            TeamMember { principal: a, role: Role::Owner, joined_at: 10 },
            TeamMember { principal: c, role: Role::Collaborator, joined_at: 12 },
        ]
    );
    assert_eq!(team.updated_at, 13);
}

#[test]
fn remove_user_from_team_of_a_non_member_succeeds_and_stamps() {
    let mut state = State::new();
    let a = teams_register(&mut state, 1);
    let id = teams_new(&mut state, a, 1, false);
    assert_eq!(remove_user_from_team(&mut state, 13, &id, &teams_principal(8)), Ok(()));
    assert_eq!(state.teams()[0].members.len(), 1);
    assert_eq!(state.teams()[0].updated_at, 13);
    assert_eq!(
        remove_user_from_team(&mut state, 14, &"t7".to_string(), &a),
        Err(Error::TeamNotFound)
    );
}
