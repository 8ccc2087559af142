//! Projects: who owns them, who belongs to them, who may see and change
//! them.

use crate::auth::{can_manage, is_owner, is_owner_or_manager};
use crate::keys::{
    as_map, find, first_at, lemma_filter_facts, lemma_filter_keys, lemma_filter_next, lemma_find,
    lemma_first_at, lemma_map_push, lemma_map_remove, lemma_map_update, lemma_not_found,
    lemma_push_key, lemma_remove_key,
};
use crate::state::{project_member_ids, project_views, Outcome, State, StateView};
use crate::team::{get_user_role_in_team, is_team_member};
use crate::trusted::{hex_text, same_principal};
use crate::types::{
    done, named, plain, Error, ErrorView, Owner, OwnerView, Project, ProjectMember, ProjectUpdate,
    ProjectUpdateView, ProjectView, Role, Timestamp,
};
use crate::utils::generate_id;
use candid::Principal;
use vstd::prelude::*;

verus! {

/// The test that keeps every member of a project but `p`.
pub open spec fn all_but(p: Principal) -> spec_fn(ProjectMember) -> bool {
    |m: ProjectMember| m.principal != p
}

/// The test that selects the projects to which `p` belongs.
pub open spec fn project_of(p: Principal) -> spec_fn(ProjectView) -> bool {
    |t: ProjectView| t.has_member(p)
}

/// The test that selects the projects owned by the team `team_id`.
pub open spec fn owned_by_team(team_id: Seq<char>) -> spec_fn(ProjectView) -> bool {
    |t: ProjectView| t.owner == OwnerView::Team(team_id)
}

impl ProjectView {
    /// The project as it is right after its creation at time `now`: whoever
    /// owns it, it has no members.
    pub open spec fn founded(
        id: Seq<char>,
        name: Seq<char>,
        description: Seq<char>,
        owner: OwnerView,
        now: Timestamp,
    ) -> ProjectView {
        ProjectView {
            id,
            name,
            description,
            owner,
            members: Seq::empty(),
            created_at: now,
            updated_at: now,
        }
    }

    /// Where `p` stands in the list of members, if it is one.
    pub open spec fn find_member(self, p: Principal) -> Option<int> {
        find(project_member_ids(self.members), p)
    }

    /// The roles of the members, by principal: each member has the role of
    /// its first entry.
    pub open spec fn roles(self) -> Map<Principal, Role> {
        Map::new(
            |p: Principal| project_member_ids(self.members).contains(p),
            |p: Principal| self.members[self.find_member(p)->0].role,
        )
    }

    /// Whether `p` is a member.
    pub open spec fn has_member(self, p: Principal) -> bool {
        self.roles().contains_key(p)
    }

    /// The role of `p`, if it is a member.
    pub open spec fn role_of(self, p: Principal) -> Option<Role> {
        if self.has_member(p) {
            Some(self.roles()[p])
        } else {
            None
        }
    }

    /// The project after a partial update at time `now`.
    pub open spec fn revised(self, u: ProjectUpdateView, now: Timestamp) -> ProjectView {
        ProjectView {
            name: if let Some(v) = u.name { v } else { self.name },
            description: if let Some(v) = u.description { v } else { self.description },
            updated_at: now,
            ..self
        }
    }

    /// The project in other hands from time `now` on. Its members and their
    /// roles are as before.
    pub open spec fn handed_to(self, owner: OwnerView, now: Timestamp) -> ProjectView {
        ProjectView { owner, updated_at: now, ..self }
    }

    /// The project after `p` joined it with `role` at time `now`.
    pub open spec fn joined(self, p: Principal, role: Role, now: Timestamp) -> ProjectView {
        ProjectView {
            members: self.members.push(ProjectMember { principal: p, role, joined_at: now }),
            updated_at: now,
            ..self
        }
    }

    /// The project after every entry of `p` was struck from its members at
    /// time `now`; the others stay in their order.
    pub open spec fn left(self, p: Principal, now: Timestamp) -> ProjectView {
        ProjectView { members: self.members.filter(all_but(p)), updated_at: now, ..self }
    }
}

impl StateView {
    /// Why `caller` may not create a project for `owner`, if it may not. A
    /// user creates projects for itself only. For a team, the team must
    /// exist, and the caller must be its owner or one of its managers: whoever
    /// is no member, or a member below `Manager`, lacks the permission,
    /// whether the team is public or not.
    pub open spec fn owner_error(self, caller: Principal, owner: OwnerView) -> Option<ErrorView> {
        match owner {
            OwnerView::User(p) => if p != caller {
                Some(ErrorView::InsufficientPermissions)
            } else {
                None
            },
            OwnerView::Team(team_id) => if !self.has_team(team_id) {
                Some(ErrorView::TeamNotFound)
            } else if !self.team(team_id).has_member(caller) || !can_manage(
                self.team(team_id).roles()[caller],
            ) {
                Some(ErrorView::InsufficientPermissions)
            } else {
                None
            },
        }
    }

    /// Creation of a project by `caller`.
    pub open spec fn create_project(
        self,
        caller: Principal,
        now: Timestamp,
        id: Seq<char>,
        name: Seq<char>,
        description: Seq<char>,
        owner: OwnerView,
    ) -> Outcome<Result<Seq<char>, ErrorView>> {
        if !self.has_user(caller) {
            Outcome { state: self, result: Err(ErrorView::Unauthorized) }
        } else if let Some(e) = self.owner_error(caller, owner) {
            Outcome { state: self, result: Err(e) }
        } else {
            Outcome {
                state: self.put_project(ProjectView::founded(id, name, description, owner, now)),
                result: Ok(id),
            }
        }
    }

    /// What `caller` is shown of the project `id`: the project, if the caller
    /// is registered and is one of its members.
    pub open spec fn get_project(self, caller: Principal, id: Seq<char>) -> Option<ProjectView> {
        if self.has_user(caller) && self.has_project(id) && self.project(id).has_member(caller) {
            Some(self.project(id))
        } else {
            None
        }
    }

    /// Partial update of the project `id` by `caller`.
    pub open spec fn update_project(
        self,
        caller: Principal,
        now: Timestamp,
        id: Seq<char>,
        u: ProjectUpdateView,
    ) -> Outcome<Result<(), ErrorView>> {
        if !self.has_project(id) {
            Outcome { state: self, result: Err(ErrorView::ProjectNotFound) }
        } else if !self.project(id).has_member(caller) || !can_manage(
            self.project(id).roles()[caller],
        ) {
            Outcome { state: self, result: Err(ErrorView::InsufficientPermissions) }
        } else {
            Outcome {
                state: self.set_project(
                    self.find_project(id)->0,
                    self.project(id).revised(u, now),
                ),
                result: Ok(()),
            }
        }
    }

    /// Deletion of the project `id` by `caller`: granted to a member in the
    /// role `Owner`, whoever the project records as its owner.
    pub open spec fn delete_project(self, caller: Principal, id: Seq<char>) -> Outcome<
        Result<(), ErrorView>,
    > {
        if !self.has_project(id) {
            Outcome { state: self, result: Err(ErrorView::ProjectNotFound) }
        } else if self.project(id).role_of(caller) != Some(Role::Owner) {
            Outcome { state: self, result: Err(ErrorView::InsufficientPermissions) }
        } else {
            Outcome { state: self.drop_project(self.find_project(id)->0), result: Ok(()) }
        }
    }

    /// Handing the project `id` over to `new_owner`, asked for by `caller`:
    /// granted to a member in the role `Owner`.
    pub open spec fn transfer_ownership(
        self,
        caller: Principal,
        now: Timestamp,
        id: Seq<char>,
        new_owner: OwnerView,
    ) -> Outcome<Result<(), ErrorView>> {
        if !self.has_project(id) {
            Outcome { state: self, result: Err(ErrorView::ProjectNotFound) }
        } else if self.project(id).role_of(caller) != Some(Role::Owner) {
            Outcome { state: self, result: Err(ErrorView::InsufficientPermissions) }
        } else {
            Outcome {
                state: self.set_project(
                    self.find_project(id)->0,
                    self.project(id).handed_to(new_owner, now),
                ),
                result: Ok(()),
            }
        }
    }

    /// The projects of `principal` as shown to `caller`: all of them if the
    /// caller is registered and asks about itself, none otherwise.
    pub open spec fn get_user_projects(self, caller: Principal, principal: Principal) -> Seq<
        ProjectView,
    > {
        if !self.has_user(caller) || caller != principal {
            Seq::empty()
        } else {
            self.projects.filter(project_of(principal))
        }
    }

    /// The projects owned by the team `team_id` as shown to `caller`: all of
    /// them if the caller is registered and a member of that team, none
    /// otherwise.
    pub open spec fn get_team_projects(self, caller: Principal, team_id: Seq<char>) -> Seq<
        ProjectView,
    > {
        if self.has_user(caller) && self.has_team(team_id) && self.team(team_id).has_member(
            caller,
        ) {
            self.projects.filter(owned_by_team(team_id))
        } else {
            Seq::empty()
        }
    }

    /// Enrolment of `p` in the project `id` with `role`.
    pub open spec fn add_user_to_project(
        self,
        now: Timestamp,
        id: Seq<char>,
        p: Principal,
        role: Role,
    ) -> Outcome<Result<(), ErrorView>> {
        if !self.has_project(id) {
            Outcome { state: self, result: Err(ErrorView::ProjectNotFound) }
        } else if self.project(id).has_member(p) {
            Outcome { state: self, result: Err(ErrorView::AlreadyExists) }
        } else {
            Outcome {
                state: self.set_project(
                    self.find_project(id)->0,
                    self.project(id).joined(p, role, now),
                ),
                result: Ok(()),
            }
        }
    }

    /// Removal of `p` from the project `id`. Removing somebody who is not a
    /// member succeeds too, and stamps the project all the same.
    pub open spec fn remove_user_from_project(
        self,
        now: Timestamp,
        id: Seq<char>,
        p: Principal,
    ) -> Outcome<Result<(), ErrorView>> {
        if !self.has_project(id) {
            Outcome { state: self, result: Err(ErrorView::ProjectNotFound) }
        } else {
            Outcome {
                state: self.set_project(self.find_project(id)->0, self.project(id).left(p, now)),
                result: Ok(()),
            }
        }
    }
}

/// Storing a project whose members are listed once each keeps the state well
/// formed.
pub proof fn lemma_put_project_wf(s: StateView, project: ProjectView)
    requires
        s.wf(),
        project_member_ids(project.members).no_duplicates(),
    ensures
        s.put_project(project).wf(),
        s.put_project(project).project_map() == s.project_map().insert(project.id, project),
{
    let t = s.put_project(project);
    lemma_find(s.project_ids(), project.id);
    match s.find_project(project.id) {
        Some(i) => {
            lemma_set_project_wf(s, i, project);
        },
        None => {
            lemma_push_key(s.project_ids(), project.id);
            assert(t.project_ids() =~= s.project_ids().push(project.id));
            lemma_map_push(s.project_ids(), s.projects, project.id, project);
            assert forall|j: int| 0 <= j < t.projects.len() implies project_member_ids(
                #[trigger] t.projects[j].members,
            ).no_duplicates() by {
                if j < s.projects.len() {
                    assert(t.projects[j] == s.projects[j]);
                }
            }
        },
    }
}

/// Replacing a project by one with the same identifier, whose members are
/// listed once each, keeps the state well formed.
pub proof fn lemma_set_project_wf(s: StateView, i: int, project: ProjectView)
    requires
        s.wf(),
        0 <= i < s.projects.len(),
        project.id == s.projects[i].id,
        project_member_ids(project.members).no_duplicates(),
    ensures
        s.set_project(i, project).wf(),
        s.set_project(i, project).project_map() == s.project_map().insert(project.id, project),
{
    let t = s.set_project(i, project);
    assert(t.project_ids() =~= s.project_ids());
    lemma_map_update(s.project_ids(), s.projects, i, project);
    assert forall|j: int| 0 <= j < t.projects.len() implies project_member_ids(
        #[trigger] t.projects[j].members,
    ).no_duplicates() by {
        if j != i {
            assert(t.projects[j] == s.projects[j]);
        }
    }
}

/// Dropping a project keeps the state well formed, and the project is gone.
pub proof fn lemma_drop_project_wf(s: StateView, i: int)
    requires
        s.wf(),
        0 <= i < s.projects.len(),
    ensures
        s.drop_project(i).wf(),
        s.drop_project(i).find_project(s.projects[i].id) is None,
        s.drop_project(i).project_map() == s.project_map().remove(s.projects[i].id),
{
    let t = s.drop_project(i);
    lemma_remove_key(s.project_ids(), i);
    assert(t.project_ids() =~= s.project_ids().remove(i));
    lemma_map_remove(s.project_ids(), s.projects, i);
    lemma_find(t.project_ids(), s.projects[i].id);
    assert forall|j: int| 0 <= j < t.projects.len() implies project_member_ids(
        #[trigger] t.projects[j].members,
    ).no_duplicates() by {
        let j0 = if j < i { j } else { j + 1 };
        assert(t.projects[j] == s.projects[j0]);
    }
}

/// A new member who was none before leaves every member listed once.
pub proof fn lemma_joined_project_unique(
    project: ProjectView,
    p: Principal,
    role: Role,
    now: Timestamp,
)
    requires
        project_member_ids(project.members).no_duplicates(),
        !project.has_member(p),
    ensures
        project_member_ids(project.joined(p, role, now).members).no_duplicates(),
        project.joined(p, role, now).role_of(p) == Some(role),
        project.joined(p, role, now).roles() == project.roles().insert(p, role),
{
    let ids = project_member_ids(project.members);
    let after = project.joined(p, role, now);
    let member = ProjectMember { principal: p, role, joined_at: now };
    lemma_find(ids, p);
    lemma_push_key(ids, p);
    assert(project_member_ids(after.members) =~= ids.push(p));
    lemma_map_push(ids, project.members, p, member);
    let stored = as_map(ids.push(p), after.members);
    assert(stored == as_map(ids, project.members).insert(p, member));
    assert forall|q: Principal| after.roles().contains_key(q) == project.roles().insert(
        p,
        role,
    ).contains_key(q) by {
        assert(after.roles().contains_key(q) == stored.contains_key(q));
    }
    assert forall|q: Principal| after.roles().contains_key(q) implies after.roles()[q]
        == project.roles().insert(p, role)[q] by {
        assert(after.roles()[q] == stored[q].role);
    }
    assert(after.roles() =~= project.roles().insert(p, role));
}

/// Striking a principal from the members leaves every other member listed
/// once, and the principal is a member no more.
pub proof fn lemma_left_project_unique(project: ProjectView, p: Principal, now: Timestamp)
    requires
        project_member_ids(project.members).no_duplicates(),
    ensures
        project_member_ids(project.left(p, now).members).no_duplicates(),
        !project.left(p, now).has_member(p),
        project.left(p, now).roles() == project.roles().remove(p),
{
    let key = |m: ProjectMember| m.principal;
    let kept = project.members.filter(all_but(p));
    assert forall|i: int, j: int| 0 <= i < j < project.members.len() implies key(
        project.members[i],
    ) != key(project.members[j]) by {
        assert(project_member_ids(project.members)[i] != project_member_ids(project.members)[j]);
    }
    lemma_filter_keys(project.members, key, all_but(p));
    lemma_filter_facts(project.members, all_but(p));
    let ids = project_member_ids(kept);
    assert forall|i: int, j: int| 0 <= i < ids.len() && 0 <= j < ids.len() && i != j implies ids[i]
        != ids[j] by {
        if i < j {
            assert(key(kept[i]) != key(kept[j]));
        } else {
            assert(key(kept[j]) != key(kept[i]));
        }
    }
    assert forall|j: int| 0 <= j < ids.len() implies ids[j] != p by {
        assert(all_but(p)(kept[j]));
    }
    lemma_not_found(ids, p);
    let all = project_member_ids(project.members);
    let after = project.left(p, now);
    assert forall|q: Principal| after.roles().contains_key(q) == project.roles().remove(
        p,
    ).contains_key(q) by {
        if ids.contains(q) {
            let j = choose|j: int| 0 <= j < ids.len() && ids[j] == q;
            assert(project.members.contains(kept[j]));
            let i = choose|i: int| 0 <= i < project.members.len() && project.members[i] == kept[j];
            assert(all[i] == q);
        }
        if all.contains(q) && q != p {
            let i = choose|i: int| 0 <= i < all.len() && all[i] == q;
            project.members.lemma_filter_contains(all_but(p), i);
            let j = choose|j: int| 0 <= j < kept.len() && kept[j] == project.members[i];
            assert(ids[j] == q);
        }
    }
    assert forall|q: Principal| after.roles().contains_key(q) implies after.roles()[q]
        == project.roles().remove(p)[q] by {
        lemma_find(ids, q);
        lemma_find(all, q);
        let j = find(ids, q)->0;
        assert(project.members.contains(kept[j]));
        let i = choose|i: int| 0 <= i < project.members.len() && project.members[i] == kept[j];
        assert(all[i] == q);
        assert(all[find(all, q)->0] == q);
        assert(i == find(all, q)->0);
    }
    assert(after.roles() =~= project.roles().remove(p));
}

/// Whether `p` is a member of the project.
pub(crate) fn is_project_member(project: &Project, p: &Principal) -> (found: bool)
    ensures
        found == project@.has_member(*p),
{
    find_project_member(project, p).is_some()
}

/// Where `p` stands among the members of the project.
fn find_project_member(project: &Project, p: &Principal) -> (found: Option<usize>)
    ensures
        match found {
            Some(i) => project@.find_member(*p) == Some(i as int) && i < project.members@.len(),
            None => project@.find_member(*p) is None,
        },
{
    let ghost ids = project_member_ids(project.members@);
    let mut i: usize = 0;
    while i < project.members.len()
        invariant
            i <= project.members@.len(),
            ids == project_member_ids(project.members@),
            forall|j: int| 0 <= j < i ==> ids[j] != *p,
        decreases project.members@.len() - i,
    {
        if same_principal(&project.members[i].principal, p) {
            proof {
                lemma_first_at(ids, *p, i as int);
            }
            return Some(i);
        }
        i += 1;
    }
    proof {
        lemma_not_found(ids, *p);
    }
    None
}

/// The members of a project without `p`, in their order.
fn project_members_without(members: &Vec<ProjectMember>, p: &Principal) -> (kept: Vec<
    ProjectMember,
>)
    ensures
        kept@ == members@.filter(all_but(*p)),
{
    let mut kept: Vec<ProjectMember> = Vec::new();
    let mut i: usize = 0;
    proof {
        reveal(Seq::filter);
    }
    while i < members.len()
        invariant
            i <= members@.len(),
            kept@ == members@.take(i as int).filter(all_but(*p)),
        decreases members@.len() - i,
    {
        proof {
            lemma_filter_next(members@, all_but(*p), i as int);
        }
        if !same_principal(&members[i].principal, p) {
            kept.push(members[i]);
        }
        i += 1;
    }
    assert(members@.take(i as int) =~= members@);
    kept
}

/// Checks that `caller` may create a project for `owner`.
fn check_owner(state: &State, caller: &Principal, owner: &Owner) -> (r: Result<(), Error>)
    ensures
        match r {
            Ok(()) => state@.owner_error(*caller, owner@) is None,
            Err(e) => state@.owner_error(*caller, owner@) == Some(e@),
        },
{
    match owner {
        Owner::User(p) => {
            if !same_principal(p, caller) {
                return Err(Error::InsufficientPermissions);
            }
            Ok(())
        },
        Owner::Team(team_id) => {
            match state.find_team(team_id) {
                None => Err(Error::TeamNotFound),
                Some(i) => {
                    match get_user_role_in_team(&state.teams[i], caller) {
                        Err(e) => Err(e),
                        Ok(role) => {
                            if !is_owner_or_manager(role) {
                                return Err(Error::InsufficientPermissions);
                            }
                            Ok(())
                        },
                    }
                },
            }
        },
    }
}

/// Creates a project whose identifier is the hexadecimal text of `id_seed`
/// and returns the identifier. The project starts without members, whoever
/// owns it. Fails with `Unauthorized` if `caller` is not registered; with
/// `TeamNotFound` if the owner is a team that does not exist; with
/// `InsufficientPermissions` if the owner is a user other than the caller, or
/// a team of which the caller is no member or a member below `Manager`. A
/// project already stored under the identifier is replaced.
pub fn create_project(
    state: &mut State,
    caller: Principal,
    now: Timestamp,
    id_seed: &[u8],
    name: String,
    description: String,
    owner: Owner,
) -> (result: Result<String, Error>)
    requires
        old(state).wf(),
    ensures
        final(state).wf(),
        final(state)@ == old(state)@.create_project(
            caller,
            now,
            hex_text(id_seed@),
            name@,
            description@,
            owner@,
        ).state,
        named(result) == old(state)@.create_project(
            caller,
            now,
            hex_text(id_seed@),
            name@,
            description@,
            owner@,
        ).result,
        result is Err ==> final(state)@ == old(state)@,
        result is Ok ==> ({
            let id = hex_text(id_seed@);
            let project = ProjectView::founded(id, name@, description@, owner@, now);
            &&& final(state)@.project_map() == old(state)@.project_map().insert(id, project)
            &&& project.roles() == Map::<Principal, Role>::empty()
        }),
{
    if !state.user_exists(&caller) {
        return Err(Error::Unauthorized);
    }
    match check_owner(state, &caller, &owner) {
        Err(e) => {
            return Err(e);
        },
        Ok(()) => {},
    }
    let project_id = generate_id(id_seed);
    let ghost view = ProjectView::founded(project_id@, name@, description@, owner@, now);
    let project = Project {
        id: project_id.clone(),
        name,
        description,
        owner,
        members: Vec::new(),
        created_at: now,
        updated_at: now,
    };
    proof {
        assert(project_member_ids(view.members) =~= Seq::empty());
        lemma_put_project_wf(old(state)@, view);
        lemma_find(old(state)@.project_ids(), project_id@);
    }
    match state.find_project(&project_id) {
        Some(i) => {
            state.projects[i] = project;
            proof {
                assert(state@.projects =~= old(state)@.projects.update(i as int, view));
                assert(state@.project_ids() =~= old(state)@.project_ids());
            }
        },
        None => {
            state.projects.push(project);
            proof {
                assert(state@.projects =~= old(state)@.projects.push(view));
                lemma_push_key(old(state)@.project_ids(), project_id@);
                assert(state@.project_ids() =~= old(state)@.project_ids().push(project_id@));
            }
        },
    }
    Ok(project_id)
}

/// Returns the project `project_id` if `caller` is registered and is one of
/// its members. A project that does not exist and one that the caller may not
/// see are both answered with `None`.
pub fn get_project(state: &State, caller: Principal, project_id: String) -> (result: Option<
    Project,
>)
    ensures
        match result {
            Some(project) => state@.get_project(caller, project_id@) == Some(project@),
            None => state@.get_project(caller, project_id@) is None,
        },
{
    match find_visible_project(state, &caller, &project_id) {
        Some(i) => Some(state.projects[i].clone()),
        None => None,
    }
}

/// Where the project `project_id` is stored, if `caller` is registered and
/// may see it.
fn find_visible_project(
    state: &State,
    caller: &Principal,
    project_id: &String,
) -> (found: Option<usize>)
    ensures
        match found {
            Some(i) => i < state.projects@.len() && state@.find_project(project_id@) == Some(
                i as int,
            ) && state@.get_project(*caller, project_id@) == Some(state@.projects[i as int]),
            None => state@.get_project(*caller, project_id@) is None,
        },
{
    if !state.user_exists(caller) {
        return None;
    }
    match state.find_project(project_id) {
        Some(i) => {
            if is_project_member(&state.projects[i], caller) {
                Some(i)
            } else {
                None
            }
        },
        None => None,
    }
}

/// Changes the name and the description of the project `project_id` as far
/// as `updates` names them, and stamps the project with `now`. Fails with
/// `ProjectNotFound` if there is no such project, and with
/// `InsufficientPermissions` unless `caller` is a member in the role `Owner`
/// or `Manager`.
pub fn update_project(
    state: &mut State,
    caller: Principal,
    now: Timestamp,
    project_id: String,
    updates: ProjectUpdate,
) -> (result: Result<(), Error>)
    requires
        old(state).wf(),
    ensures
        final(state).wf(),
        final(state)@ == old(state)@.update_project(caller, now, project_id@, updates@).state,
        done(result) == old(state)@.update_project(caller, now, project_id@, updates@).result,
        result is Err ==> final(state)@ == old(state)@,
        result is Ok ==> final(state)@.project_map() == old(state)@.project_map().insert(
            project_id@,
            old(state)@.project(project_id@).revised(updates@, now),
        ),
{
    match state.find_project(&project_id) {
        None => Err(Error::ProjectNotFound),
        Some(i) => {
            let role = match get_user_role_in_project(&state.projects[i], &caller) {
                Ok(role) => role,
                Err(e) => {
                    return Err(e);
                },
            };
            if !is_owner_or_manager(role) {
                return Err(Error::InsufficientPermissions);
            }
            let ghost after = old(state)@.projects[i as int].revised(updates@, now);
            let ProjectUpdate { name, description } = updates;
            if let Some(v) = name {
                state.projects[i].name = v;
            }
            if let Some(v) = description {
                state.projects[i].description = v;
            }
            state.projects[i].updated_at = now;
            proof {
                assert(state@.projects =~= old(state)@.projects.update(i as int, after));
                lemma_find(old(state)@.project_ids(), project_id@);
                lemma_set_project_wf(old(state)@, i as int, after);
            }
            Ok(())
        },
    }
}

/// Deletes the project `project_id`. Fails with `ProjectNotFound` if there
/// is no such project, and with `InsufficientPermissions` unless `caller` is
/// a member in the role `Owner`. The owner that the project records plays no
/// part.
pub fn delete_project(state: &mut State, caller: Principal, project_id: String) -> (result: Result<
    (),
    Error,
>)
    requires
        old(state).wf(),
    ensures
        final(state).wf(),
        final(state)@ == old(state)@.delete_project(caller, project_id@).state,
        done(result) == old(state)@.delete_project(caller, project_id@).result,
        result is Err ==> final(state)@ == old(state)@,
        result is Ok ==> final(state)@.project_map() == old(state)@.project_map().remove(
            project_id@,
        ),
{
    match state.find_project(&project_id) {
        None => Err(Error::ProjectNotFound),
        Some(i) => {
            let role = match get_user_role_in_project(&state.projects[i], &caller) {
                Ok(role) => role,
                Err(e) => {
                    return Err(e);
                },
            };
            if !is_owner(role) {
                return Err(Error::InsufficientPermissions);
            }
            state.projects.remove(i);
            proof {
                assert(state@.projects =~= old(state)@.projects.remove(i as int));
                lemma_find(old(state)@.project_ids(), project_id@);
                lemma_drop_project_wf(old(state)@, i as int);
            }
            Ok(())
        },
    }
}

/// Records `new_owner` as the owner of the project `project_id` and stamps
/// the project with `now`. The members and their roles stay as they are: the
/// former owner keeps its role, and the new owner does not become a member.
/// Fails with `ProjectNotFound` if there is no such project, and with
/// `InsufficientPermissions` unless `caller` is a member in the role `Owner`.
pub fn transfer_ownership(
    state: &mut State,
    caller: Principal,
    now: Timestamp,
    project_id: String,
    new_owner: Owner,
) -> (result: Result<(), Error>)
    requires
        old(state).wf(),
    ensures
        final(state).wf(),
        final(state)@ == old(state)@.transfer_ownership(caller, now, project_id@, new_owner@).state,
        done(result) == old(state)@.transfer_ownership(
            caller,
            now,
            project_id@,
            new_owner@,
        ).result,
        result is Err ==> final(state)@ == old(state)@,
        result is Ok ==> final(state)@.project_map() == old(state)@.project_map().insert(
            project_id@,
            old(state)@.project(project_id@).handed_to(new_owner@, now),
        ),
{
    match state.find_project(&project_id) {
        None => Err(Error::ProjectNotFound),
        Some(i) => {
            let role = match get_user_role_in_project(&state.projects[i], &caller) {
                Ok(role) => role,
                Err(e) => {
                    return Err(e);
                },
            };
            if !is_owner(role) {
                return Err(Error::InsufficientPermissions);
            }
            let ghost after = old(state)@.projects[i as int].handed_to(new_owner@, now);
            state.projects[i].owner = new_owner;
            state.projects[i].updated_at = now;
            proof {
                assert(state@.projects =~= old(state)@.projects.update(i as int, after));
                lemma_find(old(state)@.project_ids(), project_id@);
                lemma_set_project_wf(old(state)@, i as int, after);
            }
            Ok(())
        },
    }
}

/// Lists the projects that have `principal` among their members, in the
/// order of the store, if `caller` is registered and is `principal`; the list
/// is empty otherwise.
pub fn get_user_projects(state: &State, caller: Principal, principal: Principal) -> (result: Vec<
    Project,
>)
    ensures
        project_views(result@) == state@.get_user_projects(caller, principal),
        result@.len() <= state@.projects.len(),
        forall|i: int|
            0 <= i < result@.len() ==> (#[trigger] result@[i])@.has_member(principal)
                && state@.projects.contains(result@[i]@),
        state@.has_user(caller) && caller == principal ==> forall|j: int|
            0 <= j < state@.projects.len() && (#[trigger] state@.projects[j]).has_member(principal)
                ==> project_views(result@).contains(state@.projects[j]),
{
    let mut found: Vec<Project> = Vec::new();
    if !state.user_exists(&caller) || !same_principal(&caller, &principal) {
        return found;
    }
    let mut i: usize = 0;
    proof {
        reveal(Seq::filter);
    }
    while i < state.projects.len()
        invariant
            i <= state.projects@.len(),
            project_views(found@) == state@.projects.take(i as int).filter(project_of(principal)),
        decreases state.projects@.len() - i,
    {
        proof {
            lemma_filter_next(state@.projects, project_of(principal), i as int);
        }
        if is_project_member(&state.projects[i], &principal) {
            found.push(state.projects[i].clone());
        }
        i += 1;
    }
    proof {
        assert(state@.projects.take(i as int) =~= state@.projects);
        lemma_filter_facts(state@.projects, project_of(principal));
        assert forall|j: int| 0 <= j < found@.len() implies (#[trigger] found@[j])@.has_member(
            principal,
        ) && state@.projects.contains(found@[j]@) by {
            assert(project_views(found@)[j] == found@[j]@);
        }
    }
    found
}

/// Whether the project is owned by the team `team_id`.
fn is_owned_by_team(project: &Project, team_id: &String) -> (owned: bool)
    ensures
        owned == (project@.owner == OwnerView::Team(team_id@)),
{
    match &project.owner {
        Owner::Team(id) => *id == *team_id,
        Owner::User(_) => false,
    }
}

/// Lists the projects owned by the team `team_id`, in the order of the
/// store, if `caller` is registered and is a member of that team; the list is
/// empty otherwise.
pub fn get_team_projects(state: &State, caller: Principal, team_id: String) -> (result: Vec<
    Project,
>)
    ensures
        project_views(result@) == state@.get_team_projects(caller, team_id@),
        result@.len() <= state@.projects.len(),
        forall|i: int|
            0 <= i < result@.len() ==> (#[trigger] result@[i])@.owner == OwnerView::Team(team_id@)
                && state@.projects.contains(result@[i]@),
        state@.has_user(caller) && state@.has_team(team_id@) && state@.team(team_id@).has_member(
            caller,
        ) ==> forall|j: int|
            0 <= j < state@.projects.len() && (#[trigger] state@.projects[j]).owner
                == OwnerView::Team(team_id@) ==> project_views(result@).contains(
                state@.projects[j],
            ),
{
    let mut found: Vec<Project> = Vec::new();
    if !state.user_exists(&caller) {
        return found;
    }
    let is_member = match state.find_team(&team_id) {
        Some(t) => is_team_member(&state.teams[t], &caller),
        None => false,
    };
    if !is_member {
        return found;
    }
    let mut i: usize = 0;
    proof {
        reveal(Seq::filter);
    }
    while i < state.projects.len()
        invariant
            i <= state.projects@.len(),
            project_views(found@) == state@.projects.take(i as int).filter(owned_by_team(team_id@)),
        decreases state.projects@.len() - i,
    {
        proof {
            lemma_filter_next(state@.projects, owned_by_team(team_id@), i as int);
        }
        if is_owned_by_team(&state.projects[i], &team_id) {
            found.push(state.projects[i].clone());
        }
        i += 1;
    }
    proof {
        assert(state@.projects.take(i as int) =~= state@.projects);
        lemma_filter_facts(state@.projects, owned_by_team(team_id@));
        assert forall|j: int| 0 <= j < found@.len() implies (#[trigger] found@[j])@.owner
            == OwnerView::Team(team_id@) && state@.projects.contains(found@[j]@) by {
            assert(project_views(found@)[j] == found@[j]@);
        }
    }
    found
}

/// The role of `principal` in the project: that of its first entry among the
/// members. Somebody who is not a member is refused with
/// `InsufficientPermissions`.
pub fn get_user_role_in_project(project: &Project, principal: &Principal) -> (result: Result<
    Role,
    Error,
>)
    ensures
        plain(result) == match project@.role_of(*principal) {
            Some(role) => Ok::<Role, ErrorView>(role),
            None => Err(ErrorView::InsufficientPermissions),
        },
        match result {
            Ok(role) => exists|i: int|
                #[trigger] first_at(project_member_ids(project.members@), *principal, i)
                    && project.members@[i].role == role,
            Err(_) => forall|i: int|
                0 <= i < project.members@.len() ==> (#[trigger] project.members@[i]).principal
                    != *principal,
        },
{
    proof {
        lemma_find(project_member_ids(project.members@), *principal);
    }
    match find_project_member(project, principal) {
        Some(i) => Ok(project.members[i].role),
        None => {
            let ghost ids = project_member_ids(project.members@);
            assert forall|j: int| 0 <= j < ids.len() implies (#[trigger] project.members@[j])
                .principal != *principal by {
                assert(ids[j] != *principal);
            }
            Err(Error::InsufficientPermissions)
        },
    }
}

/// Enrols `principal` in the project `project_id` with `role` as of `now`,
/// and stamps the project. Fails with `ProjectNotFound` if there is no such
/// project and with `AlreadyExists` if the principal is a member already,
/// whatever its role.
pub fn add_user_to_project(
    state: &mut State,
    now: Timestamp,
    project_id: &String,
    principal: &Principal,
    role: &Role,
) -> (result: Result<(), Error>)
    requires
        old(state).wf(),
    ensures
        final(state).wf(),
        final(state)@ == old(state)@.add_user_to_project(
            now,
            project_id@,
            *principal,
            *role,
        ).state,
        done(result) == old(state)@.add_user_to_project(now, project_id@, *principal, *role).result,
        result is Err ==> final(state)@ == old(state)@,
        result is Ok ==> ({
            let before = old(state)@.project(project_id@);
            let after = before.joined(*principal, *role, now);
            &&& final(state)@.project_map() == old(state)@.project_map().insert(project_id@, after)
            &&& after.roles() == before.roles().insert(*principal, *role)
        }),
{
    match state.find_project(project_id) {
        None => Err(Error::ProjectNotFound),
        Some(i) => {
            if is_project_member(&state.projects[i], principal) {
                return Err(Error::AlreadyExists);
            }
            let ghost before = old(state)@.projects[i as int];
            let ghost after = before.joined(*principal, *role, now);
            state.projects[i].members.push(
                ProjectMember { principal: *principal, role: *role, joined_at: now },
            );
            state.projects[i].updated_at = now;
            proof {
                assert(state@.projects =~= old(state)@.projects.update(i as int, after));
                lemma_find(old(state)@.project_ids(), project_id@);
                lemma_joined_project_unique(before, *principal, *role, now);
                lemma_set_project_wf(old(state)@, i as int, after);
            }
            Ok(())
        },
    }
}

/// Strikes `principal` from the members of the project `project_id` and
/// stamps the project with `now`, whether or not the principal was a member.
/// Fails with `ProjectNotFound` if there is no such project.
pub fn remove_user_from_project(
    state: &mut State,
    now: Timestamp,
    project_id: &String,
    principal: &Principal,
) -> (result: Result<(), Error>)
    requires
        old(state).wf(),
    ensures
        final(state).wf(),
        final(state)@ == old(state)@.remove_user_from_project(now, project_id@, *principal).state,
        done(result) == old(state)@.remove_user_from_project(now, project_id@, *principal).result,
        result is Err ==> final(state)@ == old(state)@,
        result is Ok ==> ({
            let before = old(state)@.project(project_id@);
            let after = before.left(*principal, now);
            &&& final(state)@.project_map() == old(state)@.project_map().insert(project_id@, after)
            &&& after.roles() == before.roles().remove(*principal)
        }),
{
    match state.find_project(project_id) {
        None => Err(Error::ProjectNotFound),
        Some(i) => {
            let ghost before = old(state)@.projects[i as int];
            let ghost after = before.left(*principal, now);
            let kept = project_members_without(&state.projects[i].members, principal);
            state.projects[i].members = kept;
            state.projects[i].updated_at = now;
            proof {
                assert(state@.projects =~= old(state)@.projects.update(i as int, after));
                lemma_find(old(state)@.project_ids(), project_id@);
                lemma_left_project_unique(before, *principal, now);
                lemma_set_project_wf(old(state)@, i as int, after);
            }
            Ok(())
        },
    }
}

} // verus!
