//! Teams: who belongs to them, who may see and change them.

use crate::auth::{can_manage, is_owner_or_manager};
use crate::keys::{
    as_map, find, first_at, lemma_filter_facts, lemma_filter_keys, lemma_filter_next, lemma_find,
    lemma_first_at, lemma_map_push, lemma_map_remove, lemma_map_update, lemma_not_found,
    lemma_push_key, lemma_remove_key,
};
use crate::state::{team_member_ids, team_views, Outcome, State, StateView};
use crate::trusted::{hex_text, same_principal};
use crate::types::{
    done, named, plain, Error, ErrorView, Role, Team, TeamMember, TeamUpdate, TeamUpdateView,
    TeamView, Timestamp,
};
use crate::utils::generate_id;
use candid::Principal;
use vstd::prelude::*;

verus! {

/// The test that keeps every member of a team but `p`.
pub open spec fn other_than(p: Principal) -> spec_fn(TeamMember) -> bool {
    |m: TeamMember| m.principal != p
}

/// The test that selects the teams to which `p` belongs.
pub open spec fn team_of(p: Principal) -> spec_fn(TeamView) -> bool {
    |t: TeamView| t.has_member(p)
}

/// The test that selects the public teams.
pub open spec fn open_to_all() -> spec_fn(TeamView) -> bool {
    |t: TeamView| t.is_public
}

impl TeamView {
    /// The team as it is right after `creator` made it at time `now`: the
    /// creator is its owner and its only member.
    pub open spec fn founded(
        id: Seq<char>,
        name: Seq<char>,
        description: Seq<char>,
        is_public: bool,
        creator: Principal,
        now: Timestamp,
    ) -> TeamView {
        TeamView {
            id,
            name,
            description,
            is_public,
            owner_principal: creator,
            members: seq![TeamMember { principal: creator, role: Role::Owner, joined_at: now }],
            created_at: now,
            updated_at: now,
        }
    }

    /// Where `p` stands in the list of members, if it is one.
    pub open spec fn find_member(self, p: Principal) -> Option<int> {
        find(team_member_ids(self.members), p)
    }

    /// The roles of the members, by principal: each member has the role of
    /// its first entry.
    pub open spec fn roles(self) -> Map<Principal, Role> {
        Map::new(
            |p: Principal| team_member_ids(self.members).contains(p),
            |p: Principal| self.members[self.find_member(p)->0].role,
        )
    }

    /// Whether `p` is a member.
    pub open spec fn has_member(self, p: Principal) -> bool {
        self.roles().contains_key(p)
    }

    /// The role of `p`, if it is a member.
    pub open spec fn role_of(self, p: Principal) -> Option<Role> {
        if self.has_member(p) {
            Some(self.roles()[p])
        } else {
            None
        }
    }

    /// A team is shown to its members, and to everybody if it is public.
    pub open spec fn visible_to(self, p: Principal) -> bool {
        self.is_public || self.has_member(p)
    }

    /// The team after a partial update at time `now`.
    pub open spec fn revised(self, u: TeamUpdateView, now: Timestamp) -> TeamView {
        TeamView {
            name: if let Some(v) = u.name { v } else { self.name },
            description: if let Some(v) = u.description { v } else { self.description },
            is_public: if let Some(v) = u.is_public { v } else { self.is_public },
            updated_at: now,
            ..self
        }
    }

    /// The team after `p` joined it with `role` at time `now`.
    pub open spec fn joined(self, p: Principal, role: Role, now: Timestamp) -> TeamView {
        TeamView {
            members: self.members.push(TeamMember { principal: p, role, joined_at: now }),
            updated_at: now,
            ..self
        }
    }

    /// The team after every entry of `p` was struck from its members at time
    /// `now`; the others stay in their order.
    pub open spec fn left(self, p: Principal, now: Timestamp) -> TeamView {
        TeamView { members: self.members.filter(other_than(p)), updated_at: now, ..self }
    }
}

impl StateView {
    /// Creation of a team by `caller`.
    pub open spec fn create_team(
        self,
        caller: Principal,
        now: Timestamp,
        id: Seq<char>,
        name: Seq<char>,
        description: Seq<char>,
        is_public: bool,
    ) -> Outcome<Result<Seq<char>, ErrorView>> {
        if !self.has_user(caller) {
            Outcome { state: self, result: Err(ErrorView::Unauthorized) }
        } else {
            Outcome {
                state: self.put_team(
                    TeamView::founded(id, name, description, is_public, caller, now),
                ),
                result: Ok(id),
            }
        }
    }

    /// What `caller` is shown of the team `id`: the team, if the caller is
    /// registered and the team exists and is visible to the caller.
    pub open spec fn get_team(self, caller: Principal, id: Seq<char>) -> Option<TeamView> {
        if self.has_user(caller) && self.has_team(id) && self.team(id).visible_to(caller) {
            Some(self.team(id))
        } else {
            None
        }
    }

    /// Partial update of the team `id` by `caller`.
    pub open spec fn update_team(
        self,
        caller: Principal,
        now: Timestamp,
        id: Seq<char>,
        u: TeamUpdateView,
    ) -> Outcome<Result<(), ErrorView>> {
        if !self.has_team(id) {
            Outcome { state: self, result: Err(ErrorView::TeamNotFound) }
        } else if !self.team(id).has_member(caller) || !can_manage(self.team(id).roles()[caller]) {
            Outcome { state: self, result: Err(ErrorView::InsufficientPermissions) }
        } else {
            Outcome {
                state: self.set_team(self.find_team(id)->0, self.team(id).revised(u, now)),
                result: Ok(()),
            }
        }
    }

    /// Deletion of the team `id` by `caller`: granted to the principal that
    /// the team records as its owner, whatever the roles of its members.
    pub open spec fn delete_team(self, caller: Principal, id: Seq<char>) -> Outcome<
        Result<(), ErrorView>,
    > {
        if !self.has_team(id) {
            Outcome { state: self, result: Err(ErrorView::TeamNotFound) }
        } else if self.team(id).owner_principal != caller {
            Outcome { state: self, result: Err(ErrorView::InsufficientPermissions) }
        } else {
            Outcome { state: self.drop_team(self.find_team(id)->0), result: Ok(()) }
        }
    }

    /// The teams of `principal` as shown to `caller`: all of them if the
    /// caller is registered and asks about itself, none otherwise.
    pub open spec fn get_user_teams(self, caller: Principal, principal: Principal) -> Seq<
        TeamView,
    > {
        if !self.has_user(caller) || caller != principal {
            Seq::empty()
        } else {
            self.teams.filter(team_of(principal))
        }
    }

    /// The public teams as shown to `caller`: all of them if the caller is
    /// registered, none otherwise.
    pub open spec fn get_public_teams(self, caller: Principal) -> Seq<TeamView> {
        if !self.has_user(caller) {
            Seq::empty()
        } else {
            self.teams.filter(open_to_all())
        }
    }

    /// Enrolment of `p` in the team `id` with `role`.
    pub open spec fn add_user_to_team(
        self,
        now: Timestamp,
        id: Seq<char>,
        p: Principal,
        role: Role,
    ) -> Outcome<Result<(), ErrorView>> {
        if !self.has_team(id) {
            Outcome { state: self, result: Err(ErrorView::TeamNotFound) }
        } else if self.team(id).has_member(p) {
            Outcome { state: self, result: Err(ErrorView::AlreadyExists) }
        } else {
            Outcome {
                state: self.set_team(self.find_team(id)->0, self.team(id).joined(p, role, now)),
                result: Ok(()),
            }
        }
    }

    /// Removal of `p` from the team `id`. Removing somebody who is not a
    /// member succeeds too, and stamps the team all the same.
    pub open spec fn remove_user_from_team(
        self,
        now: Timestamp,
        id: Seq<char>,
        p: Principal,
    ) -> Outcome<Result<(), ErrorView>> {
        if !self.has_team(id) {
            Outcome { state: self, result: Err(ErrorView::TeamNotFound) }
        } else {
            Outcome {
                state: self.set_team(self.find_team(id)->0, self.team(id).left(p, now)),
                result: Ok(()),
            }
        }
    }
}

/// Storing a team whose members are listed once each keeps the state well
/// formed.
pub proof fn lemma_put_team_wf(s: StateView, team: TeamView)
    requires
        s.wf(),
        team_member_ids(team.members).no_duplicates(),
    ensures
        s.put_team(team).wf(),
        s.put_team(team).team_map() == s.team_map().insert(team.id, team),
{
    let t = s.put_team(team);
    lemma_find(s.team_ids(), team.id);
    match s.find_team(team.id) {
        Some(i) => {
            lemma_set_team_wf(s, i, team);
        },
        None => {
            lemma_push_key(s.team_ids(), team.id);
            assert(t.team_ids() =~= s.team_ids().push(team.id));
            lemma_map_push(s.team_ids(), s.teams, team.id, team);
            assert forall|j: int| 0 <= j < t.teams.len() implies team_member_ids(
                #[trigger] t.teams[j].members,
            ).no_duplicates() by {
                if j < s.teams.len() {
                    assert(t.teams[j] == s.teams[j]);
                }
            }
        },
    }
}

/// Replacing a team by one with the same identifier, whose members are
/// listed once each, keeps the state well formed.
pub proof fn lemma_set_team_wf(s: StateView, i: int, team: TeamView)
    requires
        s.wf(),
        0 <= i < s.teams.len(),
        team.id == s.teams[i].id,
        team_member_ids(team.members).no_duplicates(),
    ensures
        s.set_team(i, team).wf(),
        s.set_team(i, team).team_map() == s.team_map().insert(team.id, team),
{
    let t = s.set_team(i, team);
    assert(t.team_ids() =~= s.team_ids());
    lemma_map_update(s.team_ids(), s.teams, i, team);
    assert forall|j: int| 0 <= j < t.teams.len() implies team_member_ids(
        #[trigger] t.teams[j].members,
    ).no_duplicates() by {
        if j != i {
            assert(t.teams[j] == s.teams[j]);
        }
    }
}

/// Dropping a team keeps the state well formed, and the team is gone.
pub proof fn lemma_drop_team_wf(s: StateView, i: int)
    requires
        s.wf(),
        0 <= i < s.teams.len(),
    ensures
        s.drop_team(i).wf(),
        s.drop_team(i).find_team(s.teams[i].id) is None,
        s.drop_team(i).team_map() == s.team_map().remove(s.teams[i].id),
{
    let t = s.drop_team(i);
    lemma_remove_key(s.team_ids(), i);
    assert(t.team_ids() =~= s.team_ids().remove(i));
    lemma_map_remove(s.team_ids(), s.teams, i);
    lemma_find(t.team_ids(), s.teams[i].id);
    assert forall|j: int| 0 <= j < t.teams.len() implies team_member_ids(
        #[trigger] t.teams[j].members,
    ).no_duplicates() by {
        let j0 = if j < i { j } else { j + 1 };
        assert(t.teams[j] == s.teams[j0]);
    }
}

/// A new member who was none before leaves every member listed once.
pub proof fn lemma_joined_unique(team: TeamView, p: Principal, role: Role, now: Timestamp)
    requires
        team_member_ids(team.members).no_duplicates(),
        !team.has_member(p),
    ensures
        team_member_ids(team.joined(p, role, now).members).no_duplicates(),
        team.joined(p, role, now).role_of(p) == Some(role),
        team.joined(p, role, now).roles() == team.roles().insert(p, role),
{
    let ids = team_member_ids(team.members);
    let after = team.joined(p, role, now);
    let member = TeamMember { principal: p, role, joined_at: now };
    lemma_find(ids, p);
    lemma_push_key(ids, p);
    assert(team_member_ids(after.members) =~= ids.push(p));
    lemma_map_push(ids, team.members, p, member);
    let stored = as_map(ids.push(p), after.members);
    assert(stored == as_map(ids, team.members).insert(p, member));
    assert forall|q: Principal| after.roles().contains_key(q) == team.roles().insert(
        p,
        role,
    ).contains_key(q) by {
        assert(after.roles().contains_key(q) == stored.contains_key(q));
    }
    assert forall|q: Principal| after.roles().contains_key(q) implies after.roles()[q]
        == team.roles().insert(p, role)[q] by {
        assert(after.roles()[q] == stored[q].role);
    }
    assert(after.roles() =~= team.roles().insert(p, role));
}

/// A new team has one role to show: that of its creator, who is its owner.
pub proof fn lemma_founded_roles(
    id: Seq<char>,
    name: Seq<char>,
    description: Seq<char>,
    is_public: bool,
    creator: Principal,
    now: Timestamp,
)
    ensures
        TeamView::founded(id, name, description, is_public, creator, now).roles() == Map::<
            Principal,
            Role,
        >::empty().insert(creator, Role::Owner),
        TeamView::founded(id, name, description, is_public, creator, now).role_of(creator) == Some(
            Role::Owner,
        ),
        team_member_ids(
            TeamView::founded(id, name, description, is_public, creator, now).members,
        ).no_duplicates(),
{
    let team = TeamView::founded(id, name, description, is_public, creator, now);
    let ids = team_member_ids(team.members);
    assert(ids =~= seq![creator]);
    assert(ids[0] == creator);
    lemma_first_at(ids, creator, 0);
    assert forall|q: Principal| team.roles().contains_key(q) implies q == creator by {
        let j = choose|j: int| 0 <= j < ids.len() && ids[j] == q;
        assert(ids[j] == creator);
    }
    assert(team.roles() =~= Map::<Principal, Role>::empty().insert(creator, Role::Owner));
}

/// Striking a principal from the members leaves every other member listed
/// once, and the principal is a member no more.
pub proof fn lemma_left_unique(team: TeamView, p: Principal, now: Timestamp)
    requires
        team_member_ids(team.members).no_duplicates(),
    ensures
        team_member_ids(team.left(p, now).members).no_duplicates(),
        !team.left(p, now).has_member(p),
        team.left(p, now).roles() == team.roles().remove(p),
{
    let key = |m: TeamMember| m.principal;
    let kept = team.members.filter(other_than(p));
    assert forall|i: int, j: int| 0 <= i < j < team.members.len() implies key(team.members[i])
        != key(team.members[j]) by {
        assert(team_member_ids(team.members)[i] != team_member_ids(team.members)[j]);
    }
    lemma_filter_keys(team.members, key, other_than(p));
    lemma_filter_facts(team.members, other_than(p));
    let ids = team_member_ids(kept);
    assert forall|i: int, j: int| 0 <= i < ids.len() && 0 <= j < ids.len() && i != j implies ids[i]
        != ids[j] by {
        if i < j {
            assert(key(kept[i]) != key(kept[j]));
        } else {
            assert(key(kept[j]) != key(kept[i]));
        }
    }
    assert forall|j: int| 0 <= j < ids.len() implies ids[j] != p by {
        assert(other_than(p)(kept[j]));
    }
    lemma_not_found(ids, p);
    let all = team_member_ids(team.members);
    let after = team.left(p, now);
    assert forall|q: Principal| after.roles().contains_key(q) == team.roles().remove(
        p,
    ).contains_key(q) by {
        if ids.contains(q) {
            let j = choose|j: int| 0 <= j < ids.len() && ids[j] == q;
            assert(team.members.contains(kept[j]));
            let i = choose|i: int| 0 <= i < team.members.len() && team.members[i] == kept[j];
            assert(all[i] == q);
        }
        if all.contains(q) && q != p {
            let i = choose|i: int| 0 <= i < all.len() && all[i] == q;
            team.members.lemma_filter_contains(other_than(p), i);
            let j = choose|j: int| 0 <= j < kept.len() && kept[j] == team.members[i];
            assert(ids[j] == q);
        }
    }
    assert forall|q: Principal| after.roles().contains_key(q) implies after.roles()[q]
        == team.roles().remove(p)[q] by {
        lemma_find(ids, q);
        lemma_find(all, q);
        let j = find(ids, q)->0;
        assert(team.members.contains(kept[j]));
        let i = choose|i: int| 0 <= i < team.members.len() && team.members[i] == kept[j];
        assert(all[i] == q);
        assert(all[find(all, q)->0] == q);
        assert(i == find(all, q)->0);
    }
    assert(after.roles() =~= team.roles().remove(p));
}

/// Whether `p` is a member of the team.
pub(crate) fn is_team_member(team: &Team, p: &Principal) -> (found: bool)
    ensures
        found == team@.has_member(*p),
{
    find_team_member(team, p).is_some()
}

/// Where `p` stands among the members of the team.
fn find_team_member(team: &Team, p: &Principal) -> (found: Option<usize>)
    ensures
        match found {
            Some(i) => team@.find_member(*p) == Some(i as int) && i < team.members@.len(),
            None => team@.find_member(*p) is None,
        },
{
    let ghost ids = team_member_ids(team.members@);
    let mut i: usize = 0;
    while i < team.members.len()
        invariant
            i <= team.members@.len(),
            ids == team_member_ids(team.members@),
            forall|j: int| 0 <= j < i ==> ids[j] != *p,
        decreases team.members@.len() - i,
    {
        if same_principal(&team.members[i].principal, p) {
            proof {
                lemma_first_at(ids, *p, i as int);
            }
            return Some(i);
        }
        i += 1;
    }
    proof {
        lemma_not_found(ids, *p);
    }
    None
}

/// The members of a team without `p`, in their order.
fn team_members_without(members: &Vec<TeamMember>, p: &Principal) -> (kept: Vec<TeamMember>)
    ensures
        kept@ == members@.filter(other_than(*p)),
{
    let mut kept: Vec<TeamMember> = Vec::new();
    let mut i: usize = 0;
    proof {
        reveal(Seq::filter);
    }
    while i < members.len()
        invariant
            i <= members@.len(),
            kept@ == members@.take(i as int).filter(other_than(*p)),
        decreases members@.len() - i,
    {
        proof {
            lemma_filter_next(members@, other_than(*p), i as int);
        }
        if !same_principal(&members[i].principal, p) {
            kept.push(members[i]);
        }
        i += 1;
    }
    assert(members@.take(i as int) =~= members@);
    kept
}

/// Creates a team whose identifier is the hexadecimal text of `id_seed`,
/// with `caller` as its recorded owner and its only member, in the role
/// `Owner`, and returns the identifier. Fails with `Unauthorized` if the
/// caller is not registered. A team already stored under the identifier is
/// replaced.
pub fn create_team(
    state: &mut State,
    caller: Principal,
    now: Timestamp,
    id_seed: &[u8],
    name: String,
    description: String,
    is_public: bool,
) -> (result: Result<String, Error>)
    requires
        old(state).wf(),
    ensures
        final(state).wf(),
        final(state)@ == old(state)@.create_team(
            caller,
            now,
            hex_text(id_seed@),
            name@,
            description@,
            is_public,
        ).state,
        named(result) == old(state)@.create_team(
            caller,
            now,
            hex_text(id_seed@),
            name@,
            description@,
            is_public,
        ).result,
        result is Err ==> final(state)@ == old(state)@,
        result is Ok ==> ({
            let id = hex_text(id_seed@);
            let team = TeamView::founded(id, name@, description@, is_public, caller, now);
            &&& final(state)@.team_map() == old(state)@.team_map().insert(id, team)
            &&& team.roles() == Map::<Principal, Role>::empty().insert(caller, Role::Owner)
        }),
{
    if !state.user_exists(&caller) {
        return Err(Error::Unauthorized);
    }
    let team_id = generate_id(id_seed);
    let ghost view = TeamView::founded(team_id@, name@, description@, is_public, caller, now);
    let mut members: Vec<TeamMember> = Vec::new();
    members.push(TeamMember { principal: caller, role: Role::Owner, joined_at: now });
    let team = Team {
        id: team_id.clone(),
        name,
        description,
        is_public,
        owner_principal: caller,
        members,
        created_at: now,
        updated_at: now,
    };
    proof {
        lemma_founded_roles(team_id@, name@, description@, is_public, caller, now);
        lemma_put_team_wf(old(state)@, view);
    }
    match state.find_team(&team_id) {
        Some(i) => {
            state.teams[i] = team;
            proof {
                assert(state@.teams =~= old(state)@.teams.update(i as int, view));
            }
        },
        None => {
            state.teams.push(team);
            proof {
                assert(state@.teams =~= old(state)@.teams.push(view));
            }
        },
    }
    Ok(team_id)
}

/// Where the team `team_id` is stored, if `caller` is registered and may
/// see it.
fn find_visible_team(state: &State, caller: &Principal, team_id: &String) -> (found:
    Option<usize>)
    ensures
        match found {
            Some(i) => i < state.teams@.len() && state@.find_team(team_id@) == Some(i as int)
                && state@.get_team(*caller, team_id@) == Some(state@.teams[i as int]),
            None => state@.get_team(*caller, team_id@) is None,
        },
{
    if !state.user_exists(caller) {
        return None;
    }
    match state.find_team(team_id) {
        Some(i) => {
            if state.teams[i].is_public || is_team_member(&state.teams[i], caller) {
                Some(i)
            } else {
                None
            }
        },
        None => None,
    }
}

/// Returns the team `team_id` if `caller` is registered and the team is
/// public or has the caller among its members. A team that does not exist and
/// one that the caller may not see are both answered with `None`.
pub fn get_team(state: &State, caller: Principal, team_id: String) -> (result: Option<Team>)
    ensures
        match result {
            Some(team) => state@.get_team(caller, team_id@) == Some(team@),
            None => state@.get_team(caller, team_id@) is None,
        },
{
    match find_visible_team(state, &caller, &team_id) {
        Some(i) => Some(state.teams[i].clone()),
        None => None,
    }
}

/// Changes the name, the description and the visibility of the team
/// `team_id` as far as `updates` names them, and stamps the team with `now`.
/// Fails with `TeamNotFound` if there is no such team, and with
/// `InsufficientPermissions` unless `caller` is a member in the role `Owner`
/// or `Manager`.
pub fn update_team(
    state: &mut State,
    caller: Principal,
    now: Timestamp,
    team_id: String,
    updates: TeamUpdate,
) -> (result: Result<(), Error>)
    requires
        old(state).wf(),
    ensures
        final(state).wf(),
        final(state)@ == old(state)@.update_team(caller, now, team_id@, updates@).state,
        done(result) == old(state)@.update_team(caller, now, team_id@, updates@).result,
        result is Err ==> final(state)@ == old(state)@,
        result is Ok ==> final(state)@.team_map() == old(state)@.team_map().insert(
            team_id@,
            old(state)@.team(team_id@).revised(updates@, now),
        ),
{
    match state.find_team(&team_id) {
        None => Err(Error::TeamNotFound),
        Some(i) => {
            let role = match get_user_role_in_team(&state.teams[i], &caller) {
                Ok(role) => role,
                Err(e) => {
                    return Err(e);
                },
            };
            if !is_owner_or_manager(role) {
                return Err(Error::InsufficientPermissions);
            }
            let ghost after = old(state)@.teams[i as int].revised(updates@, now);
            let TeamUpdate { name, description, is_public } = updates;
            if let Some(v) = name {
                state.teams[i].name = v;
            }
            if let Some(v) = description {
                state.teams[i].description = v;
            }
            if let Some(v) = is_public {
                state.teams[i].is_public = v;
            }
            state.teams[i].updated_at = now;
            proof {
                assert(state@.teams =~= old(state)@.teams.update(i as int, after));
                lemma_find(old(state)@.team_ids(), team_id@);
                lemma_set_team_wf(old(state)@, i as int, after);
            }
            Ok(())
        },
    }
}

/// Deletes the team `team_id`. Fails with `TeamNotFound` if there is no such
/// team, and with `InsufficientPermissions` unless `caller` is the principal
/// that the team records as its owner.
pub fn delete_team(state: &mut State, caller: Principal, team_id: String) -> (result: Result<
    (),
    Error,
>)
    requires
        old(state).wf(),
    ensures
        final(state).wf(),
        final(state)@ == old(state)@.delete_team(caller, team_id@).state,
        done(result) == old(state)@.delete_team(caller, team_id@).result,
        result is Err ==> final(state)@ == old(state)@,
        result is Ok ==> final(state)@.team_map() == old(state)@.team_map().remove(team_id@),
{
    match state.find_team(&team_id) {
        None => Err(Error::TeamNotFound),
        Some(i) => {
            if !same_principal(&state.teams[i].owner_principal, &caller) {
                return Err(Error::InsufficientPermissions);
            }
            state.teams.remove(i);
            proof {
                assert(state@.teams =~= old(state)@.teams.remove(i as int));
                lemma_find(old(state)@.team_ids(), team_id@);
                lemma_drop_team_wf(old(state)@, i as int);
            }
            Ok(())
        },
    }
}

/// Lists the teams that have `principal` among their members, in the order
/// of the store, if `caller` is registered and is `principal`; the list is
/// empty otherwise.
pub fn get_user_teams(state: &State, caller: Principal, principal: Principal) -> (result: Vec<
    Team,
>)
    ensures
        team_views(result@) == state@.get_user_teams(caller, principal),
        result@.len() <= state@.teams.len(),
        forall|i: int|
            0 <= i < result@.len() ==> (#[trigger] result@[i])@.has_member(principal)
                && state@.teams.contains(result@[i]@),
        state@.has_user(caller) && caller == principal ==> forall|j: int|
            0 <= j < state@.teams.len() && (#[trigger] state@.teams[j]).has_member(principal)
                ==> team_views(result@).contains(state@.teams[j]),
{
    let mut found: Vec<Team> = Vec::new();
    if !state.user_exists(&caller) || !same_principal(&caller, &principal) {
        return found;
    }
    let mut i: usize = 0;
    proof {
        reveal(Seq::filter);
    }
    while i < state.teams.len()
        invariant
            i <= state.teams@.len(),
            team_views(found@) == state@.teams.take(i as int).filter(team_of(principal)),
        decreases state.teams@.len() - i,
    {
        proof {
            lemma_filter_next(state@.teams, team_of(principal), i as int);
        }
        if is_team_member(&state.teams[i], &principal) {
            found.push(state.teams[i].clone());
        }
        i += 1;
    }
    proof {
        assert(state@.teams.take(i as int) =~= state@.teams);
        lemma_filter_facts(state@.teams, team_of(principal));
        assert forall|j: int| 0 <= j < found@.len() implies (#[trigger] found@[j])@.has_member(
            principal,
        ) && state@.teams.contains(found@[j]@) by {
            assert(team_views(found@)[j] == found@[j]@);
        }
    }
    found
}

/// Lists the public teams, in the order of the store, if `caller` is
/// registered; the list is empty otherwise.
pub fn get_public_teams(state: &State, caller: Principal) -> (result: Vec<Team>)
    ensures
        team_views(result@) == state@.get_public_teams(caller),
        !state@.has_user(caller) ==> result@.len() == 0,
        result@.len() <= state@.teams.len(),
        forall|i: int|
            0 <= i < result@.len() ==> (#[trigger] result@[i])@.is_public && state@.teams.contains(
                result@[i]@,
            ),
        state@.has_user(caller) ==> forall|j: int|
            0 <= j < state@.teams.len() && (#[trigger] state@.teams[j]).is_public ==> team_views(
                result@,
            ).contains(state@.teams[j]),
{
    let mut found: Vec<Team> = Vec::new();
    if !state.user_exists(&caller) {
        return found;
    }
    let mut i: usize = 0;
    proof {
        reveal(Seq::filter);
    }
    while i < state.teams.len()
        invariant
            i <= state.teams@.len(),
            team_views(found@) == state@.teams.take(i as int).filter(open_to_all()),
        decreases state.teams@.len() - i,
    {
        proof {
            lemma_filter_next(state@.teams, open_to_all(), i as int);
        }
        if state.teams[i].is_public {
            found.push(state.teams[i].clone());
        }
        i += 1;
    }
    proof {
        assert(state@.teams.take(i as int) =~= state@.teams);
        lemma_filter_facts(state@.teams, open_to_all());
        assert forall|j: int| 0 <= j < found@.len() implies (#[trigger] found@[j])@.is_public
            && state@.teams.contains(found@[j]@) by {
            assert(team_views(found@)[j] == found@[j]@);
        }
    }
    found
}

/// The role of `principal` in the team: that of its first entry among the
/// members. Somebody who is not a member is refused with
/// `InsufficientPermissions`.
pub fn get_user_role_in_team(team: &Team, principal: &Principal) -> (result: Result<Role, Error>)
    ensures
        plain(result) == match team@.role_of(*principal) {
            Some(role) => Ok::<Role, ErrorView>(role),
            None => Err(ErrorView::InsufficientPermissions),
        },
        match result {
            Ok(role) => exists|i: int|
                #[trigger] first_at(team_member_ids(team.members@), *principal, i)
                    && team.members@[i].role == role,
            Err(_) => forall|i: int|
                0 <= i < team.members@.len() ==> (#[trigger] team.members@[i]).principal
                    != *principal,
        },
{
    proof {
        lemma_find(team_member_ids(team.members@), *principal);
    }
    match find_team_member(team, principal) {
        Some(i) => Ok(team.members[i].role),
        None => {
            let ghost ids = team_member_ids(team.members@);
            assert forall|j: int| 0 <= j < ids.len() implies (#[trigger] team.members@[j]).principal
                != *principal by {
                assert(ids[j] != *principal);
            }
            Err(Error::InsufficientPermissions)
        },
    }
}

/// Enrols `principal` in the team `team_id` with `role` as of `now`, and
/// stamps the team. Fails with `TeamNotFound` if there is no such team and
/// with `AlreadyExists` if the principal is a member already, whatever its
/// role.
pub fn add_user_to_team(
    state: &mut State,
    now: Timestamp,
    team_id: &String,
    principal: &Principal,
    role: &Role,
) -> (result: Result<(), Error>)
    requires
        old(state).wf(),
    ensures
        final(state).wf(),
        final(state)@ == old(state)@.add_user_to_team(now, team_id@, *principal, *role).state,
        done(result) == old(state)@.add_user_to_team(now, team_id@, *principal, *role).result,
        result is Err ==> final(state)@ == old(state)@,
        result is Ok ==> ({
            let before = old(state)@.team(team_id@);
            let after = before.joined(*principal, *role, now);
            &&& final(state)@.team_map() == old(state)@.team_map().insert(team_id@, after)
            &&& after.roles() == before.roles().insert(*principal, *role)
        }),
{
    match state.find_team(team_id) {
        None => Err(Error::TeamNotFound),
        Some(i) => {
            if is_team_member(&state.teams[i], principal) {
                return Err(Error::AlreadyExists);
            }
            let ghost before = old(state)@.teams[i as int];
            let ghost after = before.joined(*principal, *role, now);
            state.teams[i].members.push(
                TeamMember { principal: *principal, role: *role, joined_at: now },
            );
            state.teams[i].updated_at = now;
            proof {
                assert(state@.teams =~= old(state)@.teams.update(i as int, after));
                lemma_find(old(state)@.team_ids(), team_id@);
                lemma_joined_unique(before, *principal, *role, now);
                lemma_set_team_wf(old(state)@, i as int, after);
            }
            Ok(())
        },
    }
}

/// Strikes `principal` from the members of the team `team_id` and stamps the
/// team with `now`, whether or not the principal was a member. Fails with
/// `TeamNotFound` if there is no such team.
pub fn remove_user_from_team(
    state: &mut State,
    now: Timestamp,
    team_id: &String,
    principal: &Principal,
) -> (result: Result<(), Error>)
    requires
        old(state).wf(),
    ensures
        final(state).wf(),
        final(state)@ == old(state)@.remove_user_from_team(now, team_id@, *principal).state,
        done(result) == old(state)@.remove_user_from_team(now, team_id@, *principal).result,
        result is Err ==> final(state)@ == old(state)@,
        result is Ok ==> ({
            let before = old(state)@.team(team_id@);
            let after = before.left(*principal, now);
            &&& final(state)@.team_map() == old(state)@.team_map().insert(team_id@, after)
            &&& after.roles() == before.roles().remove(*principal)
        }),
{
    match state.find_team(team_id) {
        None => Err(Error::TeamNotFound),
        Some(i) => {
            let ghost before = old(state)@.teams[i as int];
            let ghost after = before.left(*principal, now);
            let kept = team_members_without(&state.teams[i].members, principal);
            state.teams[i].members = kept;
            state.teams[i].updated_at = now;
            proof {
                assert(state@.teams =~= old(state)@.teams.update(i as int, after));
                lemma_find(old(state)@.team_ids(), team_id@);
                lemma_left_unique(before, *principal, now);
                lemma_set_team_wf(old(state)@, i as int, after);
            }
            Ok(())
        },
    }
}

} // verus!
