//! Invitations: proposals to join a team or a project, each resolved at most
//! once, and the removal of members by those who manage.

use crate::auth::{can_manage, is_owner_or_manager};
use crate::keys::{
    lemma_filter_facts, lemma_filter_next, lemma_find, lemma_map_push, lemma_map_update,
    lemma_push_key,
};
use crate::project::{add_user_to_project, get_user_role_in_project, remove_user_from_project};
use crate::state::{invite_views, Outcome, State, StateView};
use crate::team::{add_user_to_team, get_user_role_in_team, remove_user_from_team};
use crate::trusted::{hex_text, same_principal};
use crate::types::{
    done, named, Error, ErrorView, Invite, InviteStatus, InviteTarget, InviteTargetView,
    InviteView, Role, Timestamp,
};
use crate::utils::generate_id;
use candid::Principal;
use vstd::prelude::*;

verus! {

/// The test that selects the invitations that `p` sent or received.
pub open spec fn party_to(p: Principal) -> spec_fn(InviteView) -> bool {
    |v: InviteView| v.invited_by == p || v.invited_user == p
}

/// The test that selects the invitations that `p` sent or received and that
/// are still open.
pub open spec fn pending_for(p: Principal) -> spec_fn(InviteView) -> bool {
    |v: InviteView| v.status == InviteStatus::Pending && (v.invited_by == p || v.invited_user == p)
}

impl InviteView {
    /// The invitation as `inviter` issues it at time `now`.
    pub open spec fn issued(
        id: Seq<char>,
        target: InviteTargetView,
        role: Role,
        inviter: Principal,
        invited: Principal,
        now: Timestamp,
    ) -> InviteView {
        InviteView {
            id,
            target,
            role,
            invited_by: inviter,
            invited_user: invited,
            status: InviteStatus::Pending,
            created_at: now,
        }
    }

    /// An invitation is open while it is pending. Every other status is
    /// terminal.
    pub open spec fn is_open(self) -> bool {
        self.status == InviteStatus::Pending
    }

    /// The invitation in another status.
    pub open spec fn resolved(self, status: InviteStatus) -> InviteView {
        InviteView { status, ..self }
    }
}

impl StateView {
    /// Issue of an invitation by `caller` to `invited`. Nothing is asked of
    /// the target: the caller need not belong to it, and it need not exist.
    pub open spec fn invite_user(
        self,
        caller: Principal,
        now: Timestamp,
        id: Seq<char>,
        target: InviteTargetView,
        role: Role,
        invited: Principal,
    ) -> Outcome<Result<Seq<char>, ErrorView>> {
        if !self.has_user(caller) {
            Outcome { state: self, result: Err(ErrorView::Unauthorized) }
        } else if !self.has_user(invited) {
            Outcome { state: self, result: Err(ErrorView::UserNotFound) }
        } else {
            Outcome {
                state: self.put_invite(InviteView::issued(id, target, role, caller, invited, now)),
                result: Ok(id),
            }
        }
    }

    /// Why `caller` may not resolve the invitation `id`, if it may not: the
    /// caller is not registered, there is no such invitation, the caller is
    /// not the party who decides (the invited user if `by_invited`, the
    /// inviter if not), or the invitation is resolved already. The checks are
    /// made in this order.
    pub open spec fn resolve_error(
        self,
        caller: Principal,
        id: Seq<char>,
        by_invited: bool,
    ) -> Option<ErrorView> {
        if !self.has_user(caller) {
            Some(ErrorView::Unauthorized)
        } else if !self.has_invite(id) {
            Some(ErrorView::InviteNotFound)
        } else if caller != (if by_invited {
            self.invite(id).invited_user
        } else {
            self.invite(id).invited_by
        }) {
            Some(ErrorView::Unauthorized)
        } else if !self.invite(id).is_open() {
            Some(ErrorView::InviteExpired)
        } else {
            None
        }
    }

    /// Enrolment of `p` in the target of an invitation.
    pub open spec fn join(
        self,
        now: Timestamp,
        target: InviteTargetView,
        p: Principal,
        role: Role,
    ) -> Outcome<Result<(), ErrorView>> {
        match target {
            InviteTargetView::Team(team_id) => self.add_user_to_team(now, team_id, p, role),
            InviteTargetView::Project(project_id) => self.add_user_to_project(
                now,
                project_id,
                p,
                role,
            ),
        }
    }

    /// Acceptance of the invitation `id` by `caller`. The caller is enrolled
    /// first; only if that succeeds does the invitation become `Accepted`.
    pub open spec fn accept_invite(
        self,
        caller: Principal,
        now: Timestamp,
        id: Seq<char>,
    ) -> Outcome<Result<(), ErrorView>> {
        if let Some(e) = self.resolve_error(caller, id, true) {
            Outcome { state: self, result: Err(e) }
        } else {
            let invite = self.invite(id);
            let joined = self.join(now, invite.target, caller, invite.role);
            match joined.result {
                Err(e) => Outcome { state: self, result: Err(e) },
                Ok(()) => Outcome {
                    state: joined.state.set_invite(
                        self.find_invite(id)->0,
                        invite.resolved(InviteStatus::Accepted),
                    ),
                    result: Ok(()),
                },
            }
        }
    }

    /// Refusal of the invitation `id` by `caller`, the invited user.
    pub open spec fn decline_invite(self, caller: Principal, id: Seq<char>) -> Outcome<
        Result<(), ErrorView>,
    > {
        if let Some(e) = self.resolve_error(caller, id, true) {
            Outcome { state: self, result: Err(e) }
        } else {
            Outcome {
                state: self.set_invite(
                    self.find_invite(id)->0,
                    self.invite(id).resolved(InviteStatus::Declined),
                ),
                result: Ok(()),
            }
        }
    }

    /// Withdrawal of the invitation `id` by `caller`, the inviter.
    pub open spec fn cancel_invite(self, caller: Principal, id: Seq<char>) -> Outcome<
        Result<(), ErrorView>,
    > {
        if let Some(e) = self.resolve_error(caller, id, false) {
            Outcome { state: self, result: Err(e) }
        } else {
            Outcome {
                state: self.set_invite(
                    self.find_invite(id)->0,
                    self.invite(id).resolved(InviteStatus::Cancelled),
                ),
                result: Ok(()),
            }
        }
    }

    /// The role of `caller` in the target, or why it has none: the target
    /// does not exist, or the caller is not one of its members. Whoever is no
    /// member lacks the permission, whether it may see the target or not.
    pub open spec fn role_in(self, caller: Principal, target: InviteTargetView) -> Result<
        Role,
        ErrorView,
    > {
        match target {
            InviteTargetView::Team(team_id) => if !self.has_team(team_id) {
                Err(ErrorView::TeamNotFound)
            } else if !self.team(team_id).has_member(caller) {
                Err(ErrorView::InsufficientPermissions)
            } else {
                Ok(self.team(team_id).roles()[caller])
            },
            InviteTargetView::Project(project_id) => if !self.has_project(project_id) {
                Err(ErrorView::ProjectNotFound)
            } else if !self.project(project_id).has_member(caller) {
                Err(ErrorView::InsufficientPermissions)
            } else {
                Ok(self.project(project_id).roles()[caller])
            },
        }
    }

    /// Removal of `p` from `target` by `caller`, who must be the owner of the
    /// target or one of its managers.
    pub open spec fn remove_member(
        self,
        caller: Principal,
        now: Timestamp,
        target: InviteTargetView,
        p: Principal,
    ) -> Outcome<Result<(), ErrorView>> {
        match self.role_in(caller, target) {
            Err(e) => Outcome { state: self, result: Err(e) },
            Ok(role) => if !can_manage(role) {
                Outcome { state: self, result: Err(ErrorView::InsufficientPermissions) }
            } else {
                match target {
                    InviteTargetView::Team(team_id) => self.remove_user_from_team(now, team_id, p),
                    InviteTargetView::Project(project_id) => self.remove_user_from_project(
                        now,
                        project_id,
                        p,
                    ),
                }
            },
        }
    }

    /// The invitations that `principal` sent or received, as shown to
    /// `caller`: all of them if the caller is registered and asks about
    /// itself, none otherwise.
    pub open spec fn get_invites(self, caller: Principal, principal: Principal) -> Seq<InviteView> {
        if !self.has_user(caller) || caller != principal {
            Seq::empty()
        } else {
            self.invites.filter(party_to(principal))
        }
    }

    /// The open invitations that `principal` sent or received, as shown to
    /// `caller`: those of `get_invites` that are still pending.
    pub open spec fn get_pending_invites(self, caller: Principal, principal: Principal) -> Seq<
        InviteView,
    > {
        if !self.has_user(caller) || caller != principal {
            Seq::empty()
        } else {
            self.invites.filter(pending_for(principal))
        }
    }
}

/// The test that selects the invitations that are still open.
pub open spec fn still_open() -> spec_fn(InviteView) -> bool {
    |v: InviteView| v.is_open()
}

/// Storing an invitation keeps the state well formed.
pub proof fn lemma_put_invite_wf(s: StateView, invite: InviteView)
    requires
        s.wf(),
    ensures
        s.put_invite(invite).wf(),
        s.put_invite(invite).invite_map() == s.invite_map().insert(invite.id, invite),
{
    let t = s.put_invite(invite);
    lemma_find(s.invite_ids(), invite.id);
    match s.find_invite(invite.id) {
        Some(i) => {
            lemma_set_invite_wf(s, i, invite);
        },
        None => {
            lemma_push_key(s.invite_ids(), invite.id);
            assert(t.invite_ids() =~= s.invite_ids().push(invite.id));
            lemma_map_push(s.invite_ids(), s.invites, invite.id, invite);
        },
    }
}

/// Replacing an invitation by one with the same identifier keeps the state
/// well formed and every invitation where it is.
pub proof fn lemma_set_invite_wf(s: StateView, i: int, invite: InviteView)
    requires
        s.wf(),
        0 <= i < s.invites.len(),
        invite.id == s.invites[i].id,
    ensures
        s.set_invite(i, invite).wf(),
        s.set_invite(i, invite).invite_ids() == s.invite_ids(),
        s.set_invite(i, invite).invite_map() == s.invite_map().insert(invite.id, invite),
{
    let t = s.set_invite(i, invite);
    assert(t.invite_ids() =~= s.invite_ids());
    lemma_map_update(s.invite_ids(), s.invites, i, invite);
}

/// Checks that `caller` may resolve the invitation `invite_id`, and says
/// where the invitation is stored.
fn check_resolve(state: &State, caller: &Principal, invite_id: &String, by_invited: bool) -> (r:
    Result<usize, Error>)
    ensures
        match r {
            Ok(i) => state@.resolve_error(*caller, invite_id@, by_invited) is None
                && state@.find_invite(invite_id@) == Some(i as int) && i < state.invites@.len(),
            Err(e) => state@.resolve_error(*caller, invite_id@, by_invited) == Some(e@),
        },
{
    if !state.user_exists(caller) {
        return Err(Error::Unauthorized);
    }
    match state.find_invite(invite_id) {
        None => Err(Error::InviteNotFound),
        Some(i) => {
            let party = if by_invited {
                state.invites[i].invited_user
            } else {
                state.invites[i].invited_by
            };
            if !same_principal(&party, caller) {
                return Err(Error::Unauthorized);
            }
            match state.invites[i].status {
                InviteStatus::Pending => Ok(i),
                _ => Err(Error::InviteExpired),
            }
        },
    }
}

/// Gives the invitation at position `i` another status.
fn set_status(state: &mut State, i: usize, invite_id: &String, status: InviteStatus)
    requires
        old(state).wf(),
        old(state)@.find_invite(invite_id@) == Some(i as int),
    ensures
        final(state).wf(),
        final(state)@ == old(state)@.set_invite(
            i as int,
            old(state)@.invites[i as int].resolved(status),
        ),
        final(state)@.invite_map() == old(state)@.invite_map().insert(
            invite_id@,
            old(state)@.invite(invite_id@).resolved(status),
        ),
{
    proof {
        lemma_find(old(state)@.invite_ids(), invite_id@);
    }
    let ghost after = old(state)@.invites[i as int].resolved(status);
    state.invites[i].status = status;
    proof {
        assert(state@.invites =~= old(state)@.invites.update(i as int, after));
        lemma_set_invite_wf(old(state)@, i as int, after);
    }
}

/// Issues an invitation whose identifier is the hexadecimal text of
/// `id_seed`, from `caller` to `invited_user`, for the role `role` on
/// `target`, and returns the identifier. The invitation is pending. Fails
/// with `Unauthorized` if the caller is not registered and with
/// `UserNotFound` if the invited user is not. Nothing is asked of the target.
/// An invitation already stored under the identifier is replaced.
pub fn invite_user(
    state: &mut State,
    caller: Principal,
    now: Timestamp,
    id_seed: &[u8],
    target: InviteTarget,
    role: Role,
    invited_user: Principal,
) -> (result: Result<String, Error>)
    requires
        old(state).wf(),
    ensures
        final(state).wf(),
        final(state)@ == old(state)@.invite_user(
            caller,
            now,
            hex_text(id_seed@),
            target@,
            role,
            invited_user,
        ).state,
        named(result) == old(state)@.invite_user(
            caller,
            now,
            hex_text(id_seed@),
            target@,
            role,
            invited_user,
        ).result,
        result is Err ==> final(state)@ == old(state)@,
        result is Ok ==> final(state)@.invite_map() == old(state)@.invite_map().insert(
            hex_text(id_seed@),
            InviteView::issued(hex_text(id_seed@), target@, role, caller, invited_user, now),
        ),
{
    if !state.user_exists(&caller) {
        return Err(Error::Unauthorized);
    }
    if !state.user_exists(&invited_user) {
        return Err(Error::UserNotFound);
    }
    let invite_id = generate_id(id_seed);
    let ghost view = InviteView::issued(invite_id@, target@, role, caller, invited_user, now);
    let invite = Invite {
        id: invite_id.clone(),
        target,
        role,
        invited_by: caller,
        invited_user,
        status: InviteStatus::Pending,
        created_at: now,
    };
    proof {
        lemma_put_invite_wf(old(state)@, view);
    }
    match state.find_invite(&invite_id) {
        Some(i) => {
            state.invites[i] = invite;
            proof {
                assert(state@.invites =~= old(state)@.invites.update(i as int, view));
            }
        },
        None => {
            state.invites.push(invite);
            proof {
                assert(state@.invites =~= old(state)@.invites.push(view));
            }
        },
    }
    Ok(invite_id)
}

/// Accepts the invitation `invite_id`: enrols `caller` in the target with
/// the role that the invitation names, then marks the invitation `Accepted`.
/// Fails with `Unauthorized` if the caller is not registered or is not the
/// invited user, with `InviteNotFound` if there is no such invitation, and
/// with `InviteExpired` if it is resolved already. If the enrolment fails
/// (the target is gone, or the caller is a member already), its error is
/// returned and the invitation stays pending.
pub fn accept_invite(
    state: &mut State,
    caller: Principal,
    now: Timestamp,
    invite_id: String,
) -> (result: Result<(), Error>)
    requires
        old(state).wf(),
    ensures
        final(state).wf(),
        final(state)@ == old(state)@.accept_invite(caller, now, invite_id@).state,
        done(result) == old(state)@.accept_invite(caller, now, invite_id@).result,
        result is Err ==> final(state)@ == old(state)@,
        result is Ok ==> ({
            let invite = old(state)@.invite(invite_id@);
            &&& final(state)@.invite_map() == old(state)@.invite_map().insert(
                invite_id@,
                invite.resolved(InviteStatus::Accepted),
            )
            &&& match invite.target {
                InviteTargetView::Team(team_id) => {
                    let team = old(state)@.team(team_id);
                    &&& final(state)@.team_map() == old(state)@.team_map().insert(
                        team_id,
                        team.joined(caller, invite.role, now),
                    )
                    &&& team.joined(caller, invite.role, now).roles() == team.roles().insert(
                        caller,
                        invite.role,
                    )
                },
                InviteTargetView::Project(project_id) => {
                    let project = old(state)@.project(project_id);
                    &&& final(state)@.project_map() == old(state)@.project_map().insert(
                        project_id,
                        project.joined(caller, invite.role, now),
                    )
                    &&& project.joined(caller, invite.role, now).roles()
                        == project.roles().insert(caller, invite.role)
                },
            }
        }),
{
    let i = match check_resolve(state, &caller, &invite_id, true) {
        Ok(i) => i,
        Err(e) => {
            return Err(e);
        },
    };
    let role = state.invites[i].role;
    let target = state.invites[i].target.clone();
    let joined = match &target {
        InviteTarget::Team(team_id) => add_user_to_team(state, now, team_id, &caller, &role),
        InviteTarget::Project(project_id) => add_user_to_project(
            state,
            now,
            project_id,
            &caller,
            &role,
        ),
    };
    match joined {
        Err(e) => Err(e),
        Ok(()) => {
            set_status(state, i, &invite_id, InviteStatus::Accepted);
            Ok(())
        },
    }
}

/// Declines the invitation `invite_id`, which becomes `Declined`. Fails with
/// `Unauthorized` if `caller` is not registered or is not the invited user,
/// with `InviteNotFound` if there is no such invitation, and with
/// `InviteExpired` if it is resolved already.
pub fn decline_invite(state: &mut State, caller: Principal, invite_id: String) -> (result: Result<
    (),
    Error,
>)
    requires
        old(state).wf(),
    ensures
        final(state).wf(),
        final(state)@ == old(state)@.decline_invite(caller, invite_id@).state,
        done(result) == old(state)@.decline_invite(caller, invite_id@).result,
        result is Err ==> final(state)@ == old(state)@,
        result is Ok ==> final(state)@.invite_map() == old(state)@.invite_map().insert(
            invite_id@,
            old(state)@.invite(invite_id@).resolved(InviteStatus::Declined),
        ),
{
    match check_resolve(state, &caller, &invite_id, true) {
        Err(e) => Err(e),
        Ok(i) => {
            set_status(state, i, &invite_id, InviteStatus::Declined);
            Ok(())
        },
    }
}

/// Cancels the invitation `invite_id`, which becomes `Cancelled`. Fails with
/// `Unauthorized` if `caller` is not registered or is not the inviter, with
/// `InviteNotFound` if there is no such invitation, and with `InviteExpired`
/// if it is resolved already.
pub fn cancel_invite(state: &mut State, caller: Principal, invite_id: String) -> (result: Result<
    (),
    Error,
>)
    requires
        old(state).wf(),
    ensures
        final(state).wf(),
        final(state)@ == old(state)@.cancel_invite(caller, invite_id@).state,
        done(result) == old(state)@.cancel_invite(caller, invite_id@).result,
        result is Err ==> final(state)@ == old(state)@,
        result is Ok ==> final(state)@.invite_map() == old(state)@.invite_map().insert(
            invite_id@,
            old(state)@.invite(invite_id@).resolved(InviteStatus::Cancelled),
        ),
{
    match check_resolve(state, &caller, &invite_id, false) {
        Err(e) => Err(e),
        Ok(i) => {
            set_status(state, i, &invite_id, InviteStatus::Cancelled);
            Ok(())
        },
    }
}

/// The role of `caller` in the target.
fn role_in(state: &State, caller: &Principal, target: &InviteTarget) -> (r: Result<Role, Error>)
    ensures
        crate::types::plain(r) == state@.role_in(*caller, target@),
{
    match target {
        InviteTarget::Team(team_id) => match state.find_team(team_id) {
            None => Err(Error::TeamNotFound),
            Some(i) => get_user_role_in_team(&state.teams[i], caller),
        },
        InviteTarget::Project(project_id) => match state.find_project(project_id) {
            None => Err(Error::ProjectNotFound),
            Some(i) => get_user_role_in_project(&state.projects[i], caller),
        },
    }
}

/// Removes `principal` from the members of `target` and stamps the target
/// with `now`. Fails with `TeamNotFound` or `ProjectNotFound` if the target
/// does not exist, and with `InsufficientPermissions` unless the caller is a
/// member of the target in the role `Owner` or `Manager`. Removing somebody
/// who is not a member succeeds.
pub fn remove_member(
    state: &mut State,
    caller: Principal,
    now: Timestamp,
    target: InviteTarget,
    principal: Principal,
) -> (result: Result<(), Error>)
    requires
        old(state).wf(),
    ensures
        final(state).wf(),
        final(state)@ == old(state)@.remove_member(caller, now, target@, principal).state,
        done(result) == old(state)@.remove_member(caller, now, target@, principal).result,
        result is Err ==> final(state)@ == old(state)@,
        result is Ok ==> match target@ {
            InviteTargetView::Team(team_id) => {
                let team = old(state)@.team(team_id);
                &&& final(state)@.team_map() == old(state)@.team_map().insert(
                    team_id,
                    team.left(principal, now),
                )
                &&& team.left(principal, now).roles() == team.roles().remove(principal)
            },
            InviteTargetView::Project(project_id) => {
                let project = old(state)@.project(project_id);
                &&& final(state)@.project_map() == old(state)@.project_map().insert(
                    project_id,
                    project.left(principal, now),
                )
                &&& project.left(principal, now).roles() == project.roles().remove(principal)
            },
        },
{
    let role = match role_in(state, &caller, &target) {
        Ok(role) => role,
        Err(e) => {
            return Err(e);
        },
    };
    if !is_owner_or_manager(role) {
        return Err(Error::InsufficientPermissions);
    }
    match &target {
        InviteTarget::Team(team_id) => remove_user_from_team(state, now, team_id, &principal),
        InviteTarget::Project(project_id) => remove_user_from_project(
            state,
            now,
            project_id,
            &principal,
        ),
    }
}

/// Lists the invitations that `principal` sent or received, in the order of
/// the store, if `caller` is registered and is `principal`; the list is empty
/// otherwise.
pub fn get_invites(state: &State, caller: Principal, principal: Principal) -> (result: Vec<Invite>)
    ensures
        invite_views(result@) == state@.get_invites(caller, principal),
        result@.len() <= state@.invites.len(),
        forall|i: int|
            0 <= i < result@.len() ==> ((#[trigger] result@[i]).invited_by == principal
                || result@[i].invited_user == principal) && state@.invites.contains(result@[i]@),
        state@.has_user(caller) && caller == principal ==> forall|j: int|
            0 <= j < state@.invites.len() && ((#[trigger] state@.invites[j]).invited_by == principal
                || state@.invites[j].invited_user == principal) ==> invite_views(result@).contains(
                state@.invites[j],
            ),
{
    let mut found: Vec<Invite> = Vec::new();
    if !state.user_exists(&caller) || !same_principal(&caller, &principal) {
        return found;
    }
    let mut i: usize = 0;
    proof {
        reveal(Seq::filter);
    }
    while i < state.invites.len()
        invariant
            i <= state.invites@.len(),
            invite_views(found@) == state@.invites.take(i as int).filter(party_to(principal)),
        decreases state.invites@.len() - i,
    {
        proof {
            lemma_filter_next(state@.invites, party_to(principal), i as int);
        }
        if same_principal(&state.invites[i].invited_by, &principal) || same_principal(
            &state.invites[i].invited_user,
            &principal,
        ) {
            found.push(state.invites[i].clone());
        }
        i += 1;
    }
    proof {
        assert(state@.invites.take(i as int) =~= state@.invites);
        lemma_filter_facts(state@.invites, party_to(principal));
        assert forall|j: int| 0 <= j < found@.len() implies ((#[trigger] found@[j]).invited_by
            == principal || found@[j].invited_user == principal) && state@.invites.contains(
            found@[j]@,
        ) by {
            assert(invite_views(found@)[j] == found@[j]@);
        }
    }
    found
}

/// Whether the invitation is pending.
fn is_pending(invite: &Invite) -> (open: bool)
    ensures
        open == invite@.is_open(),
{
    match invite.status {
        InviteStatus::Pending => true,
        _ => false,
    }
}

/// Lists the pending invitations that `principal` sent or received, in the
/// order of the store, if `caller` is registered and is `principal`; the list
/// is empty otherwise. It is the list of `get_invites` without the
/// invitations that are resolved.
pub fn get_pending_invites(state: &State, caller: Principal, principal: Principal) -> (result: Vec<
    Invite,
>)
    ensures
        invite_views(result@) == state@.get_pending_invites(caller, principal),
        result@.len() <= state@.invites.len(),
        forall|i: int|
            0 <= i < result@.len() ==> (#[trigger] result@[i]).status == InviteStatus::Pending && (
            result@[i].invited_by == principal || result@[i].invited_user == principal)
                && state@.invites.contains(result@[i]@),
        state@.has_user(caller) && caller == principal ==> forall|j: int|
            0 <= j < state@.invites.len() && (#[trigger] state@.invites[j]).status
                == InviteStatus::Pending && (state@.invites[j].invited_by == principal
                || state@.invites[j].invited_user == principal) ==> invite_views(result@).contains(
                state@.invites[j],
            ),
{
    let mut found: Vec<Invite> = Vec::new();
    if !state.user_exists(&caller) || !same_principal(&caller, &principal) {
        return found;
    }
    let mut i: usize = 0;
    proof {
        reveal(Seq::filter);
    }
    while i < state.invites.len()
        invariant
            i <= state.invites@.len(),
            invite_views(found@) == state@.invites.take(i as int).filter(pending_for(principal)),
        decreases state.invites@.len() - i,
    {
        proof {
            lemma_filter_next(state@.invites, pending_for(principal), i as int);
        }
        if is_pending(&state.invites[i]) && (same_principal(
            &state.invites[i].invited_by,
            &principal,
        ) || same_principal(&state.invites[i].invited_user, &principal)) {
            found.push(state.invites[i].clone());
        }
        i += 1;
    }
    proof {
        assert(state@.invites.take(i as int) =~= state@.invites);
        lemma_filter_facts(state@.invites, pending_for(principal));
        assert forall|j: int| 0 <= j < found@.len() implies (#[trigger] found@[j]).status
            == InviteStatus::Pending && (found@[j].invited_by == principal
            || found@[j].invited_user == principal) && state@.invites.contains(found@[j]@) by {
            assert(invite_views(found@)[j] == found@[j]@);
        }
    }
    found
}

} // verus!
