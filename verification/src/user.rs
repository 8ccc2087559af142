//! The identity directory: who is registered, and under which username.

use crate::keys::{lemma_find, lemma_map_push, lemma_map_update, lemma_push_key};
use crate::state::{user_views, Outcome, State, StateView};
use crate::trusted::same_principal;
use crate::types::{
    done, plain, Error, ErrorView, ThemePreferences, ThemePreferencesView, Timestamp, User,
    UserProfile, UserProfileUpdate, UserProfileUpdateView, UserProfileView, UserView,
};
use crate::utils::{blank, is_blank};
use candid::Principal;
use vstd::prelude::*;

verus! {

/// Longest username accepted, in characters.
pub const MAX_USERNAME_LEN: usize = 12;

/// A username is valid when it is not blank and no longer than the limit.
pub open spec fn valid_username(name: Seq<char>) -> bool {
    !blank(name) && name.len() <= MAX_USERNAME_LEN
}

/// Reason given when the display name is blank.
pub open spec fn name_empty() -> Seq<char> {
    "Name cannot be empty"@
}

/// Reason given when the username is blank.
pub open spec fn username_empty() -> Seq<char> {
    "Username cannot be empty"@
}

/// Reason given when the username is longer than the limit.
pub open spec fn username_too_long() -> Seq<char> {
    "Username too long (max 12 characters)"@
}

/// Reason given when another record already holds the username.
pub open spec fn username_in_use() -> Seq<char> {
    "Username is already taken"@
}

/// The verdict on a display name, given whether it is blank: a blank name
/// is refused.
pub open spec fn name_verdict(is_blank: bool) -> Option<ErrorView> {
    if is_blank {
        Some(ErrorView::InvalidInput(name_empty()))
    } else {
        None
    }
}

/// The verdict on a username, given whether it is blank, how many characters
/// it has, and whether the record of another principal holds it. It is
/// refused if it is blank, or longer than the limit, or taken; the first of
/// these that applies, in this order, gives the reason.
pub open spec fn username_verdict(is_blank: bool, length: nat, is_taken: bool) -> Option<
    ErrorView,
> {
    if is_blank {
        Some(ErrorView::InvalidInput(username_empty()))
    } else if length > MAX_USERNAME_LEN {
        Some(ErrorView::InvalidInput(username_too_long()))
    } else if is_taken {
        Some(ErrorView::InvalidInput(username_in_use()))
    } else {
        None
    }
}

impl UserView {
    /// The user after a partial update of the profile at time `now`: each field
    /// that the update names takes the new value, the others stay.
    pub open spec fn revised(self, u: UserProfileUpdateView, now: Timestamp) -> UserView {
        UserView {
            profile: UserProfileView {
                name: if let Some(v) = u.name { v } else { self.profile.name },
                username: if let Some(v) = u.username { v } else { self.profile.username },
                email: if let Some(v) = u.email { v } else { self.profile.email },
                avatar_url: if let Some(v) = u.avatar_url { v } else { self.profile.avatar_url },
                bio: if let Some(v) = u.bio { v } else { self.profile.bio },
                theme_preferences: if let Some(v) = u.theme_preferences {
                    v
                } else {
                    self.profile.theme_preferences
                },
            },
            updated_at: now,
            ..self
        }
    }

    /// The user under another username from time `now` on.
    pub open spec fn renamed(self, username: Seq<char>, now: Timestamp) -> UserView {
        UserView { profile: UserProfileView { username, ..self.profile }, updated_at: now, ..self }
    }

    /// The user with another theme from time `now` on.
    pub open spec fn themed(self, t: ThemePreferencesView, now: Timestamp) -> UserView {
        UserView {
            profile: UserProfileView { theme_preferences: Some(t), ..self.profile },
            updated_at: now,
            ..self
        }
    }
}

impl StateView {
    /// Whether every username in use is valid.
    pub open spec fn usernames_valid(self) -> bool {
        forall|i: int|
            0 <= i < self.users.len() ==> valid_username(#[trigger] self.users[i].profile.username)
    }

    /// Why a username cannot be given to the record of `holder`, if it
    /// cannot: the verdict on what is found out about the name. A name is
    /// taken when the record of another principal holds it.
    pub open spec fn username_error(self, holder: Principal, name: Seq<char>) -> Option<
        ErrorView,
    > {
        username_verdict(blank(name), name.len(), self.username_taken_by_another(holder, name))
    }

    /// Registration of `caller` at time `now`.
    pub open spec fn create_user(
        self,
        caller: Principal,
        now: Timestamp,
        profile: UserProfileView,
    ) -> Outcome<Result<Principal, ErrorView>> {
        if self.has_user(caller) {
            Outcome { state: self, result: Err(ErrorView::AlreadyExists) }
        } else if let Some(e) = name_verdict(blank(profile.name)) {
            Outcome { state: self, result: Err(e) }
        } else if let Some(e) = self.username_error(caller, profile.username) {
            Outcome { state: self, result: Err(e) }
        } else {
            Outcome {
                state: self.add_user(
                    UserView { principal: caller, profile, created_at: now, updated_at: now },
                ),
                result: Ok(caller),
            }
        }
    }

    /// What `caller` is shown of the user `principal`: the record, if the two
    /// are the same and the record exists.
    pub open spec fn get_user(self, caller: Principal, principal: Principal) -> Option<UserView> {
        if caller != principal {
            None
        } else {
            if self.has_user(principal) {
                Some(self.user(principal))
            } else {
                None
            }
        }
    }

    /// Partial update of the profile of `principal`, asked for by `caller`.
    pub open spec fn update_profile(
        self,
        caller: Principal,
        now: Timestamp,
        principal: Principal,
        u: UserProfileUpdateView,
    ) -> Outcome<Result<(), ErrorView>> {
        if caller != principal {
            Outcome { state: self, result: Err(ErrorView::Unauthorized) }
        } else if u.username is Some && self.username_error(principal, u.username->0) is Some {
            Outcome { state: self, result: Err(self.username_error(principal, u.username->0)->0) }
        } else if !self.has_user(principal) {
            Outcome { state: self, result: Err(ErrorView::UserNotFound) }
        } else {
            Outcome {
                state: self.set_user(
                    self.find_user(principal)->0,
                    self.user(principal).revised(u, now),
                ),
                result: Ok(()),
            }
        }
    }

    /// Change of the theme of `caller`.
    pub open spec fn update_theme_preferences(
        self,
        caller: Principal,
        now: Timestamp,
        t: ThemePreferencesView,
    ) -> Outcome<Result<(), ErrorView>> {
        if !self.has_user(caller) {
            Outcome { state: self, result: Err(ErrorView::UserNotFound) }
        } else {
            Outcome {
                state: self.set_user(self.find_user(caller)->0, self.user(caller).themed(t, now)),
                result: Ok(()),
            }
        }
    }

    /// Change of the username of `principal`, asked for by `caller`.
    pub open spec fn update_username(
        self,
        caller: Principal,
        now: Timestamp,
        principal: Principal,
        username: Seq<char>,
    ) -> Outcome<Result<(), ErrorView>> {
        if caller != principal {
            Outcome { state: self, result: Err(ErrorView::Unauthorized) }
        } else if let Some(e) = self.username_error(principal, username) {
            Outcome { state: self, result: Err(e) }
        } else if !self.has_user(principal) {
            Outcome { state: self, result: Err(ErrorView::UserNotFound) }
        } else {
            Outcome {
                state: self.set_user(
                    self.find_user(principal)->0,
                    self.user(principal).renamed(username, now),
                ),
                result: Ok(()),
            }
        }
    }

    /// What `caller` is shown of the directory: everything if registered,
    /// nothing if not.
    pub open spec fn get_users(self, caller: Principal) -> Seq<UserView> {
        if self.has_user(caller) {
            self.users
        } else {
            Seq::empty()
        }
    }
}

/// Adding a user under a fresh principal and a username that nobody else
/// holds keeps the state well formed.
pub proof fn lemma_add_user_wf(s: StateView, user: UserView)
    requires
        s.wf(),
        !s.has_user(user.principal),
        !s.username_taken_by_another(user.principal, user.profile.username),
    ensures
        s.add_user(user).wf(),
        s.add_user(user).user_map() == s.user_map().insert(user.principal, user),
        !s.username_taken(user.profile.username),
{
    let t = s.add_user(user);
    lemma_find(s.principals(), user.principal);
    assert forall|j: int| 0 <= j < s.users.len() implies s.usernames()[j]
        != user.profile.username by {
        assert(s.principals().contains(s.principals()[j]));
    }
    lemma_push_key(s.principals(), user.principal);
    lemma_push_key(s.usernames(), user.profile.username);
    assert(t.principals() =~= s.principals().push(user.principal));
    assert(t.usernames() =~= s.usernames().push(user.profile.username));
    lemma_map_push(s.principals(), s.users, user.principal, user);
}

/// Replacing a user by one with the same principal, and with a username that
/// is either the old one or held by nobody else, keeps the state well formed.
pub proof fn lemma_set_user_wf(s: StateView, i: int, user: UserView)
    requires
        s.wf(),
        0 <= i < s.users.len(),
        user.principal == s.users[i].principal,
        user.profile.username == s.users[i].profile.username || !s.username_taken_by_another(
            user.principal,
            user.profile.username,
        ),
    ensures
        s.set_user(i, user).wf(),
        s.set_user(i, user).user_map() == s.user_map().insert(user.principal, user),
{
    let t = s.set_user(i, user);
    assert(t.principals() =~= s.principals());
    lemma_map_update(s.principals(), s.users, i, user);
    if user.profile.username == s.users[i].profile.username {
        assert(t.usernames() =~= s.usernames());
    } else {
        let names = s.usernames();
        let renamed = t.usernames();
        assert forall|a: int, b: int|
            0 <= a < renamed.len() && 0 <= b < renamed.len() && a != b implies renamed[a]
            != renamed[b] by {
            if a != i {
                assert(renamed[a] == names[a] && s.principals()[a] != s.principals()[i]);
            }
            if b != i {
                assert(renamed[b] == names[b] && s.principals()[b] != s.principals()[i]);
            }
        }
    }
}

/// An `InvalidInput` error with the given reason.
fn invalid(reason: &str) -> (e: Error)
    ensures
        e@ == ErrorView::InvalidInput(reason@),
{
    Error::InvalidInput(reason.to_string())
}

/// Judges a display name, given whether it is blank.
pub fn judge_name(is_blank: bool) -> (verdict: Result<(), Error>)
    ensures
        match verdict {
            Ok(()) => name_verdict(is_blank) is None,
            Err(e) => name_verdict(is_blank) == Some(e@),
        },
{
    if is_blank {
        return Err(invalid("Name cannot be empty"));
    }
    Ok(())
}

/// Judges a username, given whether it is blank, how many characters it has,
/// and whether the record of another principal holds it.
pub fn judge_username(is_blank: bool, length: usize, is_taken: bool) -> (verdict: Result<
    (),
    Error,
>)
    ensures
        match verdict {
            Ok(()) => username_verdict(is_blank, length as nat, is_taken) is None,
            Err(e) => username_verdict(is_blank, length as nat, is_taken) == Some(e@),
        },
{
    if is_blank {
        return Err(invalid("Username cannot be empty"));
    }
    if length > MAX_USERNAME_LEN {
        return Err(invalid("Username too long (max 12 characters)"));
    }
    if is_taken {
        return Err(invalid("Username is already taken"));
    }
    Ok(())
}

/// Finds out what matters about a username for the record of `holder` and
/// judges it.
fn check_username(state: &State, holder: &Principal, username: &String) -> (r: Result<(), Error>)
    ensures
        match r {
            Ok(()) => state@.username_error(*holder, username@) is None,
            Err(e) => state@.username_error(*holder, username@) == Some(e@),
        },
{
    judge_username(
        is_blank(username.as_str()),
        username.as_str().unicode_len(),
        state.username_taken_by_another(holder, username),
    )
}

/// Registers `caller` with the given profile at time `now` and returns the
/// principal. Fails with `AlreadyExists` if the caller is registered, and with
/// `InvalidInput` if the display name is blank or the username is blank,
/// longer than twelve characters, or held by another user.
pub fn create_user(
    state: &mut State,
    caller: Principal,
    now: Timestamp,
    profile: UserProfile,
) -> (result: Result<Principal, Error>)
    requires
        old(state).wf(),
    ensures
        final(state).wf(),
        final(state)@ == old(state)@.create_user(caller, now, profile@).state,
        plain(result) == old(state)@.create_user(caller, now, profile@).result,
        result is Err ==> final(state)@ == old(state)@,
        result is Ok ==> final(state)@.user_map() == old(state)@.user_map().insert(
            caller,
            UserView { principal: caller, profile: profile@, created_at: now, updated_at: now },
        ),
        result is Ok ==> final(state)@.username_taken(profile@.username),
        result is Ok ==> forall|other: Principal|
            other != caller ==> #[trigger] final(state)@.username_taken_by_another(
                other,
                profile@.username,
            ),
{
    if state.user_exists(&caller) {
        return Err(Error::AlreadyExists);
    }
    match judge_name(is_blank(profile.name.as_str())) {
        Err(e) => {
            return Err(e);
        },
        Ok(()) => {},
    }
    match check_username(state, &caller, &profile.username) {
        Err(e) => {
            return Err(e);
        },
        Ok(()) => {},
    }
    let ghost view = UserView {
        principal: caller,
        profile: profile@,
        created_at: now,
        updated_at: now,
    };
    let user = User { principal: caller, profile, created_at: now, updated_at: now };
    state.users.push(user);
    proof {
        assert(state@.users =~= old(state)@.users.push(view));
        lemma_add_user_wf(old(state)@, view);
        assert(state@.usernames()[state@.users.len() - 1] == profile@.username);
    }
    Ok(caller)
}

/// Returns the record of `principal` if `caller` is that principal and is
/// registered; nobody is shown the record of anyone else.
pub fn get_user(state: &State, caller: Principal, principal: Principal) -> (result: Option<User>)
    ensures
        match result {
            Some(user) => state@.get_user(caller, principal) == Some(user@),
            None => state@.get_user(caller, principal) is None,
        },
{
    if !same_principal(&caller, &principal) {
        return None;
    }
    match state.find_user(&principal) {
        Some(i) => Some(state.users[i].clone()),
        None => None,
    }
}

/// Applies a partial update to the profile of `principal` and stamps the
/// record with `now`. Fails with `Unauthorized` unless `caller` is
/// `principal`, with `InvalidInput` if a new username is given and is blank,
/// too long or held by another user, and with `UserNotFound` if there is no
/// record. The username that the record holds already is accepted.
pub fn update_profile(
    state: &mut State,
    caller: Principal,
    now: Timestamp,
    principal: Principal,
    profile_update: UserProfileUpdate,
) -> (result: Result<(), Error>)
    requires
        old(state).wf(),
    ensures
        final(state).wf(),
        final(state)@ == old(state)@.update_profile(caller, now, principal, profile_update@).state,
        done(result) == old(state)@.update_profile(caller, now, principal, profile_update@).result,
        result is Err ==> final(state)@ == old(state)@,
        result is Ok ==> final(state)@.user_map() == old(state)@.user_map().insert(
            principal,
            old(state)@.user(principal).revised(profile_update@, now),
        ),
{
    if !same_principal(&caller, &principal) {
        return Err(Error::Unauthorized);
    }
    match &profile_update.username {
        Some(username) => {
            match check_username(state, &principal, username) {
                Err(e) => {
                    return Err(e);
                },
                Ok(()) => {},
            }
        },
        None => {},
    }
    match state.find_user(&principal) {
        None => Err(Error::UserNotFound),
        Some(i) => {
            let ghost before = old(state)@.users[i as int];
            let ghost after = before.revised(profile_update@, now);
            let UserProfileUpdate { name, username, email, avatar_url, bio, theme_preferences } =
                profile_update;
            if let Some(v) = name {
                state.users[i].profile.name = v;
            }
            if let Some(v) = username {
                state.users[i].profile.username = v;
            }
            if let Some(v) = email {
                state.users[i].profile.email = v;
            }
            if let Some(v) = avatar_url {
                state.users[i].profile.avatar_url = v;
            }
            if let Some(v) = bio {
                state.users[i].profile.bio = v;
            }
            if let Some(v) = theme_preferences {
                state.users[i].profile.theme_preferences = v;
            }
            state.users[i].updated_at = now;
            proof {
                assert(state@.users =~= old(state)@.users.update(i as int, after));
                lemma_find(old(state)@.principals(), principal);
                lemma_set_user_wf(old(state)@, i as int, after);
            }
            Ok(())
        },
    }
}

/// Sets the theme of `caller` and stamps the record with `now`. Fails with
/// `UserNotFound` if the caller is not registered.
pub fn update_theme_preferences(
    state: &mut State,
    caller: Principal,
    now: Timestamp,
    theme_preferences: ThemePreferences,
) -> (result: Result<(), Error>)
    requires
        old(state).wf(),
    ensures
        final(state).wf(),
        final(state)@ == old(state)@.update_theme_preferences(
            caller,
            now,
            theme_preferences@,
        ).state,
        done(result) == old(state)@.update_theme_preferences(
            caller,
            now,
            theme_preferences@,
        ).result,
        result is Err ==> final(state)@ == old(state)@,
        result is Ok ==> final(state)@.user_map() == old(state)@.user_map().insert(
            caller,
            old(state)@.user(caller).themed(theme_preferences@, now),
        ),
{
    match state.find_user(&caller) {
        None => Err(Error::UserNotFound),
        Some(i) => {
            let ghost after = old(state)@.users[i as int].themed(theme_preferences@, now);
            state.users[i].profile.theme_preferences = Some(theme_preferences);
            state.users[i].updated_at = now;
            proof {
                assert(state@.users =~= old(state)@.users.update(i as int, after));
                lemma_find(old(state)@.principals(), caller);
                lemma_set_user_wf(old(state)@, i as int, after);
            }
            Ok(())
        },
    }
}

/// Gives `principal` a username and stamps the record with `now`. Fails with
/// `Unauthorized` unless `caller` is `principal`, with `InvalidInput` if the
/// username is blank, too long or held by another user, and with
/// `UserNotFound` if there is no record. The username that the record holds
/// already is accepted: the record is stamped and stays as it is otherwise.
pub fn update_username(
    state: &mut State,
    caller: Principal,
    now: Timestamp,
    principal: Principal,
    username: String,
) -> (result: Result<(), Error>)
    requires
        old(state).wf(),
    ensures
        final(state).wf(),
        final(state)@ == old(state)@.update_username(caller, now, principal, username@).state,
        done(result) == old(state)@.update_username(caller, now, principal, username@).result,
        result is Err ==> final(state)@ == old(state)@,
        result is Ok ==> final(state)@.user_map() == old(state)@.user_map().insert(
            principal,
            old(state)@.user(principal).renamed(username@, now),
        ),
        result is Ok ==> final(state)@.username_taken(username@),
        result is Ok ==> forall|other: Principal|
            other != principal ==> #[trigger] final(state)@.username_taken_by_another(
                other,
                username@,
            ),
{
    if !same_principal(&caller, &principal) {
        return Err(Error::Unauthorized);
    }
    match check_username(state, &principal, &username) {
        Err(e) => {
            return Err(e);
        },
        Ok(()) => {},
    }
    match state.find_user(&principal) {
        None => Err(Error::UserNotFound),
        Some(i) => {
            let ghost after = old(state)@.users[i as int].renamed(username@, now);
            state.users[i].profile.username = username;
            state.users[i].updated_at = now;
            proof {
                assert(state@.users =~= old(state)@.users.update(i as int, after));
                lemma_find(old(state)@.principals(), principal);
                lemma_set_user_wf(old(state)@, i as int, after);
                assert(state@.usernames()[i as int] == after.profile.username);
            }
            Ok(())
        },
    }
}

/// Lists every user, in the order of registration, for a registered caller;
/// for anyone else the list is empty.
pub fn get_users(state: &State, caller: Principal) -> (result: Vec<User>)
    ensures
        user_views(result@) == state@.get_users(caller),
        result@.len() <= state@.users.len(),
{
    if !state.user_exists(&caller) {
        let none: Vec<User> = Vec::new();
        return none;
    }
    let all = state.users.clone();
    all
}

} // verus!
