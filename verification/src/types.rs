//! The records of the workspace: users, teams, projects, invitations, the
//! partial updates that callers send, and the errors that operations return.
//!
//! Every record that holds text has a view in which each `String` is replaced
//! by the sequence of its characters. Contracts throughout the crate speak of
//! these views.

use vstd::prelude::*;

verus! {

/// Identifier of a team.
pub type TeamId = String;

/// Identifier of a project.
pub type ProjectId = String;

/// Identifier of an invitation.
pub type InviteId = String;

/// Nanoseconds since the Unix epoch.
pub type Timestamp = u64;

/// Maps optional text to the optional sequence of its characters.
pub open spec fn text(s: Option<String>) -> Option<Seq<char>> {
    match s {
        Some(t) => Some(t@),
        None => None,
    }
}

/// Colour scheme chosen by a user.
#[derive(Debug, PartialEq, Eq)]
pub struct ThemePreferences {
    pub color: String,
    pub dark_mode: bool,
}

pub struct ThemePreferencesView {
    pub color: Seq<char>,
    pub dark_mode: bool,
}

impl View for ThemePreferences {
    type V = ThemePreferencesView;

    open spec fn view(&self) -> ThemePreferencesView {
        ThemePreferencesView { color: self.color@, dark_mode: self.dark_mode }
    }
}

impl Clone for ThemePreferences {
    fn clone(&self) -> (copy: Self)
        ensures
            copy@ == self@,
    {
        ThemePreferences { color: self.color.clone(), dark_mode: self.dark_mode }
    }
}

/// Maps an optional theme to its optional view.
pub open spec fn theme(t: Option<ThemePreferences>) -> Option<ThemePreferencesView> {
    match t {
        Some(p) => Some(p@),
        None => None,
    }
}

/// What a user says about themself.
#[derive(Debug, PartialEq, Eq)]
pub struct UserProfile {
    pub name: String,
    pub username: String,
    pub email: Option<String>,
    pub avatar_url: Option<String>,
    pub bio: Option<String>,
    pub theme_preferences: Option<ThemePreferences>,
}

pub struct UserProfileView {
    pub name: Seq<char>,
    pub username: Seq<char>,
    pub email: Option<Seq<char>>,
    pub avatar_url: Option<Seq<char>>,
    pub bio: Option<Seq<char>>,
    pub theme_preferences: Option<ThemePreferencesView>,
}

impl View for UserProfile {
    type V = UserProfileView;

    open spec fn view(&self) -> UserProfileView {
        UserProfileView {
            name: self.name@,
            username: self.username@,
            email: text(self.email),
            avatar_url: text(self.avatar_url),
            bio: text(self.bio),
            theme_preferences: theme(self.theme_preferences),
        }
    }
}

impl Clone for UserProfile {
    fn clone(&self) -> (copy: Self)
        ensures
            copy@ == self@,
    {
        UserProfile {
            name: self.name.clone(),
            username: self.username.clone(),
            email: self.email.clone(),
            avatar_url: self.avatar_url.clone(),
            bio: self.bio.clone(),
            theme_preferences: self.theme_preferences.clone(),
        }
    }
}

/// A registered user.
#[derive(Debug, PartialEq, Eq)]
pub struct User {
    pub principal: candid::Principal,
    pub profile: UserProfile,
    pub created_at: Timestamp,
    pub updated_at: Timestamp,
}

pub struct UserView {
    pub principal: candid::Principal,
    pub profile: UserProfileView,
    pub created_at: Timestamp,
    pub updated_at: Timestamp,
}

impl View for User {
    type V = UserView;

    open spec fn view(&self) -> UserView {
        UserView {
            principal: self.principal,
            profile: self.profile@,
            created_at: self.created_at,
            updated_at: self.updated_at,
        }
    }
}

impl Clone for User {
    fn clone(&self) -> (copy: Self)
        ensures
            copy@ == self@,
    {
        User {
            principal: self.principal,
            profile: self.profile.clone(),
            created_at: self.created_at,
            updated_at: self.updated_at,
        }
    }
}

/// Role of a member of a team or project. `Owner` is above `Manager`, which
/// is above `Collaborator`.
#[derive(Clone, Copy, Debug, PartialEq, Eq, Structural)]
pub enum Role {
    Owner,
    Manager,
    Collaborator,
}

/// One member of a team.
#[derive(Clone, Copy, Debug, PartialEq, Eq)]
pub struct TeamMember {
    pub principal: candid::Principal,
    pub role: Role,
    pub joined_at: Timestamp,
}

/// A team. `owner_principal` records who created it; `members` is kept in
/// the order in which members joined.
#[derive(Debug, PartialEq, Eq)]
pub struct Team {
    pub id: TeamId,
    pub name: String,
    pub description: String,
    pub is_public: bool,
    pub owner_principal: candid::Principal,
    pub members: Vec<TeamMember>,
    pub created_at: Timestamp,
    pub updated_at: Timestamp,
}

pub struct TeamView {
    pub id: Seq<char>,
    pub name: Seq<char>,
    pub description: Seq<char>,
    pub is_public: bool,
    pub owner_principal: candid::Principal,
    pub members: Seq<TeamMember>,
    pub created_at: Timestamp,
    pub updated_at: Timestamp,
}

impl View for Team {
    type V = TeamView;

    open spec fn view(&self) -> TeamView {
        TeamView {
            id: self.id@,
            name: self.name@,
            description: self.description@,
            is_public: self.is_public,
            owner_principal: self.owner_principal,
            members: self.members@,
            created_at: self.created_at,
            updated_at: self.updated_at,
        }
    }
}

impl Clone for Team {
    fn clone(&self) -> (copy: Self)
        ensures
            copy@ == self@,
    {
        let members = self.members.clone();
        Team {
            id: self.id.clone(),
            name: self.name.clone(),
            description: self.description.clone(),
            is_public: self.is_public,
            owner_principal: self.owner_principal,
            members,
            created_at: self.created_at,
            updated_at: self.updated_at,
        }
    }
}

/// Who owns a project: one user, or a team.
#[derive(Debug, PartialEq, Eq)]
pub enum Owner {
    User(candid::Principal),
    Team(TeamId),
}

pub enum OwnerView {
    User(candid::Principal),
    Team(Seq<char>),
}

impl View for Owner {
    type V = OwnerView;

    open spec fn view(&self) -> OwnerView {
        match self {
            Owner::User(p) => OwnerView::User(*p),
            Owner::Team(id) => OwnerView::Team(id@),
        }
    }
}

impl Clone for Owner {
    fn clone(&self) -> (copy: Self)
        ensures
            copy@ == self@,
    {
        match self {
            Owner::User(p) => Owner::User(*p),
            Owner::Team(id) => Owner::Team(id.clone()),
        }
    }
}

/// One member of a project.
#[derive(Clone, Copy, Debug, PartialEq, Eq)]
pub struct ProjectMember {
    pub principal: candid::Principal,
    pub role: Role,
    pub joined_at: Timestamp,
}

/// A project. Its owner is not thereby a member: `members` starts empty.
#[derive(Debug, PartialEq, Eq)]
pub struct Project {
    pub id: ProjectId,
    pub name: String,
    pub description: String,
    pub owner: Owner,
    pub members: Vec<ProjectMember>,
    pub created_at: Timestamp,
    pub updated_at: Timestamp,
}

pub struct ProjectView {
    pub id: Seq<char>,
    pub name: Seq<char>,
    pub description: Seq<char>,
    pub owner: OwnerView,
    pub members: Seq<ProjectMember>,
    pub created_at: Timestamp,
    pub updated_at: Timestamp,
}

impl View for Project {
    type V = ProjectView;

    open spec fn view(&self) -> ProjectView {
        ProjectView {
            id: self.id@,
            name: self.name@,
            description: self.description@,
            owner: self.owner@,
            members: self.members@,
            created_at: self.created_at,
            updated_at: self.updated_at,
        }
    }
}

impl Clone for Project {
    fn clone(&self) -> (copy: Self)
        ensures
            copy@ == self@,
    {
        let members = self.members.clone();
        Project {
            id: self.id.clone(),
            name: self.name.clone(),
            description: self.description.clone(),
            owner: self.owner.clone(),
            members,
            created_at: self.created_at,
            updated_at: self.updated_at,
        }
    }
}

/// What an invitation is for.
#[derive(Debug, PartialEq, Eq)]
pub enum InviteTarget {
    Team(TeamId),
    Project(ProjectId),
}

pub enum InviteTargetView {
    Team(Seq<char>),
    Project(Seq<char>),
}

impl View for InviteTarget {
    type V = InviteTargetView;

    open spec fn view(&self) -> InviteTargetView {
        match self {
            InviteTarget::Team(id) => InviteTargetView::Team(id@),
            InviteTarget::Project(id) => InviteTargetView::Project(id@),
        }
    }
}

impl Clone for InviteTarget {
    fn clone(&self) -> (copy: Self)
        ensures
            copy@ == self@,
    {
        match self {
            InviteTarget::Team(id) => InviteTarget::Team(id.clone()),
            InviteTarget::Project(id) => InviteTarget::Project(id.clone()),
        }
    }
}

/// Where an invitation stands. Every status but `Pending` is terminal.
#[derive(Clone, Copy, Debug, PartialEq, Eq, Structural)]
pub enum InviteStatus {
    Pending,
    Accepted,
    Declined,
    Cancelled,
}

/// A proposal to give `invited_user` the role `role` on `target`.
#[derive(Debug, PartialEq, Eq)]
pub struct Invite {
    pub id: InviteId,
    pub target: InviteTarget,
    pub role: Role,
    pub invited_by: candid::Principal,
    pub invited_user: candid::Principal,
    pub status: InviteStatus,
    pub created_at: Timestamp,
}

pub struct InviteView {
    pub id: Seq<char>,
    pub target: InviteTargetView,
    pub role: Role,
    pub invited_by: candid::Principal,
    pub invited_user: candid::Principal,
    pub status: InviteStatus,
    pub created_at: Timestamp,
}

impl View for Invite {
    type V = InviteView;

    open spec fn view(&self) -> InviteView {
        InviteView {
            id: self.id@,
            target: self.target@,
            role: self.role,
            invited_by: self.invited_by,
            invited_user: self.invited_user,
            status: self.status,
            created_at: self.created_at,
        }
    }
}

impl Clone for Invite {
    fn clone(&self) -> (copy: Self)
        ensures
            copy@ == self@,
    {
        Invite {
            id: self.id.clone(),
            target: self.target.clone(),
            role: self.role,
            invited_by: self.invited_by,
            invited_user: self.invited_user,
            status: self.status,
            created_at: self.created_at,
        }
    }
}

/// Maps a field of a partial update, in which the outer `None` means "leave
/// as it is" and `Some(None)` means "clear", to its view.
pub open spec fn text_change(s: Option<Option<String>>) -> Option<Option<Seq<char>>> {
    match s {
        Some(t) => Some(text(t)),
        None => None,
    }
}

/// Maps a requested change of theme to its view.
pub open spec fn theme_change(t: Option<Option<ThemePreferences>>) -> Option<
    Option<ThemePreferencesView>,
> {
    match t {
        Some(p) => Some(theme(p)),
        None => None,
    }
}

/// Partial update of a profile: a field that is `None` is left as it is.
#[derive(Debug, PartialEq, Eq)]
pub struct UserProfileUpdate {
    pub name: Option<String>,
    pub username: Option<String>,
    pub email: Option<Option<String>>,
    pub avatar_url: Option<Option<String>>,
    pub bio: Option<Option<String>>,
    pub theme_preferences: Option<Option<ThemePreferences>>,
}

pub struct UserProfileUpdateView {
    pub name: Option<Seq<char>>,
    pub username: Option<Seq<char>>,
    pub email: Option<Option<Seq<char>>>,
    pub avatar_url: Option<Option<Seq<char>>>,
    pub bio: Option<Option<Seq<char>>>,
    pub theme_preferences: Option<Option<ThemePreferencesView>>,
}

impl View for UserProfileUpdate {
    type V = UserProfileUpdateView;

    open spec fn view(&self) -> UserProfileUpdateView {
        UserProfileUpdateView {
            name: text(self.name),
            username: text(self.username),
            email: text_change(self.email),
            avatar_url: text_change(self.avatar_url),
            bio: text_change(self.bio),
            theme_preferences: theme_change(self.theme_preferences),
        }
    }
}

impl Clone for UserProfileUpdate {
    fn clone(&self) -> (copy: Self)
        ensures
            copy@ == self@,
    {
        UserProfileUpdate {
            name: self.name.clone(),
            username: self.username.clone(),
            email: self.email.clone(),
            avatar_url: self.avatar_url.clone(),
            bio: self.bio.clone(),
            theme_preferences: self.theme_preferences.clone(),
        }
    }
}

/// Partial update of a team.
#[derive(Debug, PartialEq, Eq)]
pub struct TeamUpdate {
    pub name: Option<String>,
    pub description: Option<String>,
    pub is_public: Option<bool>,
}

pub struct TeamUpdateView {
    pub name: Option<Seq<char>>,
    pub description: Option<Seq<char>>,
    pub is_public: Option<bool>,
}

impl View for TeamUpdate {
    type V = TeamUpdateView;

    open spec fn view(&self) -> TeamUpdateView {
        TeamUpdateView {
            name: text(self.name),
            description: text(self.description),
            is_public: self.is_public,
        }
    }
}

impl Clone for TeamUpdate {
    fn clone(&self) -> (copy: Self)
        ensures
            copy@ == self@,
    {
        TeamUpdate {
            name: self.name.clone(),
            description: self.description.clone(),
            is_public: self.is_public,
        }
    }
}

/// Partial update of a project.
#[derive(Debug, PartialEq, Eq)]
pub struct ProjectUpdate {
    pub name: Option<String>,
    pub description: Option<String>,
}

pub struct ProjectUpdateView {
    pub name: Option<Seq<char>>,
    pub description: Option<Seq<char>>,
}

impl View for ProjectUpdate {
    type V = ProjectUpdateView;

    open spec fn view(&self) -> ProjectUpdateView {
        ProjectUpdateView { name: text(self.name), description: text(self.description) }
    }
}

impl Clone for ProjectUpdate {
    fn clone(&self) -> (copy: Self)
        ensures
            copy@ == self@,
    {
        ProjectUpdate { name: self.name.clone(), description: self.description.clone() }
    }
}

/// Why an operation was refused.
#[derive(Debug, PartialEq, Eq)]
pub enum Error {
    Unauthorized,
    NotFound,
    AlreadyExists,
    InvalidInput(String),
    InsufficientPermissions,
    InviteExpired,
    InviteNotFound,
    UserNotFound,
    TeamNotFound,
    ProjectNotFound,
    InternalError(String),
}

pub enum ErrorView {
    Unauthorized,
    NotFound,
    AlreadyExists,
    InvalidInput(Seq<char>),
    InsufficientPermissions,
    InviteExpired,
    InviteNotFound,
    UserNotFound,
    TeamNotFound,
    ProjectNotFound,
    InternalError(Seq<char>),
}

impl View for Error {
    type V = ErrorView;

    open spec fn view(&self) -> ErrorView {
        match self {
            Error::Unauthorized => ErrorView::Unauthorized,
            Error::NotFound => ErrorView::NotFound,
            Error::AlreadyExists => ErrorView::AlreadyExists,
            Error::InvalidInput(reason) => ErrorView::InvalidInput(reason@),
            Error::InsufficientPermissions => ErrorView::InsufficientPermissions,
            Error::InviteExpired => ErrorView::InviteExpired,
            Error::InviteNotFound => ErrorView::InviteNotFound,
            Error::UserNotFound => ErrorView::UserNotFound,
            Error::TeamNotFound => ErrorView::TeamNotFound,
            Error::ProjectNotFound => ErrorView::ProjectNotFound,
            Error::InternalError(reason) => ErrorView::InternalError(reason@),
        }
    }
}

impl Clone for Error {
    fn clone(&self) -> (copy: Self)
        ensures
            copy@ == self@,
    {
        match self {
            Error::Unauthorized => Error::Unauthorized,
            Error::NotFound => Error::NotFound,
            Error::AlreadyExists => Error::AlreadyExists,
            Error::InvalidInput(reason) => Error::InvalidInput(reason.clone()),
            Error::InsufficientPermissions => Error::InsufficientPermissions,
            Error::InviteExpired => Error::InviteExpired,
            Error::InviteNotFound => Error::InviteNotFound,
            Error::UserNotFound => Error::UserNotFound,
            Error::TeamNotFound => Error::TeamNotFound,
            Error::ProjectNotFound => Error::ProjectNotFound,
            Error::InternalError(reason) => Error::InternalError(reason.clone()),
        }
    }
}

/// The outcome of an operation that returns nothing on success, with the
/// error replaced by its view.
pub open spec fn done(r: Result<(), Error>) -> Result<(), ErrorView> {
    match r {
        Ok(()) => Ok(()),
        Err(e) => Err(e@),
    }
}

/// The outcome of an operation that returns an identifier on success, with
/// both sides replaced by their views.
pub open spec fn named(r: Result<String, Error>) -> Result<Seq<char>, ErrorView> {
    match r {
        Ok(id) => Ok(id@),
        Err(e) => Err(e@),
    }
}

/// The outcome of an operation that returns a plain value on success, with
/// the error replaced by its view.
pub open spec fn plain<T>(r: Result<T, Error>) -> Result<T, ErrorView> {
    match r {
        Ok(v) => Ok(v),
        Err(e) => Err(e@),
    }
}

} // verus!
