//! Membership and invitations for a collaborative workspace: users, teams and
//! projects with roles, and invitations that are resolved exactly once.
//!
//! The whole workspace is one [`state::State`]. Every operation is a function
//! that takes the state, the principal of the caller and, where it stamps a
//! record, the time; where it makes a new record, it also takes the bytes
//! from which the identifier of the record is made. Nothing here reads a
//! clock, draws a random number or finds out who is calling.
//!
//! Each operation is specified by a function of the same name on
//! [`state::StateView`], the state as mathematics, which gives the state
//! after the call and the result of the call. Beside it the contract of an
//! operation says what the operation does to what can be looked up: which
//! entry of which map it adds, replaces or removes. The modules are:
//!
//! - [`types`]: the records and their views;
//! - [`auth`]: the order of roles and the thresholds;
//! - [`state`]: the state, its invariant, and the lookups;
//! - [`user`], [`team`], [`project`], [`invite`]: the operations;
//! - [`laws`], [`history`]: what holds of every call and of every sequence
//!   of calls;
//! - [`keys`]: searching a sequence of keys, and the map that a store stands
//!   for;
//! - [`utils`]: identifiers and blank text;
//! - [`trusted`]: what is believed of other crates.

pub mod auth;
pub mod history;
pub mod invite;
pub mod keys;
pub mod laws;
pub mod project;
pub mod state;
pub mod team;
pub mod trusted;
pub mod types;
pub mod user;
pub mod utils;

pub use crate::state::{Outcome, State, StateView};
pub use crate::types::{
    Error, ErrorView, Invite, InviteId, InviteStatus, InviteTarget, InviteTargetView, InviteView,
    Owner, OwnerView, Project, ProjectId, ProjectMember, ProjectUpdate, ProjectUpdateView,
    ProjectView, Role, Team, TeamId, TeamMember, TeamUpdate, TeamUpdateView, TeamView,
    ThemePreferences, ThemePreferencesView, Timestamp, User, UserProfile, UserProfileUpdate,
    UserProfileUpdateView, UserProfileView, UserView,
};
