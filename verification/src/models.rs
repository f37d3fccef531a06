//! The records that the tracker stores and the forms that it accepts.

use vstd::prelude::*;

verus! {

/// A project, owned by the account `user_id`.
#[derive(Debug)]
pub struct Project {
    pub id: i64,
    pub user_id: i64,
    pub name: String,
    pub description: Option<String>,
    pub created_at: String,
}

/// What a [`Project`] is in contracts.
pub struct ProjectView {
    pub id: int,
    pub user_id: int,
    pub name: Seq<char>,
    pub description: Option<Seq<char>>,
    pub created_at: Seq<char>,
}

impl View for Project {
    type V = ProjectView;

    open spec fn view(&self) -> ProjectView {
        ProjectView {
            id: self.id as int,
            user_id: self.user_id as int,
            name: self.name@,
            description: match self.description {
                Some(d) => Some(d@),
                None => None,
            },
            created_at: self.created_at@,
        }
    }
}

impl Project {
    /// A copy with the same contents.
    pub fn duplicate(&self) -> (copy: Project)
        ensures
            copy@ == self@,
    {
        Project {
            id: self.id,
            user_id: self.user_id,
            name: self.name.clone(),
            description: match &self.description {
                Some(d) => Some(d.clone()),
                None => None,
            },
            created_at: self.created_at.clone(),
        }
    }
}

/// A language inside a project.
#[derive(Debug)]
pub struct Language {
    pub id: i64,
    pub project_id: i64,
    pub name: String,
    pub type_: String,
    pub parent_id: Option<i64>,
}

/// An account as the rest of the system sees it: without its password hash.
#[derive(Debug)]
pub struct User {
    pub id: i64,
    pub username: String,
}

/// What a [`User`] is in contracts.
pub struct UserView {
    pub id: int,
    pub username: Seq<char>,
}

impl View for User {
    type V = UserView;

    open spec fn view(&self) -> UserView {
        UserView { id: self.id as int, username: self.username@ }
    }
}

/// Why a request was not carried out.
#[derive(Clone, Copy, PartialEq, Eq, Structural, Debug)]
pub enum Failure {
    /// The username is taken.
    DuplicateUsername,
    /// Unknown username or wrong password; the two are not told apart.
    InvalidCredentials,
    /// No live session stands behind the request.
    Unauthenticated,
    /// A required field is blank.
    Validation,
    /// No such record.
    NotFound,
    /// The storage refused the record.
    Persistence,
    /// The session token offered is already in use.
    TokenInUse,
    /// The password could not be hashed.
    Hashing,
}

/// The fields of the login and the registration form.
pub struct AuthPayload {
    pub username: String,
    pub password: String,
}

/// The fields of the form that creates a project.
pub struct CreateProjectForm {
    pub name: String,
    pub description: String,
}

/// The fields of the form that edits a project.
pub struct UpdateProjectForm {
    pub name: String,
    pub description: String,
}

} // verus!
