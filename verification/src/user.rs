//! Users, what they may do, and what the service holds of them.

use std::cmp::Ordering;
use vstd::prelude::*;
use vstd::std_specs::cmp::PartialOrdSpecImpl;
use crate::catalog::{Catalog, DisplayCatalog};
use crate::course::{
    find_status, lemma_find_status, position_of_course, statuses_view, CourseId, CourseStatus,
    CourseStatusView,
};
use crate::degree_status::{empty_degree_status, DegreeStatus, DegreeStatusView};
use crate::text::starts_with_text;

verus! {

/// What a user has entered and what was computed from it.
#[derive(Debug)]
pub struct UserDetails {
    /// The courses that the student has taken or attempted.
    pub course_statuses: Vec<CourseStatus>,
    pub catalog: Option<DisplayCatalog>,
    pub degree_status: DegreeStatus,
    pub compute_in_progress: bool,
    /// Whether the history or the catalog changed after the last evaluation.
    pub modified: bool,
}

/// The mathematical value of a [`UserDetails`]: the history and the report.
pub struct UserDetailsView {
    pub course_statuses: Seq<CourseStatusView>,
    pub degree_status: DegreeStatusView,
    pub compute_in_progress: bool,
    pub modified: bool,
}

impl View for UserDetails {
    type V = UserDetailsView;

    open spec fn view(&self) -> UserDetailsView {
        UserDetailsView {
            course_statuses: statuses_view(self.course_statuses@),
            degree_status: self.degree_status@,
            compute_in_progress: self.compute_in_progress,
            modified: self.modified,
        }
    }
}

/// The details of a user who has entered nothing yet.
pub open spec fn empty_details() -> UserDetailsView {
    UserDetailsView {
        course_statuses: Seq::empty(),
        degree_status: empty_degree_status(),
        compute_in_progress: false,
        modified: false,
    }
}

impl Default for UserDetails {
    fn default() -> (r: UserDetails)
        ensures
            r@ == empty_details(),
            r.catalog is None,
    {
        UserDetails::new()
    }
}

impl UserDetails {
    /// The details of a user who has entered nothing yet.
    pub fn new() -> (r: UserDetails)
        ensures
            r@ == empty_details(),
            r.catalog is None,
    {
        let r = UserDetails {
            course_statuses: Vec::new(),
            catalog: None,
            degree_status: DegreeStatus::new(),
            compute_in_progress: false,
            modified: false,
        };
        assert(r@.course_statuses =~= Seq::empty());
        r
    }

    /// The student's first record of the course `id`.
    pub fn find_course(&self, id: &CourseId) -> (r: Option<&CourseStatus>)
        ensures
            match r {
                Some(status) => find_status(self@.course_statuses, id@) == Some(status@),
                None => find_status(self@.course_statuses, id@) is None,
            },
    {
        match position_of_course(&self.course_statuses, id) {
            Some(i) => {
                proof {
                    lemma_find_status(self@.course_statuses, id@, i as int);
                }
                Some(&self.course_statuses[i])
            },
            None => None,
        }
    }

    /// Chooses `catalog` as the user's catalog. The report is emptied and the
    /// details are marked as modified.
    pub fn set_catalog(&mut self, catalog: &Catalog)
        ensures
            final(self)@ == (UserDetailsView {
                degree_status: empty_degree_status(),
                modified: true,
                ..old(self)@
            }),
            final(self).catalog is Some,
            final(self).catalog->0.id == catalog.id,
            final(self).catalog->0.name@ == catalog.name@,
    {
        self.catalog = Some(DisplayCatalog::from_catalog(catalog));
        self.degree_status = DegreeStatus::new();
        self.modified = true;
    }

    /// Replaces the user's course history by `course_statuses`. The report is
    /// emptied and the details are marked as modified.
    pub fn set_courses(&mut self, course_statuses: Vec<CourseStatus>)
        ensures
            final(self)@ == (UserDetailsView {
                course_statuses: statuses_view(course_statuses@),
                degree_status: empty_degree_status(),
                modified: true,
                ..old(self)@
            }),
            final(self).catalog == old(self).catalog,
    {
        self.course_statuses = course_statuses;
        self.degree_status = DegreeStatus::new();
        self.modified = true;
    }
}

/// What a user may change of how the service looks.
#[derive(Clone, Copy, Debug, PartialEq, Eq, Structural)]
pub struct UserSettings {
    pub dark_mode: bool,
}

impl Default for UserSettings {
    fn default() -> (r: UserSettings)
        ensures
            !r.dark_mode,
    {
        UserSettings { dark_mode: false }
    }
}

/// What a user is allowed to do. Each level includes the levels before it.
#[derive(Clone, Copy, Debug, PartialEq, Eq, Structural)]
pub enum Permissions {
    Student,
    Admin,
    Owner,
}

/// The rank of a level of permissions.
pub open spec fn permission_level(permissions: Permissions) -> nat {
    match permissions {
        Permissions::Student => 0,
        Permissions::Admin => 1,
        Permissions::Owner => 2,
    }
}

impl Default for Permissions {
    fn default() -> (r: Permissions)
        ensures
            r == Permissions::Student,
    {
        Permissions::Student
    }
}

impl PartialOrd for Permissions {
    /// Levels compare by their rank.
    fn partial_cmp(&self, other: &Self) -> (r: Option<Ordering>) {
        let own = self.level();
        let theirs = other.level();
        if own < theirs {
            Some(Ordering::Less)
        } else if own == theirs {
            Some(Ordering::Equal)
        } else {
            Some(Ordering::Greater)
        }
    }
}

impl PartialOrdSpecImpl for Permissions {
    open spec fn obeys_partial_cmp_spec() -> bool {
        true
    }

    open spec fn partial_cmp_spec(&self, other: &Self) -> Option<Ordering> {
        if permission_level(*self) < permission_level(*other) {
            Some(Ordering::Less)
        } else if permission_level(*self) == permission_level(*other) {
            Some(Ordering::Equal)
        } else {
            Some(Ordering::Greater)
        }
    }
}

impl Permissions {
    /// The rank of this level.
    pub fn level(&self) -> (r: u8)
        ensures
            r == permission_level(*self),
    {
        match self {
            Permissions::Student => 0,
            Permissions::Admin => 1,
            Permissions::Owner => 2,
        }
    }
}

/// The level of permissions that a request to `path` needs: that of a
/// student below `/student`, of an admin below `/admin`, of an owner below
/// `/owner`. Other paths are open to nobody.
pub open spec fn required_permissions(path: Seq<char>) -> Option<Permissions> {
    if "/student"@.is_prefix_of(path) {
        Some(Permissions::Student)
    } else if "/admin"@.is_prefix_of(path) {
        Some(Permissions::Admin)
    } else if "/owner"@.is_prefix_of(path) {
        Some(Permissions::Owner)
    } else {
        None
    }
}

/// Whether a user with `permissions` may make a request to `path`.
pub open spec fn authorized(path: Seq<char>, permissions: Permissions) -> bool {
    match required_permissions(path) {
        Some(required) => permission_level(permissions) >= permission_level(required),
        None => false,
    }
}

/// Whether a user with `permissions` may make a request to `path`.
pub fn is_authorized(path: &str, permissions: Permissions) -> (r: bool)
    ensures
        r == authorized(path@, permissions),
{
    if starts_with_text(path, "/student") {
        permissions >= Permissions::Student
    } else if starts_with_text(path, "/admin") {
        permissions >= Permissions::Admin
    } else if starts_with_text(path, "/owner") {
        permissions >= Permissions::Owner
    } else {
        false
    }
}

/// A user of the service.
#[derive(Debug)]
pub struct User {
    /// The subject under which the user signs in.
    pub sub: String,
    pub permissions: Permissions,
    pub details: UserDetails,
    pub settings: UserSettings,
}

impl User {
    /// A student who signs in as `sub` and has entered nothing yet.
    pub fn new(sub: String) -> (r: User)
        ensures
            r.sub@ == sub@,
            r.permissions == Permissions::Student,
            r.details@ == empty_details(),
            r.details.catalog is None,
            !r.settings.dark_mode,
    {
        User {
            sub,
            permissions: Permissions::Student,
            details: UserDetails::new(),
            settings: UserSettings { dark_mode: false },
        }
    }

    /// Whether the user may make a request to `path`.
    pub fn may_access(&self, path: &str) -> (r: bool)
        ensures
            r == authorized(path@, self.permissions),
    {
        is_authorized(path, self.permissions)
    }
}

} // verus!
