//! The rule for physical-education courses.

use vstd::prelude::*;
use crate::bank_rule::BankRuleHandler;
use crate::bank_rule::iterate_courses::{claim_adds, unclaimed_credit};
use crate::bank_rule::members::claim_members;
use crate::course::{statuses_view, texts_view, CourseId, CourseStatus, Credit};
use crate::degree_status::{DegreeStatus, DegreeStatusView};

verus! {

/// The beginning of the identifiers of physical-education courses.
pub open spec fn sport_prefix() -> Seq<char> {
    "394"@
}

impl<'a> BankRuleHandler<'a> {
    /// The rule `Sport`: claims the student's physical-education courses,
    /// which are those that `sport_courses` names and those whose identifier
    /// begins with `394`. A course that the report already holds stays
    /// with the bank that claimed it, and its credit is no part of the
    /// result.
    pub fn sport(
        self,
        history: &Vec<CourseStatus>,
        degree_status: &mut DegreeStatus,
        sport_courses: &Vec<CourseId>,
    ) -> (r: Credit)
        requires
            self.credit_overflow + unclaimed_credit(
                statuses_view(history@),
                old(degree_status)@.course_statuses,
            ) <= u64::MAX,
        ensures
            final(degree_status)@ == (DegreeStatusView {
                course_statuses: claim_members(
                    self@.bank_name,
                    statuses_view(history@),
                    old(degree_status)@.course_statuses,
                    texts_view(sport_courses@),
                    sport_prefix(),
                    None,
                ).statuses,
                ..old(degree_status)@
            }),
            r == self.credit_overflow + claim_members(
                self@.bank_name,
                statuses_view(history@),
                old(degree_status)@.course_statuses,
                texts_view(sport_courses@),
                sport_prefix(),
                None,
            ).gained,
            claim_adds(
                old(degree_status)@.course_statuses,
                final(degree_status)@.course_statuses,
                self@.bank_name,
                (r - self.credit_overflow) as nat,
            ),
    {
        self.claim_member_courses(history, degree_status, sport_courses, "394", None)
    }
}

} // verus!
