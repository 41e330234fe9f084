//! The rule for enrichment courses.

use vstd::prelude::*;
use crate::bank_rule::BankRuleHandler;
use crate::bank_rule::iterate_courses::{claim_adds, unclaimed_credit};
use crate::bank_rule::members::claim_members;
use crate::course::{statuses_view, texts_view, CourseId, CourseStatus, Credit};
use crate::degree_status::{DegreeStatus, DegreeStatusView};

verus! {

/// The beginning of the identifiers of enrichment courses that are
/// recognised by their credit.
pub open spec fn malag_prefix() -> Seq<char> {
    "324"@
}

/// The credit by which an enrichment course is recognised.
pub const MALAG_CREDIT: Credit = 200;

impl<'a> BankRuleHandler<'a> {
    /// The rule `Malag`: claims the student's enrichment courses, which are
    /// those that `malag_courses` names and those whose identifier begins
    /// with `324` and whose credit is [`MALAG_CREDIT`]. A course that the
    /// report already holds stays with the bank that claimed it, and its
    /// credit is no part of the result.
    pub fn malag(
        self,
        history: &Vec<CourseStatus>,
        degree_status: &mut DegreeStatus,
        malag_courses: &Vec<CourseId>,
    ) -> (r: Credit)
        requires
            self.credit_overflow + unclaimed_credit(
                statuses_view(history@),
                old(degree_status)@.course_statuses,
            ) <= u64::MAX,
        ensures
            final(degree_status)@ == (DegreeStatusView {
                course_statuses: claim_members(
                    self@.bank_name,
                    statuses_view(history@),
                    old(degree_status)@.course_statuses,
                    texts_view(malag_courses@),
                    malag_prefix(),
                    Some(MALAG_CREDIT as nat),
                ).statuses,
                ..old(degree_status)@
            }),
            r == self.credit_overflow + claim_members(
                self@.bank_name,
                statuses_view(history@),
                old(degree_status)@.course_statuses,
                texts_view(malag_courses@),
                malag_prefix(),
                Some(MALAG_CREDIT as nat),
            ).gained,
            claim_adds(
                old(degree_status)@.course_statuses,
                final(degree_status)@.course_statuses,
                self@.bank_name,
                (r - self.credit_overflow) as nat,
            ),
    {
        self.claim_member_courses(history, degree_status, malag_courses, "324", Some(MALAG_CREDIT))
    }
}

} // verus!
