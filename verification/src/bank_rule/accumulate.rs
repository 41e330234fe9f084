//! The rule under which any courses of the bank count.

use vstd::prelude::*;
use crate::bank_rule::BankRuleHandler;
use crate::bank_rule::iterate_courses::{claim_adds, claim_list, unclaimed_credit};
use crate::course::{statuses_view, CourseStatus, Credit};
use crate::degree_status::{DegreeStatus, DegreeStatusView};

verus! {

impl<'a> BankRuleHandler<'a> {
    /// The rule `Accumulate`: claims the courses of the bank and returns the
    /// credit of the bank.
    pub fn accumulate(self, history: &Vec<CourseStatus>, degree_status: &mut DegreeStatus) -> (r:
        Credit)
        requires
            self.credit_overflow + unclaimed_credit(
                statuses_view(history@),
                old(degree_status)@.course_statuses,
            ) <= u64::MAX,
        ensures
            final(degree_status)@ == (DegreeStatusView {
                course_statuses: claim_list(
                    self@,
                    statuses_view(history@),
                    old(degree_status)@.course_statuses,
                    self@.course_list,
                ).statuses,
                ..old(degree_status)@
            }),
            r == self.credit_overflow + claim_list(
                self@,
                statuses_view(history@),
                old(degree_status)@.course_statuses,
                self@.course_list,
            ).gained,
            claim_adds(
                old(degree_status)@.course_statuses,
                final(degree_status)@.course_statuses,
                self@.bank_name,
                (r - self.credit_overflow) as nat,
            ),
    {
        self.claim_courses(history, degree_status).0
    }
}

} // verus!
