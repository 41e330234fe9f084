//! The rule under which every course of the bank must be taken.

use vstd::prelude::*;
use crate::bank_rule::BankRuleHandler;
use crate::bank_rule::iterate_courses::{claim_adds, claim_list, unclaimed_credit};
use crate::course::{statuses_view, CourseStatus, Credit};
use crate::degree_status::{DegreeStatus, DegreeStatusView};

verus! {

impl<'a> BankRuleHandler<'a> {
    /// The rule `All`: claims the courses of the bank. Returns the credit of
    /// the bank, and whether every course of the bank is passed.
    pub fn all(self, history: &Vec<CourseStatus>, degree_status: &mut DegreeStatus) -> (r: (
        Credit,
        bool,
    ))
        requires
            self.credit_overflow + unclaimed_credit(
                statuses_view(history@),
                old(degree_status)@.course_statuses,
            ) <= u64::MAX,
        ensures
            final(degree_status)@ == (DegreeStatusView {
                course_statuses: claim_list(
                    self@,
                    statuses_view(history@),
                    old(degree_status)@.course_statuses,
                    self@.course_list,
                ).statuses,
                ..old(degree_status)@
            }),
            r.0 == self.credit_overflow + claim_list(
                self@,
                statuses_view(history@),
                old(degree_status)@.course_statuses,
                self@.course_list,
            ).gained,
            r.1 == claim_list(
                self@,
                statuses_view(history@),
                old(degree_status)@.course_statuses,
                self@.course_list,
            ).satisfied,
            claim_adds(
                old(degree_status)@.course_statuses,
                final(degree_status)@.course_statuses,
                self@.bank_name,
                (r.0 - self.credit_overflow) as nat,
            ),
    {
        self.claim_courses(history, degree_status)
    }
}

} // verus!
