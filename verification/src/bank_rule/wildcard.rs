//! The rule for banks that a catalog leaves open.

use vstd::prelude::*;
use crate::bank_rule::BankRuleHandler;
use crate::bank_rule::iterate_courses::{claim_adds, claim_list, unclaimed_credit};
use crate::course::{statuses_view, CourseStatus, Credit};
use crate::degree_status::{DegreeStatus, DegreeStatusView};

verus! {

impl<'a> BankRuleHandler<'a> {
    /// The rule `Wildcard`: with `accumulate` the bank claims its courses as
    /// under `Accumulate`; without it the bank claims nothing and holds only
    /// the credit that overflows into it.
    pub fn wildcard(
        self,
        history: &Vec<CourseStatus>,
        degree_status: &mut DegreeStatus,
        accumulate: bool,
    ) -> (r: Credit)
        requires
            self.credit_overflow + unclaimed_credit(
                statuses_view(history@),
                old(degree_status)@.course_statuses,
            ) <= u64::MAX,
        ensures
            accumulate ==> final(degree_status)@ == (DegreeStatusView {
                course_statuses: claim_list(
                    self@,
                    statuses_view(history@),
                    old(degree_status)@.course_statuses,
                    self@.course_list,
                ).statuses,
                ..old(degree_status)@
            }),
            accumulate ==> r == self.credit_overflow + claim_list(
                self@,
                statuses_view(history@),
                old(degree_status)@.course_statuses,
                self@.course_list,
            ).gained,
            !accumulate ==> final(degree_status)@ == old(degree_status)@,
            !accumulate ==> r == self.credit_overflow,
            accumulate ==> claim_adds(
                old(degree_status)@.course_statuses,
                final(degree_status)@.course_statuses,
                self@.bank_name,
                (r - self.credit_overflow) as nat,
            ),
    {
        if accumulate {
            self.claim_courses(history, degree_status).0
        } else {
            self.credit_overflow
        }
    }
}

} // verus!
