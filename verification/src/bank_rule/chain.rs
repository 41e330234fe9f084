//! The rule under which one of several chains of courses must be passed in
//! full.

use vstd::prelude::*;
use crate::bank_rule::BankRuleHandler;
use crate::bank_rule::iterate_courses::{claim_adds, claim_list, unclaimed_credit};
use crate::catalog::chains_view;
use crate::course::{
    all_passed, passed_all, statuses_view, CourseId, CourseStatus, CourseStatusView, Credit,
};
use crate::degree_status::{DegreeStatus, DegreeStatusView};

verus! {

/// Whether the student passed some chain of `chains` in full.
pub open spec fn chain_completed(history: Seq<CourseStatusView>, chains: Seq<Seq<Seq<char>>>)
    -> bool {
    exists|i: int| 0 <= i < chains.len() && all_passed(history, #[trigger] chains[i])
}

/// Whether `i` is the place of the first chain of `chains` that the student
/// passed in full.
pub open spec fn is_first_complete_chain(
    history: Seq<CourseStatusView>,
    chains: Seq<Seq<Seq<char>>>,
    i: int,
) -> bool {
    &&& 0 <= i < chains.len()
    &&& all_passed(history, chains[i])
    &&& forall|j: int| 0 <= j < i ==> !all_passed(history, #[trigger] chains[j])
}

/// The place of the first chain of `chains` that the student passed in full.
pub fn first_complete_chain(history: &Vec<CourseStatus>, chains: &Vec<Vec<CourseId>>) -> (r:
    Option<usize>)
    ensures
        match r {
            Some(i) => is_first_complete_chain(
                statuses_view(history@),
                chains_view(chains@),
                i as int,
            ),
            None => !chain_completed(statuses_view(history@), chains_view(chains@)),
        },
{
    let mut i: usize = 0;
    while i < chains.len()
        invariant
            i <= chains@.len(),
            forall|j: int|
                0 <= j < i ==> !all_passed(
                    statuses_view(history@),
                    #[trigger] chains_view(chains@)[j],
                ),
        decreases chains@.len() - i,
    {
        if passed_all(history, &chains[i]) {
            return Some(i);
        }
        i += 1;
    }
    None
}

impl<'a> BankRuleHandler<'a> {
    /// The rule `Chains`: claims the courses of the bank. Returns the credit
    /// of the bank and the place of the first chain that the student passed
    /// in full.
    pub fn chain(
        self,
        history: &Vec<CourseStatus>,
        degree_status: &mut DegreeStatus,
        chains: &Vec<Vec<CourseId>>,
    ) -> (r: (Credit, Option<usize>))
        requires
            self.credit_overflow + unclaimed_credit(
                statuses_view(history@),
                old(degree_status)@.course_statuses,
            ) <= u64::MAX,
        ensures
            final(degree_status)@ == (DegreeStatusView {
                course_statuses: claim_list(
                    self@,
                    statuses_view(history@),
                    old(degree_status)@.course_statuses,
                    self@.course_list,
                ).statuses,
                ..old(degree_status)@
            }),
            r.0 == self.credit_overflow + claim_list(
                self@,
                statuses_view(history@),
                old(degree_status)@.course_statuses,
                self@.course_list,
            ).gained,
            match r.1 {
                Some(i) => is_first_complete_chain(
                    statuses_view(history@),
                    chains_view(chains@),
                    i as int,
                ),
                None => !chain_completed(statuses_view(history@), chains_view(chains@)),
            },
            claim_adds(
                old(degree_status)@.course_statuses,
                final(degree_status)@.course_statuses,
                self@.bank_name,
                (r.0 - self.credit_overflow) as nat,
            ),
    {
        let sum_credits = self.claim_courses(history, degree_status).0;
        (sum_credits, first_complete_chain(history, chains))
    }
}

} // verus!
