//! The rule under which credit is earned group by group.

use vstd::prelude::*;
use crate::bank_rule::BankRuleHandler;
use crate::bank_rule::iterate_courses::{claim_list, extended_for, unclaimed_credit};
use crate::catalog::{groups_view, Logic, SpecializationGroup, SpecializationGroupView};
use crate::course::{
    all_passed, any_passed, passed_all, passed_any, statuses_view, CourseStatus, CourseStatusView,
    Credit,
};
use crate::degree_status::{DegreeStatus, DegreeStatusView};

verus! {

/// Whether the student meets the clause that asks for the courses `courses`
/// under `logic`: all of them, or at least one.
pub open spec fn clause_met(history: Seq<CourseStatusView>, courses: Seq<Seq<char>>, logic: Logic)
    -> bool {
    match logic {
        Logic::AND => all_passed(history, courses),
        Logic::OR => any_passed(history, courses),
    }
}

/// What the groups of a specialization bank grant.
pub struct GroupCredit {
    /// The credit granted.
    pub granted: nat,
    /// What is left of the credit of the bank's own courses.
    pub pool: nat,
    /// Whether every group is fulfilled.
    pub satisfied: bool,
}

/// The credit that `groups` grant, in order, where the bank's own passed
/// courses are worth `pool`. A group with a mandatory clause grants its
/// credit if the clause is met, and nothing otherwise. A group without one
/// takes its credit from the pool, as far as the pool goes.
pub open spec fn group_credit(
    history: Seq<CourseStatusView>,
    groups: Seq<SpecializationGroupView>,
    pool: nat,
) -> GroupCredit
    decreases groups.len(),
{
    if groups.len() == 0 {
        GroupCredit { granted: 0, pool, satisfied: true }
    } else {
        let before = group_credit(history, groups.drop_last(), pool);
        let group = groups.last();
        match group.mandatory {
            Some((courses, logic)) => if clause_met(history, courses, logic) {
                GroupCredit { granted: before.granted + group.credit, ..before }
            } else {
                GroupCredit { satisfied: false, ..before }
            },
            None => if before.pool >= group.credit {
                GroupCredit {
                    granted: before.granted + group.credit,
                    pool: (before.pool - group.credit) as nat,
                    satisfied: before.satisfied,
                }
            } else {
                GroupCredit {
                    granted: before.granted + before.pool,
                    pool: 0,
                    satisfied: false,
                }
            },
        }
    }
}

/// The sum of what the groups declare as their credit.
pub open spec fn declared_credit(groups: Seq<SpecializationGroupView>) -> nat
    decreases groups.len(),
{
    if groups.len() == 0 {
        0
    } else {
        declared_credit(groups.drop_last()) + groups.last().credit
    }
}

/// Groups never grant more than they declare.
pub proof fn lemma_group_credit(
    history: Seq<CourseStatusView>,
    groups: Seq<SpecializationGroupView>,
    pool: nat,
)
    ensures
        group_credit(history, groups, pool).granted <= declared_credit(groups),
        group_credit(history, groups, pool).pool <= pool,
    decreases groups.len(),
{
    if groups.len() > 0 {
        lemma_group_credit(history, groups.drop_last(), pool);
    }
}

/// What the groups declare grows with the list of groups.
pub proof fn lemma_declared_credit_prefix(groups: Seq<SpecializationGroupView>, k: int)
    requires
        0 <= k <= groups.len(),
    ensures
        declared_credit(groups.take(k)) <= declared_credit(groups),
    decreases groups.len() - k,
{
    if k < groups.len() {
        lemma_declared_credit_prefix(groups, k + 1);
        assert(groups.take(k + 1).drop_last() =~= groups.take(k));
    } else {
        assert(groups.take(k) =~= groups);
    }
}

impl<'a> BankRuleHandler<'a> {
    /// The rule `SpecializationGroups`: claims the courses of the bank.
    /// Returns the credit that overflows into the bank together with the
    /// credit that the groups grant, and whether every group is fulfilled.
    pub fn specialization_groups(
        self,
        history: &Vec<CourseStatus>,
        degree_status: &mut DegreeStatus,
        groups: &Vec<SpecializationGroup>,
    ) -> (r: (Credit, bool))
        requires
            self.credit_overflow + unclaimed_credit(
                statuses_view(history@),
                old(degree_status)@.course_statuses,
            ) <= u64::MAX,
            self.credit_overflow + declared_credit(groups_view(groups@)) <= u64::MAX,
        ensures
            final(degree_status)@ == (DegreeStatusView {
                course_statuses: claim_list(
                    self@,
                    statuses_view(history@),
                    old(degree_status)@.course_statuses,
                    self@.course_list,
                ).statuses,
                ..old(degree_status)@
            }),
            r.0 == self.credit_overflow + group_credit(
                statuses_view(history@),
                groups_view(groups@),
                claim_list(
                    self@,
                    statuses_view(history@),
                    old(degree_status)@.course_statuses,
                    self@.course_list,
                ).gained,
            ).granted,
            r.1 == group_credit(
                statuses_view(history@),
                groups_view(groups@),
                claim_list(
                    self@,
                    statuses_view(history@),
                    old(degree_status)@.course_statuses,
                    self@.course_list,
                ).gained,
            ).satisfied,
            extended_for(
                old(degree_status)@.course_statuses,
                final(degree_status)@.course_statuses,
                self@.bank_name,
            ),
    {
        let ghost records = statuses_view(history@);
        let ghost all = groups_view(groups@);
        let claimed = self.claim_courses(history, degree_status).0;
        let ghost own = (claimed - self.credit_overflow) as nat;
        let mut pool: Credit = claimed - self.credit_overflow;
        let mut sum_credits: Credit = self.credit_overflow;
        let mut satisfied = true;
        let mut k: usize = 0;
        assert(all.take(0) =~= Seq::empty());
        while k < groups.len()
            invariant
                k <= groups@.len(),
                records == statuses_view(history@),
                all == groups_view(groups@),
                self.credit_overflow + declared_credit(all) <= u64::MAX,
                sum_credits == self.credit_overflow + group_credit(
                    records,
                    all.take(k as int),
                    own,
                ).granted,
                pool == group_credit(records, all.take(k as int), own).pool,
                satisfied == group_credit(records, all.take(k as int), own).satisfied,
            decreases groups@.len() - k,
        {
            proof {
                assert(all.take(k + 1).drop_last() =~= all.take(k as int));
                lemma_group_credit(records, all.take(k + 1), own);
                lemma_declared_credit_prefix(all, k + 1);
            }
            let group = &groups[k];
            match &group.mandatory {
                Some((courses, logic)) => {
                    let met = match logic {
                        Logic::AND => passed_all(history, courses),
                        Logic::OR => passed_any(history, courses),
                    };
                    if met {
                        sum_credits = sum_credits + group.credit;
                    } else {
                        satisfied = false;
                    }
                },
                None => {
                    if pool >= group.credit {
                        sum_credits = sum_credits + group.credit;
                        pool = pool - group.credit;
                    } else {
                        sum_credits = sum_credits + pool;
                        pool = 0;
                        satisfied = false;
                    }
                },
            }
            k += 1;
        }
        assert(all.take(k as int) =~= all);
        (sum_credits, satisfied)
    }
}

} // verus!
