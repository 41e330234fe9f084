//! Claiming the courses of a bank that is defined by membership rather
//! than by a course list.

use vstd::prelude::*;
use crate::bank_rule::BankRuleHandler;
use crate::bank_rule::iterate_courses::{
    all_settled, claim_adds, is_settled, lemma_claim_adds_nothing, lemma_claim_adds_one,
    lemma_claim_adds_twice, lemma_gain_within_unclaimed, lemma_unclaimed_after_push,
    unclaimed_credit, Claim,
};
use crate::catalog::contains_text;
use crate::course::{
    has_course, statuses_view, texts_view, CourseId, CourseStatus, CourseStatusView, Credit,
};
use crate::degree_status::{
    credit_gained, credited, distinct_courses, lemma_push_keeps_distinct, with_course,
    DegreeStatus, DegreeStatusView,
};
use crate::text::starts_with_text;

verus! {

/// The value of an optional credit amount.
pub open spec fn credit_option_view(credit: Option<Credit>) -> Option<nat> {
    match credit {
        Some(c) => Some(c as nat),
        None => None,
    }
}

/// Whether a record is of a course of a bank that is defined by membership:
/// the course is listed, or its identifier begins with `prefix` and, where
/// `prefix_credit` names one, its credit is the one named.
pub open spec fn is_member(
    status: CourseStatusView,
    listed: Seq<Seq<char>>,
    prefix: Seq<char>,
    prefix_credit: Option<nat>,
) -> bool {
    ||| listed.contains(status.course.id)
    ||| (prefix.is_prefix_of(status.course.id) && (prefix_credit is None || prefix_credit == Some(
        status.course.credit,
    )))
}

/// Claiming for `bank` every record of `history`, in order, that is of a
/// member course.
pub open spec fn claim_members(
    bank: Seq<char>,
    history: Seq<CourseStatusView>,
    statuses: Seq<CourseStatusView>,
    listed: Seq<Seq<char>>,
    prefix: Seq<char>,
    prefix_credit: Option<nat>,
) -> Claim
    decreases history.len(),
{
    if history.len() == 0 {
        Claim { statuses, gained: 0, satisfied: true }
    } else {
        let before = claim_members(
            bank,
            history.drop_last(),
            statuses,
            listed,
            prefix,
            prefix_credit,
        );
        if is_member(history.last(), listed, prefix, prefix_credit) {
            Claim {
                statuses: with_course(before.statuses, history.last(), bank),
                gained: before.gained + credit_gained(before.statuses, history.last()),
                satisfied: true,
            }
        } else {
            before
        }
    }
}

/// Claiming the member courses among the first `k` records of the history
/// keeps the courses of the report distinct, and earns no more credit than
/// leaves the unclaimed credit.
pub proof fn lemma_claim_members(
    bank: Seq<char>,
    history: Seq<CourseStatusView>,
    k: int,
    statuses: Seq<CourseStatusView>,
    listed: Seq<Seq<char>>,
    prefix: Seq<char>,
    prefix_credit: Option<nat>,
)
    requires
        0 <= k <= history.len(),
    ensures
        distinct_courses(statuses) ==> distinct_courses(
            claim_members(bank, history.take(k), statuses, listed, prefix, prefix_credit).statuses,
        ),
        claim_members(bank, history.take(k), statuses, listed, prefix, prefix_credit).gained
            + unclaimed_credit(
            history,
            claim_members(bank, history.take(k), statuses, listed, prefix, prefix_credit).statuses,
        ) <= unclaimed_credit(history, statuses),
    decreases k,
{
    if k > 0 {
        lemma_claim_members(bank, history, k - 1, statuses, listed, prefix, prefix_credit);
        assert(history.take(k).drop_last() =~= history.take(k - 1));
        let before = claim_members(
            bank,
            history.take(k - 1),
            statuses,
            listed,
            prefix,
            prefix_credit,
        );
        let status = history[k - 1];
        assert(history.take(k).last() == status);
        if is_member(status, listed, prefix, prefix_credit) && !has_course(
            before.statuses,
            status.course.id,
        ) {
            let entry = credited(status, bank);
            lemma_unclaimed_after_push(history, before.statuses, entry);
            assert(history[k - 1].course.id == entry.course.id);
            if distinct_courses(before.statuses) {
                lemma_push_keeps_distinct(before.statuses, entry);
            }
        }
    }
}

/// Claiming the member courses only adds to the report: every record that
/// the report held is kept in place, every record added is credited to the
/// bank, and the credit earned is the credit of the passed courses among
/// the records added.
pub proof fn lemma_claim_members_adds(
    bank: Seq<char>,
    history: Seq<CourseStatusView>,
    statuses: Seq<CourseStatusView>,
    listed: Seq<Seq<char>>,
    prefix: Seq<char>,
    prefix_credit: Option<nat>,
)
    ensures
        claim_adds(
            statuses,
            claim_members(bank, history, statuses, listed, prefix, prefix_credit).statuses,
            bank,
            claim_members(bank, history, statuses, listed, prefix, prefix_credit).gained,
        ),
    decreases history.len(),
{
    if history.len() == 0 {
        lemma_claim_adds_nothing(statuses, bank);
    } else {
        let rest = history.drop_last();
        lemma_claim_members_adds(bank, rest, statuses, listed, prefix, prefix_credit);
        let before = claim_members(bank, rest, statuses, listed, prefix, prefix_credit);
        let status = history.last();
        if is_member(status, listed, prefix, prefix_credit) && !has_course(
            before.statuses,
            status.course.id,
        ) {
            let entry = credited(status, bank);
            lemma_claim_adds_one(before.statuses, entry, bank);
            lemma_claim_adds_twice(
                statuses,
                before.statuses,
                before.statuses.push(entry),
                bank,
                before.gained,
                credit_gained(before.statuses, status),
            );
        }
    }
}

/// Claiming the member courses enters only records that say of their
/// course what their grade says.
pub proof fn lemma_claim_members_settled(
    bank: Seq<char>,
    history: Seq<CourseStatusView>,
    statuses: Seq<CourseStatusView>,
    listed: Seq<Seq<char>>,
    prefix: Seq<char>,
    prefix_credit: Option<nat>,
)
    requires
        all_settled(statuses),
    ensures
        all_settled(
            claim_members(bank, history, statuses, listed, prefix, prefix_credit).statuses,
        ),
    decreases history.len(),
{
    if history.len() > 0 {
        let rest = history.drop_last();
        lemma_claim_members_settled(bank, rest, statuses, listed, prefix, prefix_credit);
        let before = claim_members(bank, rest, statuses, listed, prefix, prefix_credit).statuses;
        let after = claim_members(bank, history, statuses, listed, prefix, prefix_credit).statuses;
        let entry = credited(history.last(), bank);
        assert(is_settled(entry));
        assert forall|i: int| 0 <= i < after.len() implies is_settled(#[trigger] after[i]) by {
            if i < before.len() {
                assert(after[i] == before[i]);
            }
        }
    }
}

impl<'a> BankRuleHandler<'a> {
    /// Claims every record of the history that is of a member course:
    /// one that `listed` names, or whose identifier begins with `prefix` and
    /// whose credit is `prefix_credit`, where that names one. A course that
    /// the report already holds is left alone. Returns the credit that
    /// overflows into the bank together with the credit earned, which is
    /// the credit of the passed courses among the records added.
    pub fn claim_member_courses(
        &self,
        history: &Vec<CourseStatus>,
        degree_status: &mut DegreeStatus,
        listed: &Vec<CourseId>,
        prefix: &str,
        prefix_credit: Option<Credit>,
    ) -> (r: Credit)
        requires
            self.credit_overflow + unclaimed_credit(
                statuses_view(history@),
                old(degree_status)@.course_statuses,
            ) <= u64::MAX,
        ensures
            final(degree_status)@ == (DegreeStatusView {
                course_statuses: claim_members(
                    self@.bank_name,
                    statuses_view(history@),
                    old(degree_status)@.course_statuses,
                    texts_view(listed@),
                    prefix@,
                    credit_option_view(prefix_credit),
                ).statuses,
                ..old(degree_status)@
            }),
            r == self.credit_overflow + claim_members(
                self@.bank_name,
                statuses_view(history@),
                old(degree_status)@.course_statuses,
                texts_view(listed@),
                prefix@,
                credit_option_view(prefix_credit),
            ).gained,
            claim_adds(
                old(degree_status)@.course_statuses,
                final(degree_status)@.course_statuses,
                self@.bank_name,
                (r - self.credit_overflow) as nat,
            ),
    {
        let ghost records = statuses_view(history@);
        let ghost held = degree_status@.course_statuses;
        let ghost names = texts_view(listed@);
        let ghost by_credit = credit_option_view(prefix_credit);
        let mut sum_credits: Credit = self.credit_overflow;
        let mut k: usize = 0;
        assert(records.take(0) =~= Seq::empty());
        while k < history.len()
            invariant
                k <= history@.len(),
                records == statuses_view(history@),
                held == old(degree_status)@.course_statuses,
                names == texts_view(listed@),
                by_credit == credit_option_view(prefix_credit),
                self.credit_overflow + unclaimed_credit(records, held) <= u64::MAX,
                degree_status@ == (DegreeStatusView {
                    course_statuses: claim_members(
                        self@.bank_name,
                        records.take(k as int),
                        held,
                        names,
                        prefix@,
                        by_credit,
                    ).statuses,
                    ..old(degree_status)@
                }),
                sum_credits == self.credit_overflow + claim_members(
                    self@.bank_name,
                    records.take(k as int),
                    held,
                    names,
                    prefix@,
                    by_credit,
                ).gained,
            decreases history@.len() - k,
        {
            proof {
                assert(records.take(k + 1).drop_last() =~= records.take(k as int));
                assert(records.take(k + 1).last() == records[k as int]);
                lemma_claim_members(
                    self@.bank_name,
                    records,
                    k as int,
                    held,
                    names,
                    prefix@,
                    by_credit,
                );
                lemma_gain_within_unclaimed(records, degree_status@.course_statuses, k as int);
            }
            let status = &history[k];
            let credit_fits = match prefix_credit {
                Some(credit) => status.course.credit == credit,
                None => true,
            };
            let by_prefix = credit_fits && starts_with_text(status.course.id.as_str(), prefix);
            if by_prefix || contains_text(listed, &status.course.id) {
                degree_status.add_course(status.clone(), self.bank_name.clone(), &mut sum_credits);
            }
            k += 1;
        }
        assert(records.take(k as int) =~= records);
        proof {
            lemma_claim_members_adds(self@.bank_name, records, held, names, prefix@, by_credit);
        }
        sum_credits
    }
}

} // verus!
