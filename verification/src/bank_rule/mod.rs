//! The rules by which a bank claims courses and earns credit.

pub mod accumulate;
pub mod all;
pub mod chain;
pub mod iterate_courses;
pub mod malag;
pub mod members;
pub mod specialization_groups;
pub mod sport;
pub mod wildcard;

use vstd::prelude::*;
use vstd::string::*;
use crate::bank_rule::chain::{chain_completed, first_complete_chain};
use crate::bank_rule::iterate_courses::{claim_adds, claim_list, unclaimed_credit};
use crate::catalog::{
    chains_view, replacements_view, OptionalReplacements, OptionalReplacementsView,
};
use crate::course::{courses_view, texts_view, Course, CourseId, CourseView, Credit};
use crate::degree_status::DegreeStatusView;
use crate::replacement::append_texts;
use crate::user::{UserDetails, UserDetailsView};

verus! {

/// What one bank needs to claim its courses.
pub struct BankRuleHandler<'a> {
    pub bank_name: String,
    /// The courses that the catalog assigns to the bank.
    pub course_list: Vec<CourseId>,
    /// The courses as the institution lists them.
    pub courses: &'a Vec<Course>,
    /// The credit that overflows into the bank from banks evaluated before.
    pub credit_overflow: Credit,
    pub catalog_replacements: &'a Vec<OptionalReplacements>,
    pub common_replacements: &'a Vec<OptionalReplacements>,
}

/// The mathematical value of a [`BankRuleHandler`].
pub struct BankRuleHandlerView {
    pub bank_name: Seq<char>,
    pub course_list: Seq<Seq<char>>,
    pub courses: Seq<CourseView>,
    pub credit_overflow: nat,
    pub catalog_replacements: Seq<OptionalReplacementsView>,
    pub common_replacements: Seq<OptionalReplacementsView>,
}

impl<'a> View for BankRuleHandler<'a> {
    type V = BankRuleHandlerView;

    open spec fn view(&self) -> BankRuleHandlerView {
        BankRuleHandlerView {
            bank_name: self.bank_name@,
            course_list: texts_view(self.course_list@),
            courses: courses_view(self.courses@),
            credit_overflow: self.credit_overflow as nat,
            catalog_replacements: replacements_view(self.catalog_replacements@),
            common_replacements: replacements_view(self.common_replacements@),
        }
    }
}

/// The handler of a bank for which no course reference and no
/// replacements are known.
pub open spec fn plain_handler(
    bank_name: Seq<char>,
    course_list: Seq<Seq<char>>,
    credit_overflow: nat,
) -> BankRuleHandlerView {
    BankRuleHandlerView {
        bank_name,
        course_list,
        courses: Seq::empty(),
        credit_overflow,
        catalog_replacements: Seq::empty(),
        common_replacements: Seq::empty(),
    }
}

/// Claims the courses `course_list` for the bank `bank_name` under the rule
/// `All`, in the report of `user`, and returns the credit of the bank: the
/// credit that overflows into it together with the credit of the student's
/// passed courses among those claimed.
pub fn handle_bank_rule_all(
    user: &mut UserDetails,
    bank_name: &str,
    course_list: &Vec<CourseId>,
    credit_overflow: Credit,
) -> (r: Credit)
    requires
        credit_overflow + unclaimed_credit(
            old(user)@.course_statuses,
            old(user)@.degree_status.course_statuses,
        ) <= u64::MAX,
    ensures
        final(user)@ == (UserDetailsView {
            degree_status: DegreeStatusView {
                course_statuses: claim_list(
                    plain_handler(bank_name@, texts_view(course_list@), credit_overflow as nat),
                    old(user)@.course_statuses,
                    old(user)@.degree_status.course_statuses,
                    texts_view(course_list@),
                ).statuses,
                ..old(user)@.degree_status
            },
            ..old(user)@
        }),
        r == credit_overflow + claim_list(
            plain_handler(bank_name@, texts_view(course_list@), credit_overflow as nat),
            old(user)@.course_statuses,
            old(user)@.degree_status.course_statuses,
            texts_view(course_list@),
        ).gained,
        final(user).catalog == old(user).catalog,
        claim_adds(
            old(user)@.degree_status.course_statuses,
            final(user)@.degree_status.course_statuses,
            bank_name@,
            (r - credit_overflow) as nat,
        ),
{
    let courses: Vec<Course> = Vec::new();
    let replacements: Vec<OptionalReplacements> = Vec::new();
    let mut list: Vec<CourseId> = Vec::new();
    assert(texts_view(list@) =~= Seq::empty());
    append_texts(&mut list, course_list);
    assert(texts_view(list@) =~= texts_view(course_list@));
    let handler = BankRuleHandler {
        bank_name: String::from_str(bank_name),
        course_list: list,
        courses: &courses,
        credit_overflow,
        catalog_replacements: &replacements,
        common_replacements: &replacements,
    };
    assert(handler@.courses =~= Seq::empty());
    assert(handler@.catalog_replacements =~= Seq::empty());
    handler.all(&user.course_statuses, &mut user.degree_status).0
}

/// Claims the courses `course_list` for the bank `bank_name` under the rule
/// `Accumulate`, in the report of `user`, and returns the credit of the
/// bank.
pub fn handle_bank_rule_accumulate(
    user: &mut UserDetails,
    bank_name: &str,
    course_list: &Vec<CourseId>,
    credit_overflow: Credit,
) -> (r: Credit)
    requires
        credit_overflow + unclaimed_credit(
            old(user)@.course_statuses,
            old(user)@.degree_status.course_statuses,
        ) <= u64::MAX,
    ensures
        final(user)@ == (UserDetailsView {
            degree_status: DegreeStatusView {
                course_statuses: claim_list(
                    plain_handler(bank_name@, texts_view(course_list@), credit_overflow as nat),
                    old(user)@.course_statuses,
                    old(user)@.degree_status.course_statuses,
                    texts_view(course_list@),
                ).statuses,
                ..old(user)@.degree_status
            },
            ..old(user)@
        }),
        r == credit_overflow + claim_list(
            plain_handler(bank_name@, texts_view(course_list@), credit_overflow as nat),
            old(user)@.course_statuses,
            old(user)@.degree_status.course_statuses,
            texts_view(course_list@),
        ).gained,
        final(user).catalog == old(user).catalog,
        claim_adds(
            old(user)@.degree_status.course_statuses,
            final(user)@.degree_status.course_statuses,
            bank_name@,
            (r - credit_overflow) as nat,
        ),
{
    handle_bank_rule_all(user, bank_name, course_list, credit_overflow)
}

/// Claims the courses `course_list` for the bank `bank_name` under the rule
/// `Chains`, in the report of `user`. Returns the credit of the bank, and
/// whether the student passed one of the chains `chains` in full.
pub fn handle_bank_rule_chain(
    user: &mut UserDetails,
    bank_name: &str,
    course_list: &Vec<CourseId>,
    chains: &Vec<Vec<CourseId>>,
    credit_overflow: Credit,
) -> (r: (Credit, bool))
    requires
        credit_overflow + unclaimed_credit(
            old(user)@.course_statuses,
            old(user)@.degree_status.course_statuses,
        ) <= u64::MAX,
    ensures
        final(user)@ == (UserDetailsView {
            degree_status: DegreeStatusView {
                course_statuses: claim_list(
                    plain_handler(bank_name@, texts_view(course_list@), credit_overflow as nat),
                    old(user)@.course_statuses,
                    old(user)@.degree_status.course_statuses,
                    texts_view(course_list@),
                ).statuses,
                ..old(user)@.degree_status
            },
            ..old(user)@
        }),
        r.0 == credit_overflow + claim_list(
            plain_handler(bank_name@, texts_view(course_list@), credit_overflow as nat),
            old(user)@.course_statuses,
            old(user)@.degree_status.course_statuses,
            texts_view(course_list@),
        ).gained,
        r.1 == chain_completed(old(user)@.course_statuses, chains_view(chains@)),
        final(user).catalog == old(user).catalog,
        claim_adds(
            old(user)@.degree_status.course_statuses,
            final(user)@.degree_status.course_statuses,
            bank_name@,
            (r.0 - credit_overflow) as nat,
        ),
{
    let sum_credits = handle_bank_rule_all(user, bank_name, course_list, credit_overflow);
    let completed = first_complete_chain(&user.course_statuses, chains).is_some();
    (sum_credits, completed)
}

} // verus!
