//! The evaluation of a student's history against a catalog, bank by bank.

use vstd::prelude::*;
use vstd::string::*;
use crate::bank_rule::BankRuleHandler;
use crate::bank_rule::iterate_courses::{passed_credit, unclaimed_credit};
use crate::catalog::{
    banks_view, course_list_for_bank, Catalog, CatalogView, CourseBank, ReferenceData,
    ReferenceDataView, Rule,
};
use crate::configuration::{
    check_configuration, configuration_error, lemma_declared_total_prefix, EngineError,
};
use crate::course::{
    clone_text_option, statuses_view, text_option_view, texts_view, CourseId, CourseStatus,
    CourseStatusView, Credit,
};
use crate::degree_status::{
    distinct_courses, empty_degree_status, DegreeStatus, DegreeStatusView, Requirement,
};
use crate::evaluation::{
    apply_rule, capped, completed_credit, declared_total, degree_status_of, evaluate_banks,
    handler_with, incoming_overflow, lemma_apply_rule, lemma_evaluate_banks, lemma_with_unmatched,
    overflow_taken, requirements_capped, rule_declared, settled, surplus, unassigned,
    with_unmatched, Progress,
};
use crate::ledger::{ledger_amount, ledger_balance, lemma_consumption, recorded, OverflowLedger};
use crate::replacement::append_texts;
use crate::user::{UserDetails, UserDetailsView};

verus! {

/// The order in which the banks are evaluated: the order in which the
/// catalog declares them. A bank receives overflow only from banks that
/// come before it, so a surplus reaches the target of an overflow edge only
/// where the catalog declares the source of the edge before the target.
pub fn set_order(course_banks_type: &Vec<CourseBank>) -> (r: &Vec<CourseBank>)
    ensures
        r == course_banks_type,
{
    course_banks_type
}

/// One evaluation in progress: the catalog and the reference data that it
/// reads, the banks in the order of their evaluation, and the ledger of
/// surplus credit.
pub struct DegreeStatusProcessor<'a> {
    pub course_banks: &'a Vec<CourseBank>,
    pub catalog: &'a Catalog,
    pub reference: &'a ReferenceData,
    pub credit_overflow_map: OverflowLedger,
}

impl<'a> DegreeStatusProcessor<'a> {
    /// How far the evaluation has come, where `user` holds the report.
    pub open spec fn progress(&self, user: &UserDetails) -> Progress {
        Progress { report: user.degree_status@, ledger: self.credit_overflow_map@ }
    }

    /// Whether the processor reads what `other` reads.
    pub open spec fn same_inputs(&self, other: &Self) -> bool {
        &&& self.course_banks == other.course_banks
        &&& self.catalog == other.catalog
        &&& self.reference == other.reference
    }

    /// The courses that the catalog assigns to the bank `bank_name`.
    pub fn get_course_list_for_bank(&self, bank_name: &String) -> (r: Vec<CourseId>)
        ensures
            texts_view(r@) == course_list_for_bank(self.catalog@.course_table, bank_name@),
    {
        self.catalog.course_list(bank_name)
    }

    /// Takes from the ledger the overflow that the catalog's edges bring to
    /// the bank `bank_name`, enters the messages that record the transfers
    /// in the report, and returns the credit transferred.
    pub fn calculate_credits_overflow_for_bank(
        &mut self,
        bank_name: &String,
        user: &mut UserDetails,
    ) -> (r: Credit)
        requires
            old(self).credit_overflow_map.well_formed(),
        ensures
            final(self).credit_overflow_map.well_formed(),
            final(self).same_inputs(old(self)),
            final(self).progress(final(user)) == overflow_taken(
                old(self).catalog@,
                old(self).progress(old(user)),
                bank_name@,
            ),
            r == incoming_overflow(old(self).catalog@, old(self).progress(old(user)), bank_name@),
            final(user)@ == (UserDetailsView {
                degree_status: final(user).degree_status@,
                ..old(user)@
            }),
            final(user).catalog == old(user).catalog,
    {
        self.credit_overflow_map.consume_for(
            bank_name,
            &self.catalog.credit_overflows,
            &mut user.degree_status.credit_overflow_msgs,
        )
    }

    /// Settles the credit `sum_credits` that the bank earned: the credit up
    /// to what the bank requires is added to the total credit and returned,
    /// and what is beyond it is recorded as the bank's surplus, in place of
    /// what the bank had on offer. What other banks have on offer stays.
    pub fn calculate_credit_and_handle_overflow(
        &mut self,
        bank: &CourseBank,
        sum_credits: Credit,
        user: &mut UserDetails,
    ) -> (r: Credit)
        requires
            old(self).credit_overflow_map.well_formed(),
            old(user).degree_status.total_credit + capped(sum_credits as nat, bank@.credit)
                <= u64::MAX,
            ledger_balance(old(self).credit_overflow_map@) - ledger_amount(
                old(self).credit_overflow_map@,
                bank@.name,
            ) + surplus(sum_credits as nat, bank@.credit) <= u64::MAX,
        ensures
            final(self).credit_overflow_map.well_formed(),
            final(self).same_inputs(old(self)),
            r == capped(sum_credits as nat, bank@.credit),
            final(user)@ == (UserDetailsView {
                degree_status: DegreeStatusView {
                    total_credit: old(user)@.degree_status.total_credit + capped(
                        sum_credits as nat,
                        bank@.credit,
                    ),
                    ..old(user)@.degree_status
                },
                ..old(user)@
            }),
            final(user).catalog == old(user).catalog,
            final(self).credit_overflow_map@ == if sum_credits > bank.credit {
                recorded(
                    old(self).credit_overflow_map@,
                    bank@.name,
                    surplus(sum_credits as nat, bank@.credit),
                )
            } else {
                old(self).credit_overflow_map@
            },
            r <= bank.credit,
            r <= sum_credits,
            sum_credits > bank.credit ==> r == bank.credit && ledger_amount(
                final(self).credit_overflow_map@,
                bank@.name,
            ) == sum_credits - bank.credit,
            forall|other: Seq<char>|
                other != bank@.name ==> #[trigger] ledger_amount(
                    final(self).credit_overflow_map@,
                    other,
                ) == ledger_amount(old(self).credit_overflow_map@, other),
    {
        if sum_credits <= bank.credit {
            user.degree_status.total_credit = user.degree_status.total_credit + sum_credits;
            sum_credits
        } else {
            self.credit_overflow_map.record_surplus(bank.name.clone(), sum_credits - bank.credit);
            user.degree_status.total_credit = user.degree_status.total_credit + bank.credit;
            bank.credit
        }
    }

    /// Evaluates the rule of `bank` on the courses `course_list_for_bank`,
    /// with `credit_overflow` as the credit that overflows into the bank,
    /// settles the credit earned, and enters the bank's requirement in the
    /// report.
    pub fn handle_bank_rule(
        &mut self,
        bank: &CourseBank,
        course_list_for_bank: &Vec<CourseId>,
        credit_overflow: Credit,
        user: &mut UserDetails,
    )
        requires
            old(self).credit_overflow_map.well_formed(),
            old(user).degree_status.total_credit + ledger_balance(old(self).credit_overflow_map@)
                + credit_overflow + unclaimed_credit(
                old(user)@.course_statuses,
                old(user)@.degree_status.course_statuses,
            ) + rule_declared(bank@.rule) <= u64::MAX,
        ensures
            final(self).credit_overflow_map.well_formed(),
            final(self).same_inputs(old(self)),
            final(self).progress(final(user)) == settled(
                old(self).progress(old(user)),
                bank@,
                apply_rule(
                    handler_with(
                        old(self).catalog@,
                        old(self).reference@,
                        bank@,
                        texts_view(course_list_for_bank@),
                        credit_overflow as nat,
                    ),
                    old(self).reference@,
                    old(user)@.course_statuses,
                    old(user)@.degree_status.course_statuses,
                    bank@,
                ),
            ),
            final(user)@ == (UserDetailsView {
                degree_status: final(user).degree_status@,
                ..old(user)@
            }),
            final(user).catalog == old(user).catalog,
    {
        let ghost history = user@.course_statuses;
        let ghost before = self.progress(user);
        let ghost handler_view = handler_with(
            self.catalog@,
            self.reference@,
            bank@,
            texts_view(course_list_for_bank@),
            credit_overflow as nat,
        );
        let ghost outcome = apply_rule(
            handler_view,
            self.reference@,
            history,
            before.report.course_statuses,
            bank@,
        );
        proof {
            lemma_apply_rule(
                handler_view,
                self.reference@,
                history,
                before.report.course_statuses,
                bank@,
            );
        }
        let mut course_list: Vec<CourseId> = Vec::new();
        assert(texts_view(course_list@) =~= Seq::empty());
        append_texts(&mut course_list, course_list_for_bank);
        assert(texts_view(course_list@) =~= texts_view(course_list_for_bank@));
        let handler = BankRuleHandler {
            bank_name: bank.name.clone(),
            course_list,
            courses: &self.reference.courses,
            credit_overflow,
            catalog_replacements: &self.catalog.catalog_replacements,
            common_replacements: &self.reference.common_replacements,
        };
        assert(handler@ == handler_view);
        let (sum_credits, message) = match &bank.rule {
            Rule::All => {
                let (sum_credits, completed) = handler.all(
                    &user.course_statuses,
                    &mut user.degree_status,
                );
                let message = if completed {
                    None
                } else {
                    Some(bank.message.clone())
                };
                (sum_credits, message)
            },
            Rule::Accumulate => {
                let sum_credits = handler.accumulate(
                    &user.course_statuses,
                    &mut user.degree_status,
                );
                (sum_credits, None)
            },
            Rule::Chains(chains) => {
                let (sum_credits, completed_chain) = handler.chain(
                    &user.course_statuses,
                    &mut user.degree_status,
                    chains,
                );
                let msg = if completed_chain.is_some() {
                    String::from_str("The user completed a full chain")
                } else {
                    String::from_str("The user didn't complete a full chain")
                };
                (sum_credits, Some(msg))
            },
            Rule::SpecializationGroups(groups) => {
                let (sum_credits, completed) = handler.specialization_groups(
                    &user.course_statuses,
                    &mut user.degree_status,
                    groups,
                );
                let message = if completed {
                    None
                } else {
                    Some(bank.message.clone())
                };
                (sum_credits, message)
            },
            Rule::Wildcard(accumulate) => {
                let sum_credits = handler.wildcard(
                    &user.course_statuses,
                    &mut user.degree_status,
                    *accumulate,
                );
                (sum_credits, None)
            },
            Rule::Malag => {
                let sum_credits = handler.malag(
                    &user.course_statuses,
                    &mut user.degree_status,
                    &self.reference.malag_courses,
                );
                (sum_credits, None)
            },
            Rule::Sport => {
                let sum_credits = handler.sport(
                    &user.course_statuses,
                    &mut user.degree_status,
                    &self.reference.sport_courses,
                );
                (sum_credits, None)
            },
        };
        assert(sum_credits == outcome.earned);
        assert(text_option_view(message) == outcome.message);
        assert(user@.degree_status == (DegreeStatusView {
            course_statuses: outcome.statuses,
            ..before.report
        }));
        let ghost shown = user@.degree_status.course_bank_requirements;
        let credit_complete = self.calculate_credit_and_handle_overflow(bank, sum_credits, user);
        let requirement = Requirement {
            course_bank_name: bank.name.clone(),
            credit_requirment: bank.credit,
            credit_complete,
            message,
        };
        user.degree_status.course_bank_requirements.push(requirement);
        assert(user@.degree_status.course_bank_requirements =~= shown.push(requirement@));
    }

    /// Evaluates the banks in order. The evaluation starts from an empty
    /// report and an empty ledger, whatever `user` and the processor held.
    pub fn proccess(self, user: &mut UserDetails)
        requires
            passed_credit(old(user)@.course_statuses) + declared_total(
                banks_view(self.course_banks@),
            ) <= u64::MAX,
        ensures
            final(user)@ == (UserDetailsView {
                degree_status: evaluate_banks(
                    self.catalog@,
                    self.reference@,
                    old(user)@.course_statuses,
                    banks_view(self.course_banks@),
                ).report,
                ..old(user)@
            }),
            final(user).catalog == old(user).catalog,
    {
        let mut processor = self;
        processor.credit_overflow_map = OverflowLedger::new();
        user.degree_status = DegreeStatus::new();
        let ghost history = user@.course_statuses;
        let ghost banks = banks_view(self.course_banks@);
        let mut k: usize = 0;
        assert(banks.take(0) =~= Seq::empty());
        while k < processor.course_banks.len()
            invariant
                k <= processor.course_banks@.len(),
                processor.same_inputs(&self),
                banks == banks_view(self.course_banks@),
                history == old(user)@.course_statuses,
                passed_credit(history) + declared_total(banks) <= u64::MAX,
                processor.credit_overflow_map.well_formed(),
                processor.progress(user) == evaluate_banks(
                    self.catalog@,
                    self.reference@,
                    history,
                    banks.take(k as int),
                ),
                user@ == (UserDetailsView { degree_status: user.degree_status@, ..old(user)@ }),
                user.catalog == old(user).catalog,
            decreases processor.course_banks@.len() - k,
        {
            let bank = &processor.course_banks[k];
            let ghost before = processor.progress(user);
            proof {
                assert(banks.take(k + 1).drop_last() =~= banks.take(k as int));
                assert(banks.take(k + 1).last() == bank@);
                lemma_evaluate_banks(self.catalog@, self.reference@, history, banks.take(k as int));
                lemma_evaluate_banks(self.catalog@, self.reference@, history, banks.take(k + 1));
                lemma_declared_total_prefix(banks, k + 1);
                lemma_consumption(before.ledger, self.catalog@.credit_overflows, bank@.name);
            }
            let course_list_for_bank = processor.get_course_list_for_bank(&bank.name);
            let credit_overflow = processor.calculate_credits_overflow_for_bank(&bank.name, user);
            processor.handle_bank_rule(bank, &course_list_for_bank, credit_overflow, user);
            k += 1;
        }
        assert(banks.take(k as int) =~= banks);
    }
}

/// Enters in the report every record of `history` whose course the report
/// does not hold, without a bank.
pub fn add_unmatched(degree_status: &mut DegreeStatus, history: &Vec<CourseStatus>)
    ensures
        final(degree_status)@ == (DegreeStatusView {
            course_statuses: with_unmatched(
                old(degree_status)@.course_statuses,
                statuses_view(history@),
            ),
            ..old(degree_status)@
        }),
{
    let ghost records = statuses_view(history@);
    let ghost held = degree_status@.course_statuses;
    let mut k: usize = 0;
    assert(records.take(0) =~= Seq::empty());
    while k < history.len()
        invariant
            k <= history@.len(),
            records == statuses_view(history@),
            held == old(degree_status)@.course_statuses,
            degree_status@ == (DegreeStatusView {
                course_statuses: with_unmatched(held, records.take(k as int)),
                ..old(degree_status)@
            }),
        decreases history@.len() - k,
    {
        proof {
            assert(records.take(k + 1).drop_last() =~= records.take(k as int));
            assert(records.take(k + 1).last() == records[k as int]);
        }
        let ghost shown = degree_status@.course_statuses;
        if !degree_status.contains_course(&history[k].course.id) {
            let status = &history[k];
            let entry = CourseStatus {
                course: status.course.clone(),
                state: status.state,
                semester: clone_text_option(&status.semester),
                grade: status.grade,
                bank: None,
            };
            degree_status.course_statuses.push(entry);
            assert(degree_status@.course_statuses =~= shown.push(unassigned(records[k as int])));
        }
        k += 1;
    }
    assert(records.take(k as int) =~= records);
}

/// The report that an evaluation of `history` against `catalog` leaves:
/// that of the evaluation, or an empty report where the catalog is refused.
pub open spec fn report_of(
    catalog: CatalogView,
    reference: ReferenceDataView,
    history: Seq<CourseStatusView>,
) -> DegreeStatusView {
    if configuration_error(catalog, history) is None {
        degree_status_of(catalog, reference, history)
    } else {
        empty_degree_status()
    }
}

/// Whatever an evaluation leaves as the report, no course has two records
/// in it, no requirement is completed beyond what it requires, and the
/// total credit is the sum of what the requirements have completed.
pub proof fn lemma_report_of(
    catalog: CatalogView,
    reference: ReferenceDataView,
    history: Seq<CourseStatusView>,
)
    ensures
        distinct_courses(report_of(catalog, reference, history).course_statuses),
        requirements_capped(report_of(catalog, reference, history).course_bank_requirements),
        report_of(catalog, reference, history).total_credit == completed_credit(
            report_of(catalog, reference, history).course_bank_requirements,
        ),
{
    lemma_evaluate_banks(catalog, reference, history, catalog.course_banks);
    lemma_with_unmatched(
        evaluate_banks(catalog, reference, history, catalog.course_banks).report.course_statuses,
        history,
    );
}

/// Evaluates the student's course history against `catalog` and stores the
/// report in `user.degree_status`. What the report held before is discarded
/// in every case: a catalog that cannot be evaluated is refused, and the
/// report is then left empty. Nothing else of `user` changes.
///
/// The report is determined by the catalog, the reference data and the
/// history alone. In it no course has two records, and no requirement is
/// completed beyond what it requires.
pub fn calculate_degree_status(
    catalog: &Catalog,
    reference: &ReferenceData,
    user: &mut UserDetails,
) -> (r: Result<(), EngineError>)
    ensures
        match r {
            Ok(_) => configuration_error(catalog@, old(user)@.course_statuses) is None,
            Err(e) => configuration_error(catalog@, old(user)@.course_statuses) == Some(e),
        },
        final(user)@ == (UserDetailsView {
            degree_status: report_of(catalog@, reference@, old(user)@.course_statuses),
            ..old(user)@
        }),
        distinct_courses(final(user)@.degree_status.course_statuses),
        requirements_capped(final(user)@.degree_status.course_bank_requirements),
        final(user)@.degree_status.total_credit == completed_credit(
            final(user)@.degree_status.course_bank_requirements,
        ),
        final(user).catalog == old(user).catalog,
{
    proof {
        lemma_report_of(catalog@, reference@, user@.course_statuses);
    }
    match check_configuration(catalog, &user.course_statuses) {
        Err(e) => {
            user.degree_status = DegreeStatus::new();
            return Err(e);
        },
        Ok(_) => {},
    }
    let course_banks = set_order(&catalog.course_banks);
    let processor = DegreeStatusProcessor {
        course_banks,
        catalog,
        reference,
        credit_overflow_map: OverflowLedger::new(),
    };
    processor.proccess(user);
    add_unmatched(&mut user.degree_status, &user.course_statuses);
    Ok(())
}

/// Evaluates the student's course history against `catalog` as
/// [`calculate_degree_status`] does, and where the catalog is evaluated
/// marks the details of `user` as not modified since.
pub fn compute_degree_status(
    catalog: &Catalog,
    reference: &ReferenceData,
    user: &mut UserDetails,
) -> (r: Result<(), EngineError>)
    ensures
        match r {
            Ok(_) => configuration_error(catalog@, old(user)@.course_statuses) is None,
            Err(e) => configuration_error(catalog@, old(user)@.course_statuses) == Some(e),
        },
        final(user)@ == (UserDetailsView {
            degree_status: report_of(catalog@, reference@, old(user)@.course_statuses),
            modified: if r is Ok {
                false
            } else {
                old(user).modified
            },
            ..old(user)@
        }),
        final(user).catalog == old(user).catalog,
{
    match calculate_degree_status(catalog, reference, user) {
        Ok(_) => {
            user.modified = false;
            Ok(())
        },
        Err(e) => Err(e),
    }
}

} // verus!
