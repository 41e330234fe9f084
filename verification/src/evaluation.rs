//! What an evaluation is: the report and the ledger after each bank, as
//! functions of the catalog, the reference data and the student's history.

use vstd::prelude::*;
use crate::bank_rule::BankRuleHandlerView;
use crate::bank_rule::chain::chain_completed;
use crate::bank_rule::iterate_courses::{
    all_settled, claim_adds, claim_list, extended_for, lemma_claim_adds_nothing, lemma_claim_list,
    lemma_claim_list_adds, lemma_claim_list_settled, passed_credit, unclaimed_credit,
};
use crate::bank_rule::malag::{malag_prefix, MALAG_CREDIT};
use crate::bank_rule::members::{
    claim_members, lemma_claim_members, lemma_claim_members_adds, lemma_claim_members_settled,
};
use crate::bank_rule::specialization_groups::{declared_credit, group_credit, lemma_group_credit};
use crate::bank_rule::sport::sport_prefix;
use crate::catalog::{
    course_list_for_bank, has_bank_named, CatalogView, CourseBankView, ReferenceDataView, RuleView,
};
use crate::course::{has_course, CourseStatusView};
use crate::degree_status::{
    distinct_courses, empty_degree_status, lemma_push_keeps_distinct, DegreeStatusView,
    RequirementView,
};
use crate::ledger::{
    consumption, distinct_banks, ledger_balance, lemma_consumption, lemma_recorded, recorded,
    LedgerEntryView,
};
use crate::text::{chain_complete_message, chain_incomplete_message};

verus! {

/// How far an evaluation has come.
pub struct Progress {
    /// The report so far.
    pub report: DegreeStatusView,
    /// The surplus that is on offer.
    pub ledger: Seq<LedgerEntryView>,
}

/// What a bank's rule yields.
pub struct RuleOutcome {
    /// The records of the report afterwards.
    pub statuses: Seq<CourseStatusView>,
    /// The credit of the bank, before it is capped.
    pub earned: nat,
    /// What the report says of the bank.
    pub message: Option<Seq<char>>,
}

/// The handler of `bank`, where `incoming` overflows into the bank.
pub open spec fn handler_for(
    catalog: CatalogView,
    reference: ReferenceDataView,
    bank: CourseBankView,
    incoming: nat,
) -> BankRuleHandlerView {
    BankRuleHandlerView {
        bank_name: bank.name,
        course_list: course_list_for_bank(catalog.course_table, bank.name),
        courses: reference.courses,
        credit_overflow: incoming,
        catalog_replacements: catalog.catalog_replacements,
        common_replacements: reference.common_replacements,
    }
}

/// What the rule of `bank` yields on a report that holds `statuses`.
pub open spec fn apply_rule(
    handler: BankRuleHandlerView,
    reference: ReferenceDataView,
    history: Seq<CourseStatusView>,
    statuses: Seq<CourseStatusView>,
    bank: CourseBankView,
) -> RuleOutcome {
    let claim = claim_list(handler, history, statuses, handler.course_list);
    match bank.rule {
        RuleView::All => RuleOutcome {
            statuses: claim.statuses,
            earned: handler.credit_overflow + claim.gained,
            message: if claim.satisfied {
                None
            } else {
                Some(bank.message)
            },
        },
        RuleView::Accumulate => RuleOutcome {
            statuses: claim.statuses,
            earned: handler.credit_overflow + claim.gained,
            message: None,
        },
        RuleView::Chains(chains) => RuleOutcome {
            statuses: claim.statuses,
            earned: handler.credit_overflow + claim.gained,
            message: Some(
                if chain_completed(history, chains) {
                    chain_complete_message()
                } else {
                    chain_incomplete_message()
                },
            ),
        },
        RuleView::SpecializationGroups(groups) => {
            let granted = group_credit(history, groups, claim.gained);
            RuleOutcome {
                statuses: claim.statuses,
                earned: handler.credit_overflow + granted.granted,
                message: if granted.satisfied {
                    None
                } else {
                    Some(bank.message)
                },
            }
        },
        RuleView::Wildcard(accumulate) => if accumulate {
            RuleOutcome {
                statuses: claim.statuses,
                earned: handler.credit_overflow + claim.gained,
                message: None,
            }
        } else {
            RuleOutcome { statuses, earned: handler.credit_overflow, message: None }
        },
        RuleView::Malag => {
            let members = claim_members(
                handler.bank_name,
                history,
                statuses,
                reference.malag_courses,
                malag_prefix(),
                Some(MALAG_CREDIT as nat),
            );
            RuleOutcome {
                statuses: members.statuses,
                earned: handler.credit_overflow + members.gained,
                message: None,
            }
        },
        RuleView::Sport => {
            let members = claim_members(
                handler.bank_name,
                history,
                statuses,
                reference.sport_courses,
                sport_prefix(),
                None,
            );
            RuleOutcome {
                statuses: members.statuses,
                earned: handler.credit_overflow + members.gained,
                message: None,
            }
        },
    }
}

/// The credit that a bank counts as complete: what it earned, up to what it
/// requires.
pub open spec fn capped(earned: nat, required: nat) -> nat {
    if earned <= required {
        earned
    } else {
        required
    }
}

/// The surplus of a bank: what it earned beyond what it requires.
pub open spec fn surplus(earned: nat, required: nat) -> nat {
    if earned <= required {
        0
    } else {
        (earned - required) as nat
    }
}

/// The evaluation after the rule of `bank` has yielded `outcome`: the
/// capped credit is added to the total, the surplus is recorded in the
/// ledger, and the bank's requirement is entered in the report.
pub open spec fn settled(before: Progress, bank: CourseBankView, outcome: RuleOutcome) -> Progress {
    Progress {
        report: DegreeStatusView {
            course_statuses: outcome.statuses,
            course_bank_requirements: before.report.course_bank_requirements.push(
                RequirementView {
                    course_bank_name: bank.name,
                    credit_requirment: bank.credit,
                    credit_complete: capped(outcome.earned, bank.credit),
                    message: outcome.message,
                },
            ),
            credit_overflow_msgs: before.report.credit_overflow_msgs,
            total_credit: before.report.total_credit + capped(outcome.earned, bank.credit),
        },
        ledger: if outcome.earned > bank.credit {
            recorded(before.ledger, bank.name, surplus(outcome.earned, bank.credit))
        } else {
            before.ledger
        },
    }
}

/// The evaluation after the overflow that the catalog's edges bring to
/// `bank` has been taken from the ledger.
pub open spec fn overflow_taken(catalog: CatalogView, before: Progress, bank: Seq<char>)
    -> Progress {
    let taken = consumption(before.ledger, catalog.credit_overflows, bank);
    Progress {
        report: DegreeStatusView {
            credit_overflow_msgs: before.report.credit_overflow_msgs + taken.messages,
            ..before.report
        },
        ledger: taken.entries,
    }
}

/// The credit that overflows into `bank`.
pub open spec fn incoming_overflow(catalog: CatalogView, before: Progress, bank: Seq<char>)
    -> nat {
    consumption(before.ledger, catalog.credit_overflows, bank).total
}

/// What the rule of `bank` yields in the course of an evaluation.
pub open spec fn outcome_of(
    catalog: CatalogView,
    reference: ReferenceDataView,
    history: Seq<CourseStatusView>,
    before: Progress,
    bank: CourseBankView,
) -> RuleOutcome {
    apply_rule(
        handler_for(catalog, reference, bank, incoming_overflow(catalog, before, bank.name)),
        reference,
        history,
        before.report.course_statuses,
        bank,
    )
}

/// The evaluation after `bank`: the bank takes the overflow that is due to
/// it, its rule claims courses and yields credit, and the bank is settled.
pub open spec fn evaluate_bank(
    catalog: CatalogView,
    reference: ReferenceDataView,
    history: Seq<CourseStatusView>,
    before: Progress,
    bank: CourseBankView,
) -> Progress {
    settled(
        overflow_taken(catalog, before, bank.name),
        bank,
        outcome_of(catalog, reference, history, before, bank),
    )
}

/// The evaluation after the banks `banks`, in order, from an empty report
/// and an empty ledger.
pub open spec fn evaluate_banks(
    catalog: CatalogView,
    reference: ReferenceDataView,
    history: Seq<CourseStatusView>,
    banks: Seq<CourseBankView>,
) -> Progress
    decreases banks.len(),
{
    if banks.len() == 0 {
        Progress { report: empty_degree_status(), ledger: Seq::empty() }
    } else {
        evaluate_bank(
            catalog,
            reference,
            history,
            evaluate_banks(catalog, reference, history, banks.drop_last()),
            banks.last(),
        )
    }
}

/// The record `status` as it stands in a report where no bank claimed it.
pub open spec fn unassigned(status: CourseStatusView) -> CourseStatusView {
    CourseStatusView { bank: None, ..status }
}

/// The records of a report together with the records of `history` whose
/// course no bank claimed, each without a bank.
pub open spec fn with_unmatched(
    statuses: Seq<CourseStatusView>,
    history: Seq<CourseStatusView>,
) -> Seq<CourseStatusView>
    decreases history.len(),
{
    if history.len() == 0 {
        statuses
    } else {
        let before = with_unmatched(statuses, history.drop_last());
        if has_course(before, history.last().course.id) {
            before
        } else {
            before.push(unassigned(history.last()))
        }
    }
}

/// The report of the evaluation of `history` against `catalog`.
pub open spec fn degree_status_of(
    catalog: CatalogView,
    reference: ReferenceDataView,
    history: Seq<CourseStatusView>,
) -> DegreeStatusView {
    let report = evaluate_banks(catalog, reference, history, catalog.course_banks).report;
    DegreeStatusView {
        course_statuses: with_unmatched(report.course_statuses, history),
        ..report
    }
}

/// The credit that the groups of a bank's rule declare: none for a rule
/// without groups.
pub open spec fn rule_declared(rule: RuleView) -> nat {
    match rule {
        RuleView::SpecializationGroups(groups) => declared_credit(groups),
        _ => 0,
    }
}

/// The credit that the groups of all banks declare.
pub open spec fn declared_total(banks: Seq<CourseBankView>) -> nat
    decreases banks.len(),
{
    if banks.len() == 0 {
        0
    } else {
        declared_total(banks.drop_last()) + rule_declared(banks.last().rule)
    }
}

/// Whether every requirement is completed by no more than it requires.
pub open spec fn requirements_capped(requirements: Seq<RequirementView>) -> bool {
    forall|i: int|
        0 <= i < requirements.len() ==> (#[trigger] requirements[i]).credit_complete
            <= requirements[i].credit_requirment
}

/// The sum of the completed credit of the requirements.
pub open spec fn completed_credit(requirements: Seq<RequirementView>) -> nat
    decreases requirements.len(),
{
    if requirements.len() == 0 {
        0
    } else {
        completed_credit(requirements.drop_last()) + requirements.last().credit_complete
    }
}

/// A rule keeps the courses of the report distinct, and the credit that it
/// yields beyond the incoming overflow and what its groups declare leaves
/// the unclaimed credit.
pub proof fn lemma_apply_rule(
    handler: BankRuleHandlerView,
    reference: ReferenceDataView,
    history: Seq<CourseStatusView>,
    statuses: Seq<CourseStatusView>,
    bank: CourseBankView,
)
    ensures
        distinct_courses(statuses) ==> distinct_courses(
            apply_rule(handler, reference, history, statuses, bank).statuses,
        ),
        apply_rule(handler, reference, history, statuses, bank).earned + unclaimed_credit(
            history,
            apply_rule(handler, reference, history, statuses, bank).statuses,
        ) <= handler.credit_overflow + unclaimed_credit(history, statuses) + rule_declared(
            bank.rule,
        ),
{
    lemma_claim_list(handler, history, statuses, handler.course_list);
    assert(history.take(history.len() as int) =~= history);
    match bank.rule {
        RuleView::SpecializationGroups(groups) => {
            lemma_group_credit(
                history,
                groups,
                claim_list(handler, history, statuses, handler.course_list).gained,
            );
        },
        RuleView::Malag => {
            lemma_claim_members(
                handler.bank_name,
                history,
                history.len() as int,
                statuses,
                reference.malag_courses,
                malag_prefix(),
                Some(MALAG_CREDIT as nat),
            );
        },
        RuleView::Sport => {
            lemma_claim_members(
                handler.bank_name,
                history,
                history.len() as int,
                statuses,
                reference.sport_courses,
                sport_prefix(),
                None,
            );
        },
        _ => {},
    }
}

/// What holds of an evaluation after any banks: no bank has two entries in
/// the ledger, no course has two records in the report, no requirement is
/// completed beyond what it requires, the total credit is the sum of the
/// completed credit of the requirements, there is one requirement for each
/// bank, and the total credit, the ledger and the unclaimed credit together
/// are within the student's passed credit and what the groups declare.
pub proof fn lemma_evaluate_banks(
    catalog: CatalogView,
    reference: ReferenceDataView,
    history: Seq<CourseStatusView>,
    banks: Seq<CourseBankView>,
)
    ensures
        ({
            let progress = evaluate_banks(catalog, reference, history, banks);
            &&& distinct_banks(progress.ledger)
            &&& distinct_courses(progress.report.course_statuses)
            &&& requirements_capped(progress.report.course_bank_requirements)
            &&& progress.report.total_credit == completed_credit(
                progress.report.course_bank_requirements,
            )
            &&& progress.report.course_bank_requirements.len() == banks.len()
            &&& forall|i: int|
                0 <= i < banks.len() ==> {
                    &&& (#[trigger] progress.report.course_bank_requirements[i]).course_bank_name
                        == banks[i].name
                    &&& progress.report.course_bank_requirements[i].credit_requirment
                        == banks[i].credit
                }
            &&& progress.report.total_credit + ledger_balance(progress.ledger) + unclaimed_credit(
                history,
                progress.report.course_statuses,
            ) <= passed_credit(history) + declared_total(banks)
        }),
    decreases banks.len(),
{
    if banks.len() > 0 {
        let rest = banks.drop_last();
        let bank = banks.last();
        lemma_evaluate_banks(catalog, reference, history, rest);
        let before = evaluate_banks(catalog, reference, history, rest);
        lemma_evaluate_bank(catalog, reference, history, before, bank);
        let after = evaluate_bank(catalog, reference, history, before, bank);
        let old_requirements = before.report.course_bank_requirements;
        let requirements = after.report.course_bank_requirements;
        assert(requirements.drop_last() =~= old_requirements);
        assert forall|i: int| 0 <= i < requirements.len() implies (
        #[trigger] requirements[i]).credit_complete <= requirements[i].credit_requirment by {
            if i < old_requirements.len() {
                assert(requirements[i] == old_requirements[i]);
            }
        }
        assert forall|i: int| 0 <= i < banks.len() implies {
            &&& (#[trigger] requirements[i]).course_bank_name == banks[i].name
            &&& requirements[i].credit_requirment == banks[i].credit
        } by {
            if i < rest.len() {
                assert(requirements[i] == old_requirements[i]);
                assert(rest[i] == banks[i]);
            }
        }
    }
}

/// What the evaluation of one bank keeps and changes.
pub proof fn lemma_evaluate_bank(
    catalog: CatalogView,
    reference: ReferenceDataView,
    history: Seq<CourseStatusView>,
    before: Progress,
    bank: CourseBankView,
)
    requires
        distinct_banks(before.ledger),
    ensures
        ({
            let after = evaluate_bank(catalog, reference, history, before, bank);
            &&& distinct_banks(after.ledger)
            &&& distinct_courses(before.report.course_statuses) ==> distinct_courses(
                after.report.course_statuses,
            )
            &&& after.report.total_credit + ledger_balance(after.ledger) + unclaimed_credit(
                history,
                after.report.course_statuses,
            ) <= before.report.total_credit + ledger_balance(before.ledger) + unclaimed_credit(
                history,
                before.report.course_statuses,
            ) + rule_declared(bank.rule)
        }),
{
    let taken = consumption(before.ledger, catalog.credit_overflows, bank.name);
    lemma_consumption(before.ledger, catalog.credit_overflows, bank.name);
    let handler = handler_for(catalog, reference, bank, taken.total);
    lemma_apply_rule(handler, reference, history, before.report.course_statuses, bank);
    let outcome = outcome_of(catalog, reference, history, before, bank);
    lemma_recorded(taken.entries, bank.name, surplus(outcome.earned, bank.credit));
}

/// The handler of `bank` with the course list `course_list`, where
/// `incoming` overflows into the bank.
pub open spec fn handler_with(
    catalog: CatalogView,
    reference: ReferenceDataView,
    bank: CourseBankView,
    course_list: Seq<Seq<char>>,
    incoming: nat,
) -> BankRuleHandlerView {
    BankRuleHandlerView { course_list, ..handler_for(catalog, reference, bank, incoming) }
}

/// Entering the unmatched records keeps the courses of the report distinct.
pub proof fn lemma_with_unmatched(
    statuses: Seq<CourseStatusView>,
    history: Seq<CourseStatusView>,
)
    requires
        distinct_courses(statuses),
    ensures
        distinct_courses(with_unmatched(statuses, history)),
    decreases history.len(),
{
    if history.len() > 0 {
        lemma_with_unmatched(statuses, history.drop_last());
        let before = with_unmatched(statuses, history.drop_last());
        if !has_course(before, history.last().course.id) {
            lemma_push_keeps_distinct(before, unassigned(history.last()));
        }
    }
}

/// A rule only adds to the report: the records that the report held are
/// kept in place, and every record added is credited to the bank.
pub proof fn lemma_apply_rule_extends(
    handler: BankRuleHandlerView,
    reference: ReferenceDataView,
    history: Seq<CourseStatusView>,
    statuses: Seq<CourseStatusView>,
    bank: CourseBankView,
)
    ensures
        extended_for(
            statuses,
            apply_rule(handler, reference, history, statuses, bank).statuses,
            handler.bank_name,
        ),
{
    lemma_claim_list_adds(handler, history, statuses, handler.course_list);
    lemma_claim_adds_nothing(statuses, handler.bank_name);
    lemma_claim_members_adds(
        handler.bank_name,
        history,
        statuses,
        reference.malag_courses,
        malag_prefix(),
        Some(MALAG_CREDIT as nat),
    );
    lemma_claim_members_adds(
        handler.bank_name,
        history,
        statuses,
        reference.sport_courses,
        sport_prefix(),
        None,
    );
}

/// Whether the first `n` records are each credited to one of the banks
/// `banks`, and the records after them to no bank.
pub open spec fn banks_then_none(
    statuses: Seq<CourseStatusView>,
    banks: Seq<CourseBankView>,
    n: int,
) -> bool {
    &&& 0 <= n <= statuses.len()
    &&& forall|i: int|
        0 <= i < n ==> (#[trigger] statuses[i]).bank is Some && has_bank_named(
            banks,
            statuses[i].bank->0,
        )
    &&& forall|i: int| n <= i < statuses.len() ==> (#[trigger] statuses[i]).bank is None
}

/// After any banks, every record of the report is credited to one of them.
pub proof fn lemma_records_name_banks(
    catalog: CatalogView,
    reference: ReferenceDataView,
    history: Seq<CourseStatusView>,
    banks: Seq<CourseBankView>,
)
    ensures
        banks_then_none(
            evaluate_banks(catalog, reference, history, banks).report.course_statuses,
            banks,
            evaluate_banks(catalog, reference, history, banks).report.course_statuses.len() as int,
        ),
    decreases banks.len(),
{
    if banks.len() > 0 {
        let rest = banks.drop_last();
        let bank = banks.last();
        lemma_records_name_banks(catalog, reference, history, rest);
        let before = evaluate_banks(catalog, reference, history, rest);
        let held = before.report.course_statuses;
        let handler = handler_for(
            catalog,
            reference,
            bank,
            incoming_overflow(catalog, before, bank.name),
        );
        lemma_apply_rule_extends(handler, reference, history, held, bank);
        let after = evaluate_banks(catalog, reference, history, banks).report.course_statuses;
        assert forall|i: int| 0 <= i < after.len() implies (#[trigger] after[i]).bank is Some
            && has_bank_named(banks, after[i].bank->0) by {
            if i < held.len() {
                assert(after.subrange(0, held.len() as int)[i] == after[i]);
                assert(has_bank_named(rest, held[i].bank->0));
                let k = choose|k: int|
                    0 <= k < rest.len() && (#[trigger] rest[k]).name == held[i].bank->0;
                assert(banks[k].name == after[i].bank->0);
            } else {
                assert(banks[banks.len() - 1].name == bank.name);
            }
        }
    }
}

/// Entering the unmatched records keeps the records of the report in place
/// and adds records that are credited to no bank.
pub proof fn lemma_unmatched_have_no_bank(
    statuses: Seq<CourseStatusView>,
    history: Seq<CourseStatusView>,
)
    ensures
        statuses.len() <= with_unmatched(statuses, history).len(),
        with_unmatched(statuses, history).subrange(0, statuses.len() as int) == statuses,
        forall|i: int|
            statuses.len() <= i < with_unmatched(statuses, history).len() ==> (
            #[trigger] with_unmatched(statuses, history)[i]).bank is None,
    decreases history.len(),
{
    if history.len() == 0 {
        assert(statuses.subrange(0, statuses.len() as int) =~= statuses);
    } else {
        lemma_unmatched_have_no_bank(statuses, history.drop_last());
        let before = with_unmatched(statuses, history.drop_last());
        let after = with_unmatched(statuses, history);
        assert(after.subrange(0, statuses.len() as int) =~= before.subrange(
            0,
            statuses.len() as int,
        ));
    }
}

/// A rule without groups earns, beyond the incoming overflow, the credit of
/// the passed courses among the records that it adds.
pub proof fn lemma_apply_rule_earns(
    handler: BankRuleHandlerView,
    reference: ReferenceDataView,
    history: Seq<CourseStatusView>,
    statuses: Seq<CourseStatusView>,
    bank: CourseBankView,
)
    requires
        !(bank.rule is SpecializationGroups),
    ensures
        apply_rule(handler, reference, history, statuses, bank).earned >= handler.credit_overflow,
        claim_adds(
            statuses,
            apply_rule(handler, reference, history, statuses, bank).statuses,
            handler.bank_name,
            (apply_rule(handler, reference, history, statuses, bank).earned
                - handler.credit_overflow) as nat,
        ),
{
    lemma_claim_list_adds(handler, history, statuses, handler.course_list);
    lemma_claim_adds_nothing(statuses, handler.bank_name);
    lemma_claim_members_adds(
        handler.bank_name,
        history,
        statuses,
        reference.malag_courses,
        malag_prefix(),
        Some(MALAG_CREDIT as nat),
    );
    lemma_claim_members_adds(
        handler.bank_name,
        history,
        statuses,
        reference.sport_courses,
        sport_prefix(),
        None,
    );
}

/// A rule enters only records that say of their course what their grade
/// says.
pub proof fn lemma_apply_rule_settled(
    handler: BankRuleHandlerView,
    reference: ReferenceDataView,
    history: Seq<CourseStatusView>,
    statuses: Seq<CourseStatusView>,
    bank: CourseBankView,
)
    requires
        all_settled(statuses),
    ensures
        all_settled(apply_rule(handler, reference, history, statuses, bank).statuses),
{
    lemma_claim_list_settled(handler, history, statuses, handler.course_list);
    lemma_claim_members_settled(
        handler.bank_name,
        history,
        statuses,
        reference.malag_courses,
        malag_prefix(),
        Some(MALAG_CREDIT as nat),
    );
    lemma_claim_members_settled(
        handler.bank_name,
        history,
        statuses,
        reference.sport_courses,
        sport_prefix(),
        None,
    );
}

/// After any banks, every record of the report says of its course what its
/// grade says.
pub proof fn lemma_evaluate_banks_settled(
    catalog: CatalogView,
    reference: ReferenceDataView,
    history: Seq<CourseStatusView>,
    banks: Seq<CourseBankView>,
)
    ensures
        all_settled(evaluate_banks(catalog, reference, history, banks).report.course_statuses),
    decreases banks.len(),
{
    if banks.len() > 0 {
        let rest = banks.drop_last();
        let bank = banks.last();
        lemma_evaluate_banks_settled(catalog, reference, history, rest);
        let before = evaluate_banks(catalog, reference, history, rest);
        lemma_apply_rule_settled(
            handler_for(catalog, reference, bank, incoming_overflow(catalog, before, bank.name)),
            reference,
            history,
            before.report.course_statuses,
            bank,
        );
    }
}

} // verus!
