//! What holds of every evaluation: of its report, and of what becomes of
//! surplus credit.

use vstd::prelude::*;
use crate::bank_rule::iterate_courses::{
    all_settled, is_settled, lemma_claim_adds_credit, passed_credit,
};
use crate::catalog::{
    distinct_bank_names, has_bank_named, CatalogView, CourseBankView, CreditOverflowView,
    ReferenceDataView,
};
use crate::configuration::{edge_forward, edges_forward};
use crate::course::{has_course, CourseState, CourseStatusView};
use crate::degree_status::distinct_courses;
use crate::evaluation::{
    banks_then_none, completed_credit, declared_total, degree_status_of, evaluate_banks,
    handler_for, incoming_overflow, lemma_apply_rule_earns, lemma_evaluate_banks,
    lemma_evaluate_banks_settled, lemma_records_name_banks, lemma_unmatched_have_no_bank,
    outcome_of, requirements_capped, surplus,
};
use crate::ledger::{
    bank_index, consumption, distinct_banks, has_bank, ledger_amount, ledger_balance,
    lemma_consumption, lemma_recorded, LedgerEntryView,
};
use crate::processor::{lemma_report_of, report_of};
use crate::user::UserDetailsView;

verus! {

/// The surplus that the banks `banks` record in the course of their
/// evaluation, all together.
pub open spec fn surplus_recorded(
    catalog: CatalogView,
    reference: ReferenceDataView,
    history: Seq<CourseStatusView>,
    banks: Seq<CourseBankView>,
) -> nat
    decreases banks.len(),
{
    if banks.len() == 0 {
        0
    } else {
        surplus_recorded(catalog, reference, history, banks.drop_last()) + surplus(
            outcome_of(
                catalog,
                reference,
                history,
                evaluate_banks(catalog, reference, history, banks.drop_last()),
                banks.last(),
            ).earned,
            banks.last().credit,
        )
    }
}

/// The overflow that the banks `banks` take from the ledger in the course
/// of their evaluation, all together.
pub open spec fn overflow_consumed(
    catalog: CatalogView,
    reference: ReferenceDataView,
    history: Seq<CourseStatusView>,
    banks: Seq<CourseBankView>,
) -> nat
    decreases banks.len(),
{
    if banks.len() == 0 {
        0
    } else {
        overflow_consumed(catalog, reference, history, banks.drop_last()) + incoming_overflow(
            catalog,
            evaluate_banks(catalog, reference, history, banks.drop_last()),
            banks.last().name,
        )
    }
}

/// Whether every entry of the ledger is of one of the banks `banks`.
pub open spec fn ledger_within(ledger: Seq<LedgerEntryView>, banks: Seq<CourseBankView>) -> bool {
    forall|i: int| 0 <= i < ledger.len() ==> has_bank_named(banks, (#[trigger] ledger[i]).bank)
}

/// Taking the overflow of a bank leaves the entries of the ledger in place,
/// each with its bank.
pub proof fn lemma_consumption_keeps_banks(
    entries: Seq<LedgerEntryView>,
    edges: Seq<CreditOverflowView>,
    bank: Seq<char>,
)
    requires
        distinct_banks(entries),
    ensures
        consumption(entries, edges, bank).entries.len() == entries.len(),
        forall|i: int|
            0 <= i < entries.len() ==> (#[trigger] consumption(
                entries,
                edges,
                bank,
            ).entries[i]).bank == entries[i].bank,
    decreases edges.len(),
{
    if edges.len() > 0 {
        lemma_consumption_keeps_banks(entries, edges.drop_last(), bank);
        lemma_consumption(entries, edges.drop_last(), bank);
        let before = consumption(entries, edges.drop_last(), bank);
        let edge = edges.last();
        if edge.to == bank && ledger_amount(before.entries, edge.from) > 0 {
            let at = bank_index(before.entries, edge.from);
            assert(0 <= at < before.entries.len() && before.entries[at].bank == edge.from);
        }
    }
}

/// Taking the overflow of a bank raises the amount of no bank, and leaves
/// nothing on offer from the source of any edge to the bank.
pub proof fn lemma_consumption_amounts(
    entries: Seq<LedgerEntryView>,
    edges: Seq<CreditOverflowView>,
    bank: Seq<char>,
)
    requires
        distinct_banks(entries),
    ensures
        forall|name: Seq<char>| #[trigger]
            ledger_amount(consumption(entries, edges, bank).entries, name) <= ledger_amount(
                entries,
                name,
            ),
        forall|k: int|
            0 <= k < edges.len() && (#[trigger] edges[k]).to == bank ==> ledger_amount(
                consumption(entries, edges, bank).entries,
                edges[k].from,
            ) == 0,
    decreases edges.len(),
{
    if edges.len() > 0 {
        let rest = edges.drop_last();
        lemma_consumption_amounts(entries, rest, bank);
        lemma_consumption(entries, rest, bank);
        let before = consumption(entries, rest, bank);
        let after = consumption(entries, edges, bank);
        let edge = edges.last();
        if edge.to == bank && ledger_amount(before.entries, edge.from) > 0 {
            lemma_recorded(before.entries, edge.from, 0);
        }
        assert forall|name: Seq<char>| #[trigger]
            ledger_amount(after.entries, name) <= ledger_amount(entries, name) by {
            assert(ledger_amount(before.entries, name) <= ledger_amount(entries, name));
        }
        assert forall|k: int|
            0 <= k < edges.len() && (#[trigger] edges[k]).to == bank implies ledger_amount(
            after.entries,
            edges[k].from,
        ) == 0 by {
            if k < rest.len() {
                assert(rest[k] == edges[k]);
                assert(ledger_amount(before.entries, edges[k].from) == 0);
                assert(ledger_amount(after.entries, edges[k].from) <= ledger_amount(
                    before.entries,
                    edges[k].from,
                ));
            }
        }
    }
}

/// Every entry of the ledger is of a bank that has been evaluated.
pub proof fn lemma_ledger_within(
    catalog: CatalogView,
    reference: ReferenceDataView,
    history: Seq<CourseStatusView>,
    banks: Seq<CourseBankView>,
)
    ensures
        ledger_within(evaluate_banks(catalog, reference, history, banks).ledger, banks),
    decreases banks.len(),
{
    if banks.len() > 0 {
        let rest = banks.drop_last();
        let bank = banks.last();
        lemma_ledger_within(catalog, reference, history, rest);
        lemma_evaluate_banks(catalog, reference, history, rest);
        let before = evaluate_banks(catalog, reference, history, rest);
        let taken = consumption(before.ledger, catalog.credit_overflows, bank.name);
        lemma_consumption_keeps_banks(before.ledger, catalog.credit_overflows, bank.name);
        let after = evaluate_banks(catalog, reference, history, banks).ledger;
        assert forall|i: int| 0 <= i < after.len() implies has_bank_named(
            banks,
            (#[trigger] after[i]).bank,
        ) by {
            if after[i].bank == bank.name {
                assert(banks[banks.len() - 1].name == bank.name);
            } else {
                assert(i < taken.entries.len());
                assert(after[i].bank == taken.entries[i].bank);
                assert(taken.entries[i].bank == before.ledger[i].bank);
                assert(has_bank_named(rest, before.ledger[i].bank));
                let k = choose|k: int|
                    0 <= k < rest.len() && (#[trigger] rest[k]).name == before.ledger[i].bank;
                assert(banks[k].name == after[i].bank);
            }
        }
    }
}

/// A bank that has not been evaluated has nothing on offer, where no two
/// banks have the same name.
pub proof fn lemma_new_bank_has_no_entry(
    catalog: CatalogView,
    reference: ReferenceDataView,
    history: Seq<CourseStatusView>,
    banks: Seq<CourseBankView>,
    name: Seq<char>,
)
    requires
        !has_bank_named(banks, name),
    ensures
        !has_bank(evaluate_banks(catalog, reference, history, banks).ledger, name),
{
    lemma_ledger_within(catalog, reference, history, banks);
}

/// Surplus credit is neither lost nor counted twice: where no two banks have
/// the same name, the surplus that the banks record is the overflow that
/// banks take from the ledger together with what is left in the ledger.
pub proof fn overflow_is_conserved(
    catalog: CatalogView,
    reference: ReferenceDataView,
    history: Seq<CourseStatusView>,
    banks: Seq<CourseBankView>,
)
    requires
        distinct_bank_names(banks),
    ensures
        surplus_recorded(catalog, reference, history, banks) == overflow_consumed(
            catalog,
            reference,
            history,
            banks,
        ) + ledger_balance(evaluate_banks(catalog, reference, history, banks).ledger),
    decreases banks.len(),
{
    if banks.len() > 0 {
        let rest = banks.drop_last();
        let bank = banks.last();
        assert forall|i: int, j: int| 0 <= i < j < rest.len() implies (#[trigger] rest[i]).name != (
        #[trigger] rest[j]).name by {
            assert(rest[i] == banks[i] && rest[j] == banks[j]);
        }
        overflow_is_conserved(catalog, reference, history, rest);
        lemma_evaluate_banks(catalog, reference, history, rest);
        let before = evaluate_banks(catalog, reference, history, rest);
        let taken = consumption(before.ledger, catalog.credit_overflows, bank.name);
        lemma_consumption(before.ledger, catalog.credit_overflows, bank.name);
        lemma_consumption_keeps_banks(before.ledger, catalog.credit_overflows, bank.name);
        let outcome = outcome_of(catalog, reference, history, before, bank);
        lemma_recorded(taken.entries, bank.name, surplus(outcome.earned, bank.credit));
        if has_bank_named(rest, bank.name) {
            let k = choose|k: int| 0 <= k < rest.len() && (#[trigger] rest[k]).name == bank.name;
            assert(banks[k].name == banks[banks.len() - 1].name);
        }
        lemma_new_bank_has_no_entry(catalog, reference, history, rest, bank.name);
        if has_bank(taken.entries, bank.name) {
            let i = bank_index(taken.entries, bank.name);
            assert(taken.entries[i].bank == before.ledger[i].bank);
        }
    }
}

/// After the first `k` banks of a catalog whose banks have distinct names
/// and whose overflow edges all lead forward, the source of every edge to
/// an evaluated bank has nothing on offer.
pub proof fn lemma_drained_sources(
    catalog: CatalogView,
    reference: ReferenceDataView,
    history: Seq<CourseStatusView>,
    k: int,
)
    requires
        distinct_bank_names(catalog.course_banks),
        edges_forward(catalog.course_banks, catalog.credit_overflows),
        0 <= k <= catalog.course_banks.len(),
    ensures
        forall|e: int|
            0 <= e < catalog.credit_overflows.len() && has_bank_named(
                catalog.course_banks.take(k),
                (#[trigger] catalog.credit_overflows[e]).to,
            ) ==> ledger_amount(
                evaluate_banks(catalog, reference, history, catalog.course_banks.take(k)).ledger,
                catalog.credit_overflows[e].from,
            ) == 0,
    decreases k,
{
    let all = catalog.course_banks;
    let edges = catalog.credit_overflows;
    if k > 0 {
        let banks = all.take(k);
        let rest = all.take(k - 1);
        let bank = all[k - 1];
        assert(banks.drop_last() =~= rest);
        assert(banks.last() == bank);
        lemma_drained_sources(catalog, reference, history, k - 1);
        lemma_evaluate_banks(catalog, reference, history, rest);
        let before = evaluate_banks(catalog, reference, history, rest);
        let taken = consumption(before.ledger, edges, bank.name);
        lemma_consumption(before.ledger, edges, bank.name);
        lemma_consumption_amounts(before.ledger, edges, bank.name);
        let outcome = outcome_of(catalog, reference, history, before, bank);
        lemma_recorded(taken.entries, bank.name, surplus(outcome.earned, bank.credit));
        let after = evaluate_banks(catalog, reference, history, banks).ledger;
        assert forall|e: int|
            0 <= e < edges.len() && has_bank_named(
                banks,
                (#[trigger] edges[e]).to,
            ) implies ledger_amount(after, edges[e].from) == 0 by {
            let edge = edges[e];
            // the source of the edge is declared before its target, so it is not this bank
            assert(edge_forward(all, edge));
            let (i, j) = choose|i: int, j: int|
                0 <= i < j < all.len() && (#[trigger] all[i]).name == edge.from && (
                #[trigger] all[j]).name == edge.to;
            let t = choose|t: int| 0 <= t < banks.len() && (#[trigger] banks[t]).name == edge.to;
            assert(all[t] == banks[t]);
            if t != j {
                assert(all[t].name == all[j].name);
            }
            assert(i < k - 1);
            if edge.from == bank.name {
                assert(all[i].name == all[k - 1].name);
            }
            // so this bank's own record leaves the source alone
            assert(ledger_amount(after, edge.from) == ledger_amount(taken.entries, edge.from));
            if edge.to == bank.name {
                assert(ledger_amount(taken.entries, edge.from) == 0);
            } else {
                assert(t < k - 1);
                assert(rest[t] == banks[t]);
                assert(has_bank_named(rest, edge.to));
                assert(ledger_amount(before.ledger, edge.from) == 0);
                assert(ledger_amount(taken.entries, edge.from) <= ledger_amount(
                    before.ledger,
                    edge.from,
                ));
            }
        }
    }
}

/// Where no two banks have the same name and the catalog declares the
/// source of every overflow edge before its target, whatever surplus is
/// left in the ledger at the end is of banks that are the source of no
/// edge: the source of every edge has nothing left on offer.
pub proof fn sources_are_drained(
    catalog: CatalogView,
    reference: ReferenceDataView,
    history: Seq<CourseStatusView>,
)
    requires
        distinct_bank_names(catalog.course_banks),
        edges_forward(catalog.course_banks, catalog.credit_overflows),
    ensures
        forall|e: int|
            0 <= e < catalog.credit_overflows.len() ==> ledger_amount(
                evaluate_banks(catalog, reference, history, catalog.course_banks).ledger,
                (#[trigger] catalog.credit_overflows[e]).from,
            ) == 0,
{
    let all = catalog.course_banks;
    let edges = catalog.credit_overflows;
    lemma_drained_sources(catalog, reference, history, all.len() as int);
    assert(all.take(all.len() as int) =~= all);
    assert forall|e: int| 0 <= e < edges.len() implies ledger_amount(
        evaluate_banks(catalog, reference, history, all).ledger,
        (#[trigger] edges[e]).from,
    ) == 0 by {
        assert(edge_forward(all, edges[e]));
        let (i, j) = choose|i: int, j: int|
            0 <= i < j < all.len() && (#[trigger] all[i]).name == edges[e].from && (
            #[trigger] all[j]).name == edges[e].to;
        assert(all[j].name == edges[e].to);
    }
}

/// An evaluation leaves nothing behind that a later evaluation reads: two
/// users with the same course history are left with the same report by the
/// same catalog and reference data, whatever reports they held before, and
/// whether the catalog is evaluated or refused.
pub proof fn evaluation_is_repeatable(
    catalog: CatalogView,
    reference: ReferenceDataView,
    first: UserDetailsView,
    second: UserDetailsView,
)
    requires
        first.course_statuses == second.course_statuses,
    ensures
        report_of(catalog, reference, first.course_statuses) == report_of(
            catalog,
            reference,
            second.course_statuses,
        ),
{
}

/// In every report no requirement is completed beyond what it requires, and
/// the total credit is the sum of what the requirements have completed.
pub proof fn credit_is_capped(
    catalog: CatalogView,
    reference: ReferenceDataView,
    history: Seq<CourseStatusView>,
)
    ensures
        requirements_capped(report_of(catalog, reference, history).course_bank_requirements),
        report_of(catalog, reference, history).total_credit == completed_credit(
            report_of(catalog, reference, history).course_bank_requirements,
        ),
{
    lemma_report_of(catalog, reference, history);
}

/// In every report each course has one record at most, so that no course
/// is credited to two banks.
pub proof fn courses_are_claimed_once(
    catalog: CatalogView,
    reference: ReferenceDataView,
    history: Seq<CourseStatusView>,
)
    ensures
        distinct_courses(report_of(catalog, reference, history).course_statuses),
{
    lemma_report_of(catalog, reference, history);
}

/// In every report the records that banks claimed come first, each
/// credited to a bank of the catalog, and the student's other records
/// follow, credited to no bank.
pub proof fn records_name_their_bank(
    catalog: CatalogView,
    reference: ReferenceDataView,
    history: Seq<CourseStatusView>,
)
    ensures
        banks_then_none(
            degree_status_of(catalog, reference, history).course_statuses,
            catalog.course_banks,
            evaluate_banks(
                catalog,
                reference,
                history,
                catalog.course_banks,
            ).report.course_statuses.len() as int,
        ),
{
    let claimed = evaluate_banks(
        catalog,
        reference,
        history,
        catalog.course_banks,
    ).report.course_statuses;
    let all = degree_status_of(catalog, reference, history).course_statuses;
    lemma_records_name_banks(catalog, reference, history, catalog.course_banks);
    lemma_unmatched_have_no_bank(claimed, history);
    assert forall|i: int| 0 <= i < claimed.len() implies (#[trigger] all[i]).bank is Some
        && has_bank_named(catalog.course_banks, all[i].bank->0) by {
        assert(all.subrange(0, claimed.len() as int)[i] == all[i]);
    }
}

/// Credit is not counted twice: in every evaluation the total credit and
/// what is left in the ledger are together within the credit of the
/// student's passed courses and the credit that the groups of the catalog
/// declare.
pub proof fn credit_is_not_counted_twice(
    catalog: CatalogView,
    reference: ReferenceDataView,
    history: Seq<CourseStatusView>,
)
    ensures
        degree_status_of(catalog, reference, history).total_credit + ledger_balance(
            evaluate_banks(catalog, reference, history, catalog.course_banks).ledger,
        ) <= passed_credit(history) + declared_total(catalog.course_banks),
{
    lemma_evaluate_banks(catalog, reference, history, catalog.course_banks);
}

/// The credit of the courses that the records give as complete.
pub open spec fn complete_credit(records: Seq<CourseStatusView>) -> nat
    decreases records.len(),
{
    if records.len() == 0 {
        0
    } else {
        complete_credit(records.drop_last()) + if records.last().state == Some(
            CourseState::Complete,
        ) {
            records.last().course.credit
        } else {
            0
        }
    }
}

/// Whether no bank earns its credit group by group.
pub open spec fn no_groups(banks: Seq<CourseBankView>) -> bool {
    forall|k: int| 0 <= k < banks.len() ==> !((#[trigger] banks[k]).rule is SpecializationGroups)
}

/// Where every record says of its course what its grade says, the credit of
/// the complete courses is the credit of the passed courses.
pub proof fn lemma_complete_credit_of_settled(records: Seq<CourseStatusView>)
    requires
        all_settled(records),
    ensures
        complete_credit(records) == passed_credit(records),
    decreases records.len(),
{
    let none = Seq::<CourseStatusView>::empty();
    if records.len() > 0 {
        let rest = records.drop_last();
        assert forall|i: int| 0 <= i < rest.len() implies is_settled(#[trigger] rest[i]) by {
            assert(rest[i] == records[i]);
        }
        lemma_complete_credit_of_settled(rest);
        assert(is_settled(records[records.len() - 1]));
        assert(!has_course(none, records.last().course.id));
    }
}

/// Records that follow add to the credit of the complete courses.
pub proof fn lemma_complete_credit_extends(
    before: Seq<CourseStatusView>,
    after: Seq<CourseStatusView>,
)
    requires
        before.len() <= after.len(),
        after.subrange(0, before.len() as int) == before,
    ensures
        complete_credit(before) <= complete_credit(after),
    decreases after.len(),
{
    if before.len() < after.len() {
        let rest = after.drop_last();
        assert(rest.subrange(0, before.len() as int) =~= after.subrange(0, before.len() as int));
        lemma_complete_credit_extends(before, rest);
    } else {
        assert(after.subrange(0, before.len() as int) =~= after);
    }
}

/// A bank that is evaluated for the first time has nothing on offer when it
/// has taken its overflow.
pub proof fn lemma_new_bank_offers_nothing(
    catalog: CatalogView,
    reference: ReferenceDataView,
    history: Seq<CourseStatusView>,
    banks: Seq<CourseBankView>,
    name: Seq<char>,
)
    requires
        !has_bank_named(banks, name),
    ensures
        ledger_amount(
            consumption(
                evaluate_banks(catalog, reference, history, banks).ledger,
                catalog.credit_overflows,
                name,
            ).entries,
            name,
        ) == 0,
{
    let before = evaluate_banks(catalog, reference, history, banks);
    let taken = consumption(before.ledger, catalog.credit_overflows, name);
    lemma_evaluate_banks(catalog, reference, history, banks);
    lemma_consumption_keeps_banks(before.ledger, catalog.credit_overflows, name);
    lemma_new_bank_has_no_entry(catalog, reference, history, banks, name);
    if has_bank(taken.entries, name) {
        let i = bank_index(taken.entries, name);
        assert(taken.entries[i].bank == before.ledger[i].bank);
    }
}

/// Every credit point of a claimed course is counted once: where no two
/// banks have the same name and no bank earns its credit by groups, the
/// total credit and what is left in the ledger are together the credit of
/// the passed courses among the records that the banks claimed.
pub proof fn claimed_credit_is_accounted(
    catalog: CatalogView,
    reference: ReferenceDataView,
    history: Seq<CourseStatusView>,
    banks: Seq<CourseBankView>,
)
    requires
        distinct_bank_names(banks),
        no_groups(banks),
    ensures
        evaluate_banks(catalog, reference, history, banks).report.total_credit + ledger_balance(
            evaluate_banks(catalog, reference, history, banks).ledger,
        ) == passed_credit(
            evaluate_banks(catalog, reference, history, banks).report.course_statuses,
        ),
    decreases banks.len(),
{
    let none = Seq::<CourseStatusView>::empty();
    if banks.len() == 0 {
        assert(passed_credit(none) == 0);
        assert(ledger_balance(Seq::<LedgerEntryView>::empty()) == 0);
    } else {
        let rest = banks.drop_last();
        let bank = banks.last();
        assert forall|i: int, j: int| 0 <= i < j < rest.len() implies (#[trigger] rest[i]).name != (
        #[trigger] rest[j]).name by {
            assert(rest[i] == banks[i] && rest[j] == banks[j]);
        }
        assert forall|k: int| 0 <= k < rest.len() implies !((#[trigger] rest[k]).rule
            is SpecializationGroups) by {
            assert(rest[k] == banks[k]);
        }
        assert(!(banks[banks.len() - 1].rule is SpecializationGroups));
        claimed_credit_is_accounted(catalog, reference, history, rest);
        lemma_evaluate_banks(catalog, reference, history, rest);
        let before = evaluate_banks(catalog, reference, history, rest);
        let taken = consumption(before.ledger, catalog.credit_overflows, bank.name);
        lemma_consumption(before.ledger, catalog.credit_overflows, bank.name);
        let handler = handler_for(catalog, reference, bank, taken.total);
        let outcome = outcome_of(catalog, reference, history, before, bank);
        lemma_apply_rule_earns(handler, reference, history, before.report.course_statuses, bank);
        lemma_claim_adds_credit(
            before.report.course_statuses,
            outcome.statuses,
            handler.bank_name,
            (outcome.earned - taken.total) as nat,
        );
        lemma_recorded(taken.entries, bank.name, surplus(outcome.earned, bank.credit));
        if has_bank_named(rest, bank.name) {
            let k = choose|k: int| 0 <= k < rest.len() && (#[trigger] rest[k]).name == bank.name;
            assert(banks[k].name == banks[banks.len() - 1].name);
        }
        lemma_new_bank_offers_nothing(catalog, reference, history, rest, bank.name);
    }
}

/// The total credit is within the credit of the courses that the report
/// gives as complete. Where no two banks have the same name and no bank
/// earns its credit by groups, the total credit and what is left in the
/// ledger are together the credit of the complete courses among the records
/// that the banks claimed, which come first in the report. So the total
/// credit falls short of that credit by the surplus that is left in the
/// ledger, and by nothing where none is left.
pub proof fn total_is_within_complete_courses(
    catalog: CatalogView,
    reference: ReferenceDataView,
    history: Seq<CourseStatusView>,
)
    requires
        distinct_bank_names(catalog.course_banks),
        no_groups(catalog.course_banks),
    ensures
        ({
            let run = evaluate_banks(catalog, reference, history, catalog.course_banks);
            let report = degree_status_of(catalog, reference, history);
            let claimed = report.course_statuses.subrange(
                0,
                run.report.course_statuses.len() as int,
            );
            &&& run.report.course_statuses.len() <= report.course_statuses.len()
            &&& claimed == run.report.course_statuses
            &&& report.total_credit + ledger_balance(run.ledger) == complete_credit(claimed)
            &&& report.total_credit <= complete_credit(report.course_statuses)
        }),
{
    let run = evaluate_banks(catalog, reference, history, catalog.course_banks);
    let report = degree_status_of(catalog, reference, history);
    claimed_credit_is_accounted(catalog, reference, history, catalog.course_banks);
    lemma_evaluate_banks_settled(catalog, reference, history, catalog.course_banks);
    lemma_complete_credit_of_settled(run.report.course_statuses);
    lemma_unmatched_have_no_bank(run.report.course_statuses, history);
    lemma_complete_credit_extends(run.report.course_statuses, report.course_statuses);
}

} // verus!
