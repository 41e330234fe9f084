//! Claiming the courses of a bank's course list, one after the other.

use vstd::prelude::*;
use crate::bank_rule::{BankRuleHandler, BankRuleHandlerView};
use crate::course::{
    course_passed, find_course, find_status, has_course, lemma_find_course, lemma_find_status,
    lemma_found_course, lemma_found_status, lists_course, position_of_course, position_of_listing,
    status_passed, statuses_view, texts_view, Course, CourseId, CourseState, CourseStatus,
    CourseStatusView, CourseView, Credit,
};
use crate::degree_status::{
    credit_gained, credited, distinct_courses, lemma_push_keeps_distinct, with_course,
    DegreeStatus, DegreeStatusView,
};
use crate::replacement::{effective_replacements, replacements_for};

verus! {

/// The record that stands in a report for a required course of which the
/// student has no record: the course as the institution lists it, or, where
/// it lists none, a course of that identifier without credit or name.
pub open spec fn placeholder(courses: Seq<CourseView>, id: Seq<char>, bank: Seq<char>)
    -> CourseStatusView {
    CourseStatusView {
        course: match find_course(courses, id) {
            Some(course) => course,
            None => CourseView { id, credit: 0, name: Seq::empty() },
        },
        state: Some(CourseState::NotComplete),
        semester: None,
        grade: None,
        bank: Some(bank),
    }
}

/// The student's record of the first of the courses `replacements` that the
/// student has a record of and the report does not hold yet.
pub open spec fn usable_replacement(
    history: Seq<CourseStatusView>,
    statuses: Seq<CourseStatusView>,
    replacements: Seq<Seq<char>>,
) -> Option<CourseStatusView>
    decreases replacements.len(),
{
    if replacements.len() == 0 {
        None
    } else {
        match usable_replacement(history, statuses, replacements.drop_last()) {
            Some(status) => Some(status),
            None => if has_course(statuses, replacements.last()) {
                None
            } else {
                find_status(history, replacements.last())
            },
        }
    }
}

/// The student's record that fills the place of the required course `id`:
/// the record of the course itself or, where there is none, that of a usable
/// replacement.
pub open spec fn slot_source(
    handler: BankRuleHandlerView,
    history: Seq<CourseStatusView>,
    statuses: Seq<CourseStatusView>,
    id: Seq<char>,
) -> Option<CourseStatusView> {
    if has_course(history, id) {
        find_status(history, id)
    } else {
        usable_replacement(
            history,
            statuses,
            effective_replacements(id, handler.catalog_replacements, handler.common_replacements),
        )
    }
}

/// What claiming courses does to a report.
pub struct Claim {
    /// The records of the report afterwards.
    pub statuses: Seq<CourseStatusView>,
    /// The credit earned by the claim.
    pub gained: nat,
    /// Whether every required course is passed.
    pub satisfied: bool,
}

/// Claiming the required course `id` for the handler's bank. A course that
/// the report already holds is left alone. Otherwise the record that fills
/// the course's place is credited to the bank, or, where the student has
/// none, a placeholder is entered.
pub open spec fn claim_slot(
    handler: BankRuleHandlerView,
    history: Seq<CourseStatusView>,
    statuses: Seq<CourseStatusView>,
    id: Seq<char>,
) -> Claim {
    if has_course(statuses, id) {
        Claim { statuses, gained: 0, satisfied: course_passed(statuses, id) }
    } else {
        match slot_source(handler, history, statuses, id) {
            Some(status) => Claim {
                statuses: with_course(statuses, status, handler.bank_name),
                gained: credit_gained(statuses, status),
                satisfied: status_passed(status),
            },
            None => Claim {
                statuses: statuses.push(placeholder(handler.courses, id, handler.bank_name)),
                gained: 0,
                satisfied: false,
            },
        }
    }
}

/// Claiming the required courses `ids` one after the other.
pub open spec fn claim_list(
    handler: BankRuleHandlerView,
    history: Seq<CourseStatusView>,
    statuses: Seq<CourseStatusView>,
    ids: Seq<Seq<char>>,
) -> Claim
    decreases ids.len(),
{
    if ids.len() == 0 {
        Claim { statuses, gained: 0, satisfied: true }
    } else {
        let before = claim_list(handler, history, statuses, ids.drop_last());
        let step = claim_slot(handler, history, before.statuses, ids.last());
        Claim {
            statuses: step.statuses,
            gained: before.gained + step.gained,
            satisfied: before.satisfied && step.satisfied,
        }
    }
}

/// The credit of the passed courses in `history` that the report does not
/// hold yet: an upper bound of what banks can still earn from the history.
pub open spec fn unclaimed_credit(
    history: Seq<CourseStatusView>,
    statuses: Seq<CourseStatusView>,
) -> nat
    decreases history.len(),
{
    if history.len() == 0 {
        0
    } else {
        unclaimed_credit(history.drop_last(), statuses) + credit_gained(statuses, history.last())
    }
}

/// A report with one more record holds the courses that it held and the
/// course of that record.
pub proof fn lemma_has_course_push(
    statuses: Seq<CourseStatusView>,
    entry: CourseStatusView,
    id: Seq<char>,
)
    ensures
        has_course(statuses.push(entry), id) == (has_course(statuses, id) || entry.course.id
            == id),
{
    let after = statuses.push(entry);
    if has_course(statuses, id) {
        let i = choose|i: int| 0 <= i < statuses.len() && (#[trigger] statuses[i]).course.id == id;
        assert(after[i].course.id == id);
    }
    if entry.course.id == id {
        assert(after[statuses.len() as int].course.id == id);
    }
    if has_course(after, id) {
        let i = choose|i: int| 0 <= i < after.len() && (#[trigger] after[i]).course.id == id;
        if i < statuses.len() {
            assert(statuses[i].course.id == id);
        }
    }
}

/// The credit that claiming one record of the history earns is part of the
/// unclaimed credit.
pub proof fn lemma_gain_within_unclaimed(
    history: Seq<CourseStatusView>,
    statuses: Seq<CourseStatusView>,
    i: int,
)
    requires
        0 <= i < history.len(),
    ensures
        credit_gained(statuses, history[i]) <= unclaimed_credit(history, statuses),
    decreases history.len(),
{
    if i < history.len() - 1 {
        lemma_gain_within_unclaimed(history.drop_last(), statuses, i);
    }
}

/// Entering a record in the report never raises the unclaimed credit, and
/// lowers it by at least the credit that a claim of the same course earns.
pub proof fn lemma_unclaimed_after_push(
    history: Seq<CourseStatusView>,
    statuses: Seq<CourseStatusView>,
    entry: CourseStatusView,
)
    ensures
        unclaimed_credit(history, statuses.push(entry)) <= unclaimed_credit(history, statuses),
        forall|i: int|
            0 <= i < history.len() && (#[trigger] history[i]).course.id == entry.course.id
                ==> unclaimed_credit(history, statuses.push(entry)) + credit_gained(
                statuses,
                history[i],
            ) <= unclaimed_credit(history, statuses),
    decreases history.len(),
{
    if history.len() > 0 {
        let rest = history.drop_last();
        let last = history.last();
        lemma_unclaimed_after_push(rest, statuses, entry);
        lemma_has_course_push(statuses, entry, last.course.id);
        assert forall|i: int|
            0 <= i < history.len() && (#[trigger] history[i]).course.id
                == entry.course.id implies unclaimed_credit(history, statuses.push(entry))
            + credit_gained(statuses, history[i]) <= unclaimed_credit(history, statuses) by {
            if i < history.len() - 1 {
                assert(rest[i] == history[i]);
            }
        }
    }
}

/// A usable replacement is a record of the history whose course the report
/// does not hold.
pub proof fn lemma_usable_replacement(
    history: Seq<CourseStatusView>,
    statuses: Seq<CourseStatusView>,
    replacements: Seq<Seq<char>>,
)
    ensures
        match usable_replacement(history, statuses, replacements) {
            Some(status) => !has_course(statuses, status.course.id) && exists|i: int|
                0 <= i < history.len() && #[trigger] history[i] == status,
            None => true,
        },
    decreases replacements.len(),
{
    if replacements.len() > 0 {
        lemma_usable_replacement(history, statuses, replacements.drop_last());
        if usable_replacement(history, statuses, replacements.drop_last()) is None
            && !has_course(statuses, replacements.last()) && has_course(
            history,
            replacements.last(),
        ) {
            lemma_found_status(history, replacements.last());
        }
    }
}

/// The record that fills the place of a course that the report does not
/// hold is a record of the history whose course the report does not hold;
/// where no record fills the place, the student has no record of the course.
pub proof fn lemma_slot_source(
    handler: BankRuleHandlerView,
    history: Seq<CourseStatusView>,
    statuses: Seq<CourseStatusView>,
    id: Seq<char>,
)
    requires
        !has_course(statuses, id),
    ensures
        match slot_source(handler, history, statuses, id) {
            Some(status) => !has_course(statuses, status.course.id) && exists|i: int|
                0 <= i < history.len() && #[trigger] history[i] == status,
            None => !has_course(history, id),
        },
{
    if has_course(history, id) {
        lemma_found_status(history, id);
    } else {
        lemma_usable_replacement(
            history,
            statuses,
            effective_replacements(id, handler.catalog_replacements, handler.common_replacements),
        );
    }
}

/// Claiming one course keeps the courses of the report distinct, and earns
/// no more credit than leaves the unclaimed credit.
pub proof fn lemma_claim_slot(
    handler: BankRuleHandlerView,
    history: Seq<CourseStatusView>,
    statuses: Seq<CourseStatusView>,
    id: Seq<char>,
)
    ensures
        distinct_courses(statuses) ==> distinct_courses(
            claim_slot(handler, history, statuses, id).statuses,
        ),
        claim_slot(handler, history, statuses, id).gained + unclaimed_credit(
            history,
            claim_slot(handler, history, statuses, id).statuses,
        ) <= unclaimed_credit(history, statuses),
{
    if !has_course(statuses, id) {
        lemma_slot_source(handler, history, statuses, id);
        match slot_source(handler, history, statuses, id) {
            Some(status) => {
                let entry = credited(status, handler.bank_name);
                let i = choose|i: int| 0 <= i < history.len() && #[trigger] history[i] == status;
                lemma_unclaimed_after_push(history, statuses, entry);
                assert(history[i].course.id == entry.course.id);
                if distinct_courses(statuses) {
                    lemma_push_keeps_distinct(statuses, entry);
                }
            },
            None => {
                let entry = placeholder(handler.courses, id, handler.bank_name);
                lemma_placeholder_course(handler.courses, id, handler.bank_name);
                lemma_unclaimed_after_push(history, statuses, entry);
                if distinct_courses(statuses) {
                    lemma_push_keeps_distinct(statuses, entry);
                }
            },
        }
    }
}

/// A placeholder is a record of the course that it stands for.
pub proof fn lemma_placeholder_course(courses: Seq<CourseView>, id: Seq<char>, bank: Seq<char>)
    ensures
        placeholder(courses, id, bank).course.id == id,
{
    if lists_course(courses, id) {
        let k = choose|k: int| 0 <= k < courses.len() && (#[trigger] courses[k]).id == id;
        lemma_found_course(courses, id, k);
    }
}

/// Claiming a list of courses keeps the courses of the report distinct, and
/// earns no more credit than leaves the unclaimed credit.
pub proof fn lemma_claim_list(
    handler: BankRuleHandlerView,
    history: Seq<CourseStatusView>,
    statuses: Seq<CourseStatusView>,
    ids: Seq<Seq<char>>,
)
    ensures
        distinct_courses(statuses) ==> distinct_courses(
            claim_list(handler, history, statuses, ids).statuses,
        ),
        claim_list(handler, history, statuses, ids).gained + unclaimed_credit(
            history,
            claim_list(handler, history, statuses, ids).statuses,
        ) <= unclaimed_credit(history, statuses),
    decreases ids.len(),
{
    if ids.len() > 0 {
        lemma_claim_list(handler, history, statuses, ids.drop_last());
        let before = claim_list(handler, history, statuses, ids.drop_last());
        lemma_claim_slot(handler, history, before.statuses, ids.last());
    }
}

/// The credit of the passed courses among `records`.
pub open spec fn passed_credit(records: Seq<CourseStatusView>) -> nat {
    unclaimed_credit(records, Seq::empty())
}

/// Whether the records `after` are the records `before`, all kept in place,
/// followed by records that are credited to `bank`.
pub open spec fn extended_for(
    before: Seq<CourseStatusView>,
    after: Seq<CourseStatusView>,
    bank: Seq<char>,
) -> bool {
    &&& before.len() <= after.len()
    &&& after.subrange(0, before.len() as int) == before
    &&& forall|i: int|
        before.len() <= i < after.len() ==> (#[trigger] after[i]).bank == Some(bank)
}

/// Whether a claim for `bank` led from the records `before` to the records
/// `after` and earned `gained`: the records of before are all kept, in
/// place; every record that was added is credited to the bank; and the
/// credit earned is the credit of the passed courses among the records
/// added.
pub open spec fn claim_adds(
    before: Seq<CourseStatusView>,
    after: Seq<CourseStatusView>,
    bank: Seq<char>,
    gained: nat,
) -> bool {
    &&& extended_for(before, after, bank)
    &&& gained == passed_credit(after.subrange(before.len() as int, after.len() as int))
}

/// Whether the place of the required course `id` is taken in `statuses`: by
/// a record of the course or of one of its replacements.
pub open spec fn slot_taken(
    handler: BankRuleHandlerView,
    statuses: Seq<CourseStatusView>,
    id: Seq<char>,
) -> bool {
    ||| has_course(statuses, id)
    ||| exists|k: int|
        0 <= k < effective_replacements(
            id,
            handler.catalog_replacements,
            handler.common_replacements,
        ).len() && has_course(
            statuses,
            #[trigger] effective_replacements(
                id,
                handler.catalog_replacements,
                handler.common_replacements,
            )[k],
        )
}

/// A usable replacement is a record of one of the replacements.
pub proof fn lemma_usable_replacement_course(
    history: Seq<CourseStatusView>,
    statuses: Seq<CourseStatusView>,
    replacements: Seq<Seq<char>>,
)
    ensures
        match usable_replacement(history, statuses, replacements) {
            Some(status) => exists|k: int|
                0 <= k < replacements.len() && #[trigger] replacements[k] == status.course.id,
            None => true,
        },
    decreases replacements.len(),
{
    if replacements.len() > 0 {
        let rest = replacements.drop_last();
        lemma_usable_replacement_course(history, statuses, rest);
        match usable_replacement(history, statuses, rest) {
            Some(status) => {
                let k = choose|k: int|
                    0 <= k < rest.len() && #[trigger] rest[k] == status.course.id;
                assert(replacements[k] == status.course.id);
            },
            None => {
                if !has_course(statuses, replacements.last()) && has_course(
                    history,
                    replacements.last(),
                ) {
                    lemma_found_status(history, replacements.last());
                    assert(replacements[replacements.len() - 1] == replacements.last());
                }
            },
        }
    }
}

/// Claiming one course only adds to the report: at most one record, which
/// is credited to the bank and accounts for the credit earned. Afterwards
/// the place of the course is taken.
pub proof fn lemma_claim_slot_adds(
    handler: BankRuleHandlerView,
    history: Seq<CourseStatusView>,
    statuses: Seq<CourseStatusView>,
    id: Seq<char>,
)
    ensures
        claim_adds(
            statuses,
            claim_slot(handler, history, statuses, id).statuses,
            handler.bank_name,
            claim_slot(handler, history, statuses, id).gained,
        ),
        claim_slot(handler, history, statuses, id).statuses.len() <= statuses.len() + 1,
        slot_taken(handler, claim_slot(handler, history, statuses, id).statuses, id),
{
    let after = claim_slot(handler, history, statuses, id).statuses;
    if has_course(statuses, id) {
        lemma_claim_adds_nothing(statuses, handler.bank_name);
    } else {
        lemma_slot_source(handler, history, statuses, id);
        let entry = match slot_source(handler, history, statuses, id) {
            Some(status) => credited(status, handler.bank_name),
            None => placeholder(handler.courses, id, handler.bank_name),
        };
        assert(after == statuses.push(entry));
        lemma_claim_adds_one(statuses, entry, handler.bank_name);
        lemma_has_course_push(statuses, entry, entry.course.id);
        lemma_has_course_push(statuses, entry, id);
        match slot_source(handler, history, statuses, id) {
            Some(status) => {
                if has_course(history, id) {
                    lemma_found_status(history, id);
                } else {
                    let replacements = effective_replacements(
                        id,
                        handler.catalog_replacements,
                        handler.common_replacements,
                    );
                    lemma_usable_replacement_course(history, statuses, replacements);
                    let k = choose|k: int|
                        0 <= k < replacements.len() && #[trigger] replacements[k]
                            == status.course.id;
                    assert(has_course(after, replacements[k]));
                }
            },
            None => {
                lemma_placeholder_course(handler.courses, id, handler.bank_name);
            },
        }
    }
}

/// The credit of the passed courses of two lists of records, one after the
/// other, is the sum of the credit of each.
pub proof fn lemma_passed_credit_concat(first: Seq<CourseStatusView>, second: Seq<CourseStatusView>)
    ensures
        passed_credit(first + second) == passed_credit(first) + passed_credit(second),
    decreases second.len(),
{
    let none = Seq::<CourseStatusView>::empty();
    if second.len() == 0 {
        assert(first + second =~= first);
        assert(unclaimed_credit(second, none) == 0);
    } else {
        lemma_passed_credit_concat(first, second.drop_last());
        assert((first + second).drop_last() =~= first + second.drop_last());
        assert((first + second).last() == second.last());
    }
}

/// Two claims for one bank, one after the other, are a claim for the bank
/// that earns what both earn.
pub proof fn lemma_claim_adds_twice(
    before: Seq<CourseStatusView>,
    between: Seq<CourseStatusView>,
    after: Seq<CourseStatusView>,
    bank: Seq<char>,
    first: nat,
    second: nat,
)
    requires
        claim_adds(before, between, bank, first),
        claim_adds(between, after, bank, second),
    ensures
        claim_adds(before, after, bank, first + second),
{
    let n = before.len() as int;
    let m = between.len() as int;
    let e = after.len() as int;
    assert(after.subrange(0, n) =~= before) by {
        assert forall|i: int| 0 <= i < n implies after.subrange(0, n)[i] == before[i] by {
            assert(after.subrange(0, m)[i] == between[i]);
            assert(between.subrange(0, n)[i] == before[i]);
        }
    }
    assert forall|i: int| n <= i < e implies (#[trigger] after[i]).bank == Some(bank) by {
        if i < m {
            assert(after.subrange(0, m)[i] == between[i]);
        }
    }
    assert(after.subrange(n, e) =~= between.subrange(n, m) + after.subrange(m, e)) by {
        assert forall|i: int| 0 <= i < m - n implies after.subrange(n, e)[i] == between.subrange(
            n,
            m,
        )[i] by {
            assert(after.subrange(0, m)[n + i] == between[n + i]);
        }
    }
    lemma_passed_credit_concat(between.subrange(n, m), after.subrange(m, e));
}

/// A claim that changes nothing earns nothing.
pub proof fn lemma_claim_adds_nothing(statuses: Seq<CourseStatusView>, bank: Seq<char>)
    ensures
        claim_adds(statuses, statuses, bank, 0),
{
    let none = Seq::<CourseStatusView>::empty();
    assert(statuses.subrange(0, statuses.len() as int) =~= statuses);
    assert(statuses.subrange(statuses.len() as int, statuses.len() as int) =~= none);
    assert(unclaimed_credit(none, none) == 0);
}

/// A claim that enters one record credited to the bank earns the credit of
/// the record's course if the course is passed.
pub proof fn lemma_claim_adds_one(
    statuses: Seq<CourseStatusView>,
    entry: CourseStatusView,
    bank: Seq<char>,
)
    requires
        entry.bank == Some(bank),
    ensures
        claim_adds(
            statuses,
            statuses.push(entry),
            bank,
            if status_passed(entry) {
                entry.course.credit
            } else {
                0
            },
        ),
{
    let none = Seq::<CourseStatusView>::empty();
    let after = statuses.push(entry);
    assert(after.subrange(0, statuses.len() as int) =~= statuses);
    let added = after.subrange(statuses.len() as int, after.len() as int);
    assert(added =~= seq![entry]);
    assert(added.drop_last() =~= none);
    assert(added.last() == entry);
    assert(!has_course(none, entry.course.id));
    assert(unclaimed_credit(none, none) == 0);
}

/// A report with more records holds the courses that it held.
pub proof fn lemma_has_course_extends(
    before: Seq<CourseStatusView>,
    after: Seq<CourseStatusView>,
    id: Seq<char>,
)
    requires
        before.len() <= after.len(),
        after.subrange(0, before.len() as int) == before,
        has_course(before, id),
    ensures
        has_course(after, id),
{
    let i = choose|i: int| 0 <= i < before.len() && (#[trigger] before[i]).course.id == id;
    assert(after.subrange(0, before.len() as int)[i] == after[i]);
}

/// Claiming a list of courses only adds to the report: every record that
/// the report held is kept in place, every record added is credited to the
/// bank, and the credit earned is the credit of the passed courses among
/// the records added. Afterwards the place of every course of the list is
/// taken.
pub proof fn lemma_claim_list_adds(
    handler: BankRuleHandlerView,
    history: Seq<CourseStatusView>,
    statuses: Seq<CourseStatusView>,
    ids: Seq<Seq<char>>,
)
    ensures
        claim_adds(
            statuses,
            claim_list(handler, history, statuses, ids).statuses,
            handler.bank_name,
            claim_list(handler, history, statuses, ids).gained,
        ),
        forall|k: int|
            0 <= k < ids.len() ==> slot_taken(
                handler,
                claim_list(handler, history, statuses, ids).statuses,
                #[trigger] ids[k],
            ),
    decreases ids.len(),
{
    if ids.len() == 0 {
        lemma_claim_adds_nothing(statuses, handler.bank_name);
    } else {
        let rest = ids.drop_last();
        lemma_claim_list_adds(handler, history, statuses, rest);
        let before = claim_list(handler, history, statuses, rest);
        lemma_claim_slot_adds(handler, history, before.statuses, ids.last());
        let step = claim_slot(handler, history, before.statuses, ids.last());
        let after = step.statuses;
        lemma_claim_adds_twice(
            statuses,
            before.statuses,
            after,
            handler.bank_name,
            before.gained,
            step.gained,
        );
        assert forall|k: int| 0 <= k < ids.len() implies slot_taken(
            handler,
            after,
            #[trigger] ids[k],
        ) by {
            if k < rest.len() {
                assert(rest[k] == ids[k]);
                assert(slot_taken(handler, before.statuses, rest[k]));
                let id = ids[k];
                if has_course(before.statuses, id) {
                    lemma_has_course_extends(before.statuses, after, id);
                } else {
                    let replacements = effective_replacements(
                        id,
                        handler.catalog_replacements,
                        handler.common_replacements,
                    );
                    let r = choose|r: int|
                        0 <= r < replacements.len() && has_course(
                            before.statuses,
                            #[trigger] replacements[r],
                        );
                    lemma_has_course_extends(before.statuses, after, replacements[r]);
                }
            }
        }
    }
}

/// A claim that earned `gained` raises the credit of the passed courses
/// among the records by `gained`.
pub proof fn lemma_claim_adds_credit(
    before: Seq<CourseStatusView>,
    after: Seq<CourseStatusView>,
    bank: Seq<char>,
    gained: nat,
)
    requires
        claim_adds(before, after, bank, gained),
    ensures
        passed_credit(after) == passed_credit(before) + gained,
{
    let n = before.len() as int;
    let added = after.subrange(n, after.len() as int);
    assert(after =~= before + added) by {
        assert forall|i: int| 0 <= i < n implies after[i] == before[i] by {
            assert(after.subrange(0, n)[i] == after[i]);
        }
    }
    lemma_passed_credit_concat(before, added);
}

/// Whether the record says of its course what its grade says: that the
/// course is complete if the grade passes, and not complete otherwise.
pub open spec fn is_settled(record: CourseStatusView) -> bool {
    record.state == Some(
        if status_passed(record) {
            CourseState::Complete
        } else {
            CourseState::NotComplete
        },
    )
}

/// Whether every record says of its course what its grade says.
pub open spec fn all_settled(records: Seq<CourseStatusView>) -> bool {
    forall|i: int| 0 <= i < records.len() ==> is_settled(#[trigger] records[i])
}

/// Claiming one course enters only a record that says of its course what
/// its grade says.
pub proof fn lemma_claim_slot_settled(
    handler: BankRuleHandlerView,
    history: Seq<CourseStatusView>,
    statuses: Seq<CourseStatusView>,
    id: Seq<char>,
)
    requires
        all_settled(statuses),
    ensures
        all_settled(claim_slot(handler, history, statuses, id).statuses),
{
    let after = claim_slot(handler, history, statuses, id).statuses;
    if !has_course(statuses, id) {
        lemma_slot_source(handler, history, statuses, id);
        let entry = match slot_source(handler, history, statuses, id) {
            Some(status) => credited(status, handler.bank_name),
            None => placeholder(handler.courses, id, handler.bank_name),
        };
        assert(after == statuses.push(entry));
        assert(is_settled(entry));
        assert forall|i: int| 0 <= i < after.len() implies is_settled(#[trigger] after[i]) by {
            if i < statuses.len() {
                assert(after[i] == statuses[i]);
            }
        }
    }
}

/// Claiming a list of courses enters only records that say of their course
/// what their grade says.
pub proof fn lemma_claim_list_settled(
    handler: BankRuleHandlerView,
    history: Seq<CourseStatusView>,
    statuses: Seq<CourseStatusView>,
    ids: Seq<Seq<char>>,
)
    requires
        all_settled(statuses),
    ensures
        all_settled(claim_list(handler, history, statuses, ids).statuses),
    decreases ids.len(),
{
    if ids.len() > 0 {
        lemma_claim_list_settled(handler, history, statuses, ids.drop_last());
        lemma_claim_slot_settled(
            handler,
            history,
            claim_list(handler, history, statuses, ids.drop_last()).statuses,
            ids.last(),
        );
    }
}

/// The place in `history` of the usable replacement among `replacements`.
fn usable_replacement_position(
    history: &Vec<CourseStatus>,
    statuses: &Vec<CourseStatus>,
    replacements: &Vec<CourseId>,
) -> (r: Option<usize>)
    ensures
        match r {
            Some(i) => i < history@.len() && usable_replacement(
                statuses_view(history@),
                statuses_view(statuses@),
                texts_view(replacements@),
            ) == Some(statuses_view(history@)[i as int]),
            None => usable_replacement(
                statuses_view(history@),
                statuses_view(statuses@),
                texts_view(replacements@),
            ) is None,
        },
{
    let ghost records = statuses_view(history@);
    let ghost held = statuses_view(statuses@);
    let ghost all = texts_view(replacements@);
    let mut found: Option<usize> = None;
    let mut k: usize = 0;
    assert(all.take(0) =~= Seq::empty());
    while k < replacements.len()
        invariant
            k <= replacements@.len(),
            records == statuses_view(history@),
            held == statuses_view(statuses@),
            all == texts_view(replacements@),
            match found {
                Some(i) => i < history@.len() && usable_replacement(
                    records,
                    held,
                    all.take(k as int),
                ) == Some(records[i as int]),
                None => usable_replacement(records, held, all.take(k as int)) is None,
            },
        decreases replacements@.len() - k,
    {
        assert(all.take(k + 1).drop_last() =~= all.take(k as int));
        if found.is_none() {
            if position_of_course(statuses, &replacements[k]).is_none() {
                found = position_of_course(history, &replacements[k]);
                proof {
                    if let Some(i) = found {
                        lemma_find_status(records, all[k as int], i as int);
                    }
                }
            }
        }
        k += 1;
    }
    assert(all.take(k as int) =~= all);
    found
}

impl<'a> BankRuleHandler<'a> {
    /// The record that stands in a report for the required course `id`
    /// where the student has no record of it.
    pub fn placeholder_for(&self, id: &CourseId) -> (r: CourseStatus)
        ensures
            r@ == placeholder(self@.courses, id@, self@.bank_name),
    {
        let course = match position_of_listing(self.courses, id) {
            Some(i) => {
                proof {
                    lemma_find_course(self@.courses, id@, i as int);
                }
                self.courses[i].clone()
            },
            None => Course { id: id.clone(), credit: 0, name: String::new() },
        };
        CourseStatus {
            course,
            state: Some(CourseState::NotComplete),
            semester: None,
            grade: None,
            bank: Some(self.bank_name.clone()),
        }
    }

    /// Claims the required course `id` for the bank, adds the credit earned
    /// to `sum_credits`, and says whether the course is passed.
    pub fn claim_course(
        &self,
        history: &Vec<CourseStatus>,
        degree_status: &mut DegreeStatus,
        id: &CourseId,
        sum_credits: &mut Credit,
    ) -> (satisfied: bool)
        requires
            *old(sum_credits) + unclaimed_credit(
                statuses_view(history@),
                old(degree_status)@.course_statuses,
            ) <= u64::MAX,
        ensures
            final(degree_status)@ == (DegreeStatusView {
                course_statuses: claim_slot(
                    self@,
                    statuses_view(history@),
                    old(degree_status)@.course_statuses,
                    id@,
                ).statuses,
                ..old(degree_status)@
            }),
            *final(sum_credits) == *old(sum_credits) + claim_slot(
                self@,
                statuses_view(history@),
                old(degree_status)@.course_statuses,
                id@,
            ).gained,
            satisfied == claim_slot(
                self@,
                statuses_view(history@),
                old(degree_status)@.course_statuses,
                id@,
            ).satisfied,
    {
        let ghost records = statuses_view(history@);
        let ghost held = degree_status@.course_statuses;
        if let Some(i) = position_of_course(&degree_status.course_statuses, id) {
            proof {
                lemma_find_status(held, id@, i as int);
            }
            return degree_status.course_statuses[i].passed();
        }
        let source = match position_of_course(history, id) {
            Some(i) => {
                proof {
                    lemma_find_status(records, id@, i as int);
                }
                Some(i)
            },
            None => {
                let replacements = replacements_for(
                    id,
                    self.catalog_replacements,
                    self.common_replacements,
                );
                usable_replacement_position(history, &degree_status.course_statuses, &replacements)
            },
        };
        assert(match source {
            Some(i) => i < history@.len() && slot_source(self@, records, held, id@) == Some(
                records[i as int],
            ),
            None => slot_source(self@, records, held, id@) is None,
        });
        match source {
            Some(i) => {
                let status = history[i].clone();
                let passed = status.passed();
                proof {
                    lemma_gain_within_unclaimed(records, held, i as int);
                    lemma_slot_source(self@, records, held, id@);
                }
                degree_status.add_course(status, self.bank_name.clone(), sum_credits);
                passed
            },
            None => {
                let entry = self.placeholder_for(id);
                degree_status.course_statuses.push(entry);
                assert(degree_status@.course_statuses =~= held.push(
                    placeholder(self@.courses, id@, self@.bank_name),
                ));
                false
            },
        }
    }

    /// Claims every course of the bank's course list, in order. Returns the
    /// credit that overflows into the bank together with the credit earned,
    /// and whether every course of the list is passed.
    pub fn claim_courses(
        &self,
        history: &Vec<CourseStatus>,
        degree_status: &mut DegreeStatus,
    ) -> (r: (Credit, bool))
        requires
            self.credit_overflow + unclaimed_credit(
                statuses_view(history@),
                old(degree_status)@.course_statuses,
            ) <= u64::MAX,
        ensures
            final(degree_status)@ == (DegreeStatusView {
                course_statuses: claim_list(
                    self@,
                    statuses_view(history@),
                    old(degree_status)@.course_statuses,
                    self@.course_list,
                ).statuses,
                ..old(degree_status)@
            }),
            r.0 == self.credit_overflow + claim_list(
                self@,
                statuses_view(history@),
                old(degree_status)@.course_statuses,
                self@.course_list,
            ).gained,
            r.1 == claim_list(
                self@,
                statuses_view(history@),
                old(degree_status)@.course_statuses,
                self@.course_list,
            ).satisfied,
            claim_adds(
                old(degree_status)@.course_statuses,
                final(degree_status)@.course_statuses,
                self@.bank_name,
                (r.0 - self.credit_overflow) as nat,
            ),
            forall|k: int|
                0 <= k < self@.course_list.len() ==> slot_taken(
                    self@,
                    final(degree_status)@.course_statuses,
                    #[trigger] self@.course_list[k],
                ),
    {
        let ghost records = statuses_view(history@);
        let ghost held = degree_status@.course_statuses;
        let ghost ids = self@.course_list;
        let mut sum_credits: Credit = self.credit_overflow;
        let mut satisfied = true;
        let mut k: usize = 0;
        assert(ids.take(0) =~= Seq::empty());
        while k < self.course_list.len()
            invariant
                k <= self.course_list@.len(),
                records == statuses_view(history@),
                held == old(degree_status)@.course_statuses,
                ids == self@.course_list,
                self.credit_overflow + unclaimed_credit(records, held) <= u64::MAX,
                degree_status@ == (DegreeStatusView {
                    course_statuses: claim_list(self@, records, held, ids.take(k as int)).statuses,
                    ..old(degree_status)@
                }),
                sum_credits == self.credit_overflow + claim_list(
                    self@,
                    records,
                    held,
                    ids.take(k as int),
                ).gained,
                satisfied == claim_list(self@, records, held, ids.take(k as int)).satisfied,
            decreases self.course_list@.len() - k,
        {
            proof {
                assert(ids.take(k + 1).drop_last() =~= ids.take(k as int));
                lemma_claim_list(self@, records, held, ids.take(k as int));
            }
            let passed = self.claim_course(
                history,
                degree_status,
                &self.course_list[k],
                &mut sum_credits,
            );
            satisfied = satisfied && passed;
            k += 1;
        }
        assert(ids.take(k as int) =~= ids);
        proof {
            lemma_claim_list_adds(self@, records, held, ids);
        }
        (sum_credits, satisfied)
    }
}

} // verus!
