//! Which catalogs can be evaluated, and why the others cannot.

use vstd::prelude::*;
use crate::bank_rule::iterate_courses::{passed_credit, unclaimed_credit};
use crate::bank_rule::specialization_groups::{declared_credit, lemma_declared_credit_prefix};
use crate::catalog::{
    banks_view, distinct_bank_names, groups_view, has_bank_named, overflows_view, Catalog,
    CatalogView, CourseBank, CourseBankView, CreditOverflow, CreditOverflowView, Rule,
    SpecializationGroup,
};
use crate::course::{has_course, statuses_view, CourseStatus, CourseStatusView, Credit};
use crate::evaluation::declared_total;

verus! {

/// Why a catalog cannot be evaluated.
#[derive(Clone, Copy, Debug, PartialEq, Eq, Structural)]
pub enum EngineError {
    /// Two banks of the catalog have the same name.
    DuplicateBank,
    /// An overflow edge names a bank that the catalog does not define.
    UnknownBank,
    /// The student's passed credit and the credit that the groups declare
    /// are together beyond the range of a credit amount.
    CreditOverflow,
}

/// Whether both ends of the edge are banks of `banks`.
pub open spec fn edge_known(banks: Seq<CourseBankView>, edge: CreditOverflowView) -> bool {
    has_bank_named(banks, edge.from) && has_bank_named(banks, edge.to)
}

/// Whether the source of the edge comes before its target in `banks`.
pub open spec fn edge_forward(banks: Seq<CourseBankView>, edge: CreditOverflowView) -> bool {
    exists|i: int, j: int|
        0 <= i < j < banks.len() && (#[trigger] banks[i]).name == edge.from && (
        #[trigger] banks[j]).name == edge.to
}

/// Whether both ends of every edge are banks of `banks`.
pub open spec fn edges_known(banks: Seq<CourseBankView>, edges: Seq<CreditOverflowView>) -> bool {
    forall|k: int| 0 <= k < edges.len() ==> edge_known(banks, #[trigger] edges[k])
}

/// Whether the source of every edge comes before its target in `banks`.
pub open spec fn edges_forward(banks: Seq<CourseBankView>, edges: Seq<CreditOverflowView>)
    -> bool {
    forall|k: int| 0 <= k < edges.len() ==> edge_forward(banks, #[trigger] edges[k])
}

/// Why `history` cannot be evaluated against `catalog`, if it cannot.
pub open spec fn configuration_error(catalog: CatalogView, history: Seq<CourseStatusView>)
    -> Option<EngineError> {
    if !distinct_bank_names(catalog.course_banks) {
        Some(EngineError::DuplicateBank)
    } else if !edges_known(catalog.course_banks, catalog.credit_overflows) {
        Some(EngineError::UnknownBank)
    } else if passed_credit(history) + declared_total(catalog.course_banks) > u64::MAX {
        Some(EngineError::CreditOverflow)
    } else {
        None
    }
}

/// The first place in `banks` of a bank named `name`.
pub fn position_of_bank_named(banks: &Vec<CourseBank>, name: &String) -> (r: Option<usize>)
    ensures
        match r {
            Some(i) => {
                &&& i < banks@.len()
                &&& banks_view(banks@)[i as int].name == name@
                &&& forall|j: int| 0 <= j < i ==> (#[trigger] banks_view(banks@)[j]).name != name@
            },
            None => !has_bank_named(banks_view(banks@), name@),
        },
{
    let mut i: usize = 0;
    while i < banks.len()
        invariant
            i <= banks@.len(),
            forall|j: int| 0 <= j < i ==> (#[trigger] banks_view(banks@)[j]).name != name@,
        decreases banks@.len() - i,
    {
        if banks[i].name == *name {
            return Some(i);
        }
        i += 1;
    }
    None
}

/// Whether no two banks have the same name.
pub fn bank_names_distinct(banks: &Vec<CourseBank>) -> (r: bool)
    ensures
        r == distinct_bank_names(banks_view(banks@)),
{
    let ghost all = banks_view(banks@);
    let mut i: usize = 0;
    while i < banks.len()
        invariant
            i <= banks@.len(),
            all == banks_view(banks@),
            forall|a: int, b: int|
                0 <= a < b < i ==> (#[trigger] all[a]).name != (#[trigger] all[b]).name,
        decreases banks@.len() - i,
    {
        match position_of_bank_named(banks, &banks[i].name) {
            Some(first) => {
                if first < i {
                    assert(all[first as int].name == all[i as int].name);
                    return false;
                }
            },
            None => {
                assert(all[i as int].name == banks@[i as int].name@);
            },
        }
        i += 1;
    }
    true
}

/// Whether both ends of every edge are banks of `banks`.
pub fn overflows_known(banks: &Vec<CourseBank>, edges: &Vec<CreditOverflow>) -> (r: bool)
    ensures
        r == edges_known(banks_view(banks@), overflows_view(edges@)),
{
    let mut k: usize = 0;
    while k < edges.len()
        invariant
            k <= edges@.len(),
            forall|j: int|
                0 <= j < k ==> edge_known(banks_view(banks@), #[trigger] overflows_view(edges@)[j]),
        decreases edges@.len() - k,
    {
        let known = position_of_bank_named(banks, &edges[k].from).is_some()
            && position_of_bank_named(banks, &edges[k].to).is_some();
        if !known {
            assert(!edge_known(banks_view(banks@), overflows_view(edges@)[k as int]));
            return false;
        }
        k += 1;
    }
    true
}

/// The last place in `banks` of a bank named `name`.
pub fn last_position_of_bank_named(banks: &Vec<CourseBank>, name: &String) -> (r: Option<usize>)
    ensures
        match r {
            Some(i) => {
                &&& i < banks@.len()
                &&& banks_view(banks@)[i as int].name == name@
                &&& forall|j: int|
                    i < j < banks@.len() ==> (#[trigger] banks_view(banks@)[j]).name != name@
            },
            None => !has_bank_named(banks_view(banks@), name@),
        },
{
    let mut found: Option<usize> = None;
    let mut k: usize = 0;
    while k < banks.len()
        invariant
            k <= banks@.len(),
            match found {
                Some(i) => {
                    &&& i < k
                    &&& banks_view(banks@)[i as int].name == name@
                    &&& forall|j: int|
                        i < j < k ==> (#[trigger] banks_view(banks@)[j]).name != name@
                },
                None => forall|j: int|
                    0 <= j < k ==> (#[trigger] banks_view(banks@)[j]).name != name@,
            },
        decreases banks@.len() - k,
    {
        if banks[k].name == *name {
            found = Some(k);
        }
        k += 1;
    }
    found
}

/// Whether the source of every edge comes before its target in `banks`: a
/// catalog that declares its banks so lets every surplus reach the banks
/// that its edges name. A bank receives only what banks before it have
/// recorded, so an edge that leads backward, or from a bank to itself,
/// transfers nothing.
pub fn overflows_forward(banks: &Vec<CourseBank>, edges: &Vec<CreditOverflow>) -> (r: bool)
    ensures
        r == edges_forward(banks_view(banks@), overflows_view(edges@)),
{
    let ghost all = banks_view(banks@);
    let mut k: usize = 0;
    while k < edges.len()
        invariant
            k <= edges@.len(),
            all == banks_view(banks@),
            forall|j: int| 0 <= j < k ==> edge_forward(all, #[trigger] overflows_view(edges@)[j]),
        decreases edges@.len() - k,
    {
        let ghost edge = overflows_view(edges@)[k as int];
        let from = position_of_bank_named(banks, &edges[k].from);
        let to = last_position_of_bank_named(banks, &edges[k].to);
        let forward = match (from, to) {
            (Some(i), Some(j)) => i < j,
            _ => false,
        };
        if !forward {
            proof {
                if edge_forward(all, edge) {
                    let (a, b) = choose|a: int, b: int|
                        0 <= a < b < all.len() && (#[trigger] all[a]).name == edge.from && (
                        #[trigger] all[b]).name == edge.to;
                    assert(all[a].name == edge.from && all[b].name == edge.to);
                    assert(from is Some && to is Some);
                    assert(from->0 <= a);
                    assert(b <= to->0);
                }
            }
            return false;
        } else {
            assert(all[from->0 as int].name == edge.from && all[to->0 as int].name == edge.to);
        }
        k += 1;
    }
    true
}

/// The unclaimed credit of the beginning of a history is within that of the
/// whole history.
pub proof fn lemma_unclaimed_prefix(
    history: Seq<CourseStatusView>,
    statuses: Seq<CourseStatusView>,
    k: int,
)
    requires
        0 <= k <= history.len(),
    ensures
        unclaimed_credit(history.take(k), statuses) <= unclaimed_credit(history, statuses),
    decreases history.len() - k,
{
    if k < history.len() {
        lemma_unclaimed_prefix(history, statuses, k + 1);
        assert(history.take(k + 1).drop_last() =~= history.take(k));
    } else {
        assert(history.take(k) =~= history);
    }
}

/// What the groups of the first banks declare is within what the groups of
/// all banks declare.
pub proof fn lemma_declared_total_prefix(banks: Seq<CourseBankView>, k: int)
    requires
        0 <= k <= banks.len(),
    ensures
        declared_total(banks.take(k)) <= declared_total(banks),
    decreases banks.len() - k,
{
    if k < banks.len() {
        lemma_declared_total_prefix(banks, k + 1);
        assert(banks.take(k + 1).drop_last() =~= banks.take(k));
    } else {
        assert(banks.take(k) =~= banks);
    }
}

/// The credit of all passed courses of `history`, if it is within the range
/// of a credit amount.
pub fn passed_credit_of(history: &Vec<CourseStatus>) -> (r: Option<Credit>)
    ensures
        match r {
            Some(credit) => credit == passed_credit(statuses_view(history@)),
            None => passed_credit(statuses_view(history@)) > u64::MAX,
        },
{
    let ghost records = statuses_view(history@);
    let ghost none = Seq::<CourseStatusView>::empty();
    let mut sum: Credit = 0;
    let mut k: usize = 0;
    assert(records.take(0) =~= Seq::empty());
    while k < history.len()
        invariant
            k <= history@.len(),
            records == statuses_view(history@),
            none == Seq::<CourseStatusView>::empty(),
            sum == unclaimed_credit(records.take(k as int), none),
        decreases history@.len() - k,
    {
        proof {
            assert(records.take(k + 1).drop_last() =~= records.take(k as int));
            assert(records.take(k + 1).last() == records[k as int]);
            assert(!has_course(none, records[k as int].course.id));
            lemma_unclaimed_prefix(records, none, k + 1);
        }
        if history[k].passed() {
            if history[k].course.credit > u64::MAX - sum {
                return None;
            }
            sum = sum + history[k].course.credit;
        }
        k += 1;
    }
    assert(records.take(k as int) =~= records);
    Some(sum)
}

/// The sum of what `groups` declare as their credit, if it is within the
/// range of a credit amount.
pub fn declared_credit_of(groups: &Vec<SpecializationGroup>) -> (r: Option<Credit>)
    ensures
        match r {
            Some(credit) => credit == declared_credit(groups_view(groups@)),
            None => declared_credit(groups_view(groups@)) > u64::MAX,
        },
{
    let ghost all = groups_view(groups@);
    let mut sum: Credit = 0;
    let mut k: usize = 0;
    assert(all.take(0) =~= Seq::empty());
    while k < groups.len()
        invariant
            k <= groups@.len(),
            all == groups_view(groups@),
            sum == declared_credit(all.take(k as int)),
        decreases groups@.len() - k,
    {
        proof {
            assert(all.take(k + 1).drop_last() =~= all.take(k as int));
            lemma_declared_credit_prefix(all, k + 1);
        }
        if groups[k].credit > u64::MAX - sum {
            return None;
        }
        sum = sum + groups[k].credit;
        k += 1;
    }
    assert(all.take(k as int) =~= all);
    Some(sum)
}

/// The credit that the groups of all `banks` declare, if it is within the
/// range of a credit amount.
pub fn declared_total_of(banks: &Vec<CourseBank>) -> (r: Option<Credit>)
    ensures
        match r {
            Some(credit) => credit == declared_total(banks_view(banks@)),
            None => declared_total(banks_view(banks@)) > u64::MAX,
        },
{
    let ghost all = banks_view(banks@);
    let mut sum: Credit = 0;
    let mut k: usize = 0;
    assert(all.take(0) =~= Seq::empty());
    while k < banks.len()
        invariant
            k <= banks@.len(),
            all == banks_view(banks@),
            sum == declared_total(all.take(k as int)),
        decreases banks@.len() - k,
    {
        proof {
            assert(all.take(k + 1).drop_last() =~= all.take(k as int));
            lemma_declared_total_prefix(all, k + 1);
        }
        match &banks[k].rule {
            Rule::SpecializationGroups(groups) => {
                match declared_credit_of(groups) {
                    Some(declared) => {
                        if declared > u64::MAX - sum {
                            return None;
                        }
                        sum = sum + declared;
                    },
                    None => {
                        return None;
                    },
                }
            },
            _ => {},
        }
        k += 1;
    }
    assert(all.take(k as int) =~= all);
    Some(sum)
}

/// Checks that `history` can be evaluated against `catalog`.
pub fn check_configuration(catalog: &Catalog, history: &Vec<CourseStatus>) -> (r: Result<
    (),
    EngineError,
>)
    ensures
        match r {
            Ok(_) => configuration_error(catalog@, statuses_view(history@)) is None,
            Err(e) => configuration_error(catalog@, statuses_view(history@)) == Some(e),
        },
{
    if !bank_names_distinct(&catalog.course_banks) {
        return Err(EngineError::DuplicateBank);
    }
    if !overflows_known(&catalog.course_banks, &catalog.credit_overflows) {
        return Err(EngineError::UnknownBank);
    }
    let passed = passed_credit_of(history);
    let declared = declared_total_of(&catalog.course_banks);
    match (passed, declared) {
        (Some(p), Some(d)) => {
            if p > u64::MAX - d {
                Err(EngineError::CreditOverflow)
            } else {
                Ok(())
            }
        },
        _ => Err(EngineError::CreditOverflow),
    }
}

} // verus!
