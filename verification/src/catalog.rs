//! The degree catalog: its course banks with their rules, the table that
//! assigns courses to banks, the overflow edges and the replacement tables.

use vstd::prelude::*;
use crate::course::{courses_view, texts_view, Course, CourseId, CourseView, Credit};

verus! {

/// How the courses of a mandatory clause combine.
#[derive(Clone, Copy, Debug, PartialEq, Eq, Structural)]
pub enum Logic {
    /// At least one of the courses must be passed.
    OR,
    /// Every course must be passed.
    AND,
}

/// A group of a specialization bank.
#[derive(Clone, Debug)]
pub struct SpecializationGroup {
    pub name: String,
    pub credit: Credit,
    pub mandatory: Option<(Vec<CourseId>, Logic)>,
}

/// The mathematical value of a [`SpecializationGroup`].
pub struct SpecializationGroupView {
    pub name: Seq<char>,
    pub credit: nat,
    pub mandatory: Option<(Seq<Seq<char>>, Logic)>,
}

impl View for SpecializationGroup {
    type V = SpecializationGroupView;

    open spec fn view(&self) -> SpecializationGroupView {
        SpecializationGroupView {
            name: self.name@,
            credit: self.credit as nat,
            mandatory: match self.mandatory {
                Some((courses, logic)) => Some((texts_view(courses@), logic)),
                None => None,
            },
        }
    }
}

/// The values of a list of groups, in order.
pub open spec fn groups_view(groups: Seq<SpecializationGroup>) -> Seq<SpecializationGroupView> {
    Seq::new(groups.len(), |i: int| groups[i]@)
}

/// The values of a list of chains, in order.
pub open spec fn chains_view(chains: Seq<Vec<CourseId>>) -> Seq<Seq<Seq<char>>> {
    Seq::new(chains.len(), |i: int| texts_view(chains[i]@))
}

/// The rule by which a bank is fulfilled.
#[derive(Clone, Debug)]
pub enum Rule {
    /// Every course of the bank must be taken.
    All,
    /// Any courses of the bank count, up to the bank's credit.
    Accumulate,
    /// As `Accumulate`, and one of the chains must be passed in full.
    Chains(Vec<Vec<CourseId>>),
    /// Credit is earned group by group.
    SpecializationGroups(Vec<SpecializationGroup>),
    /// With `true` the bank accumulates its courses; with `false` it claims
    /// no course and holds only the credit that overflows into it.
    Wildcard(bool),
    /// Courses of the institution-wide list of enrichment courses.
    Malag,
    /// Courses of the list of physical-education courses.
    Sport,
}

/// The mathematical value of a [`Rule`].
pub enum RuleView {
    All,
    Accumulate,
    Chains(Seq<Seq<Seq<char>>>),
    SpecializationGroups(Seq<SpecializationGroupView>),
    Wildcard(bool),
    Malag,
    Sport,
}

impl View for Rule {
    type V = RuleView;

    open spec fn view(&self) -> RuleView {
        match self {
            Rule::All => RuleView::All,
            Rule::Accumulate => RuleView::Accumulate,
            Rule::Chains(chains) => RuleView::Chains(chains_view(chains@)),
            Rule::SpecializationGroups(groups) => RuleView::SpecializationGroups(
                groups_view(groups@),
            ),
            Rule::Wildcard(accumulate) => RuleView::Wildcard(*accumulate),
            Rule::Malag => RuleView::Malag,
            Rule::Sport => RuleView::Sport,
        }
    }
}

/// A named requirement of the catalog.
#[derive(Clone, Debug)]
pub struct CourseBank {
    pub name: String,
    pub rule: Rule,
    pub credit: Credit,
    /// What the report says where the bank's rule is not met.
    pub message: String,
}

/// The mathematical value of a [`CourseBank`].
pub struct CourseBankView {
    pub name: Seq<char>,
    pub rule: RuleView,
    pub credit: nat,
    pub message: Seq<char>,
}

impl View for CourseBank {
    type V = CourseBankView;

    open spec fn view(&self) -> CourseBankView {
        CourseBankView {
            name: self.name@,
            rule: self.rule@,
            credit: self.credit as nat,
            message: self.message@,
        }
    }
}

/// The values of a list of banks, in order.
pub open spec fn banks_view(banks: Seq<CourseBank>) -> Seq<CourseBankView> {
    Seq::new(banks.len(), |i: int| banks[i]@)
}

/// Whether one of `banks` is named `name`.
pub open spec fn has_bank_named(banks: Seq<CourseBankView>, name: Seq<char>) -> bool {
    exists|i: int| 0 <= i < banks.len() && (#[trigger] banks[i]).name == name
}

/// No two banks have the same name.
pub open spec fn distinct_bank_names(banks: Seq<CourseBankView>) -> bool {
    forall|i: int, j: int|
        0 <= i < j < banks.len() ==> (#[trigger] banks[i]).name != (#[trigger] banks[j]).name
}

/// A course of the catalog with the banks that it may be credited to.
#[derive(Clone, Debug)]
pub struct CourseTableRow {
    pub id: CourseId,
    pub course_banks: Vec<String>,
}

/// The mathematical value of a [`CourseTableRow`].
pub struct CourseTableRowView {
    pub id: Seq<char>,
    pub course_banks: Seq<Seq<char>>,
}

impl View for CourseTableRow {
    type V = CourseTableRowView;

    open spec fn view(&self) -> CourseTableRowView {
        CourseTableRowView { id: self.id@, course_banks: texts_view(self.course_banks@) }
    }
}

/// The values of a course table, in order.
pub open spec fn table_view(rows: Seq<CourseTableRow>) -> Seq<CourseTableRowView> {
    Seq::new(rows.len(), |i: int| rows[i]@)
}

/// An edge along which the credit that the bank `from` cannot use is offered
/// to the bank `to`.
#[derive(Clone, Debug)]
pub struct CreditOverflow {
    pub from: String,
    pub to: String,
}

/// The mathematical value of a [`CreditOverflow`].
pub struct CreditOverflowView {
    pub from: Seq<char>,
    pub to: Seq<char>,
}

impl View for CreditOverflow {
    type V = CreditOverflowView;

    open spec fn view(&self) -> CreditOverflowView {
        CreditOverflowView { from: self.from@, to: self.to@ }
    }
}

/// The values of a list of overflow edges, in order.
pub open spec fn overflows_view(edges: Seq<CreditOverflow>) -> Seq<CreditOverflowView> {
    Seq::new(edges.len(), |i: int| edges[i]@)
}

/// The courses that may stand in for one course.
#[derive(Clone, Debug)]
pub struct OptionalReplacements {
    pub course: CourseId,
    pub replacements: Vec<CourseId>,
    /// In a catalog's own table: the institution-wide replacements of the
    /// course do not apply beside these.
    pub exclusive: bool,
}

/// The mathematical value of an [`OptionalReplacements`].
pub struct OptionalReplacementsView {
    pub course: Seq<char>,
    pub replacements: Seq<Seq<char>>,
    pub exclusive: bool,
}

impl View for OptionalReplacements {
    type V = OptionalReplacementsView;

    open spec fn view(&self) -> OptionalReplacementsView {
        OptionalReplacementsView {
            course: self.course@,
            replacements: texts_view(self.replacements@),
            exclusive: self.exclusive,
        }
    }
}

/// The values of a replacement table, in order.
pub open spec fn replacements_view(table: Seq<OptionalReplacements>) -> Seq<
    OptionalReplacementsView,
> {
    Seq::new(table.len(), |i: int| table[i]@)
}

/// The key under which a catalog is stored: the twelve bytes of its object
/// identifier.
#[derive(Clone, Copy, Debug, PartialEq, Eq)]
pub struct CatalogId {
    pub bytes: [u8; 12],
}

/// A degree catalog.
#[derive(Clone, Debug)]
pub struct Catalog {
    pub id: CatalogId,
    pub name: String,
    pub course_banks: Vec<CourseBank>,
    pub course_table: Vec<CourseTableRow>,
    pub credit_overflows: Vec<CreditOverflow>,
    pub catalog_replacements: Vec<OptionalReplacements>,
}

/// The mathematical value of a [`Catalog`]: what an evaluation reads of it.
pub struct CatalogView {
    pub name: Seq<char>,
    pub course_banks: Seq<CourseBankView>,
    pub course_table: Seq<CourseTableRowView>,
    pub credit_overflows: Seq<CreditOverflowView>,
    pub catalog_replacements: Seq<OptionalReplacementsView>,
}

impl View for Catalog {
    type V = CatalogView;

    open spec fn view(&self) -> CatalogView {
        CatalogView {
            name: self.name@,
            course_banks: banks_view(self.course_banks@),
            course_table: table_view(self.course_table@),
            credit_overflows: overflows_view(self.credit_overflows@),
            catalog_replacements: replacements_view(self.catalog_replacements@),
        }
    }
}

/// What an evaluation reads besides the catalog and the student's history.
#[derive(Debug)]
pub struct ReferenceData {
    /// The courses as the institution lists them.
    pub courses: Vec<Course>,
    /// The institution-wide list of enrichment courses.
    pub malag_courses: Vec<CourseId>,
    /// The list of physical-education courses.
    pub sport_courses: Vec<CourseId>,
    /// The institution-wide replacement table.
    pub common_replacements: Vec<OptionalReplacements>,
}

/// The mathematical value of a [`ReferenceData`].
pub struct ReferenceDataView {
    pub courses: Seq<CourseView>,
    pub malag_courses: Seq<Seq<char>>,
    pub sport_courses: Seq<Seq<char>>,
    pub common_replacements: Seq<OptionalReplacementsView>,
}

impl View for ReferenceData {
    type V = ReferenceDataView;

    open spec fn view(&self) -> ReferenceDataView {
        ReferenceDataView {
            courses: courses_view(self.courses@),
            malag_courses: texts_view(self.malag_courses@),
            sport_courses: texts_view(self.sport_courses@),
            common_replacements: replacements_view(self.common_replacements@),
        }
    }
}

/// What a user sees of the catalog that they chose.
#[derive(Clone, Debug)]
pub struct DisplayCatalog {
    pub id: CatalogId,
    pub name: String,
}

impl DisplayCatalog {
    /// What a user sees of `catalog`.
    pub fn from_catalog(catalog: &Catalog) -> (r: DisplayCatalog)
        ensures
            r.id == catalog.id,
            r.name@ == catalog.name@,
    {
        DisplayCatalog { id: catalog.id, name: catalog.name.clone() }
    }
}

/// Whether `name` occurs in `names`.
pub fn contains_text(names: &Vec<String>, name: &String) -> (r: bool)
    ensures
        r == texts_view(names@).contains(name@),
{
    let mut i: usize = 0;
    while i < names.len()
        invariant
            i <= names@.len(),
            forall|j: int| 0 <= j < i ==> #[trigger] texts_view(names@)[j] != name@,
        decreases names@.len() - i,
    {
        if names[i] == *name {
            assert(texts_view(names@)[i as int] == name@);
            return true;
        }
        i += 1;
    }
    false
}

/// The courses that the table assigns to `bank`, in the table's order.
pub open spec fn course_list_for_bank(table: Seq<CourseTableRowView>, bank: Seq<char>) -> Seq<
    Seq<char>,
>
    decreases table.len(),
{
    if table.len() == 0 {
        Seq::empty()
    } else {
        let before = course_list_for_bank(table.drop_last(), bank);
        if table.last().course_banks.contains(bank) {
            before.push(table.last().id)
        } else {
            before
        }
    }
}

impl Catalog {
    /// The courses that the catalog assigns to the bank `bank_name`, in the
    /// order of its course table.
    pub fn course_list(&self, bank_name: &String) -> (r: Vec<CourseId>)
        ensures
            texts_view(r@) == course_list_for_bank(self@.course_table, bank_name@),
    {
        let mut list: Vec<CourseId> = Vec::new();
        let mut i: usize = 0;
        assert(self@.course_table.take(0) =~= Seq::empty());
        assert(texts_view(list@) =~= Seq::empty());
        while i < self.course_table.len()
            invariant
                i <= self.course_table@.len(),
                texts_view(list@) == course_list_for_bank(
                    self@.course_table.take(i as int),
                    bank_name@,
                ),
            decreases self.course_table@.len() - i,
        {
            let ghost before = texts_view(list@);
            assert(self@.course_table.take(i + 1).drop_last() =~= self@.course_table.take(
                i as int,
            ));
            if contains_text(&self.course_table[i].course_banks, bank_name) {
                list.push(self.course_table[i].id.clone());
                assert(texts_view(list@) =~= before.push(self.course_table@[i as int].id@));
            }
            i += 1;
        }
        assert(self@.course_table.take(i as int) =~= self@.course_table);
        list
    }
}

} // verus!
