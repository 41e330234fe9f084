//! The report of one evaluation: the courses with the bank that each was
//! credited to, and what every bank of the catalog requires and has received.

use vstd::prelude::*;
use crate::course::{
    clone_text_option, has_course, position_of_course, status_passed, statuses_view,
    text_option_view, texts_view, CourseId, CourseState, CourseStatus, CourseStatusView, Credit,
};

verus! {

/// What one course bank requires and how much of it is fulfilled.
#[derive(Debug)]
pub struct Requirement {
    pub course_bank_name: String,
    pub credit_requirment: Credit,
    pub credit_complete: Credit,
    pub message: Option<String>,
}

/// The mathematical value of a [`Requirement`].
pub struct RequirementView {
    pub course_bank_name: Seq<char>,
    pub credit_requirment: nat,
    pub credit_complete: nat,
    pub message: Option<Seq<char>>,
}

impl View for Requirement {
    type V = RequirementView;

    open spec fn view(&self) -> RequirementView {
        RequirementView {
            course_bank_name: self.course_bank_name@,
            credit_requirment: self.credit_requirment as nat,
            credit_complete: self.credit_complete as nat,
            message: text_option_view(self.message),
        }
    }
}

impl Clone for Requirement {
    fn clone(&self) -> (r: Self)
        ensures
            r@ == self@,
    {
        Requirement {
            course_bank_name: self.course_bank_name.clone(),
            credit_requirment: self.credit_requirment,
            credit_complete: self.credit_complete,
            message: clone_text_option(&self.message),
        }
    }
}

impl Requirement {
    /// A requirement of `credit_requirment` for the bank `bank_name`, with
    /// nothing completed and no message.
    pub fn create(bank_name: String, credit_requirment: Credit) -> (r: Requirement)
        ensures
            r@ == (RequirementView {
                course_bank_name: bank_name@,
                credit_requirment: credit_requirment as nat,
                credit_complete: 0,
                message: None,
            }),
    {
        Requirement {
            course_bank_name: bank_name,
            credit_requirment,
            credit_complete: 0,
            message: None,
        }
    }

    /// The same requirement with `credit_complete` as the completed credit.
    pub fn with_credits(self, credit_complete: Credit) -> (r: Requirement)
        ensures
            r@ == (RequirementView { credit_complete: credit_complete as nat, ..self@ }),
    {
        let mut requirement = self;
        requirement.credit_complete = credit_complete;
        requirement
    }

    /// The same requirement with `msg` as its message.
    pub fn with_message(self, msg: String) -> (r: Requirement)
        ensures
            r@ == (RequirementView { message: Some(msg@), ..self@ }),
    {
        let mut requirement = self;
        requirement.message = Some(msg);
        requirement
    }
}

/// The values of a list of requirements, in order.
pub open spec fn requirements_view(requirements: Seq<Requirement>) -> Seq<RequirementView> {
    Seq::new(requirements.len(), |i: int| requirements[i]@)
}

/// The outcome of one evaluation.
#[derive(Debug)]
pub struct DegreeStatus {
    pub course_statuses: Vec<CourseStatus>,
    pub course_bank_requirements: Vec<Requirement>,
    pub credit_overflow_msgs: Vec<String>,
    pub total_credit: Credit,
}

/// The mathematical value of a [`DegreeStatus`].
pub struct DegreeStatusView {
    pub course_statuses: Seq<CourseStatusView>,
    pub course_bank_requirements: Seq<RequirementView>,
    pub credit_overflow_msgs: Seq<Seq<char>>,
    pub total_credit: nat,
}

impl View for DegreeStatus {
    type V = DegreeStatusView;

    open spec fn view(&self) -> DegreeStatusView {
        DegreeStatusView {
            course_statuses: statuses_view(self.course_statuses@),
            course_bank_requirements: requirements_view(self.course_bank_requirements@),
            credit_overflow_msgs: texts_view(self.credit_overflow_msgs@),
            total_credit: self.total_credit as nat,
        }
    }
}

/// The report before any bank is evaluated.
pub open spec fn empty_degree_status() -> DegreeStatusView {
    DegreeStatusView {
        course_statuses: Seq::empty(),
        course_bank_requirements: Seq::empty(),
        credit_overflow_msgs: Seq::empty(),
        total_credit: 0,
    }
}

/// The record `status` as a bank enters it in a report: credited to `bank`,
/// complete if passed and not complete otherwise.
pub open spec fn credited(status: CourseStatusView, bank: Seq<char>) -> CourseStatusView {
    CourseStatusView {
        course: status.course,
        state: Some(
            if status_passed(status) {
                CourseState::Complete
            } else {
                CourseState::NotComplete
            },
        ),
        semester: status.semester,
        grade: status.grade,
        bank: Some(bank),
    }
}

/// The records of a report after `bank` has claimed `status`: unchanged where
/// the report already holds the course, else with the credited record added.
pub open spec fn with_course(
    statuses: Seq<CourseStatusView>,
    status: CourseStatusView,
    bank: Seq<char>,
) -> Seq<CourseStatusView> {
    if has_course(statuses, status.course.id) {
        statuses
    } else {
        statuses.push(credited(status, bank))
    }
}

/// The credit that a bank earns by claiming `status`: that of the course if
/// the report does not hold it yet and the student passed it, else none.
pub open spec fn credit_gained(statuses: Seq<CourseStatusView>, status: CourseStatusView) -> nat {
    if !has_course(statuses, status.course.id) && status_passed(status) {
        status.course.credit
    } else {
        0
    }
}

/// No course occurs twice among the records.
pub open spec fn distinct_courses(statuses: Seq<CourseStatusView>) -> bool {
    forall|i: int, j: int|
        0 <= i < j < statuses.len() ==> (#[trigger] statuses[i]).course.id != (
        #[trigger] statuses[j]).course.id
}

/// Adding a record of a course that the records do not hold keeps the courses
/// distinct.
pub proof fn lemma_push_keeps_distinct(statuses: Seq<CourseStatusView>, status: CourseStatusView)
    requires
        distinct_courses(statuses),
        !has_course(statuses, status.course.id),
    ensures
        distinct_courses(statuses.push(status)),
{
    let after = statuses.push(status);
    assert forall|i: int, j: int| 0 <= i < j < after.len() implies (#[trigger] after[i]).course.id
        != (#[trigger] after[j]).course.id by {
        if j == statuses.len() {
            assert(statuses[i].course.id != status.course.id);
        } else {
            assert(after[i] == statuses[i] && after[j] == statuses[j]);
        }
    }
}

impl Default for DegreeStatus {
    fn default() -> (r: DegreeStatus)
        ensures
            r@ == empty_degree_status(),
    {
        DegreeStatus::new()
    }
}

impl DegreeStatus {
    /// An empty report.
    pub fn new() -> (r: DegreeStatus)
        ensures
            r@ == empty_degree_status(),
    {
        let r = DegreeStatus {
            course_statuses: Vec::new(),
            course_bank_requirements: Vec::new(),
            credit_overflow_msgs: Vec::new(),
            total_credit: 0,
        };
        assert(r@.course_statuses =~= Seq::empty());
        assert(r@.course_bank_requirements =~= Seq::empty());
        assert(r@.credit_overflow_msgs =~= Seq::empty());
        r
    }

    /// Whether the report holds a record of the course `id`.
    pub fn contains_course(&self, id: &CourseId) -> (r: bool)
        ensures
            r == has_course(self@.course_statuses, id@),
    {
        match position_of_course(&self.course_statuses, id) {
            Some(_) => true,
            None => false,
        }
    }

    /// Credits `course_status` to the bank `bank_name`, unless the report
    /// already holds a record of that course. Where the record is added and
    /// the student passed the course, its credit is added to `sum_credits`.
    pub fn add_course(
        &mut self,
        course_status: CourseStatus,
        bank_name: String,
        sum_credits: &mut Credit,
    )
        requires
            *old(sum_credits) + credit_gained(old(self)@.course_statuses, course_status@)
                <= u64::MAX,
        ensures
            final(self)@ == (DegreeStatusView {
                course_statuses: with_course(
                    old(self)@.course_statuses,
                    course_status@,
                    bank_name@,
                ),
                ..old(self)@
            }),
            *final(sum_credits) == *old(sum_credits) + credit_gained(
                old(self)@.course_statuses,
                course_status@,
            ),
    {
        if self.contains_course(&course_status.course.id) {
            return ;
        }
        let passed = course_status.passed();
        let state = if passed {
            *sum_credits = *sum_credits + course_status.course.credit;
            Some(CourseState::Complete)
        } else {
            Some(CourseState::NotComplete)
        };
        let entry = CourseStatus {
            course: course_status.course,
            state,
            semester: course_status.semester,
            grade: course_status.grade,
            bank: Some(bank_name),
        };
        self.course_statuses.push(entry);
        assert(statuses_view(self.course_statuses@) =~= old(self)@.course_statuses.push(
            credited(course_status@, bank_name@),
        ));
    }
}

} // verus!
