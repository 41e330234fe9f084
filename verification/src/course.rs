//! Courses, grades and the record of one course in a student's history.

use vstd::prelude::*;

verus! {

/// The identifier of a course, unique within a degree program.
pub type CourseId = String;

/// An amount of credit, in hundredths of a credit point.
pub type Credit = u64;

/// The lowest numeric grade that passes a course.
pub const PASS_THRESHOLD: u8 = 55;

/// A course as the institution lists it.
#[derive(Debug)]
pub struct Course {
    pub id: CourseId,
    pub credit: Credit,
    pub name: String,
}

/// The mathematical value of a [`Course`].
pub struct CourseView {
    pub id: Seq<char>,
    pub credit: nat,
    pub name: Seq<char>,
}

impl View for Course {
    type V = CourseView;

    open spec fn view(&self) -> CourseView {
        CourseView { id: self.id@, credit: self.credit as nat, name: self.name@ }
    }
}

impl Clone for Course {
    fn clone(&self) -> (r: Self)
        ensures
            r@ == self@,
    {
        Course { id: self.id.clone(), credit: self.credit, name: self.name.clone() }
    }
}

/// The outcome of a course for a student.
#[derive(Clone, Copy, Debug, PartialEq, Eq, Structural)]
pub enum Grade {
    /// A score on the scale from 0 to 100.
    Grade(u8),
    /// Passed or failed, without a score.
    Binary(bool),
    ExemptionWithoutCredit,
    ExemptionWithCredit,
}

/// Whether a grade passes: a score of at least [`PASS_THRESHOLD`], a binary
/// pass, or either exemption.
pub open spec fn grade_passes(grade: Grade) -> bool {
    match grade {
        Grade::Grade(score) => score >= PASS_THRESHOLD,
        Grade::Binary(passed) => passed,
        Grade::ExemptionWithoutCredit => true,
        Grade::ExemptionWithCredit => true,
    }
}

impl Grade {
    /// Whether this grade passes the course.
    pub fn passes(&self) -> (r: bool)
        ensures
            r == grade_passes(*self),
    {
        match self {
            Grade::Grade(score) => *score >= PASS_THRESHOLD,
            Grade::Binary(passed) => *passed,
            Grade::ExemptionWithoutCredit => true,
            Grade::ExemptionWithCredit => true,
        }
    }
}

/// How far a student has come with a course.
#[derive(Clone, Copy, Debug, PartialEq, Eq, Structural)]
pub enum CourseState {
    Complete,
    NotComplete,
    InProgress,
}

/// One course that a student has taken or attempted.
#[derive(Debug)]
pub struct CourseStatus {
    pub course: Course,
    pub state: Option<CourseState>,
    pub semester: Option<String>,
    pub grade: Option<Grade>,
    /// The bank that the course was credited to, once an evaluation has
    /// assigned one.
    pub bank: Option<String>,
}

/// The mathematical value of a [`CourseStatus`].
pub struct CourseStatusView {
    pub course: CourseView,
    pub state: Option<CourseState>,
    pub semester: Option<Seq<char>>,
    pub grade: Option<Grade>,
    pub bank: Option<Seq<char>>,
}

/// The value of an optional text.
pub open spec fn text_option_view(text: Option<String>) -> Option<Seq<char>> {
    match text {
        Some(t) => Some(t@),
        None => None,
    }
}

/// A copy of an optional text.
pub fn clone_text_option(text: &Option<String>) -> (r: Option<String>)
    ensures
        text_option_view(r) == text_option_view(*text),
{
    match text {
        Some(t) => Some(t.clone()),
        None => None,
    }
}

impl View for CourseStatus {
    type V = CourseStatusView;

    open spec fn view(&self) -> CourseStatusView {
        CourseStatusView {
            course: self.course@,
            state: self.state,
            semester: text_option_view(self.semester),
            grade: self.grade,
            bank: text_option_view(self.bank),
        }
    }
}

/// Whether the record carries a passing grade. A record without a grade has
/// not passed.
pub open spec fn status_passed(status: CourseStatusView) -> bool {
    match status.grade {
        Some(grade) => grade_passes(grade),
        None => false,
    }
}

impl Clone for CourseStatus {
    fn clone(&self) -> (r: Self)
        ensures
            r@ == self@,
    {
        CourseStatus {
            course: self.course.clone(),
            state: self.state,
            semester: clone_text_option(&self.semester),
            grade: self.grade,
            bank: clone_text_option(&self.bank),
        }
    }
}

impl CourseStatus {
    /// Whether the student passed the course.
    pub fn passed(&self) -> (r: bool)
        ensures
            r == status_passed(self@),
    {
        match &self.grade {
            Some(grade) => grade.passes(),
            None => false,
        }
    }
}

/// The values of a list of course records, in order.
pub open spec fn statuses_view(statuses: Seq<CourseStatus>) -> Seq<CourseStatusView> {
    Seq::new(statuses.len(), |i: int| statuses[i]@)
}

/// The values of a list of texts, in order.
pub open spec fn texts_view(texts: Seq<String>) -> Seq<Seq<char>> {
    Seq::new(texts.len(), |i: int| texts[i]@)
}

/// The values of a list of courses, in order.
pub open spec fn courses_view(courses: Seq<Course>) -> Seq<CourseView> {
    Seq::new(courses.len(), |i: int| courses[i]@)
}

/// Whether some record in `statuses` is of the course `id`.
pub open spec fn has_course(statuses: Seq<CourseStatusView>, id: Seq<char>) -> bool {
    exists|i: int| 0 <= i < statuses.len() && (#[trigger] statuses[i]).course.id == id
}

/// Whether `i` is the place of the first record of the course `id`.
pub open spec fn is_first_position(statuses: Seq<CourseStatusView>, id: Seq<char>, i: int) -> bool {
    &&& 0 <= i < statuses.len()
    &&& statuses[i].course.id == id
    &&& forall|j: int| 0 <= j < i ==> (#[trigger] statuses[j]).course.id != id
}

/// The first record of the course `id`, if there is one.
pub open spec fn find_status(statuses: Seq<CourseStatusView>, id: Seq<char>) -> Option<
    CourseStatusView,
> {
    if has_course(statuses, id) {
        Some(statuses[choose|i: int| is_first_position(statuses, id, i)])
    } else {
        None
    }
}

/// The first record of a course is found at the one place that holds the
/// course and has no record of it before.
pub proof fn lemma_find_status(statuses: Seq<CourseStatusView>, id: Seq<char>, i: int)
    requires
        is_first_position(statuses, id, i),
    ensures
        has_course(statuses, id),
        find_status(statuses, id) == Some(statuses[i]),
{
    let c = choose|c: int| is_first_position(statuses, id, c);
    assert(is_first_position(statuses, id, c));
    if c < i {
        assert(statuses[c].course.id != id);
    }
    if i < c {
        assert(statuses[i].course.id != id);
    }
}

/// Below any record of a course there is a first record of it.
pub proof fn lemma_first_position_exists(statuses: Seq<CourseStatusView>, id: Seq<char>, k: int)
    requires
        0 <= k < statuses.len(),
        statuses[k].course.id == id,
    ensures
        exists|i: int| is_first_position(statuses, id, i),
    decreases k,
{
    if forall|j: int| 0 <= j < k ==> (#[trigger] statuses[j]).course.id != id {
        assert(is_first_position(statuses, id, k));
    } else {
        let j = choose|j: int| 0 <= j < k && (#[trigger] statuses[j]).course.id == id;
        lemma_first_position_exists(statuses, id, j);
    }
}

/// Where the records hold a course, the first record of it is one of the
/// records, and is of that course.
pub proof fn lemma_found_status(statuses: Seq<CourseStatusView>, id: Seq<char>)
    requires
        has_course(statuses, id),
    ensures
        find_status(statuses, id) is Some,
        find_status(statuses, id)->0.course.id == id,
        exists|i: int|
            0 <= i < statuses.len() && #[trigger] statuses[i] == find_status(statuses, id)->0,
{
    let k = choose|k: int| 0 <= k < statuses.len() && (#[trigger] statuses[k]).course.id == id;
    lemma_first_position_exists(statuses, id, k);
    let c = choose|c: int| is_first_position(statuses, id, c);
    assert(is_first_position(statuses, id, c));
    assert(statuses[c] == find_status(statuses, id)->0);
}

/// The place of the first record of the course `id` in `statuses`.
pub fn position_of_course(statuses: &Vec<CourseStatus>, id: &CourseId) -> (r: Option<usize>)
    ensures
        match r {
            Some(i) => is_first_position(statuses_view(statuses@), id@, i as int),
            None => !has_course(statuses_view(statuses@), id@),
        },
{
    let mut i: usize = 0;
    while i < statuses.len()
        invariant
            i <= statuses@.len(),
            forall|j: int| 0 <= j < i ==> (#[trigger] statuses_view(statuses@)[j]).course.id != id@,
        decreases statuses@.len() - i,
    {
        if statuses[i].course.id == *id {
            return Some(i);
        }
        i += 1;
    }
    None
}

/// Whether `courses` lists the course `id`.
pub open spec fn lists_course(courses: Seq<CourseView>, id: Seq<char>) -> bool {
    exists|i: int| 0 <= i < courses.len() && (#[trigger] courses[i]).id == id
}

/// Whether `i` is the first place at which `courses` lists the course `id`.
pub open spec fn is_first_listing(courses: Seq<CourseView>, id: Seq<char>, i: int) -> bool {
    &&& 0 <= i < courses.len()
    &&& courses[i].id == id
    &&& forall|j: int| 0 <= j < i ==> (#[trigger] courses[j]).id != id
}

/// The course `id` as `courses` lists it first, if at all.
pub open spec fn find_course(courses: Seq<CourseView>, id: Seq<char>) -> Option<CourseView> {
    if lists_course(courses, id) {
        Some(courses[choose|i: int| is_first_listing(courses, id, i)])
    } else {
        None
    }
}

/// The first listing of a course is found at the one place that lists the
/// course and has no listing of it before.
pub proof fn lemma_find_course(courses: Seq<CourseView>, id: Seq<char>, i: int)
    requires
        is_first_listing(courses, id, i),
    ensures
        find_course(courses, id) == Some(courses[i]),
{
    let c = choose|c: int| is_first_listing(courses, id, c);
    assert(is_first_listing(courses, id, c));
    if c < i {
        assert(courses[c].id != id);
    }
    if i < c {
        assert(courses[i].id != id);
    }
}

/// Where the courses list a course, its first listing is of that course.
pub proof fn lemma_found_course(courses: Seq<CourseView>, id: Seq<char>, k: int)
    requires
        0 <= k < courses.len(),
        courses[k].id == id,
    ensures
        find_course(courses, id) is Some,
        find_course(courses, id)->0.id == id,
    decreases k,
{
    if forall|j: int| 0 <= j < k ==> (#[trigger] courses[j]).id != id {
        lemma_find_course(courses, id, k);
    } else {
        let j = choose|j: int| 0 <= j < k && (#[trigger] courses[j]).id == id;
        lemma_found_course(courses, id, j);
    }
}

/// The first place at which `courses` lists the course `id`.
pub fn position_of_listing(courses: &Vec<Course>, id: &CourseId) -> (r: Option<usize>)
    ensures
        match r {
            Some(i) => is_first_listing(courses_view(courses@), id@, i as int),
            None => !lists_course(courses_view(courses@), id@),
        },
{
    let mut i: usize = 0;
    while i < courses.len()
        invariant
            i <= courses@.len(),
            forall|j: int| 0 <= j < i ==> (#[trigger] courses_view(courses@)[j]).id != id@,
        decreases courses@.len() - i,
    {
        if courses[i].id == *id {
            return Some(i);
        }
        i += 1;
    }
    None
}

/// Whether the student passed the course `id`: the first record of it in
/// `statuses` carries a passing grade.
pub open spec fn course_passed(statuses: Seq<CourseStatusView>, id: Seq<char>) -> bool {
    match find_status(statuses, id) {
        Some(status) => status_passed(status),
        None => false,
    }
}

/// Whether the student passed the course `id`.
pub fn passed_course(statuses: &Vec<CourseStatus>, id: &CourseId) -> (r: bool)
    ensures
        r == course_passed(statuses_view(statuses@), id@),
{
    match position_of_course(statuses, id) {
        Some(i) => {
            proof {
                lemma_find_status(statuses_view(statuses@), id@, i as int);
            }
            statuses[i].passed()
        },
        None => false,
    }
}

/// Whether the student passed every course of `courses`.
pub open spec fn all_passed(history: Seq<CourseStatusView>, courses: Seq<Seq<char>>) -> bool {
    forall|k: int| 0 <= k < courses.len() ==> course_passed(history, #[trigger] courses[k])
}

/// Whether the student passed at least one course of `courses`.
pub open spec fn any_passed(history: Seq<CourseStatusView>, courses: Seq<Seq<char>>) -> bool {
    exists|k: int| 0 <= k < courses.len() && course_passed(history, #[trigger] courses[k])
}

/// Whether the student passed every course of `courses`.
pub fn passed_all(history: &Vec<CourseStatus>, courses: &Vec<CourseId>) -> (r: bool)
    ensures
        r == all_passed(statuses_view(history@), texts_view(courses@)),
{
    let mut k: usize = 0;
    while k < courses.len()
        invariant
            k <= courses@.len(),
            forall|j: int|
                0 <= j < k ==> course_passed(
                    statuses_view(history@),
                    #[trigger] texts_view(courses@)[j],
                ),
        decreases courses@.len() - k,
    {
        if !passed_course(history, &courses[k]) {
            assert(!course_passed(statuses_view(history@), texts_view(courses@)[k as int]));
            return false;
        }
        k += 1;
    }
    true
}

/// Whether the student passed at least one course of `courses`.
pub fn passed_any(history: &Vec<CourseStatus>, courses: &Vec<CourseId>) -> (r: bool)
    ensures
        r == any_passed(statuses_view(history@), texts_view(courses@)),
{
    let mut k: usize = 0;
    while k < courses.len()
        invariant
            k <= courses@.len(),
            forall|j: int|
                0 <= j < k ==> !course_passed(
                    statuses_view(history@),
                    #[trigger] texts_view(courses@)[j],
                ),
        decreases courses@.len() - k,
    {
        if passed_course(history, &courses[k]) {
            assert(course_passed(statuses_view(history@), texts_view(courses@)[k as int]));
            return true;
        }
        k += 1;
    }
    false
}

} // verus!
