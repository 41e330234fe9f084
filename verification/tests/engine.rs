use degree_status::catalog::{
    Catalog, CatalogId, CourseBank, CourseTableRow, CreditOverflow, Logic, OptionalReplacements,
    ReferenceData, Rule, SpecializationGroup,
};
use degree_status::course::{Course, CourseState, CourseStatus, Grade};
use degree_status::configuration::{
    bank_names_distinct, check_configuration, declared_total_of, last_position_of_bank_named,
    overflows_forward, overflows_known, passed_credit_of, position_of_bank_named, EngineError,
};
use degree_status::processor::{calculate_degree_status, compute_degree_status, set_order};
use degree_status::user::UserDetails;

fn moved(amount: &str, from: &str, to: &str) -> String {
    format!("עברו {} נקודות מ- {} ל- {}", amount, from, to)
}

fn pts(points: f32) -> u64 {
    (points * 100.0).round() as u64
}

fn passed(id: &str, points: f32) -> CourseStatus {
    CourseStatus {
        course: Course { id: id.to_string(), credit: pts(points), name: format!("course {}", id) },
        state: Some(CourseState::Complete),
        grade: Some(Grade::Grade(80)),
        semester: Some("winter".to_string()),
        bank: None,
    }
}

fn failed(id: &str, points: f32) -> CourseStatus {
    CourseStatus {
        course: Course { id: id.to_string(), credit: pts(points), name: format!("course {}", id) },
        state: Some(CourseState::Complete),
        grade: Some(Grade::Grade(40)),
        semester: None,
        bank: None,
    }
}

fn bank(name: &str, rule: Rule, points: f32) -> CourseBank {
    CourseBank {
        name: name.to_string(),
        rule,
        credit: pts(points),
        message: format!("{} is not complete", name),
    }
}

fn row(id: &str, banks: &[&str]) -> CourseTableRow {
    CourseTableRow {
        id: id.to_string(),
        course_banks: banks.iter().map(|b| b.to_string()).collect(),
    }
}

fn edge(from: &str, to: &str) -> CreditOverflow {
    CreditOverflow { from: from.to_string(), to: to.to_string() }
}

fn catalog(
    course_banks: Vec<CourseBank>,
    course_table: Vec<CourseTableRow>,
    credit_overflows: Vec<CreditOverflow>,
) -> Catalog {
    Catalog {
        id: CatalogId { bytes: [7; 12] },
        name: "computer science".to_string(),
        course_banks,
        course_table,
        credit_overflows,
        catalog_replacements: Vec::new(),
    }
}

fn no_reference() -> ReferenceData {
    ReferenceData {
        courses: Vec::new(),
        malag_courses: Vec::new(),
        sport_courses: Vec::new(),
        common_replacements: Vec::new(),
    }
}

fn student(history: Vec<CourseStatus>) -> UserDetails {
    let mut user = UserDetails::new();
    user.set_courses(history);
    user
}

fn two_banks() -> Catalog {
    catalog(
        vec![bank("A", Rule::Accumulate, 3.0), bank("B", Rule::Accumulate, 5.0)],
        vec![row("a1", &["A"]), row("b1", &["B"])],
        vec![edge("A", "B")],
    )
}

#[test]
fn surplus_of_an_earlier_bank_reaches_a_later_bank() {
    let mut user = student(vec![passed("a1", 4.0), passed("b1", 2.0)]);
    let r = calculate_degree_status(&two_banks(), &no_reference(), &mut user);
    assert_eq!(r, Ok(()));
    let report = &user.degree_status;
    assert_eq!(report.course_bank_requirements.len(), 2);
    assert_eq!(report.course_bank_requirements[0].course_bank_name, "A");
    assert_eq!(report.course_bank_requirements[0].credit_requirment, pts(3.0));
    assert_eq!(report.course_bank_requirements[0].credit_complete, pts(3.0));
    assert_eq!(report.course_bank_requirements[1].course_bank_name, "B");
    assert_eq!(report.course_bank_requirements[1].credit_complete, pts(3.0));
    assert_eq!(
        report.credit_overflow_msgs,
        vec![moved("1", "A", "B")]
    );
    assert_eq!(report.total_credit, pts(6.0));
}

#[test]
fn a_bank_without_surplus_sends_nothing() {
    let mut user = student(vec![passed("a1", 2.5), passed("b1", 2.0)]);
    let r = calculate_degree_status(&two_banks(), &no_reference(), &mut user);
    assert_eq!(r, Ok(()));
    let report = &user.degree_status;
    assert_eq!(report.course_bank_requirements[0].credit_complete, pts(2.5));
    assert_eq!(report.course_bank_requirements[1].credit_complete, pts(2.0));
    assert!(report.credit_overflow_msgs.is_empty());
    assert_eq!(report.total_credit, pts(4.5));
}

#[test]
fn evaluating_twice_gives_the_same_report() {
    let history = vec![passed("a1", 4.0), failed("b1", 2.0), passed("zz", 1.0)];
    let mut first = student(history.clone());
    let mut second = student(history);
    assert_eq!(calculate_degree_status(&two_banks(), &no_reference(), &mut first), Ok(()));
    assert_eq!(calculate_degree_status(&two_banks(), &no_reference(), &mut second), Ok(()));
    assert_eq!(format!("{:?}", first.degree_status), format!("{:?}", second.degree_status));
    let before = format!("{:?}", first.degree_status);
    assert_eq!(calculate_degree_status(&two_banks(), &no_reference(), &mut first), Ok(()));
    assert_eq!(format!("{:?}", first.degree_status), before);
}

#[test]
fn no_requirement_is_completed_beyond_what_it_requires() {
    let cat = catalog(
        vec![
            bank("A", Rule::Accumulate, 3.0),
            bank("B", Rule::All, 1.0),
            bank("C", Rule::Wildcard(false), 0.5),
        ],
        vec![row("a1", &["A"]), row("a2", &["A"]), row("b1", &["B"]), row("b2", &["B"])],
        vec![edge("A", "C"), edge("B", "C")],
    );
    let mut user =
        student(vec![passed("a1", 4.0), passed("a2", 4.0), passed("b1", 2.0), passed("b2", 3.0)]);
    assert_eq!(calculate_degree_status(&cat, &no_reference(), &mut user), Ok(()));
    let report = &user.degree_status;
    let mut sum = 0;
    for requirement in &report.course_bank_requirements {
        assert!(requirement.credit_complete <= requirement.credit_requirment);
        sum += requirement.credit_complete;
    }
    assert_eq!(report.total_credit, sum);
    assert_eq!(report.total_credit, pts(4.5));
    assert_eq!(
        report.credit_overflow_msgs,
        vec![
            moved("5", "A", "C"),
            moved("4", "B", "C"),
        ]
    );
}

#[test]
fn no_course_is_credited_to_two_banks() {
    let cat = catalog(
        vec![bank("A", Rule::Accumulate, 10.0), bank("B", Rule::Accumulate, 10.0)],
        vec![row("x", &["A", "B"]), row("y", &["B"]), row("x", &["B"])],
        vec![],
    );
    let mut user = student(vec![passed("x", 3.0), passed("y", 2.0), passed("x", 3.0)]);
    assert_eq!(calculate_degree_status(&cat, &no_reference(), &mut user), Ok(()));
    let report = &user.degree_status;
    let ids: Vec<&str> = report.course_statuses.iter().map(|s| s.course.id.as_str()).collect();
    assert_eq!(ids, vec!["x", "y"]);
    assert_eq!(report.course_statuses[0].bank.as_deref(), Some("A"));
    assert_eq!(report.course_statuses[1].bank.as_deref(), Some("B"));
    assert_eq!(report.course_bank_requirements[0].credit_complete, pts(3.0));
    assert_eq!(report.course_bank_requirements[1].credit_complete, pts(2.0));
}

#[test]
fn surplus_is_taken_once() {
    let cat = catalog(
        vec![
            bank("A", Rule::Accumulate, 1.0),
            bank("B", Rule::Accumulate, 10.0),
            bank("C", Rule::Accumulate, 10.0),
        ],
        vec![row("a1", &["A"])],
        vec![edge("A", "B"), edge("A", "C")],
    );
    let mut user = student(vec![passed("a1", 4.0)]);
    assert_eq!(calculate_degree_status(&cat, &no_reference(), &mut user), Ok(()));
    let report = &user.degree_status;
    assert_eq!(report.course_bank_requirements[1].credit_complete, pts(3.0));
    assert_eq!(report.course_bank_requirements[2].credit_complete, 0);
    assert_eq!(report.credit_overflow_msgs.len(), 1);
    assert_eq!(report.total_credit, pts(4.0));
}

#[test]
fn surplus_passes_along_a_chain_of_edges() {
    let cat = catalog(
        vec![
            bank("A", Rule::Accumulate, 1.0),
            bank("B", Rule::Accumulate, 1.0),
            bank("C", Rule::Accumulate, 10.0),
        ],
        vec![row("a1", &["A"]), row("b1", &["B"])],
        vec![edge("A", "B"), edge("B", "C")],
    );
    let mut user = student(vec![passed("a1", 4.0), passed("b1", 2.0)]);
    assert_eq!(calculate_degree_status(&cat, &no_reference(), &mut user), Ok(()));
    let report = &user.degree_status;
    assert_eq!(
        report.credit_overflow_msgs,
        vec![
            moved("3", "A", "B"),
            moved("4", "B", "C"),
        ]
    );
    assert_eq!(report.course_bank_requirements[2].credit_complete, pts(4.0));
    // recorded 3.00 + 4.00, consumed 3.00 + 4.00, nothing left
    assert_eq!(report.total_credit, pts(6.0));
}

#[test]
fn courses_of_no_bank_stay_in_the_report_without_a_bank() {
    let mut user = student(vec![passed("a1", 4.0), passed("zz", 1.0), failed("b1", 2.0)]);
    user.course_statuses[1].bank = Some("stale".to_string());
    assert_eq!(calculate_degree_status(&two_banks(), &no_reference(), &mut user), Ok(()));
    let report = &user.degree_status;
    let ids: Vec<&str> = report.course_statuses.iter().map(|s| s.course.id.as_str()).collect();
    assert_eq!(ids, vec!["a1", "b1", "zz"]);
    assert_eq!(report.course_statuses[1].state, Some(CourseState::NotComplete));
    assert_eq!(report.course_statuses[2].bank, None);
    assert_eq!(report.course_statuses[2].state, Some(CourseState::Complete));
    assert_eq!(report.course_statuses[2].semester.as_deref(), Some("winter"));
}

#[test]
fn a_missing_course_gets_a_placeholder_from_the_course_list() {
    let cat = catalog(
        vec![bank("core", Rule::All, 8.0)],
        vec![row("known", &["core"]), row("unknown", &["core"])],
        vec![],
    );
    let reference = ReferenceData {
        courses: vec![Course {
            id: "known".to_string(),
            credit: pts(4.0),
            name: "algebra".to_string(),
        }],
        malag_courses: Vec::new(),
        sport_courses: Vec::new(),
        common_replacements: Vec::new(),
    };
    let mut user = student(vec![]);
    assert_eq!(calculate_degree_status(&cat, &reference, &mut user), Ok(()));
    let report = &user.degree_status;
    assert_eq!(report.course_statuses.len(), 2);
    assert_eq!(report.course_statuses[0].course.name, "algebra");
    assert_eq!(report.course_statuses[0].course.credit, pts(4.0));
    assert_eq!(report.course_statuses[0].state, Some(CourseState::NotComplete));
    assert_eq!(report.course_statuses[1].course.id, "unknown");
    assert_eq!(report.course_statuses[1].course.credit, 0);
    assert_eq!(report.course_statuses[1].course.name, "");
    assert_eq!(report.course_bank_requirements[0].credit_complete, 0);
    assert_eq!(
        report.course_bank_requirements[0].message.as_deref(),
        Some("core is not complete")
    );
    assert_eq!(report.total_credit, 0);
}

#[test]
fn every_rule_has_its_message() {
    let cat = catalog(
        vec![
            bank("all", Rule::All, 3.0),
            bank("chain", Rule::Chains(vec![vec!["c1".to_string(), "c2".to_string()]]), 6.0),
            bank("open chain", Rule::Chains(vec![vec!["c1".to_string(), "c9".to_string()]]), 6.0),
            bank(
                "groups",
                Rule::SpecializationGroups(vec![SpecializationGroup {
                    name: "g".to_string(),
                    credit: pts(2.0),
                    mandatory: Some((vec!["c9".to_string()], Logic::OR)),
                }]),
                2.0,
            ),
            bank("malag", Rule::Malag, 2.0),
            bank("sport", Rule::Sport, 1.0),
            bank("rest", Rule::Wildcard(true), 1.0),
        ],
        vec![
            row("a1", &["all"]),
            row("c1", &["chain"]),
            row("c2", &["chain"]),
            row("w", &["rest"]),
        ],
        vec![],
    );
    let reference = ReferenceData {
        courses: Vec::new(),
        malag_courses: vec!["m1".to_string()],
        sport_courses: vec!["s1".to_string()],
        common_replacements: Vec::new(),
    };
    let mut user = student(vec![
        passed("a1", 3.0),
        passed("c1", 3.0),
        passed("c2", 3.0),
        passed("m1", 2.0),
        passed("s1", 1.0),
        passed("w", 1.0),
    ]);
    assert_eq!(calculate_degree_status(&cat, &reference, &mut user), Ok(()));
    let requirements = &user.degree_status.course_bank_requirements;
    let messages: Vec<Option<&str>> = requirements.iter().map(|r| r.message.as_deref()).collect();
    assert_eq!(
        messages,
        vec![
            None,
            Some("The user completed a full chain"),
            Some("The user didn't complete a full chain"),
            Some("groups is not complete"),
            None,
            None,
            None,
        ]
    );
    let complete: Vec<u64> = requirements.iter().map(|r| r.credit_complete).collect();
    assert_eq!(complete, vec![pts(3.0), pts(6.0), 0, 0, pts(2.0), pts(1.0), pts(1.0)]);
    assert_eq!(user.degree_status.total_credit, pts(13.0));
}

#[test]
fn an_empty_catalog_gives_an_empty_report_with_the_history() {
    let cat = catalog(vec![], vec![], vec![]);
    let mut user = student(vec![passed("a1", 4.0)]);
    assert_eq!(calculate_degree_status(&cat, &no_reference(), &mut user), Ok(()));
    assert!(user.degree_status.course_bank_requirements.is_empty());
    assert!(user.degree_status.credit_overflow_msgs.is_empty());
    assert_eq!(user.degree_status.total_credit, 0);
    assert_eq!(user.degree_status.course_statuses.len(), 1);
    assert_eq!(user.degree_status.course_statuses[0].bank, None);
}

#[test]
fn two_banks_of_one_name_are_refused() {
    let cat = catalog(
        vec![bank("A", Rule::Accumulate, 3.0), bank("A", Rule::All, 5.0)],
        vec![],
        vec![edge("A", "Z")],
    );
    let mut user = student(vec![passed("a1", 4.0)]);
    user.degree_status.total_credit = 17;
    user.degree_status.credit_overflow_msgs.push("stale".to_string());
    assert_eq!(
        calculate_degree_status(&cat, &no_reference(), &mut user),
        Err(EngineError::DuplicateBank)
    );
    // what the report held before is discarded
    assert_eq!(user.degree_status.total_credit, 0);
    assert!(user.degree_status.course_statuses.is_empty());
    assert!(user.degree_status.course_bank_requirements.is_empty());
    assert!(user.degree_status.credit_overflow_msgs.is_empty());
    assert_eq!(user.course_statuses.len(), 1);
    assert!(!bank_names_distinct(&cat.course_banks));
}

#[test]
fn an_edge_to_an_undefined_bank_is_refused() {
    let cat = catalog(
        vec![bank("A", Rule::Accumulate, 3.0), bank("B", Rule::All, 5.0)],
        vec![],
        vec![edge("B", "A"), edge("A", "Z")],
    );
    let mut user = student(vec![]);
    assert_eq!(
        calculate_degree_status(&cat, &no_reference(), &mut user),
        Err(EngineError::UnknownBank)
    );
    assert!(!overflows_known(&cat.course_banks, &cat.credit_overflows));
}

#[test]
fn an_edge_that_leads_backward_transfers_nothing() {
    let cat = catalog(
        vec![bank("B", Rule::Accumulate, 5.0), bank("A", Rule::Accumulate, 3.0)],
        vec![row("1", &["A"])],
        vec![edge("A", "B")],
    );
    let mut user = student(vec![CourseStatus {
        course: Course { id: "1".to_string(), credit: pts(4.0), name: "c1".to_string() },
        state: Some(CourseState::Complete),
        grade: Some(Grade::Grade(85)),
        semester: None,
        bank: None,
    }]);
    assert_eq!(calculate_degree_status(&cat, &no_reference(), &mut user), Ok(()));
    let report = &user.degree_status;
    assert_eq!(report.course_bank_requirements.len(), 2);
    assert_eq!(report.course_bank_requirements[0].course_bank_name, "B");
    assert_eq!(report.course_bank_requirements[0].credit_requirment, pts(5.0));
    assert_eq!(report.course_bank_requirements[0].credit_complete, pts(0.0));
    assert_eq!(report.course_bank_requirements[1].course_bank_name, "A");
    assert_eq!(report.course_bank_requirements[1].credit_requirment, pts(3.0));
    assert_eq!(report.course_bank_requirements[1].credit_complete, pts(3.0));
    assert_eq!(report.total_credit, pts(3.0));
    assert!(report.credit_overflow_msgs.is_empty());
    assert!(overflows_known(&cat.course_banks, &cat.credit_overflows));
    assert!(!overflows_forward(&cat.course_banks, &cat.credit_overflows));
}

#[test]
fn edges_in_both_directions_transfer_forward_only() {
    let cat = catalog(
        vec![bank("A", Rule::Accumulate, 3.0), bank("B", Rule::Accumulate, 1.0)],
        vec![row("a1", &["A"]), row("b1", &["B"])],
        vec![edge("A", "B"), edge("B", "A")],
    );
    let mut user = student(vec![passed("a1", 4.0), passed("b1", 2.0)]);
    assert_eq!(calculate_degree_status(&cat, &no_reference(), &mut user), Ok(()));
    let report = &user.degree_status;
    assert_eq!(report.course_bank_requirements[0].credit_complete, pts(3.0));
    assert_eq!(report.course_bank_requirements[1].credit_complete, pts(1.0));
    assert_eq!(
        report.credit_overflow_msgs,
        vec![moved("1", "A", "B")]
    );
    assert_eq!(report.total_credit, pts(4.0));
    assert!(!overflows_forward(&cat.course_banks, &cat.credit_overflows));
}

#[test]
fn an_edge_from_a_bank_to_itself_transfers_nothing() {
    let cat = catalog(
        vec![bank("A", Rule::Accumulate, 3.0)],
        vec![row("a1", &["A"])],
        vec![edge("A", "A")],
    );
    let mut user = student(vec![passed("a1", 4.0)]);
    assert_eq!(calculate_degree_status(&cat, &no_reference(), &mut user), Ok(()));
    assert_eq!(user.degree_status.course_bank_requirements[0].credit_complete, pts(3.0));
    assert_eq!(user.degree_status.total_credit, pts(3.0));
    assert!(user.degree_status.credit_overflow_msgs.is_empty());
    assert!(!overflows_forward(&cat.course_banks, &cat.credit_overflows));
}

#[test]
fn the_forward_check_answers_for_any_list_of_banks() {
    let banks = vec![
        bank("A", Rule::Accumulate, 1.0),
        bank("B", Rule::Accumulate, 1.0),
        bank("A", Rule::Accumulate, 1.0),
    ];
    assert!(overflows_forward(&banks, &vec![]));
    assert!(overflows_forward(&banks, &vec![edge("A", "B")]));
    assert!(overflows_forward(&banks, &vec![edge("B", "A")]));
    assert!(overflows_forward(&banks, &vec![edge("A", "A")]));
    assert!(!overflows_forward(&banks, &vec![edge("B", "B")]));
    assert!(!overflows_forward(&banks, &vec![edge("A", "B"), edge("A", "Z")]));
    assert!(!overflows_forward(&banks, &vec![edge("Z", "A")]));
    assert_eq!(position_of_bank_named(&banks, &"A".to_string()), Some(0));
    assert_eq!(last_position_of_bank_named(&banks, &"A".to_string()), Some(2));
    assert_eq!(last_position_of_bank_named(&banks, &"B".to_string()), Some(1));
    assert_eq!(last_position_of_bank_named(&banks, &"Z".to_string()), None);
}

#[test]
fn the_total_is_within_the_credit_of_the_complete_courses() {
    let cat = catalog(
        vec![bank("A", Rule::Accumulate, 3.0), bank("B", Rule::All, 5.0)],
        vec![row("a1", &["A"]), row("b1", &["B"]), row("b2", &["B"])],
        vec![],
    );
    let mut user = student(vec![
        passed("a1", 4.0),
        passed("b1", 2.0),
        failed("b2", 2.0),
        passed("zz", 1.5),
    ]);
    assert_eq!(calculate_degree_status(&cat, &no_reference(), &mut user), Ok(()));
    let report = &user.degree_status;
    let complete = |records: &[CourseStatus]| -> u64 {
        records
            .iter()
            .filter(|s| s.state == Some(CourseState::Complete))
            .map(|s| s.course.credit)
            .sum()
    };
    // A keeps a surplus of 1.00 that no edge passes on
    assert_eq!(report.total_credit, pts(5.0));
    assert_eq!(complete(&report.course_statuses[..3]), pts(6.0));
    assert_eq!(complete(&report.course_statuses), pts(7.5));
    assert!(report.total_credit <= complete(&report.course_statuses));

    let exact = catalog(
        vec![bank("A", Rule::Accumulate, 4.0), bank("B", Rule::All, 5.0)],
        vec![row("a1", &["A"]), row("b1", &["B"]), row("b2", &["B"])],
        vec![],
    );
    let mut user = student(vec![passed("a1", 4.0), passed("b1", 2.0), failed("b2", 2.0)]);
    assert_eq!(calculate_degree_status(&exact, &no_reference(), &mut user), Ok(()));
    assert_eq!(user.degree_status.total_credit, pts(6.0));
    assert_eq!(complete(&user.degree_status.course_statuses), pts(6.0));
}

#[test]
fn credit_beyond_the_range_is_refused() {
    let mut big = passed("a1", 0.0);
    big.course.credit = u64::MAX;
    let mut user = student(vec![big, passed("b1", 0.01)]);
    assert_eq!(passed_credit_of(&user.course_statuses), None);
    assert_eq!(
        calculate_degree_status(&two_banks(), &no_reference(), &mut user),
        Err(EngineError::CreditOverflow)
    );
    assert_eq!(
        check_configuration(&two_banks(), &user.course_statuses),
        Err(EngineError::CreditOverflow)
    );
}

#[test]
fn declared_credit_counts_toward_the_range() {
    let groups = Rule::SpecializationGroups(vec![
        SpecializationGroup { name: "g".to_string(), credit: u64::MAX - 5, mandatory: None },
        SpecializationGroup { name: "h".to_string(), credit: 2, mandatory: None },
    ]);
    let cat = catalog(vec![bank("G", groups, 3.0)], vec![], vec![]);
    assert_eq!(declared_total_of(&cat.course_banks), Some(u64::MAX - 3));
    let mut user = student(vec![passed("a1", 0.03)]);
    assert_eq!(passed_credit_of(&user.course_statuses), Some(3));
    assert_eq!(calculate_degree_status(&cat, &no_reference(), &mut user), Ok(()));
    let mut more = student(vec![passed("a1", 0.04)]);
    assert_eq!(
        calculate_degree_status(&cat, &no_reference(), &mut more),
        Err(EngineError::CreditOverflow)
    );
}

#[test]
fn the_largest_credit_in_range_is_evaluated() {
    let mut big = passed("a1", 0.0);
    big.course.credit = u64::MAX;
    let cat = catalog(
        vec![bank("A", Rule::Accumulate, 3.0), bank("B", Rule::Accumulate, 5.0)],
        vec![row("a1", &["A"])],
        vec![edge("A", "B")],
    );
    let mut user = student(vec![big]);
    assert_eq!(calculate_degree_status(&cat, &no_reference(), &mut user), Ok(()));
    assert_eq!(user.degree_status.total_credit, pts(8.0));
}

#[test]
fn set_order_keeps_the_declared_order() {
    let banks = vec![bank("B", Rule::All, 1.0), bank("A", Rule::All, 1.0)];
    let ordered = set_order(&banks);
    let names: Vec<&str> = ordered.iter().map(|b| b.name.as_str()).collect();
    assert_eq!(names, vec!["B", "A"]);
}

#[test]
fn compute_marks_the_details_as_up_to_date() {
    let mut user = student(vec![passed("a1", 4.0)]);
    assert!(user.modified);
    assert_eq!(compute_degree_status(&two_banks(), &no_reference(), &mut user), Ok(()));
    assert!(!user.modified);
    assert_eq!(user.degree_status.total_credit, pts(4.0));

    let mut refused = student(vec![passed("a1", 4.0)]);
    refused.degree_status.total_credit = 17;
    let cat = catalog(vec![bank("A", Rule::All, 1.0)], vec![], vec![edge("A", "Z")]);
    assert_eq!(
        compute_degree_status(&cat, &no_reference(), &mut refused),
        Err(EngineError::UnknownBank)
    );
    assert!(refused.modified);
    assert_eq!(refused.degree_status.total_credit, 0);
}

#[test]
fn a_catalog_replacement_is_used_by_the_evaluation() {
    let mut cat = catalog(vec![bank("core", Rule::All, 4.0)], vec![row("100", &["core"])], vec![]);
    cat.catalog_replacements = vec![OptionalReplacements {
        course: "100".to_string(),
        replacements: vec!["101".to_string()],
        exclusive: false,
    }];
    let mut user = student(vec![passed("101", 4.0)]);
    assert_eq!(calculate_degree_status(&cat, &no_reference(), &mut user), Ok(()));
    assert_eq!(user.degree_status.course_bank_requirements[0].credit_complete, pts(4.0));
    assert_eq!(user.degree_status.course_bank_requirements[0].message, None);
    assert_eq!(user.degree_status.course_statuses.len(), 1);
    assert_eq!(user.degree_status.course_statuses[0].bank.as_deref(), Some("core"));
}

#[test]
fn all_rule_reports_an_incomplete_bank() {
    let cat = catalog(
        vec![bank("core", Rule::All, 6.0)],
        vec![row("A", &["core"]), row("B", &["core"])],
        vec![],
    );
    let mut user = student(vec![passed("A", 3.0), failed("B", 3.0)]);
    assert_eq!(calculate_degree_status(&cat, &no_reference(), &mut user), Ok(()));
    let requirement = &user.degree_status.course_bank_requirements[0];
    assert_eq!(requirement.credit_complete, pts(3.0));
    assert_eq!(requirement.credit_requirment, pts(6.0));
    assert_eq!(requirement.message.as_deref(), Some("core is not complete"));
    assert_eq!(user.degree_status.total_credit, pts(3.0));

    let mut done = student(vec![passed("A", 3.0), passed("B", 3.0)]);
    assert_eq!(calculate_degree_status(&cat, &no_reference(), &mut done), Ok(()));
    assert_eq!(done.degree_status.course_bank_requirements[0].credit_complete, pts(6.0));
    assert_eq!(done.degree_status.course_bank_requirements[0].message, None);
}
