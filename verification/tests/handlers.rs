use degree_status::bank_rule::{
    handle_bank_rule_accumulate, handle_bank_rule_all, handle_bank_rule_chain, BankRuleHandler,
};
use degree_status::bank_rule::chain::first_complete_chain;
use degree_status::course::{passed_all, passed_any};
use degree_status::catalog::{Logic, OptionalReplacements, SpecializationGroup};
use degree_status::course::{Course, CourseState, CourseStatus, Grade};
use degree_status::degree_status::DegreeStatus;
use degree_status::user::UserDetails;

fn credit(points: f32) -> u64 {
    (points * 100.0).round() as u64
}

fn points(credit: u64) -> f32 {
    credit as f32 / 100.0
}

fn taken(id: &str, name: &str, points: f32, grade: Grade) -> CourseStatus {
    CourseStatus {
        course: Course { id: id.to_string(), credit: credit(points), name: name.to_string() },
        state: Some(CourseState::Complete),
        grade: Some(grade),
        semester: None,
        bank: None,
    }
}

fn student(course_statuses: Vec<CourseStatus>) -> UserDetails {
    UserDetails {
        course_statuses,
        catalog: None,
        degree_status: DegreeStatus {
            course_statuses: Vec::<CourseStatus>::new(),
            course_bank_requirements: Vec::new(),
            credit_overflow_msgs: Vec::<String>::new(),
            total_credit: 0,
        },
        compute_in_progress: false,
        modified: false,
    }
}

fn four_courses() -> Vec<CourseStatus> {
    vec![
        taken("000001", "c1", 3.0, Grade::Grade(85)),
        taken("000002", "c2", 3.5, Grade::Grade(45)),
        taken("000003", "c3", 4.0, Grade::Grade(85)),
        taken("000004", "c4", 5.0, Grade::Grade(85)),
    ]
}

fn ids(list: &[&str]) -> Vec<String> {
    list.iter().map(|id| id.to_string()).collect()
}

#[test]
fn check_rules() {
    let mut user = UserDetails {
        course_statuses: vec![
            CourseStatus {
                course: Course {
                    id: "000001".to_string(),
                    credit: credit(3.0),
                    name: "c1".to_string(),
                },
                state: Some(CourseState::Complete),
                grade: Some(Grade::Grade(85)),
                semester: None,
                bank: None,
            },
            CourseStatus {
                course: Course {
                    id: "000002".to_string(),
                    credit: credit(3.5),
                    name: "c2".to_string(),
                },
                state: Some(CourseState::Complete),
                grade: Some(Grade::Grade(45)),
                semester: None,
                bank: None,
            },
            CourseStatus {
                course: Course {
                    id: "000003".to_string(),
                    credit: credit(4.0),
                    name: "c3".to_string(),
                },
                state: Some(CourseState::Complete),
                grade: Some(Grade::Grade(85)),
                semester: None,
                bank: None,
            },
            CourseStatus {
                course: Course {
                    id: "000004".to_string(),
                    credit: credit(5.0),
                    name: "c4".to_string(),
                },
                state: Some(CourseState::Complete),
                grade: Some(Grade::Grade(85)),
                semester: None,
                bank: None,
            },
        ],
        catalog: None,
        degree_status: DegreeStatus {
            course_statuses: Vec::<CourseStatus>::new(),
            course_bank_requirements: Vec::new(),
            credit_overflow_msgs: Vec::<String>::new(),
            total_credit: 0,
        },
        compute_in_progress: false,
        modified: false,
    };
    let bank_name = "hova".to_string();
    let course_list = ids(&["000001", "000002", "123456", "456789", "159159", "000003"]);
    let credit_overflow = credit(0.0);

    let res = handle_bank_rule_all(&mut user, &bank_name, &course_list, credit_overflow);
    println!("{}", res);
    assert_eq!(points(res), 7.0);
}

#[test]
fn all_rule_enters_every_course_of_the_list() {
    let mut user = student(four_courses());
    let course_list = ids(&["000001", "000002", "123456", "456789", "159159", "000003"]);
    handle_bank_rule_all(&mut user, "hova", &course_list, 0);
    let report = &user.degree_status.course_statuses;
    assert_eq!(report.len(), 6);
    let listed: Vec<&str> = report.iter().map(|s| s.course.id.as_str()).collect();
    assert_eq!(listed, vec!["000001", "000002", "123456", "456789", "159159", "000003"]);
    for status in report {
        assert_eq!(status.bank.as_deref(), Some("hova"));
    }
    assert_eq!(report[0].state, Some(CourseState::Complete));
    assert_eq!(report[1].state, Some(CourseState::NotComplete));
    assert_eq!(report[2].state, Some(CourseState::NotComplete));
    assert_eq!(report[2].course.credit, 0);
    assert_eq!(report[2].grade, None);
    assert_eq!(report[5].state, Some(CourseState::Complete));
    assert_eq!(user.course_statuses.len(), 4);
}

#[test]
fn all_rule_flags_a_failed_course() {
    let courses: Vec<Course> = Vec::new();
    let none: Vec<OptionalReplacements> = Vec::new();
    let history = vec![
        taken("A", "a", 3.0, Grade::Binary(true)),
        taken("B", "b", 3.0, Grade::Binary(false)),
    ];
    let mut report = DegreeStatus::new();
    let handler = BankRuleHandler {
        bank_name: "core".to_string(),
        course_list: ids(&["A", "B"]),
        courses: &courses,
        credit_overflow: 0,
        catalog_replacements: &none,
        common_replacements: &none,
    };
    let (earned, complete) = handler.all(&history, &mut report);
    assert_eq!(points(earned), 3.0);
    assert!(!complete);
}

#[test]
fn all_rule_is_complete_when_every_course_is_passed() {
    let courses: Vec<Course> = Vec::new();
    let none: Vec<OptionalReplacements> = Vec::new();
    let history = vec![
        taken("A", "a", 3.0, Grade::Grade(55)),
        taken("B", "b", 3.0, Grade::ExemptionWithCredit),
    ];
    let mut report = DegreeStatus::new();
    let handler = BankRuleHandler {
        bank_name: "core".to_string(),
        course_list: ids(&["A", "B"]),
        courses: &courses,
        credit_overflow: credit(1.5),
        catalog_replacements: &none,
        common_replacements: &none,
    };
    let (earned, complete) = handler.all(&history, &mut report);
    assert_eq!(points(earned), 7.5);
    assert!(complete);
}

#[test]
fn accumulate_sums_the_passed_courses() {
    let mut user = student(four_courses());
    let course_list = ids(&["000001", "000002", "000003", "000004", "123456", "456789"]);
    let res = handle_bank_rule_accumulate(&mut user, "reshima a", &course_list, 0);
    assert_eq!(points(res), 12.0);
}

#[test]
fn accumulate_over_three_courses() {
    let mut user = student(four_courses());
    let course_list = ids(&["000001", "000002", "000003"]);
    let res = handle_bank_rule_accumulate(&mut user, "reshima a", &course_list, 0);
    assert_eq!(points(res), 7.0);
}

#[test]
fn a_course_is_claimed_by_the_first_bank_only() {
    let mut user = student(four_courses());
    let first = handle_bank_rule_all(&mut user, "hova", &ids(&["000001", "000003"]), 0);
    let second = handle_bank_rule_accumulate(&mut user, "bhira", &ids(&["000003", "000004"]), 0);
    assert_eq!(points(first), 7.0);
    assert_eq!(points(second), 5.0);
    let report = &user.degree_status.course_statuses;
    assert_eq!(report.len(), 3);
    assert_eq!(report[1].course.id, "000003");
    assert_eq!(report[1].bank.as_deref(), Some("hova"));
    assert_eq!(report[2].course.id, "000004");
    assert_eq!(report[2].bank.as_deref(), Some("bhira"));
}

#[test]
fn a_course_listed_twice_counts_once() {
    let mut user = student(four_courses());
    let res = handle_bank_rule_accumulate(&mut user, "bank", &ids(&["000001", "000001"]), 0);
    assert_eq!(points(res), 3.0);
    assert_eq!(user.degree_status.course_statuses.len(), 1);
}

#[test]
fn chain_is_complete_by_its_second_sequence() {
    let history = vec![
        taken("c1", "c1", 3.0, Grade::Grade(40)),
        taken("c3", "c3", 4.0, Grade::Grade(90)),
        taken("c4", "c4", 5.0, Grade::Grade(70)),
    ];
    let mut user = student(history);
    let chains = vec![ids(&["c1", "c2"]), ids(&["c3", "c4"])];
    let (earned, completed) =
        handle_bank_rule_chain(&mut user, "chain", &ids(&["c1", "c2", "c3", "c4"]), &chains, 0);
    assert!(completed);
    assert_eq!(points(earned), 9.0);
    assert_eq!(first_complete_chain(&user.course_statuses, &chains), Some(1));
}

#[test]
fn chain_is_incomplete_when_a_course_is_missing() {
    let history = vec![
        taken("c1", "c1", 3.0, Grade::Grade(90)),
        taken("c3", "c3", 4.0, Grade::Grade(90)),
    ];
    let mut user = student(history);
    let chains = vec![ids(&["c1", "c2"]), ids(&["c3", "c4"])];
    let (_, completed) =
        handle_bank_rule_chain(&mut user, "chain", &ids(&["c1", "c2", "c3", "c4"]), &chains, 0);
    assert!(!completed);
    assert_eq!(first_complete_chain(&user.course_statuses, &chains), None);
}

#[test]
fn the_first_complete_chain_wins() {
    let history = vec![
        taken("c1", "c1", 3.0, Grade::Grade(90)),
        taken("c2", "c2", 3.0, Grade::Grade(90)),
        taken("c3", "c3", 4.0, Grade::Grade(90)),
    ];
    let chains = vec![ids(&["c9"]), ids(&["c1", "c2"]), ids(&["c3"])];
    assert_eq!(first_complete_chain(&history, &chains), Some(1));
}

#[test]
fn passed_all_and_passed_any() {
    let history = four_courses();
    assert!(passed_all(&history, &ids(&["000001", "000003"])));
    assert!(!passed_all(&history, &ids(&["000001", "000002"])));
    assert!(passed_all(&history, &ids(&[])));
    assert!(passed_any(&history, &ids(&["000002", "000004"])));
    assert!(!passed_any(&history, &ids(&["000002", "999999"])));
    assert!(!passed_any(&history, &ids(&[])));
}

#[test]
fn a_replacement_fills_the_place_of_a_missing_course() {
    let courses = vec![Course {
        id: "100".to_string(),
        credit: credit(4.0),
        name: "calculus".to_string(),
    }];
    let own = vec![OptionalReplacements {
        course: "100".to_string(),
        replacements: ids(&["101"]),
        exclusive: false,
    }];
    let common = vec![OptionalReplacements {
        course: "100".to_string(),
        replacements: ids(&["102"]),
        exclusive: false,
    }];
    let history = vec![taken("102", "calculus m", 5.0, Grade::Grade(80))];
    let mut report = DegreeStatus::new();
    let handler = BankRuleHandler {
        bank_name: "core".to_string(),
        course_list: ids(&["100"]),
        courses: &courses,
        credit_overflow: 0,
        catalog_replacements: &own,
        common_replacements: &common,
    };
    let (earned, complete) = handler.all(&history, &mut report);
    assert_eq!(points(earned), 5.0);
    assert!(complete);
    assert_eq!(report.course_statuses.len(), 1);
    assert_eq!(report.course_statuses[0].course.id, "102");
    assert_eq!(report.course_statuses[0].bank.as_deref(), Some("core"));
}

#[test]
fn an_exclusive_entry_shuts_out_the_common_replacements() {
    let courses = vec![Course {
        id: "100".to_string(),
        credit: credit(4.0),
        name: "calculus".to_string(),
    }];
    let own = vec![OptionalReplacements {
        course: "100".to_string(),
        replacements: ids(&["101"]),
        exclusive: true,
    }];
    let common = vec![OptionalReplacements {
        course: "100".to_string(),
        replacements: ids(&["102"]),
        exclusive: false,
    }];
    let history = vec![taken("102", "calculus m", 5.0, Grade::Grade(80))];
    let mut report = DegreeStatus::new();
    let handler = BankRuleHandler {
        bank_name: "core".to_string(),
        course_list: ids(&["100"]),
        courses: &courses,
        credit_overflow: 0,
        catalog_replacements: &own,
        common_replacements: &common,
    };
    let (earned, complete) = handler.all(&history, &mut report);
    assert_eq!(earned, 0);
    assert!(!complete);
    assert_eq!(report.course_statuses.len(), 1);
    assert_eq!(report.course_statuses[0].course.id, "100");
    assert_eq!(report.course_statuses[0].course.name, "calculus");
    assert_eq!(report.course_statuses[0].course.credit, credit(4.0));
    assert_eq!(report.course_statuses[0].state, Some(CourseState::NotComplete));
}

#[test]
fn malag_claims_listed_courses_and_those_known_by_prefix_and_credit() {
    let courses: Vec<Course> = Vec::new();
    let none: Vec<OptionalReplacements> = Vec::new();
    let history = vec![
        taken("324033", "english", 3.0, Grade::Grade(80)),
        taken("324520", "music", 2.0, Grade::Grade(80)),
        taken("324521", "film", 2.0, Grade::Grade(30)),
        taken("234111", "cs", 2.0, Grade::Grade(80)),
        taken("394800", "listed", 1.5, Grade::Binary(true)),
    ];
    let mut report = DegreeStatus::new();
    let handler = BankRuleHandler {
        bank_name: "malag".to_string(),
        course_list: Vec::new(),
        courses: &courses,
        credit_overflow: credit(1.0),
        catalog_replacements: &none,
        common_replacements: &none,
    };
    let earned = handler.malag(&history, &mut report, &ids(&["394800"]));
    assert_eq!(points(earned), 4.5);
    let claimed: Vec<&str> = report.course_statuses.iter().map(|s| s.course.id.as_str()).collect();
    assert_eq!(claimed, vec!["324520", "324521", "394800"]);
}

#[test]
fn sport_claims_listed_courses_and_those_known_by_prefix() {
    let courses: Vec<Course> = Vec::new();
    let none: Vec<OptionalReplacements> = Vec::new();
    let history = vec![
        taken("394800", "swimming", 1.0, Grade::Binary(true)),
        taken("394801", "tennis", 1.5, Grade::Binary(true)),
        taken("234111", "cs", 4.0, Grade::Grade(80)),
        taken("3948", "short", 1.0, Grade::Binary(true)),
        taken("039400", "elsewhere", 1.0, Grade::Binary(true)),
    ];
    let mut report = DegreeStatus::new();
    let handler = BankRuleHandler {
        bank_name: "sport".to_string(),
        course_list: Vec::new(),
        courses: &courses,
        credit_overflow: 0,
        catalog_replacements: &none,
        common_replacements: &none,
    };
    let earned = handler.sport(&history, &mut report, &ids(&["039400"]));
    assert_eq!(points(earned), 4.5);
    assert_eq!(report.course_statuses.len(), 4);
}

#[test]
fn groups_grant_their_credit_when_the_clause_is_met() {
    let courses: Vec<Course> = Vec::new();
    let none: Vec<OptionalReplacements> = Vec::new();
    let history = four_courses();
    let groups = vec![
        SpecializationGroup {
            name: "both".to_string(),
            credit: credit(6.0),
            mandatory: Some((ids(&["000001", "000003"]), Logic::AND)),
        },
        SpecializationGroup {
            name: "failed one".to_string(),
            credit: credit(8.0),
            mandatory: Some((ids(&["000001", "000002"]), Logic::AND)),
        },
        SpecializationGroup {
            name: "either".to_string(),
            credit: credit(2.0),
            mandatory: Some((ids(&["000002", "000004"]), Logic::OR)),
        },
        SpecializationGroup { name: "free".to_string(), credit: credit(10.0), mandatory: None },
        SpecializationGroup { name: "late".to_string(), credit: credit(5.0), mandatory: None },
    ];
    let mut report = DegreeStatus::new();
    let handler = BankRuleHandler {
        bank_name: "groups".to_string(),
        course_list: ids(&["000001", "000002", "000003", "000004"]),
        courses: &courses,
        credit_overflow: credit(0.5),
        catalog_replacements: &none,
        common_replacements: &none,
    };
    let (earned, complete) = handler.specialization_groups(&history, &mut report, &groups);
    // 0.5 incoming, 6.0 and 2.0 by clauses, 10.0 and the remaining 2.0 from the pool of 12.0
    assert_eq!(points(earned), 20.5);
    assert!(!complete);
}

#[test]
fn groups_are_complete_when_every_group_is_fulfilled() {
    let courses: Vec<Course> = Vec::new();
    let none: Vec<OptionalReplacements> = Vec::new();
    let history = four_courses();
    let groups = vec![
        SpecializationGroup {
            name: "either".to_string(),
            credit: credit(2.0),
            mandatory: Some((ids(&["000002", "000004"]), Logic::OR)),
        },
        SpecializationGroup { name: "free".to_string(), credit: credit(12.0), mandatory: None },
    ];
    let mut report = DegreeStatus::new();
    let handler = BankRuleHandler {
        bank_name: "groups".to_string(),
        course_list: ids(&["000001", "000002", "000003", "000004"]),
        courses: &courses,
        credit_overflow: 0,
        catalog_replacements: &none,
        common_replacements: &none,
    };
    let (earned, complete) = handler.specialization_groups(&history, &mut report, &groups);
    assert_eq!(points(earned), 14.0);
    assert!(complete);
}

#[test]
fn wildcard_accumulates_or_holds_the_overflow_only() {
    let courses: Vec<Course> = Vec::new();
    let none: Vec<OptionalReplacements> = Vec::new();
    let history = four_courses();
    let mut report = DegreeStatus::new();
    let closed = BankRuleHandler {
        bank_name: "wild".to_string(),
        course_list: ids(&["000001"]),
        courses: &courses,
        credit_overflow: credit(2.0),
        catalog_replacements: &none,
        common_replacements: &none,
    };
    assert_eq!(points(closed.wildcard(&history, &mut report, false)), 2.0);
    assert!(report.course_statuses.is_empty());
    let open = BankRuleHandler {
        bank_name: "wild".to_string(),
        course_list: ids(&["000001"]),
        courses: &courses,
        credit_overflow: credit(2.0),
        catalog_replacements: &none,
        common_replacements: &none,
    };
    assert_eq!(points(open.wildcard(&history, &mut report, true)), 5.0);
    assert_eq!(report.course_statuses.len(), 1);
}

#[test]
fn malag_leaves_a_record_of_another_bank_alone() {
    let courses: Vec<Course> = Vec::new();
    let none: Vec<OptionalReplacements> = Vec::new();
    let history = vec![
        taken("m1", "listed", 2.0, Grade::Grade(80)),
        taken("m2", "listed too", 3.0, Grade::Grade(80)),
    ];
    let mut report = DegreeStatus::new();
    let mut earlier = 0;
    report.add_course(history[0].clone(), "core".to_string(), &mut earlier);
    assert_eq!(points(earlier), 2.0);
    let handler = BankRuleHandler {
        bank_name: "malag".to_string(),
        course_list: Vec::new(),
        courses: &courses,
        credit_overflow: 0,
        catalog_replacements: &none,
        common_replacements: &none,
    };
    let earned = handler.malag(&history, &mut report, &ids(&["m1", "m2"]));
    assert_eq!(points(earned), 3.0);
    assert_eq!(report.course_statuses.len(), 2);
    assert_eq!(report.course_statuses[0].course.id, "m1");
    assert_eq!(report.course_statuses[0].bank.as_deref(), Some("core"));
    assert_eq!(report.course_statuses[1].course.id, "m2");
    assert_eq!(report.course_statuses[1].bank.as_deref(), Some("malag"));
}
