use degree_status::catalog::{
    contains_text, Catalog, CatalogId, CourseBank, CourseTableRow, CreditOverflow, DisplayCatalog,
    OptionalReplacements, ReferenceData, Rule,
};
use degree_status::catalog_id::{chosen_catalog_id, parse_catalog_id, RequestError};
use degree_status::course::{
    passed_course, position_of_course, position_of_listing, Course, CourseState, CourseStatus,
    Grade, PASS_THRESHOLD,
};
use degree_status::degree_status::{DegreeStatus, Requirement};
use degree_status::ledger::OverflowLedger;
use degree_status::processor::DegreeStatusProcessor;
use degree_status::replacement::{append_texts, position_of_entry, replacements_for};
use degree_status::text::{credit_string, decimal_string, overflow_message_string};
use degree_status::user::{is_authorized, Permissions, User, UserDetails, UserSettings};

fn moved(amount: &str, from: &str, to: &str) -> String {
    format!("עברו {} נקודות מ- {} ל- {}", amount, from, to)
}

fn status(id: &str, credit: u64, grade: Option<Grade>) -> CourseStatus {
    CourseStatus {
        course: Course { id: id.to_string(), credit, name: String::new() },
        state: None,
        grade,
        semester: None,
        bank: None,
    }
}

fn texts(list: &[&str]) -> Vec<String> {
    list.iter().map(|t| t.to_string()).collect()
}

#[test]
fn grades_pass_from_the_threshold_on() {
    assert_eq!(PASS_THRESHOLD, 55);
    assert!(Grade::Grade(55).passes());
    assert!(Grade::Grade(100).passes());
    assert!(!Grade::Grade(54).passes());
    assert!(!Grade::Grade(0).passes());
    assert!(Grade::Binary(true).passes());
    assert!(!Grade::Binary(false).passes());
    assert!(Grade::ExemptionWithoutCredit.passes());
    assert!(Grade::ExemptionWithCredit.passes());
}

#[test]
fn a_record_without_a_grade_has_not_passed() {
    assert!(!status("a", 100, None).passed());
    assert!(status("a", 100, Some(Grade::Grade(55))).passed());
    assert!(!status("a", 100, Some(Grade::Binary(false))).passed());
}

#[test]
fn the_first_record_of_a_course_is_found() {
    let history = vec![
        status("a", 100, Some(Grade::Grade(30))),
        status("b", 100, Some(Grade::Grade(90))),
        status("a", 100, Some(Grade::Grade(90))),
    ];
    assert_eq!(position_of_course(&history, &"a".to_string()), Some(0));
    assert_eq!(position_of_course(&history, &"b".to_string()), Some(1));
    assert_eq!(position_of_course(&history, &"c".to_string()), None);
    assert!(!passed_course(&history, &"a".to_string()));
    assert!(passed_course(&history, &"b".to_string()));
    assert!(!passed_course(&history, &"c".to_string()));
    let courses = vec![
        Course { id: "x".to_string(), credit: 1, name: "first".to_string() },
        Course { id: "x".to_string(), credit: 2, name: "second".to_string() },
    ];
    assert_eq!(position_of_listing(&courses, &"x".to_string()), Some(0));
    assert_eq!(position_of_listing(&courses, &"y".to_string()), None);
}

#[test]
fn clones_keep_every_field() {
    let original = CourseStatus {
        course: Course { id: "a".to_string(), credit: 350, name: "algebra".to_string() },
        state: Some(CourseState::InProgress),
        grade: Some(Grade::Grade(77)),
        semester: Some("spring".to_string()),
        bank: Some("core".to_string()),
    };
    let copy = original.clone();
    assert_eq!(format!("{:?}", copy), format!("{:?}", original));
}

#[test]
fn a_requirement_is_built_step_by_step() {
    let requirement = Requirement::create("core".to_string(), 500);
    assert_eq!(requirement.course_bank_name, "core");
    assert_eq!(requirement.credit_requirment, 500);
    assert_eq!(requirement.credit_complete, 0);
    assert_eq!(requirement.message, None);
    let requirement = requirement.with_credits(350).with_message("two courses left".to_string());
    assert_eq!(requirement.credit_requirment, 500);
    assert_eq!(requirement.credit_complete, 350);
    assert_eq!(requirement.message.as_deref(), Some("two courses left"));
    let copy = requirement.clone();
    assert_eq!(format!("{:?}", copy), format!("{:?}", requirement));
}

#[test]
fn a_report_adds_each_course_once() {
    let mut report = DegreeStatus::new();
    assert!(report.course_statuses.is_empty());
    assert_eq!(report.total_credit, 0);
    let mut sum = 10;
    report.add_course(status("a", 300, Some(Grade::Grade(90))), "core".to_string(), &mut sum);
    assert_eq!(sum, 310);
    assert!(report.contains_course(&"a".to_string()));
    assert!(!report.contains_course(&"b".to_string()));
    report.add_course(status("a", 300, Some(Grade::Grade(90))), "other".to_string(), &mut sum);
    assert_eq!(sum, 310);
    assert_eq!(report.course_statuses.len(), 1);
    assert_eq!(report.course_statuses[0].bank.as_deref(), Some("core"));
    assert_eq!(report.course_statuses[0].state, Some(CourseState::Complete));
    report.add_course(status("b", 200, Some(Grade::Grade(10))), "core".to_string(), &mut sum);
    assert_eq!(sum, 310);
    assert_eq!(report.course_statuses[1].state, Some(CourseState::NotComplete));
    assert_eq!(report.course_statuses[1].grade, Some(Grade::Grade(10)));
}

#[test]
fn numbers_are_written_in_decimal() {
    assert_eq!(decimal_string(0), "0");
    assert_eq!(decimal_string(7), "7");
    assert_eq!(decimal_string(10), "10");
    assert_eq!(decimal_string(9081), "9081");
    assert_eq!(decimal_string(u64::MAX), "18446744073709551615");
}

#[test]
fn credit_is_written_with_the_places_it_needs() {
    assert_eq!(credit_string(0), "0");
    assert_eq!(credit_string(5), "0.05");
    assert_eq!(credit_string(50), "0.5");
    assert_eq!(credit_string(100), "1");
    assert_eq!(credit_string(350), "3.5");
    assert_eq!(credit_string(1000), "10");
    assert_eq!(credit_string(12345), "123.45");
    assert_eq!(credit_string(u64::MAX), "184467440737095516.15");
    // as the same number of points is written when it is held as a float
    assert_eq!(credit_string(350), format!("{}", 3.5_f32));
    assert_eq!(credit_string(300), format!("{}", 3.0_f32));
    assert_eq!(credit_string(25), format!("{}", 0.25_f32));
}

#[test]
fn a_transfer_is_written_out() {
    assert_eq!(
        overflow_message_string(150, &"core".to_string(), &"electives".to_string()),
        moved("1.5", "core", "electives")
    );
}

#[test]
fn the_ledger_keeps_the_last_surplus_of_a_bank() {
    let mut ledger = OverflowLedger::new();
    assert_eq!(ledger.amount_of(&"A".to_string()), 0);
    ledger.record_surplus("A".to_string(), 100);
    ledger.record_surplus("B".to_string(), 40);
    ledger.record_surplus("A".to_string(), 70);
    assert_eq!(ledger.amount_of(&"A".to_string()), 70);
    assert_eq!(ledger.amount_of(&"B".to_string()), 40);
    assert_eq!(ledger.entries.len(), 2);
    assert_eq!(ledger.position_of_bank(&"B".to_string()), Some(1));
    assert_eq!(ledger.position_of_bank(&"C".to_string()), None);
}

#[test]
fn overflow_is_taken_from_every_source_and_only_once() {
    let edges = vec![
        CreditOverflow { from: "A".to_string(), to: "C".to_string() },
        CreditOverflow { from: "B".to_string(), to: "D".to_string() },
        CreditOverflow { from: "Z".to_string(), to: "C".to_string() },
        CreditOverflow { from: "B".to_string(), to: "C".to_string() },
        CreditOverflow { from: "A".to_string(), to: "C".to_string() },
    ];
    let mut ledger = OverflowLedger::new();
    ledger.record_surplus("A".to_string(), 100);
    ledger.record_surplus("B".to_string(), 40);
    ledger.record_surplus("E".to_string(), 5);
    let mut messages = vec!["earlier".to_string()];
    let total = ledger.consume_for(&"C".to_string(), &edges, &mut messages);
    assert_eq!(total, 140);
    assert_eq!(
        messages,
        vec![
            "earlier".to_string(),
            moved("1", "A", "C"),
            moved("0.4", "B", "C"),
        ]
    );
    assert_eq!(ledger.amount_of(&"A".to_string()), 0);
    assert_eq!(ledger.amount_of(&"B".to_string()), 0);
    assert_eq!(ledger.amount_of(&"E".to_string()), 5);
    // recorded 145 = consumed 140 + left 5
    let again = ledger.consume_for(&"C".to_string(), &edges, &mut messages);
    assert_eq!(again, 0);
    assert_eq!(messages.len(), 3);
    assert_eq!(ledger.consume_for(&"D".to_string(), &edges, &mut messages), 0);
}

#[test]
fn replacements_of_the_catalog_come_before_the_common_ones() {
    let own = vec![
        OptionalReplacements {
            course: "100".to_string(),
            replacements: texts(&["101", "102"]),
            exclusive: false,
        },
        OptionalReplacements {
            course: "200".to_string(),
            replacements: texts(&["201"]),
            exclusive: true,
        },
        OptionalReplacements {
            course: "100".to_string(),
            replacements: texts(&["199"]),
            exclusive: true,
        },
    ];
    let common = vec![
        OptionalReplacements {
            course: "100".to_string(),
            replacements: texts(&["102", "103"]),
            exclusive: false,
        },
        OptionalReplacements {
            course: "200".to_string(),
            replacements: texts(&["202"]),
            exclusive: false,
        },
        OptionalReplacements {
            course: "300".to_string(),
            replacements: texts(&["301"]),
            exclusive: true,
        },
    ];
    assert_eq!(
        replacements_for(&"100".to_string(), &own, &common),
        texts(&["101", "102", "102", "103"])
    );
    assert_eq!(replacements_for(&"200".to_string(), &own, &common), texts(&["201"]));
    assert_eq!(replacements_for(&"300".to_string(), &own, &common), texts(&["301"]));
    assert_eq!(replacements_for(&"400".to_string(), &own, &common), texts(&[]));
    assert_eq!(replacements_for(&"100".to_string(), &own, &Vec::new()), texts(&["101", "102"]));
    assert_eq!(position_of_entry(&own, &"100".to_string()), Some(0));
    assert_eq!(position_of_entry(&own, &"300".to_string()), None);
    let mut target = texts(&["a"]);
    append_texts(&mut target, &texts(&["b", "c"]));
    assert_eq!(target, texts(&["a", "b", "c"]));
}

#[test]
fn the_course_list_of_a_bank_follows_the_table() {
    let catalog = Catalog {
        id: CatalogId { bytes: [0; 12] },
        name: "cs".to_string(),
        course_banks: Vec::new(),
        course_table: vec![
            CourseTableRow { id: "a".to_string(), course_banks: texts(&["core", "extra"]) },
            CourseTableRow { id: "b".to_string(), course_banks: texts(&["extra"]) },
            CourseTableRow { id: "c".to_string(), course_banks: texts(&[]) },
            CourseTableRow { id: "d".to_string(), course_banks: texts(&["core"]) },
        ],
        credit_overflows: Vec::new(),
        catalog_replacements: Vec::new(),
    };
    assert_eq!(catalog.course_list(&"core".to_string()), texts(&["a", "d"]));
    assert_eq!(catalog.course_list(&"extra".to_string()), texts(&["a", "b"]));
    assert_eq!(catalog.course_list(&"none".to_string()), texts(&[]));
    assert!(contains_text(&texts(&["x", "y"]), &"y".to_string()));
    assert!(!contains_text(&texts(&["x", "y"]), &"z".to_string()));
    let shown = DisplayCatalog::from_catalog(&catalog);
    assert_eq!(shown.id, catalog.id);
    assert_eq!(shown.name, "cs");
}

#[test]
fn paths_are_open_by_level() {
    assert!(is_authorized("/students/login", Permissions::Student));
    assert!(is_authorized("/students/login", Permissions::Admin));
    assert!(is_authorized("/student", Permissions::Owner));
    assert!(!is_authorized("/admins/parse", Permissions::Student));
    assert!(is_authorized("/admins/parse", Permissions::Admin));
    assert!(is_authorized("/admin", Permissions::Owner));
    assert!(!is_authorized("/owners/courses", Permissions::Student));
    assert!(!is_authorized("/owners/courses", Permissions::Admin));
    assert!(is_authorized("/owners/courses", Permissions::Owner));
    assert!(!is_authorized("/catalogs", Permissions::Owner));
    assert!(!is_authorized("", Permissions::Owner));
    assert!(!is_authorized("student", Permissions::Owner));
    assert!(!is_authorized("/x/admin", Permissions::Owner));
}

#[test]
fn levels_are_ordered() {
    assert_eq!(Permissions::default(), Permissions::Student);
    assert_eq!(Permissions::Student.level(), 0);
    assert_eq!(Permissions::Admin.level(), 1);
    assert_eq!(Permissions::Owner.level(), 2);
    assert!(Permissions::Owner >= Permissions::Admin);
    assert!(Permissions::Admin >= Permissions::Admin);
    assert!(!(Permissions::Student >= Permissions::Admin));
    assert!(Permissions::Student < Permissions::Owner);
    assert!(Permissions::Admin > Permissions::Student);
    assert!(!UserSettings::default().dark_mode);
}

#[test]
fn a_new_user_is_a_student_without_data() {
    let user = User::new("sub-1".to_string());
    assert_eq!(user.sub, "sub-1");
    assert_eq!(user.permissions, Permissions::Student);
    assert!(user.details.catalog.is_none());
    assert!(user.details.course_statuses.is_empty());
    assert!(!user.details.modified);
    assert!(!user.details.compute_in_progress);
    assert!(user.may_access("/students/degree-status"));
    assert!(!user.may_access("/admins/parse-compute"));
}

#[test]
fn changing_catalog_or_courses_empties_the_report() {
    let catalog = Catalog {
        id: CatalogId { bytes: [9; 12] },
        name: "ee".to_string(),
        course_banks: Vec::new(),
        course_table: Vec::new(),
        credit_overflows: Vec::new(),
        catalog_replacements: Vec::new(),
    };
    let mut details = UserDetails::new();
    assert_eq!(chosen_catalog_id(&details), Err(RequestError::NoCatalog));
    details.degree_status.total_credit = 100;
    details.set_courses(vec![status("a", 100, Some(Grade::Grade(90)))]);
    assert_eq!(details.degree_status.total_credit, 0);
    assert!(details.modified);
    assert_eq!(details.course_statuses.len(), 1);
    assert!(details.find_course(&"a".to_string()).is_some());
    assert!(details.find_course(&"b".to_string()).is_none());
    details.modified = false;
    details.degree_status.total_credit = 100;
    details.set_catalog(&catalog);
    assert!(details.modified);
    assert_eq!(details.degree_status.total_credit, 0);
    assert_eq!(details.course_statuses.len(), 1);
    assert_eq!(chosen_catalog_id(&details), Ok(CatalogId { bytes: [9; 12] }));
}

#[test]
fn a_catalog_identifier_is_read_from_hexadecimal_digits() {
    assert_eq!(
        parse_catalog_id("507f1f77bcf86cd799439011"),
        Ok(CatalogId {
            bytes: [0x50, 0x7f, 0x1f, 0x77, 0xbc, 0xf8, 0x6c, 0xd7, 0x99, 0x43, 0x90, 0x11]
        })
    );
    assert_eq!(
        parse_catalog_id("507F1F77BCF86CD7994390AB"),
        Ok(CatalogId {
            bytes: [0x50, 0x7f, 0x1f, 0x77, 0xbc, 0xf8, 0x6c, 0xd7, 0x99, 0x43, 0x90, 0xab]
        })
    );
    assert_eq!(parse_catalog_id("000000000000000000000000"), Ok(CatalogId { bytes: [0; 12] }));
}

#[test]
fn other_texts_are_no_catalog_identifiers() {
    assert_eq!(parse_catalog_id(""), Err(RequestError::InvalidCatalogId));
    assert_eq!(parse_catalog_id("507f1f77bcf86cd79943901"), Err(RequestError::InvalidCatalogId));
    assert_eq!(parse_catalog_id("507f1f77bcf86cd7994390111"), Err(RequestError::InvalidCatalogId));
    assert_eq!(parse_catalog_id("507f1f77bcf86cd79943901g"), Err(RequestError::InvalidCatalogId));
    assert_eq!(parse_catalog_id("507f1f77bcf86cd7994390é"), Err(RequestError::InvalidCatalogId));
    assert_eq!(parse_catalog_id(" 07f1f77bcf86cd799439011"), Err(RequestError::InvalidCatalogId));
    assert_eq!(
        parse_catalog_id("507f1f77bcf86cd799439011507f1f77bcf86cd799439011"),
        Err(RequestError::InvalidCatalogId)
    );
}

#[test]
fn settling_caps_the_credit_and_records_the_surplus() {
    let catalog = Catalog {
        id: CatalogId { bytes: [1; 12] },
        name: "cs".to_string(),
        course_banks: Vec::new(),
        course_table: Vec::new(),
        credit_overflows: Vec::new(),
        catalog_replacements: Vec::new(),
    };
    let reference = ReferenceData {
        courses: Vec::new(),
        malag_courses: Vec::new(),
        sport_courses: Vec::new(),
        common_replacements: Vec::new(),
    };
    let banks: Vec<CourseBank> = Vec::new();
    let bank = CourseBank {
        name: "core".to_string(),
        rule: Rule::Accumulate,
        credit: 300,
        message: String::new(),
    };
    let mut ledger = OverflowLedger::new();
    ledger.record_surplus("core".to_string(), 999);
    ledger.record_surplus("other".to_string(), 50);
    let mut processor = DegreeStatusProcessor {
        course_banks: &banks,
        catalog: &catalog,
        reference: &reference,
        credit_overflow_map: ledger,
    };
    let mut user = UserDetails::new();
    user.degree_status.total_credit = 100;
    let complete = processor.calculate_credit_and_handle_overflow(&bank, 450, &mut user);
    assert_eq!(complete, 300);
    assert_eq!(user.degree_status.total_credit, 400);
    assert_eq!(processor.credit_overflow_map.amount_of(&"core".to_string()), 150);
    assert_eq!(processor.credit_overflow_map.amount_of(&"other".to_string()), 50);

    let complete = processor.calculate_credit_and_handle_overflow(&bank, 300, &mut user);
    assert_eq!(complete, 300);
    assert_eq!(processor.credit_overflow_map.amount_of(&"core".to_string()), 150);
    let complete = processor.calculate_credit_and_handle_overflow(&bank, 120, &mut user);
    assert_eq!(complete, 120);
    assert_eq!(user.degree_status.total_credit, 820);
    assert_eq!(processor.credit_overflow_map.amount_of(&"core".to_string()), 150);
    assert_eq!(processor.credit_overflow_map.amount_of(&"other".to_string()), 50);
}
