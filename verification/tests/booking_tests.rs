use booking_system::booking::{
    count_department_bookings, counts_towards_department_limit, evaluate_booking,
    evaluate_booking_result, holidays_remaining, holidays_used, meets_notice_requirement,
    ApprovalStatus, Booking, BookingContext, BookingType, Department, DepartmentRule, EbftRole,
    EmployeeInfo, PaymentStatus, RuleResult,
};
use booking_system::date::Date;

fn date(year: i32, month: u32, day: u32) -> Date {
    Date { year, month, day }
}

fn employee(id: u32, department: Department) -> EmployeeInfo {
    EmployeeInfo {
        id,
        name: format!("Employee {}", id),
        holiday_allowance: 25,
        department,
        additional_departments: Vec::new(),
        ebft_role: None,
        manager_id: Some(100),
    }
}

fn booking(id: u32, employee_id: u32, on: Date, booking_type: BookingType) -> Booking {
    Booking {
        id,
        employee_id,
        date: on,
        booking_type,
        department_id: 1,
        payment_status: PaymentStatus::NoResponse,
        approval_status: ApprovalStatus::NoResponse,
    }
}

fn rule(department: Department, limit: u32, exceptional: bool) -> DepartmentRule {
    DepartmentRule { department, normal_absence_limit: limit, exceptional_can_exceed_limit: exceptional }
}

fn context(employee: EmployeeInfo, primary: DepartmentRule, secondary: Option<DepartmentRule>) -> BookingContext {
    BookingContext { employee, department_rule: primary, secondary_department_rule: secondary }
}

#[test]
fn only_holidays_and_work_leave_count() {
    assert!(counts_towards_department_limit(&BookingType::Holiday));
    assert!(counts_towards_department_limit(&BookingType::WorkLeave));
    assert!(!counts_towards_department_limit(&BookingType::Sick));
    assert!(!counts_towards_department_limit(&BookingType::ExceptionalCircumstance));
    assert!(!counts_towards_department_limit(&BookingType::Appointment));
    assert!(!counts_towards_department_limit(&BookingType::WorkFromHome));
    assert!(!counts_towards_department_limit(&BookingType::CharityBuilding));
    assert!(!counts_towards_department_limit(&BookingType::StaffEvent));
    assert!(!counts_towards_department_limit(&BookingType::Other("Jury".to_string())));
}

#[test]
fn notice_needs_fourteen_days_unless_exceptional() {
    assert!(!meets_notice_requirement(13, &BookingType::Holiday));
    assert!(meets_notice_requirement(14, &BookingType::Holiday));
    assert!(meets_notice_requirement(40, &BookingType::Sick));
    assert!(meets_notice_requirement(-5, &BookingType::ExceptionalCircumstance));
}

#[test]
fn department_bookings_are_counted_by_day_department_and_type() {
    let day = date(2024, 8, 5);
    let mut second = employee(2, Department::IT);
    second.additional_departments = vec![Department::Trading];
    let employees = vec![employee(1, Department::Trading), second, employee(3, Department::IT)];
    let bookings = vec![
        booking(1, 1, day, BookingType::Holiday),
        booking(2, 2, day, BookingType::WorkLeave),
        booking(3, 3, day, BookingType::Holiday),
        booking(4, 1, date(2024, 8, 6), BookingType::Holiday),
        booking(5, 1, day, BookingType::Sick),
        booking(6, 9, day, BookingType::Holiday),
    ];
    assert_eq!(count_department_bookings(&bookings, Department::Trading, day, &employees), 2);
    assert_eq!(count_department_bookings(&bookings, Department::IT, day, &employees), 2);
    assert_eq!(count_department_bookings(&bookings, Department::Logistics, day, &employees), 0);
    assert_eq!(count_department_bookings(&[], Department::Trading, day, &employees), 0);
}

#[test]
fn the_first_employee_with_an_id_decides() {
    let day = date(2024, 8, 5);
    let employees = vec![employee(1, Department::IT), employee(1, Department::Trading)];
    let bookings = vec![booking(1, 1, day, BookingType::Holiday)];
    assert_eq!(count_department_bookings(&bookings, Department::Trading, day, &employees), 0);
    assert_eq!(count_department_bookings(&bookings, Department::IT, day, &employees), 1);
}

#[test]
fn holidays_used_and_remaining() {
    let mut e = employee(1, Department::IT);
    e.holiday_allowance = 2;
    let bookings = vec![
        booking(1, 1, date(2024, 1, 2), BookingType::Holiday),
        booking(2, 1, date(2024, 1, 3), BookingType::Sick),
        booking(3, 2, date(2024, 1, 3), BookingType::Holiday),
        booking(4, 1, date(2024, 1, 4), BookingType::Holiday),
        booking(5, 1, date(2024, 1, 5), BookingType::Holiday),
    ];
    assert_eq!(holidays_used(&bookings, 1), 3);
    assert_eq!(holidays_used(&bookings, 2), 1);
    assert_eq!(holidays_used(&bookings, 3), 0);
    assert_eq!(holidays_remaining(&bookings, &e), 0);
    e.holiday_allowance = 10;
    assert_eq!(holidays_remaining(&bookings, &e), 7);
}

#[test]
fn a_holiday_within_limits_is_allowed() {
    let day = date(2024, 8, 5);
    let e = employee(1, Department::Trading);
    let employees = vec![e.clone(), employee(2, Department::Trading)];
    let bookings = vec![booking(1, 2, day, BookingType::Holiday)];
    let ctx = context(e, rule(Department::Trading, 2, false), None);
    let new_booking = booking(9, 1, day, BookingType::Holiday);
    let evaluation = evaluate_booking(&bookings, &employees, &ctx, &new_booking, 30);
    assert_eq!(evaluation.result, RuleResult::Allowed);
    assert_eq!(
        evaluation.reasons,
        vec![
            "Employee has 25 holiday days remaining before this request.".to_string(),
            "The department has 1 of 2 normal absence positions occupied.".to_string(),
        ]
    );
    assert_eq!(evaluation.approver_id, Some(100));
    assert!(evaluation.requires_approval);
    assert!(!evaluation.is_exceptional);
    assert_eq!(evaluation.holiday_days_remaining, Some(24));
    assert!(!evaluation.requires_head_trustee_approval);
}

#[test]
fn short_notice_breaks_the_rules() {
    let day = date(2024, 8, 5);
    let e = employee(1, Department::Trading);
    let employees = vec![e.clone()];
    let ctx = context(e, rule(Department::Trading, 2, false), None);
    let new_booking = booking(9, 1, day, BookingType::Appointment);
    let evaluation = evaluate_booking(&[], &employees, &ctx, &new_booking, 3);
    assert_eq!(evaluation.result, RuleResult::RuleBreaker);
    assert_eq!(
        evaluation.reasons,
        vec![
            "This request was made with less than 14 days notice.".to_string(),
            "The department has 0 of 2 normal absence positions occupied.".to_string(),
        ]
    );
    assert_eq!(evaluation.holiday_days_remaining, None);
}

#[test]
fn a_full_department_breaks_the_rule() {
    let day = date(2024, 8, 5);
    let e = employee(1, Department::Logistics);
    let employees = vec![e.clone(), employee(2, Department::Logistics), employee(3, Department::Logistics)];
    let bookings = vec![
        booking(1, 2, day, BookingType::Holiday),
        booking(2, 3, day, BookingType::WorkLeave),
    ];
    let ctx = context(e, rule(Department::Logistics, 2, true), None);
    let new_booking = booking(9, 1, day, BookingType::WorkLeave);
    let evaluation = evaluate_booking(&bookings, &employees, &ctx, &new_booking, 30);
    assert_eq!(evaluation.result, RuleResult::RuleBreaker);
    assert_eq!(
        evaluation.reasons,
        vec!["The normal absence limit for this department has been reached.".to_string()]
    );
}

#[test]
fn an_exceptional_request_over_the_limit_is_a_yellow_exception() {
    let day = date(2024, 8, 5);
    let e = employee(1, Department::Logistics);
    let employees = vec![e.clone(), employee(2, Department::Logistics)];
    let bookings = vec![booking(1, 2, day, BookingType::Holiday)];
    let ctx = context(e.clone(), rule(Department::Logistics, 1, true), None);
    let new_booking = booking(9, 1, day, BookingType::ExceptionalCircumstance);
    let evaluation = evaluate_booking(&bookings, &employees, &ctx, &new_booking, 0);
    assert_eq!(evaluation.result, RuleResult::ExceptionalRuleBreaker);
    assert!(evaluation.is_exceptional);
    assert_eq!(
        evaluation.reasons,
        vec!["The normal absence limit has been reached. This exceptional circumstance request is a yellow exception.".to_string()]
    );
    let strict = context(e, rule(Department::Logistics, 1, false), None);
    assert_eq!(
        evaluate_booking_result(&bookings, &employees, &strict, &new_booking, 0),
        RuleResult::RuleBreaker
    );
}

#[test]
fn no_allowance_left_breaks_the_rule() {
    let mut e = employee(1, Department::IT);
    e.holiday_allowance = 1;
    let employees = vec![e.clone()];
    let bookings = vec![booking(1, 1, date(2024, 3, 1), BookingType::Holiday)];
    let ctx = context(e, rule(Department::IT, 5, false), None);
    let new_booking = booking(9, 1, date(2024, 8, 5), BookingType::Holiday);
    let evaluation = evaluate_booking(&bookings, &employees, &ctx, &new_booking, 30);
    assert_eq!(evaluation.result, RuleResult::RuleBreaker);
    assert_eq!(evaluation.reasons[0], "The employee has no holiday allowance remaining.");
    assert_eq!(evaluation.holiday_days_remaining, Some(0));
}

#[test]
fn rules_of_other_departments_do_not_apply() {
    let e = employee(1, Department::IT);
    let employees = vec![e.clone()];
    let ctx = context(e, rule(Department::Trading, 0, false), Some(rule(Department::Accounting, 0, false)));
    let new_booking = booking(9, 1, date(2024, 8, 5), BookingType::WorkLeave);
    let evaluation = evaluate_booking(&[], &employees, &ctx, &new_booking, 30);
    assert_eq!(evaluation.result, RuleResult::Allowed);
    assert!(evaluation.reasons.is_empty());
}

#[test]
fn directors_limit_applies_as_a_second_rule() {
    let day = date(2024, 8, 5);
    let mut d1 = employee(1, Department::Trading);
    d1.additional_departments = vec![Department::Directors];
    let d2 = employee(2, Department::Directors);
    let employees = vec![d1.clone(), d2];
    let bookings = vec![booking(1, 2, day, BookingType::Holiday)];
    let ctx = context(d1.clone(), rule(Department::Trading, 3, false), Some(rule(Department::Directors, 1, true)));
    let new_booking = booking(9, 1, day, BookingType::WorkLeave);
    let evaluation = evaluate_booking(&bookings, &employees, &ctx, &new_booking, 30);
    assert_eq!(evaluation.result, RuleResult::RuleBreaker);
    assert_eq!(
        evaluation.reasons,
        vec![
            "The department has 0 of 3 normal absence positions occupied.".to_string(),
            "The Directors' absence limit has been reached.".to_string(),
        ]
    );
    let roomy = context(d1, rule(Department::Trading, 3, false), Some(rule(Department::Directors, 2, false)));
    let evaluation = evaluate_booking(&bookings, &employees, &roomy, &new_booking, 30);
    assert_eq!(evaluation.result, RuleResult::Allowed);
    assert_eq!(evaluation.reasons[1], "Directors has 1 of 2 absence positions occupied.");
}

#[test]
fn directors_rule_needs_the_requester_on_record() {
    let mut d1 = employee(1, Department::Directors);
    d1.additional_departments = vec![Department::IT];
    let ctx = context(d1, rule(Department::IT, 3, false), Some(rule(Department::Directors, 0, false)));
    let new_booking = booking(9, 1, date(2024, 8, 5), BookingType::WorkLeave);
    let evaluation = evaluate_booking(&[], &[], &ctx, &new_booking, 30);
    assert_eq!(evaluation.result, RuleResult::Allowed);
    assert_eq!(evaluation.reasons, vec!["The department has 0 of 3 normal absence positions occupied.".to_string()]);
}

fn ebft(id: u32, role: EbftRole) -> EmployeeInfo {
    let mut e = employee(id, Department::EBFT);
    e.ebft_role = Some(role);
    e
}

#[test]
fn ebft_in_term_time_uses_its_limit() {
    let day = date(2024, 10, 1);
    let steve = ebft(1, EbftRole::Steve);
    let employees = vec![steve.clone(), ebft(2, EbftRole::Jac)];
    let bookings = vec![booking(1, 2, day, BookingType::Holiday)];
    let ctx = context(steve, rule(Department::EBFT, 1, false), None);
    let new_booking = booking(9, 1, day, BookingType::WorkLeave);
    let evaluation = evaluate_booking(&bookings, &employees, &ctx, &new_booking, 30);
    assert_eq!(evaluation.result, RuleResult::RuleBreaker);
    assert_eq!(
        evaluation.reasons,
        vec!["EBFT has reached its normal absence limit during Rochdale term time.".to_string()]
    );
    let evaluation = evaluate_booking(&[], &employees, &ctx, &new_booking, 30);
    assert_eq!(evaluation.result, RuleResult::Allowed);
    assert_eq!(
        evaluation.reasons,
        vec!["EBFT is in Rochdale term time and has an absence position available.".to_string()]
    );
}

#[test]
fn ebft_outside_term_time() {
    let day = date(2024, 8, 5);
    let jac = ebft(1, EbftRole::Jac);
    let steve = ebft(2, EbftRole::Steve);
    let travis = ebft(3, EbftRole::Travis);
    let other = ebft(4, EbftRole::Other);
    let employees = vec![jac.clone(), steve.clone(), travis.clone(), other.clone()];
    let ebft_rule = rule(Department::EBFT, 0, false);

    let for_jac = evaluate_booking(&[], &employees, &context(jac, ebft_rule.clone(), None), &booking(9, 1, day, BookingType::WorkLeave), 30);
    assert_eq!(for_jac.reasons, vec!["The employee may be absent outside Rochdale term time.".to_string()]);

    let steve_request = booking(9, 2, day, BookingType::WorkLeave);
    let steve_ctx = context(steve, ebft_rule.clone(), None);
    let alone = evaluate_booking(&[], &employees, &steve_ctx, &steve_request, 30);
    assert_eq!(alone.result, RuleResult::Allowed);
    assert_eq!(alone.reasons, vec!["The employee may be absent individually outside Rochdale term time.".to_string()]);
    assert!(!alone.requires_head_trustee_approval);

    let travis_off = vec![booking(1, 3, day, BookingType::Holiday)];
    let both = evaluate_booking(&travis_off, &employees, &steve_ctx, &steve_request, 30);
    assert_eq!(both.result, RuleResult::Allowed);
    assert_eq!(
        both.reasons,
        vec!["Steve and Travis are both absent outside term time. Head Trustee approval is required.".to_string()]
    );
    assert!(both.requires_head_trustee_approval);

    let travis_sick = vec![booking(1, 3, day, BookingType::Sick)];
    let sick = evaluate_booking(&travis_sick, &employees, &steve_ctx, &steve_request, 30);
    assert!(!sick.requires_head_trustee_approval);

    let jac_off = vec![booking(1, 3, day, BookingType::Holiday), booking(2, 1, day, BookingType::Holiday)];
    let covered = evaluate_booking(&jac_off, &employees, &steve_ctx, &steve_request, 30);
    assert_eq!(covered.reasons, vec!["The employee may be absent because Jac is also absent.".to_string()]);
    assert!(!covered.requires_head_trustee_approval);

    let for_other = evaluate_booking(&[], &employees, &context(other, ebft_rule, None), &booking(9, 4, day, BookingType::WorkLeave), 30);
    assert_eq!(for_other.reasons, vec!["The EBFT request is allowed outside Rochdale term time.".to_string()]);
}

#[test]
fn ebft_needs_the_requester_on_record() {
    let steve = ebft(2, EbftRole::Steve);
    let ctx = context(steve, rule(Department::EBFT, 0, false), None);
    let evaluation = evaluate_booking(&[], &[], &ctx, &booking(9, 2, date(2024, 8, 5), BookingType::WorkLeave), 30);
    assert_eq!(evaluation.result, RuleResult::Allowed);
    assert!(evaluation.reasons.is_empty());
}

#[test]
fn the_most_serious_verdict_wins() {
    let day = date(2024, 8, 5);
    let mut e = employee(1, Department::Logistics);
    e.holiday_allowance = 0;
    let employees = vec![e.clone(), employee(2, Department::Logistics)];
    let bookings = vec![booking(1, 2, day, BookingType::Holiday)];
    let ctx = context(e, rule(Department::Logistics, 1, true), None);
    let new_booking = booking(9, 1, day, BookingType::Holiday);
    let evaluation = evaluate_booking(&bookings, &employees, &ctx, &new_booking, 30);
    assert_eq!(evaluation.result, RuleResult::RuleBreaker);
    assert_eq!(evaluation.reasons.len(), 2);
}
