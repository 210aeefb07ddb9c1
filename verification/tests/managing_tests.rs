use booking_system::booking::{
    ApprovalStatus, Booking, BookingEvaluation, BookingType, PaymentStatus, RuleResult,
};
use booking_system::date::Date;
use booking_system::employee::EmployeeInfo;
use booking_system::managing::{
    approve, can_manage_department, can_perform_action, can_view_booking, override_approval,
    override_rules, reject, visible_departments, ApprovalOverride, ManagerAccount, ManagerAction,
    ManagerError, ManagerRole,
};

fn manager(overrides: bool) -> ManagerAccount {
    ManagerAccount {
        user_id: 7,
        role: ManagerRole::TradingManager,
        managed_departments: vec![1, 3],
        can_override_approval: overrides,
        can_override_rules: overrides,
    }
}

fn booking(department_id: u32) -> Booking {
    Booking {
        id: 42,
        employee_id: 5,
        date: Date { year: 2024, month: 8, day: 5 },
        booking_type: BookingType::Holiday,
        department_id,
        payment_status: PaymentStatus::Paid,
        approval_status: ApprovalStatus::NoResponse,
    }
}

fn evaluation(result: RuleResult) -> BookingEvaluation {
    BookingEvaluation {
        result,
        reasons: Vec::new(),
        approver_id: Some(7),
        requires_approval: true,
        is_exceptional: false,
        holiday_days_remaining: None,
        requires_head_trustee_approval: false,
    }
}

#[test]
fn managers_see_their_departments() {
    let m = manager(false);
    assert!(can_manage_department(&m, 1));
    assert!(can_manage_department(&m, 3));
    assert!(!can_manage_department(&m, 2));
    assert!(can_view_booking(&m, &booking(3)));
    assert!(!can_view_booking(&m, &booking(2)));
    assert_eq!(visible_departments(&m), &[1, 3]);
}

#[test]
fn actions_need_the_department_and_permissions() {
    let plain = manager(false);
    let full = manager(true);
    assert!(can_perform_action(&plain, &booking(1), ManagerAction::View));
    assert!(can_perform_action(&plain, &booking(1), ManagerAction::Approve));
    assert!(can_perform_action(&plain, &booking(1), ManagerAction::Reject));
    assert!(!can_perform_action(&plain, &booking(1), ManagerAction::OverrideApproval));
    assert!(!can_perform_action(&plain, &booking(1), ManagerAction::OverrideRules));
    assert!(can_perform_action(&full, &booking(1), ManagerAction::OverrideRules));
    assert!(!can_perform_action(&full, &booking(2), ManagerAction::View));
}

#[test]
fn approving_and_rejecting() {
    let m = manager(false);
    let d = approve(&m, &booking(1), &evaluation(RuleResult::RuleBreaker), "Cover arranged".to_string()).unwrap();
    assert_eq!(d.booking_id, 42);
    assert_eq!(d.manager_user_id, 7);
    assert_eq!(d.approval_status, ApprovalStatus::Approved);
    assert_eq!(d.rule_result, RuleResult::RuleBreaker);
    assert_eq!(d.override_type, ApprovalOverride::NoOverride);
    assert_eq!(d.reason, "Cover arranged");

    let d = reject(&m, &booking(3), &evaluation(RuleResult::Allowed), "Busy week".to_string()).unwrap();
    assert_eq!(d.approval_status, ApprovalStatus::Rejected);
    assert_eq!(d.rule_result, RuleResult::Allowed);

    assert!(matches!(
        approve(&m, &booking(2), &evaluation(RuleResult::Allowed), "ok".to_string()),
        Err(ManagerError::ApprovalNotPermitted)
    ));
    assert!(matches!(
        reject(&m, &booking(2), &evaluation(RuleResult::Allowed), "".to_string()),
        Err(ManagerError::ApprovalNotPermitted)
    ));
}

#[test]
fn blank_reasons_are_refused() {
    let m = manager(true);
    for blank in ["", "   ", "\t\n", "\u{3000}\u{a0}"] {
        assert!(matches!(
            approve(&m, &booking(1), &evaluation(RuleResult::Allowed), blank.to_string()),
            Err(ManagerError::EmptyReason)
        ));
        assert!(matches!(
            reject(&m, &booking(1), &evaluation(RuleResult::Allowed), blank.to_string()),
            Err(ManagerError::EmptyReason)
        ));
        assert!(matches!(
            override_approval(&m, &booking(1), ApprovalStatus::Approved, &evaluation(RuleResult::Allowed), blank.to_string()),
            Err(ManagerError::EmptyReason)
        ));
        assert!(matches!(
            override_rules(&m, &booking(1), RuleResult::Allowed, blank.to_string()),
            Err(ManagerError::EmptyReason)
        ));
    }
    let d = approve(&m, &booking(1), &evaluation(RuleResult::Allowed), "  x  ".to_string()).unwrap();
    assert_eq!(d.reason, "  x  ");
}

#[test]
fn forcing_an_approval_status() {
    let full = manager(true);
    let d = override_approval(&full, &booking(1), ApprovalStatus::Approved, &evaluation(RuleResult::RuleBreaker), "Director's call".to_string()).unwrap();
    assert_eq!(d.approval_status, ApprovalStatus::Approved);
    assert_eq!(d.override_type, ApprovalOverride::ForceApproved);
    assert_eq!(d.rule_result, RuleResult::RuleBreaker);
    let d = override_approval(&full, &booking(1), ApprovalStatus::Rejected, &evaluation(RuleResult::Allowed), "No".to_string()).unwrap();
    assert_eq!(d.override_type, ApprovalOverride::ForceRejected);
    assert!(matches!(
        override_approval(&full, &booking(1), ApprovalStatus::NoResponse, &evaluation(RuleResult::Allowed), "Undo".to_string()),
        Err(ManagerError::OverrideNotPermitted)
    ));
    assert!(matches!(
        override_approval(&manager(false), &booking(1), ApprovalStatus::Approved, &evaluation(RuleResult::Allowed), "Go".to_string()),
        Err(ManagerError::OverrideNotPermitted)
    ));
}

#[test]
fn replacing_the_verdict() {
    let full = manager(true);
    let d = override_rules(&full, &booking(3), RuleResult::Allowed, "Agreed exception".to_string()).unwrap();
    assert_eq!(d.approval_status, ApprovalStatus::NoResponse);
    assert_eq!(d.rule_result, RuleResult::Allowed);
    assert_eq!(d.override_type, ApprovalOverride::RuleOverride);
    assert!(matches!(
        override_rules(&manager(false), &booking(3), RuleResult::Allowed, "x".to_string()),
        Err(ManagerError::OverrideNotPermitted)
    ));
    assert!(matches!(
        override_rules(&full, &booking(2), RuleResult::Allowed, "x".to_string()),
        Err(ManagerError::OverrideNotPermitted)
    ));
}

#[test]
fn employee_records() {
    let e = EmployeeInfo::new(3, "Ann".to_string(), 28, 2);
    assert_eq!(e.id, 3);
    assert_eq!(e.name, "Ann");
    assert_eq!(e.holiday_allowance, 28);
    assert_eq!(e.department_id, 2);
}
