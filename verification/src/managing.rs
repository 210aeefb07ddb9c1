//! Managers: which bookings they may see and act on, and the decisions they
//! record.

use vstd::prelude::*;

use crate::booking::{ApprovalStatus, Booking, BookingEvaluation, RuleResult};
use crate::text::{is_blank, is_blank_str, is_white_space};

verus! {

/// A manager's position.
#[derive(Debug, Clone, Copy, PartialEq, Eq, Structural)]
pub enum ManagerRole {
    TradingManager,
    LogisticsManager,
    Director,
}

/// What a manager may do with a booking.
#[derive(Debug, Clone, Copy, PartialEq, Eq, Structural)]
pub enum ManagerAction {
    View,
    Approve,
    Reject,
    OverrideApproval,
    OverrideRules,
}

/// How a decision departs from the ordinary approval flow.
#[derive(Debug, Clone, Copy, PartialEq, Eq, Structural)]
pub enum ApprovalOverride {
    NoOverride,
    ForceApproved,
    ForceRejected,
    RuleOverride,
}

/// A manager with the departments they manage and their override
/// permissions.
#[derive(Debug, Clone)]
pub struct ManagerAccount {
    pub user_id: u32,
    pub role: ManagerRole,
    pub managed_departments: Vec<u32>,
    pub can_override_approval: bool,
    pub can_override_rules: bool,
}

/// A manager's recorded decision on a booking.
#[derive(Debug, Clone)]
pub struct ApprovalDecision {
    pub booking_id: u32,
    pub manager_user_id: u32,
    pub approval_status: ApprovalStatus,
    pub rule_result: RuleResult,
    pub override_type: ApprovalOverride,
    pub reason: String,
}

/// Why a manager's action was refused.
#[derive(Debug)]
pub enum ManagerError {
    NotAuthorised,
    DepartmentNotManaged,
    ApprovalNotPermitted,
    OverrideNotPermitted,
    EmptyReason,
}

/// The manager manages the department with this id.
pub open spec fn manages(manager: ManagerAccount, department_id: u32) -> bool {
    manager.managed_departments@.contains(department_id)
}

/// The manager may take `action` on the booking: they must manage its
/// department; viewing, approving and rejecting need nothing more, the
/// overrides need the matching permission.
pub open spec fn may_perform(manager: ManagerAccount, booking: Booking, action: ManagerAction) -> bool {
    manages(manager, booking.department_id) && match action {
        ManagerAction::View | ManagerAction::Approve | ManagerAction::Reject => true,
        ManagerAction::OverrideApproval => manager.can_override_approval,
        ManagerAction::OverrideRules => manager.can_override_rules,
    }
}

/// Whether the manager manages the department with this id.
pub fn can_manage_department(manager: &ManagerAccount, department_id: u32) -> (r: bool)
    ensures
        r == manages(*manager, department_id),
{
    let mut i: usize = 0;
    while i < manager.managed_departments.len()
        invariant
            i <= manager.managed_departments@.len(),
            forall|j: int| 0 <= j < i ==> manager.managed_departments@[j] != department_id,
        decreases manager.managed_departments@.len() - i,
    {
        if manager.managed_departments[i] == department_id {
            proof {
                assert(manager.managed_departments@[i as int] == department_id);
            }
            return true;
        }
        i += 1;
    }
    false
}

/// Whether the manager may see the booking: they manage its department.
pub fn can_view_booking(manager: &ManagerAccount, booking: &Booking) -> (r: bool)
    ensures
        r == manages(*manager, booking.department_id),
{
    can_manage_department(manager, booking.department_id)
}

/// Whether the manager may take `action` on the booking.
pub fn can_perform_action(manager: &ManagerAccount, booking: &Booking, action: ManagerAction) -> (r:
    bool)
    ensures
        r == may_perform(*manager, *booking, action),
{
    if !can_view_booking(manager, booking) {
        return false;
    }
    match action {
        ManagerAction::View => true,
        ManagerAction::Approve | ManagerAction::Reject => true,
        ManagerAction::OverrideApproval => manager.can_override_approval,
        ManagerAction::OverrideRules => manager.can_override_rules,
    }
}

/// The ids of the departments whose bookings the manager may see.
pub fn visible_departments(manager: &ManagerAccount) -> (r: &[u32])
    ensures
        r@ == manager.managed_departments@,
{
    manager.managed_departments.as_slice()
}

/// The outcome of approving (`approve` true) or rejecting a booking: refused
/// unless the manager may do so, refused for a blank reason, and otherwise
/// the decision, which keeps the rules' verdict and overrides nothing.
pub open spec fn approval_outcome(
    manager: ManagerAccount,
    booking: Booking,
    evaluation: BookingEvaluation,
    reason: String,
    approve: bool,
) -> Result<ApprovalDecision, ManagerError> {
    let action = if approve {
        ManagerAction::Approve
    } else {
        ManagerAction::Reject
    };
    if !may_perform(manager, booking, action) {
        Err(ManagerError::ApprovalNotPermitted)
    } else if is_blank(reason@) {
        Err(ManagerError::EmptyReason)
    } else {
        Ok(
            ApprovalDecision {
                booking_id: booking.id,
                manager_user_id: manager.user_id,
                approval_status: if approve {
                    ApprovalStatus::Approved
                } else {
                    ApprovalStatus::Rejected
                },
                rule_result: evaluation.result,
                override_type: ApprovalOverride::NoOverride,
                reason,
            },
        )
    }
}

/// Approves the booking, giving a reason.
pub fn approve(
    manager: &ManagerAccount,
    booking: &Booking,
    evaluation: &BookingEvaluation,
    reason: String,
) -> (r: Result<ApprovalDecision, ManagerError>)
    ensures
        r == approval_outcome(*manager, *booking, *evaluation, reason, true),
{
    if !can_perform_action(manager, booking, ManagerAction::Approve) {
        return Err(ManagerError::ApprovalNotPermitted);
    }
    if is_blank_str(reason.as_str()) {
        return Err(ManagerError::EmptyReason);
    }
    Ok(
        ApprovalDecision {
            booking_id: booking.id,
            manager_user_id: manager.user_id,
            approval_status: ApprovalStatus::Approved,
            rule_result: evaluation.result,
            override_type: ApprovalOverride::NoOverride,
            reason,
        },
    )
}

/// Rejects the booking, giving a reason.
pub fn reject(
    manager: &ManagerAccount,
    booking: &Booking,
    evaluation: &BookingEvaluation,
    reason: String,
) -> (r: Result<ApprovalDecision, ManagerError>)
    ensures
        r == approval_outcome(*manager, *booking, *evaluation, reason, false),
{
    if !can_perform_action(manager, booking, ManagerAction::Reject) {
        return Err(ManagerError::ApprovalNotPermitted);
    }
    if is_blank_str(reason.as_str()) {
        return Err(ManagerError::EmptyReason);
    }
    Ok(
        ApprovalDecision {
            booking_id: booking.id,
            manager_user_id: manager.user_id,
            approval_status: ApprovalStatus::Rejected,
            rule_result: evaluation.result,
            override_type: ApprovalOverride::NoOverride,
            reason,
        },
    )
}

/// The outcome of forcing a booking's approval status: refused unless the
/// manager may override approvals, refused for a blank reason, refused when
/// the forced status is no answer, and otherwise the forced decision, which
/// keeps the rules' verdict.
pub open spec fn override_approval_outcome(
    manager: ManagerAccount,
    booking: Booking,
    approval: ApprovalStatus,
    evaluation: BookingEvaluation,
    reason: String,
) -> Result<ApprovalDecision, ManagerError> {
    if !may_perform(manager, booking, ManagerAction::OverrideApproval) {
        Err(ManagerError::OverrideNotPermitted)
    } else if is_blank(reason@) {
        Err(ManagerError::EmptyReason)
    } else if approval == ApprovalStatus::NoResponse {
        Err(ManagerError::OverrideNotPermitted)
    } else {
        Ok(
            ApprovalDecision {
                booking_id: booking.id,
                manager_user_id: manager.user_id,
                approval_status: approval,
                rule_result: evaluation.result,
                override_type: if approval == ApprovalStatus::Approved {
                    ApprovalOverride::ForceApproved
                } else {
                    ApprovalOverride::ForceRejected
                },
                reason,
            },
        )
    }
}

/// Forces the booking's approval status, giving a reason.
pub fn override_approval(
    manager: &ManagerAccount,
    booking: &Booking,
    approval: ApprovalStatus,
    evaluation: &BookingEvaluation,
    reason: String,
) -> (r: Result<ApprovalDecision, ManagerError>)
    ensures
        r == override_approval_outcome(*manager, *booking, approval, *evaluation, reason),
{
    if !can_perform_action(manager, booking, ManagerAction::OverrideApproval) {
        return Err(ManagerError::OverrideNotPermitted);
    }
    if is_blank_str(reason.as_str()) {
        return Err(ManagerError::EmptyReason);
    }
    let override_type = match approval {
        ApprovalStatus::Approved => ApprovalOverride::ForceApproved,
        ApprovalStatus::Rejected => ApprovalOverride::ForceRejected,
        ApprovalStatus::NoResponse => {
            return Err(ManagerError::OverrideNotPermitted);
        },
    };
    Ok(
        ApprovalDecision {
            booking_id: booking.id,
            manager_user_id: manager.user_id,
            approval_status: approval,
            rule_result: evaluation.result,
            override_type,
            reason,
        },
    )
}

/// The outcome of replacing the verdict on a booking: an error without the
/// permission for it or for a blank reason, and otherwise a decision that
/// records the replacement verdict and leaves the booking unanswered.
pub open spec fn override_rules_outcome(
    manager: ManagerAccount,
    booking: Booking,
    new_result: RuleResult,
    reason: String,
) -> Result<ApprovalDecision, ManagerError> {
    if !may_perform(manager, booking, ManagerAction::OverrideRules) {
        Err(ManagerError::OverrideNotPermitted)
    } else if is_blank(reason@) {
        Err(ManagerError::EmptyReason)
    } else {
        Ok(
            ApprovalDecision {
                booking_id: booking.id,
                manager_user_id: manager.user_id,
                approval_status: ApprovalStatus::NoResponse,
                rule_result: new_result,
                override_type: ApprovalOverride::RuleOverride,
                reason,
            },
        )
    }
}

/// Replaces the rules' verdict on the booking, giving a reason.
pub fn override_rules(
    manager: &ManagerAccount,
    booking: &Booking,
    new_result: RuleResult,
    reason: String,
) -> (r: Result<ApprovalDecision, ManagerError>)
    ensures
        r == override_rules_outcome(*manager, *booking, new_result, reason),
{
    if !can_perform_action(manager, booking, ManagerAction::OverrideRules) {
        return Err(ManagerError::OverrideNotPermitted);
    }
    if is_blank_str(reason.as_str()) {
        return Err(ManagerError::EmptyReason);
    }
    Ok(
        ApprovalDecision {
            booking_id: booking.id,
            manager_user_id: manager.user_id,
            approval_status: ApprovalStatus::NoResponse,
            rule_result: new_result,
            override_type: ApprovalOverride::RuleOverride,
            reason,
        },
    )
}


/// Approving and rejecting are open to the same managers on the same
/// bookings with the same reasons: one succeeds exactly when the other does,
/// and they fail with the same error.
pub proof fn law_approve_and_reject_agree(
    manager: ManagerAccount,
    booking: Booking,
    evaluation: BookingEvaluation,
    reason: String,
)
    ensures
        approval_outcome(manager, booking, evaluation, reason, true) is Ok <==> approval_outcome(
            manager,
            booking,
            evaluation,
            reason,
            false,
        ) is Ok,
        approval_outcome(manager, booking, evaluation, reason, true) is Err ==> approval_outcome(
            manager,
            booking,
            evaluation,
            reason,
            true,
        ) == approval_outcome(manager, booking, evaluation, reason, false),
{
}

/// Any decision a manager records is on a booking of a department they
/// manage, by them, about that booking, with a reason that is not blank.
pub proof fn law_decisions_need_management_and_reason(
    manager: ManagerAccount,
    booking: Booking,
    evaluation: BookingEvaluation,
    approval: ApprovalStatus,
    new_result: RuleResult,
    approve: bool,
    reason: String,
)
    ensures
        approval_outcome(manager, booking, evaluation, reason, approve) matches Ok(d) ==> {
            &&& manages(manager, booking.department_id)
            &&& !is_blank(d.reason@)
            &&& d.booking_id == booking.id
            &&& d.manager_user_id == manager.user_id
        },
        override_approval_outcome(manager, booking, approval, evaluation, reason) matches Ok(d) ==> {
            &&& manages(manager, booking.department_id)
            &&& !is_blank(d.reason@)
            &&& d.booking_id == booking.id
            &&& d.manager_user_id == manager.user_id
        },
        override_rules_outcome(manager, booking, new_result, reason) matches Ok(d) ==> {
            &&& manages(manager, booking.department_id)
            &&& !is_blank(d.reason@)
            &&& d.booking_id == booking.id
            &&& d.manager_user_id == manager.user_id
        },
{
}

/// Overrides need their permission: a forced approval status needs the
/// approval-override permission and is approved or rejected; a replaced
/// verdict needs the rule-override permission and leaves the booking
/// unanswered. Plain approvals and rejections never override anything.
pub proof fn law_overrides_need_permission(
    manager: ManagerAccount,
    booking: Booking,
    evaluation: BookingEvaluation,
    approval: ApprovalStatus,
    new_result: RuleResult,
    approve: bool,
    reason: String,
)
    ensures
        override_approval_outcome(manager, booking, approval, evaluation, reason) matches Ok(d) ==> {
            &&& manager.can_override_approval
            &&& d.approval_status != ApprovalStatus::NoResponse
            &&& d.rule_result == evaluation.result
        },
        override_rules_outcome(manager, booking, new_result, reason) matches Ok(d) ==> {
            &&& manager.can_override_rules
            &&& d.approval_status == ApprovalStatus::NoResponse
            &&& d.rule_result == new_result
        },
        approval_outcome(manager, booking, evaluation, reason, approve) matches Ok(d) ==> {
            &&& d.override_type == ApprovalOverride::NoOverride
            &&& d.rule_result == evaluation.result
        },
{
}

/// A manager who may take any action on a booking may also view it.
pub proof fn law_acting_implies_viewing(manager: ManagerAccount, booking: Booking, action: ManagerAction)
    ensures
        may_perform(manager, booking, action) ==> may_perform(manager, booking, ManagerAction::View),
{
}


/// What a manager may do with a booking of a department they manage: view,
/// approve and reject always; force an approval status exactly when they
/// hold the approval-override permission; replace the verdict exactly when
/// they hold the rule-override permission, whatever the other permission.
/// With a booking of a department they do not manage they may do nothing.
pub proof fn law_permissions_per_action(manager: ManagerAccount, booking: Booking)
    ensures
        manages(manager, booking.department_id) ==> {
            &&& may_perform(manager, booking, ManagerAction::View)
            &&& may_perform(manager, booking, ManagerAction::Approve)
            &&& may_perform(manager, booking, ManagerAction::Reject)
            &&& may_perform(manager, booking, ManagerAction::OverrideApproval)
                == manager.can_override_approval
            &&& may_perform(manager, booking, ManagerAction::OverrideRules)
                == manager.can_override_rules
        },
        !manages(manager, booking.department_id) ==> forall|action: ManagerAction|
            !#[trigger] may_perform(manager, booking, action),
        manages(manager, booking.department_id) <==> exists|i: int|
            0 <= i < manager.managed_departments@.len() && #[trigger] manager.managed_departments@[i]
                == booking.department_id,
{
}

/// A manager of the booking's department with the rule-override permission
/// and a reason that is not blank always succeeds in replacing the verdict,
/// whether or not they may override approvals; and one with the
/// approval-override permission always succeeds in forcing an approval or a
/// rejection, whether or not they may override the rules.
pub proof fn law_overrides_succeed_with_their_permission(
    manager: ManagerAccount,
    booking: Booking,
    evaluation: BookingEvaluation,
    new_result: RuleResult,
    approval: ApprovalStatus,
    reason: String,
)
    requires
        manages(manager, booking.department_id),
        !is_blank(reason@),
    ensures
        manager.can_override_rules ==> override_rules_outcome(
            manager,
            booking,
            new_result,
            reason,
        ) is Ok,
        manager.can_override_approval && approval != ApprovalStatus::NoResponse
            ==> override_approval_outcome(manager, booking, approval, evaluation, reason) is Ok,
        approval_outcome(manager, booking, evaluation, reason, true) is Ok,
        approval_outcome(manager, booking, evaluation, reason, false) is Ok,
{
}

/// A blank reason (empty, or only white space) is refused by every action
/// the manager is otherwise allowed to take, and a reason with any other
/// character is not.
pub proof fn law_blank_reasons_are_refused(
    manager: ManagerAccount,
    booking: Booking,
    evaluation: BookingEvaluation,
    new_result: RuleResult,
    approve: bool,
    reason: String,
)
    ensures
        (forall|i: int| 0 <= i < reason@.len() ==> is_white_space(#[trigger] reason@[i]))
            && may_perform(
            manager,
            booking,
            if approve {
                ManagerAction::Approve
            } else {
                ManagerAction::Reject
            },
        ) ==> approval_outcome(manager, booking, evaluation, reason, approve) == Err::<
            ApprovalDecision,
            ManagerError,
        >(ManagerError::EmptyReason),
        (forall|i: int| 0 <= i < reason@.len() ==> is_white_space(#[trigger] reason@[i]))
            && may_perform(manager, booking, ManagerAction::OverrideRules) ==> override_rules_outcome(
            manager,
            booking,
            new_result,
            reason,
        ) == Err::<ApprovalDecision, ManagerError>(ManagerError::EmptyReason),
        (exists|i: int| 0 <= i < reason@.len() && !is_white_space(#[trigger] reason@[i]))
            ==> !is_blank(reason@),
{
}


/// What a successful decision records: approving gives an approved booking
/// and rejecting a rejected one, both keeping the rules' verdict; forcing a
/// status records that status and a forced approval or rejection to match;
/// replacing the verdict records the new verdict. Each records the booking,
/// the manager and the reason given.
pub proof fn law_decision_contents(
    manager: ManagerAccount,
    booking: Booking,
    evaluation: BookingEvaluation,
    approval: ApprovalStatus,
    new_result: RuleResult,
    reason: String,
)
    ensures
        approval_outcome(manager, booking, evaluation, reason, true) matches Ok(d) ==> d
            == (ApprovalDecision {
            booking_id: booking.id,
            manager_user_id: manager.user_id,
            approval_status: ApprovalStatus::Approved,
            rule_result: evaluation.result,
            override_type: ApprovalOverride::NoOverride,
            reason,
        }),
        approval_outcome(manager, booking, evaluation, reason, false) matches Ok(d) ==> d
            == (ApprovalDecision {
            booking_id: booking.id,
            manager_user_id: manager.user_id,
            approval_status: ApprovalStatus::Rejected,
            rule_result: evaluation.result,
            override_type: ApprovalOverride::NoOverride,
            reason,
        }),
        override_approval_outcome(manager, booking, approval, evaluation, reason) matches Ok(d) ==> {
            &&& d.approval_status == approval
            &&& (approval == ApprovalStatus::Approved ==> d.override_type
                == ApprovalOverride::ForceApproved)
            &&& (approval == ApprovalStatus::Rejected ==> d.override_type
                == ApprovalOverride::ForceRejected)
            &&& d.booking_id == booking.id && d.manager_user_id == manager.user_id && d.reason
                == reason
        },
        override_rules_outcome(manager, booking, new_result, reason) matches Ok(d) ==> {
            &&& d.rule_result == new_result
            &&& d.override_type == ApprovalOverride::RuleOverride
            &&& d.booking_id == booking.id && d.manager_user_id == manager.user_id && d.reason
                == reason
        },
{
}

} // verus!
