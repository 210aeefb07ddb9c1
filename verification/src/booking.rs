//! Booking requests and the rules that decide on them: notice, holiday
//! allowance, department absence limits, the Directors' limit and the EBFT
//! cover rules.

use vstd::prelude::*;
use vstd::string::*;

use crate::calendar::{is_rochdale_term_time, is_term_time};
use crate::date::Date;
use crate::text::{decimal, decimal_string};

verus! {

/// The kind of absence a booking asks for.
#[derive(Debug, PartialEq, Clone)]
pub enum BookingType {
    Holiday,
    Sick,
    ExceptionalCircumstance,
    WorkLeave,
    Appointment,
    WorkFromHome,
    CharityBuilding,
    StaffEvent,
    Other(String),
}

/// Whether the absence is paid.
#[derive(Debug, PartialEq, Eq, Structural, Clone, Copy)]
pub enum PaymentStatus {
    NoResponse,
    Paid,
    Unpaid,
}

/// A manager's answer to a booking.
#[derive(Debug, PartialEq, Eq, Structural, Clone, Copy)]
pub enum ApprovalStatus {
    NoResponse,
    Approved,
    Rejected,
}

/// What the booking rules make of a request: allowed, breaking a rule, or
/// breaking a limit as an exceptional circumstance (a yellow exception).
#[derive(Debug, PartialEq, Eq, Structural, Clone, Copy)]
pub enum RuleResult {
    Allowed,
    RuleBreaker,
    ExceptionalRuleBreaker,
}

/// The departments of the organisation.
#[derive(Debug, PartialEq, Eq, Structural, Clone, Copy)]
pub enum Department {
    Trading,
    Accounting,
    IT,
    Logistics,
    Directors,
    EBFT,
}

/// The roles in the EBFT department that its cover rules name.
#[derive(Debug, PartialEq, Eq, Structural, Clone, Copy)]
pub enum EbftRole {
    Jac,
    Steve,
    Travis,
    Other,
}

/// An employee as the booking rules see them.
#[derive(Debug, Clone)]
pub struct EmployeeInfo {
    pub id: u32,
    pub name: String,
    pub holiday_allowance: u32,
    pub department: Department,
    pub additional_departments: Vec<Department>,
    pub ebft_role: Option<EbftRole>,
    pub manager_id: Option<u32>,
}

/// A booking of one day.
#[derive(Debug, Clone)]
pub struct Booking {
    pub id: u32,
    pub employee_id: u32,
    pub date: Date,
    pub booking_type: BookingType,
    pub department_id: u32,
    pub payment_status: PaymentStatus,
    pub approval_status: ApprovalStatus,
}

/// How many people of a department may be absent on one day, and whether an
/// exceptional circumstance may go beyond that.
#[derive(Debug, Clone)]
pub struct DepartmentRule {
    pub department: Department,
    pub normal_absence_limit: u32,
    pub exceptional_can_exceed_limit: bool,
}

/// The employee asking and the department rules that apply to them.
#[derive(Debug, Clone)]
pub struct BookingContext {
    pub employee: EmployeeInfo,
    pub department_rule: DepartmentRule,
    pub secondary_department_rule: Option<DepartmentRule>,
}

/// The verdict on a booking request, with the reasons behind it.
#[derive(Debug)]
pub struct BookingEvaluation {
    pub result: RuleResult,
    pub reasons: Vec<String>,
    pub approver_id: Option<u32>,
    pub requires_approval: bool,
    pub is_exceptional: bool,
    pub holiday_days_remaining: Option<u32>,
    pub requires_head_trustee_approval: bool,
}

/// A rule's verdict and the reason given for it.
pub type Finding = (RuleResult, Seq<char>);

// ---------------------------------------------------------------------------
// Counting
// ---------------------------------------------------------------------------

/// The number of bookings in `s` that satisfy `p`.
pub open spec fn count_where(s: Seq<Booking>, p: spec_fn(Booking) -> bool) -> nat
    decreases s.len(),
{
    if s.len() == 0 {
        0
    } else {
        count_where(s.drop_last(), p) + if p(s.last()) {
            1nat
        } else {
            0nat
        }
    }
}

/// Holidays and work leave count against a department's absence limit.
pub open spec fn counts_toward_limit(t: BookingType) -> bool {
    t is Holiday || t is WorkLeave
}

/// The first employee in the list with the given id.
pub open spec fn find_employee(employees: Seq<EmployeeInfo>, id: u32) -> Option<EmployeeInfo>
    decreases employees.len(),
{
    if employees.len() == 0 {
        None
    } else if employees[0].id == id {
        Some(employees[0])
    } else {
        find_employee(employees.drop_first(), id)
    }
}

/// The employee's main department or one of their additional ones is
/// `department`.
pub open spec fn has_department(employee: EmployeeInfo, department: Department) -> bool {
    employee.department == department || employee.additional_departments@.contains(department)
}

/// The booking is on `date`, belongs to an employee of `department` (found by
/// id in `employees`) and counts against the absence limit.
pub open spec fn is_department_absence(
    booking: Booking,
    employees: Seq<EmployeeInfo>,
    department: Department,
    date: Date,
) -> bool {
    &&& booking.date == date
    &&& match find_employee(employees, booking.employee_id) {
        Some(e) => has_department(e, department),
        None => false,
    }
    &&& counts_toward_limit(booking.booking_type)
}

/// The number of absences of `department` on `date` that count against its
/// limit.
pub open spec fn department_absences(
    bookings: Seq<Booking>,
    employees: Seq<EmployeeInfo>,
    department: Department,
    date: Date,
) -> nat {
    count_where(bookings, |b: Booking| is_department_absence(b, employees, department, date))
}

/// The number of holidays the employee has booked.
pub open spec fn holidays_used_count(bookings: Seq<Booking>, employee_id: u32) -> nat {
    count_where(bookings, |b: Booking| b.employee_id == employee_id && b.booking_type is Holiday)
}

/// Whether the booking type counts towards the department's absence limit:
/// holidays and work leave do, the other types do not.
pub fn counts_towards_department_limit(booking_type: &BookingType) -> (r: bool)
    ensures
        r == counts_toward_limit(*booking_type),
{
    match booking_type {
        BookingType::Holiday => true,
        BookingType::WorkLeave => true,
        BookingType::ExceptionalCircumstance => false,
        BookingType::Sick => false,
        BookingType::Appointment => false,
        BookingType::WorkFromHome => false,
        BookingType::CharityBuilding => false,
        BookingType::StaffEvent => false,
        BookingType::Other(_) => false,
    }
}

fn employee_by_id<'a>(employees: &'a [EmployeeInfo], employee_id: u32) -> (r: Option<&'a EmployeeInfo>)
    ensures
        match r {
            Some(e) => find_employee(employees@, employee_id) == Some(*e),
            None => find_employee(employees@, employee_id) is None,
        },
{
    let mut i: usize = 0;
    assert(employees@.skip(0) =~= employees@);
    while i < employees.len()
        invariant
            i <= employees@.len(),
            find_employee(employees@, employee_id) == find_employee(employees@.skip(i as int), employee_id),
        decreases employees@.len() - i,
    {
        proof {
            assert(employees@.skip(i as int).drop_first() =~= employees@.skip(i + 1));
            assert(employees@.skip(i as int)[0] == employees@[i as int]);
        }
        if employees[i].id == employee_id {
            return Some(&employees[i]);
        }
        i += 1;
    }
    None
}

fn employee_has_department(employee: &EmployeeInfo, department: Department) -> (r: bool)
    ensures
        r == has_department(*employee, department),
{
    if employee.department == department {
        return true;
    }
    let mut i: usize = 0;
    while i < employee.additional_departments.len()
        invariant
            i <= employee.additional_departments@.len(),
            employee.department != department,
            forall|j: int| 0 <= j < i ==> employee.additional_departments@[j] != department,
        decreases employee.additional_departments@.len() - i,
    {
        if employee.additional_departments[i] == department {
            proof {
                assert(employee.additional_departments@[i as int] == department);
            }
            return true;
        }
        i += 1;
    }
    false
}

/// The number of bookings on `date`, by employees of `department`, that count
/// towards the department's limit (as a `u32`, wrapping past `u32::MAX`).
pub fn count_department_bookings(
    bookings: &[Booking],
    department: Department,
    date: Date,
    employees: &[EmployeeInfo],
) -> (r: u32)
    ensures
        r == department_absences(bookings@, employees@, department, date) as u32,
{
    let ghost pred = |b: Booking| is_department_absence(b, employees@, department, date);
    let mut count: usize = 0;
    let mut i: usize = 0;
    while i < bookings.len()
        invariant
            i <= bookings@.len(),
            count <= i,
            count == count_where(bookings@.take(i as int), pred),
            pred == (|b: Booking| is_department_absence(b, employees@, department, date)),
        decreases bookings@.len() - i,
    {
        let booking = &bookings[i];
        proof {
            assert(bookings@.take(i + 1).drop_last() =~= bookings@.take(i as int));
        }
        if booking.date == date {
            let belongs = match employee_by_id(employees, booking.employee_id) {
                Some(employee) => employee_has_department(employee, department),
                None => false,
            };
            if belongs && counts_towards_department_limit(&booking.booking_type) {
                count += 1;
            }
        }
        i += 1;
    }
    proof {
        assert(bookings@.take(i as int) =~= bookings@);
    }
    count as u32
}

/// Whether a request made `days_until_request` days ahead gives enough
/// notice: exceptional circumstances always do, other requests need at least
/// 14 days.
pub fn meets_notice_requirement(days_until_request: i64, booking_type: &BookingType) -> (r: bool)
    ensures
        r == (booking_type is ExceptionalCircumstance || days_until_request >= 14),
{
    if let BookingType::ExceptionalCircumstance = booking_type {
        return true;
    }
    days_until_request >= 14
}

/// The number of holidays the employee has booked (as a `u32`, wrapping past
/// `u32::MAX`).
pub fn holidays_used(bookings: &[Booking], employee_id: u32) -> (r: u32)
    ensures
        r == holidays_used_count(bookings@, employee_id) as u32,
{
    let ghost pred = |b: Booking| b.employee_id == employee_id && b.booking_type is Holiday;
    let mut count: usize = 0;
    let mut i: usize = 0;
    while i < bookings.len()
        invariant
            i <= bookings@.len(),
            count <= i,
            count == count_where(bookings@.take(i as int), pred),
            pred == (|b: Booking| b.employee_id == employee_id && b.booking_type is Holiday),
        decreases bookings@.len() - i,
    {
        proof {
            assert(bookings@.take(i + 1).drop_last() =~= bookings@.take(i as int));
        }
        if bookings[i].employee_id == employee_id {
            if let BookingType::Holiday = bookings[i].booking_type {
                count += 1;
            }
        }
        i += 1;
    }
    proof {
        assert(bookings@.take(i as int) =~= bookings@);
    }
    count as u32
}

/// The employee's holiday allowance left after the holidays they have
/// booked, and 0 once it is used up.
pub fn holidays_remaining(bookings: &[Booking], employee: &EmployeeInfo) -> (r: u32)
    ensures
        ({
            let used = holidays_used_count(bookings@, employee.id) as u32;
            r == if used <= employee.holiday_allowance {
                employee.holiday_allowance - used
            } else {
                0
            }
        }),
{
    employee.holiday_allowance.saturating_sub(holidays_used(bookings, employee.id))
}


// ---------------------------------------------------------------------------
// The rules
// ---------------------------------------------------------------------------

/// A rule's optional verdict, with the reason as text.
pub open spec fn outcome_view(o: Option<(RuleResult, String)>) -> Option<Finding> {
    match o {
        Some((r, s)) => Some((r, s@)),
        None => None,
    }
}

/// The reason given when the department still has room on the day.
pub open spec fn department_room_reason(current: u32, limit: u32) -> Seq<char> {
    "The department has "@ + decimal(current as nat) + " of "@ + decimal(limit as nat)
        + " normal absence positions occupied."@
}

/// The verdict of a department's absence limit on the new booking: allowed
/// while fewer than the limit are absent that day; past it, an exceptional
/// circumstance is a yellow exception where the rule lets it exceed the limit,
/// and anything else breaks the rule.
pub open spec fn department_rule_outcome(
    bookings: Seq<Booking>,
    employees: Seq<EmployeeInfo>,
    new_booking: Booking,
    rule: DepartmentRule,
) -> Finding {
    let current = department_absences(bookings, employees, rule.department, new_booking.date) as u32;
    if current < rule.normal_absence_limit {
        (RuleResult::Allowed, department_room_reason(current, rule.normal_absence_limit))
    } else if new_booking.booking_type is ExceptionalCircumstance && rule.exceptional_can_exceed_limit {
        (
            RuleResult::ExceptionalRuleBreaker,
            "The normal absence limit has been reached. This exceptional circumstance request is a yellow exception."@,
        )
    } else {
        (RuleResult::RuleBreaker, "The normal absence limit for this department has been reached."@)
    }
}

/// The reason given when the Directors still have room on the day.
pub open spec fn directors_room_reason(current: u32, limit: u32) -> Seq<char> {
    "Directors has "@ + decimal(current as nat) + " of "@ + decimal(limit as nat)
        + " absence positions occupied."@
}

/// The verdict of the Directors' absence limit: none when the requester is
/// not found among the employees or is not a director; otherwise as for a
/// department limit, counted over the Directors.
pub open spec fn director_rule_outcome(
    bookings: Seq<Booking>,
    employees: Seq<EmployeeInfo>,
    new_booking: Booking,
    rule: DepartmentRule,
) -> Option<Finding> {
    match find_employee(employees, new_booking.employee_id) {
        None => None,
        Some(employee) => if !has_department(employee, Department::Directors) {
            None
        } else {
            let current = department_absences(
                bookings,
                employees,
                Department::Directors,
                new_booking.date,
            ) as u32;
            if current < rule.normal_absence_limit {
                Some(
                    (
                        RuleResult::Allowed,
                        directors_room_reason(current, rule.normal_absence_limit),
                    ),
                )
            } else if new_booking.booking_type is ExceptionalCircumstance
                && rule.exceptional_can_exceed_limit {
                Some(
                    (
                        RuleResult::ExceptionalRuleBreaker,
                        "The Directors' absence limit has been reached. This exceptional circumstance request is a yellow exception."@,
                    ),
                )
            } else {
                Some((RuleResult::RuleBreaker, "The Directors' absence limit has been reached."@))
            }
        },
    }
}

fn count_department_absences(
    bookings: &[Booking],
    employees: &[EmployeeInfo],
    department: Department,
    date: Date,
) -> (r: u32)
    ensures
        r == department_absences(bookings@, employees@, department, date) as u32,
{
    count_department_bookings(bookings, department, date, employees)
}

fn check_department_rule(
    bookings: &[Booking],
    employees: &[EmployeeInfo],
    new_booking: &Booking,
    rule: &DepartmentRule,
) -> (r: Option<(RuleResult, String)>)
    ensures
        outcome_view(r) == Some(department_rule_outcome(bookings@, employees@, *new_booking, *rule)),
{
    let current = count_department_absences(bookings, employees, rule.department, new_booking.date);
    if current < rule.normal_absence_limit {
        let mut reason = String::from_str("The department has ");
        let current_text = decimal_string(current);
        reason.append(current_text.as_str());
        reason.append(" of ");
        let limit_text = decimal_string(rule.normal_absence_limit);
        reason.append(limit_text.as_str());
        reason.append(" normal absence positions occupied.");
        return Some((RuleResult::Allowed, reason));
    }
    if let BookingType::ExceptionalCircumstance = new_booking.booking_type {
        if rule.exceptional_can_exceed_limit {
            return Some(
                (
                    RuleResult::ExceptionalRuleBreaker,
                    String::from_str(
                        "The normal absence limit has been reached. This exceptional circumstance request is a yellow exception.",
                    ),
                ),
            );
        }
    }
    Some(
        (
            RuleResult::RuleBreaker,
            String::from_str("The normal absence limit for this department has been reached."),
        ),
    )
}

fn count_director_absences(bookings: &[Booking], employees: &[EmployeeInfo], date: Date) -> (r: u32)
    ensures
        r == department_absences(bookings@, employees@, Department::Directors, date) as u32,
{
    let ghost pred = |b: Booking| is_department_absence(b, employees@, Department::Directors, date);
    let mut count: usize = 0;
    let mut i: usize = 0;
    while i < bookings.len()
        invariant
            i <= bookings@.len(),
            count <= i,
            count == count_where(bookings@.take(i as int), pred),
            pred == (|b: Booking| is_department_absence(b, employees@, Department::Directors, date)),
        decreases bookings@.len() - i,
    {
        let booking = &bookings[i];
        proof {
            assert(bookings@.take(i + 1).drop_last() =~= bookings@.take(i as int));
        }
        if booking.date == date {
            let is_director = match employee_by_id(employees, booking.employee_id) {
                Some(employee) => employee_has_department(employee, Department::Directors),
                None => false,
            };
            if is_director && counts_towards_department_limit(&booking.booking_type) {
                count += 1;
            }
        }
        i += 1;
    }
    proof {
        assert(bookings@.take(i as int) =~= bookings@);
    }
    count as u32
}

fn check_director_rule(
    bookings: &[Booking],
    employees: &[EmployeeInfo],
    new_booking: &Booking,
    rule: &DepartmentRule,
) -> (r: Option<(RuleResult, String)>)
    ensures
        outcome_view(r) == director_rule_outcome(bookings@, employees@, *new_booking, *rule),
{
    let employee = match employee_by_id(employees, new_booking.employee_id) {
        Some(employee) => employee,
        None => {
            return None;
        },
    };
    if !employee_has_department(employee, Department::Directors) {
        return None;
    }
    let current = count_director_absences(bookings, employees, new_booking.date);
    if current < rule.normal_absence_limit {
        let mut reason = String::from_str("Directors has ");
        let current_text = decimal_string(current);
        reason.append(current_text.as_str());
        reason.append(" of ");
        let limit_text = decimal_string(rule.normal_absence_limit);
        reason.append(limit_text.as_str());
        reason.append(" absence positions occupied.");
        return Some((RuleResult::Allowed, reason));
    }
    if let BookingType::ExceptionalCircumstance = new_booking.booking_type {
        if rule.exceptional_can_exceed_limit {
            return Some(
                (
                    RuleResult::ExceptionalRuleBreaker,
                    String::from_str(
                        "The Directors' absence limit has been reached. This exceptional circumstance request is a yellow exception.",
                    ),
                ),
            );
        }
    }
    Some(
        (
            RuleResult::RuleBreaker,
            String::from_str("The Directors' absence limit has been reached."),
        ),
    )
}


/// The employee with the given id has, on `date`, a booking that counts
/// towards the absence limit.
pub open spec fn absent_on(bookings: Seq<Booking>, employee_id: u32, date: Date) -> bool {
    exists|j: int|
        0 <= j < bookings.len() && (#[trigger] bookings[j]).employee_id == employee_id
            && bookings[j].date == date && counts_toward_limit(bookings[j].booking_type)
}

/// Booking `i` is on `date` and its employee (found by id) is in EBFT as
/// their main department, holds `role`, and is absent that day.
pub open spec fn marks_role_absent(
    bookings: Seq<Booking>,
    employees: Seq<EmployeeInfo>,
    date: Date,
    role: EbftRole,
    i: int,
) -> bool {
    &&& bookings[i].date == date
    &&& match find_employee(employees, bookings[i].employee_id) {
        Some(e) => e.department == Department::EBFT && e.ebft_role == Some(role) && absent_on(
            bookings,
            e.id,
            date,
        ),
        None => false,
    }
}

/// Someone in EBFT holding `role` is absent on `date`.
pub open spec fn role_absent(
    bookings: Seq<Booking>,
    employees: Seq<EmployeeInfo>,
    date: Date,
    role: EbftRole,
) -> bool {
    exists|i: int| 0 <= i < bookings.len() && #[trigger] marks_role_absent(bookings, employees, date, role, i)
}

/// The verdict of the EBFT cover rules, with whether Head Trustee approval is
/// needed. None when the rule is not EBFT's or the requester is not found.
/// In Rochdale term time EBFT's absence limit applies as for any department.
/// Outside term time Jac may always be absent; Steve or Travis may be absent
/// when Jac is, or on their own; when both of them would be absent, Head
/// Trustee approval is needed. Anyone else may be absent.
pub open spec fn ebft_rule_outcome(
    bookings: Seq<Booking>,
    employees: Seq<EmployeeInfo>,
    new_booking: Booking,
    rule: DepartmentRule,
) -> Option<(RuleResult, Seq<char>, bool)> {
    if rule.department != Department::EBFT {
        None
    } else {
        match find_employee(employees, new_booking.employee_id) {
            None => None,
            Some(employee) => if is_term_time(new_booking.date@) {
                let current = department_absences(
                    bookings,
                    employees,
                    Department::EBFT,
                    new_booking.date,
                ) as u32;
                if current < rule.normal_absence_limit {
                    Some(
                        (
                            RuleResult::Allowed,
                            "EBFT is in Rochdale term time and has an absence position available."@,
                            false,
                        ),
                    )
                } else if new_booking.booking_type is ExceptionalCircumstance
                    && rule.exceptional_can_exceed_limit {
                    Some(
                        (
                            RuleResult::ExceptionalRuleBreaker,
                            "EBFT has reached its normal absence limit during Rochdale term time. This exceptional circumstance request is a yellow exception."@,
                            false,
                        ),
                    )
                } else {
                    Some(
                        (
                            RuleResult::RuleBreaker,
                            "EBFT has reached its normal absence limit during Rochdale term time."@,
                            false,
                        ),
                    )
                }
            } else {
                match employee.ebft_role {
                    Some(EbftRole::Jac) => Some(
                        (
                            RuleResult::Allowed,
                            "The employee may be absent outside Rochdale term time."@,
                            false,
                        ),
                    ),
                    Some(EbftRole::Steve) | Some(EbftRole::Travis) => {
                        let other = if employee.ebft_role == Some(EbftRole::Steve) {
                            EbftRole::Travis
                        } else {
                            EbftRole::Steve
                        };
                        if role_absent(bookings, employees, new_booking.date, EbftRole::Jac) {
                            Some(
                                (
                                    RuleResult::Allowed,
                                    "The employee may be absent because Jac is also absent."@,
                                    false,
                                ),
                            )
                        } else if role_absent(bookings, employees, new_booking.date, other) {
                            Some(
                                (
                                    RuleResult::Allowed,
                                    "Steve and Travis are both absent outside term time. Head Trustee approval is required."@,
                                    true,
                                ),
                            )
                        } else {
                            Some(
                                (
                                    RuleResult::Allowed,
                                    "The employee may be absent individually outside Rochdale term time."@,
                                    false,
                                ),
                            )
                        }
                    },
                    _ => Some(
                        (
                            RuleResult::Allowed,
                            "The EBFT request is allowed outside Rochdale term time."@,
                            false,
                        ),
                    ),
                }
            },
        }
    }
}

fn is_absent_on(bookings: &[Booking], employee_id: u32, date: Date) -> (r: bool)
    ensures
        r == absent_on(bookings@, employee_id, date),
{
    let mut j: usize = 0;
    while j < bookings.len()
        invariant
            j <= bookings@.len(),
            forall|k: int|
                0 <= k < j ==> !((#[trigger] bookings@[k]).employee_id == employee_id
                    && bookings@[k].date == date && counts_toward_limit(bookings@[k].booking_type)),
        decreases bookings@.len() - j,
    {
        let booking = &bookings[j];
        if booking.employee_id == employee_id && booking.date == date
            && counts_towards_department_limit(&booking.booking_type) {
            proof {
                assert(bookings@[j as int] == *booking);
            }
            return true;
        }
        j += 1;
    }
    false
}

fn holds_role(employee: &EmployeeInfo, role: EbftRole) -> (r: bool)
    ensures
        r == (employee.ebft_role == Some(role)),
{
    match employee.ebft_role {
        Some(held) => held == role,
        None => false,
    }
}

fn is_role_absent(bookings: &[Booking], employees: &[EmployeeInfo], date: Date, role: EbftRole) -> (r:
    bool)
    ensures
        r == role_absent(bookings@, employees@, date, role),
{
    let mut i: usize = 0;
    while i < bookings.len()
        invariant
            i <= bookings@.len(),
            forall|k: int| 0 <= k < i ==> !#[trigger] marks_role_absent(bookings@, employees@, date, role, k),
        decreases bookings@.len() - i,
    {
        if bookings[i].date == date {
            if let Some(employee) = employee_by_id(employees, bookings[i].employee_id) {
                if employee.department == Department::EBFT && holds_role(employee, role)
                    && is_absent_on(bookings, employee.id, date) {
                    assert(marks_role_absent(bookings@, employees@, date, role, i as int));
                    return true;
                }
            }
        }
        assert(!marks_role_absent(bookings@, employees@, date, role, i as int));
        i += 1;
    }
    false
}

fn check_ebft_rule(
    bookings: &[Booking],
    employees: &[EmployeeInfo],
    new_booking: &Booking,
    rule: &DepartmentRule,
) -> (r: Option<(RuleResult, String, bool)>)
    ensures
        match r {
            Some((res, reason, trustee)) => ebft_rule_outcome(bookings@, employees@, *new_booking, *rule)
                == Some((res, reason@, trustee)),
            None => ebft_rule_outcome(bookings@, employees@, *new_booking, *rule) is None,
        },
{
    if rule.department != Department::EBFT {
        return None;
    }
    let employee = match employee_by_id(employees, new_booking.employee_id) {
        Some(employee) => employee,
        None => {
            return None;
        },
    };
    let term_time = is_rochdale_term_time(new_booking.date);
    if term_time {
        let current = count_department_absences(bookings, employees, Department::EBFT, new_booking.date);
        if current < rule.normal_absence_limit {
            return Some(
                (
                    RuleResult::Allowed,
                    String::from_str(
                        "EBFT is in Rochdale term time and has an absence position available.",
                    ),
                    false,
                ),
            );
        }
        if let BookingType::ExceptionalCircumstance = new_booking.booking_type {
            if rule.exceptional_can_exceed_limit {
                return Some(
                    (
                        RuleResult::ExceptionalRuleBreaker,
                        String::from_str(
                            "EBFT has reached its normal absence limit during Rochdale term time. This exceptional circumstance request is a yellow exception.",
                        ),
                        false,
                    ),
                );
            }
        }
        return Some(
            (
                RuleResult::RuleBreaker,
                String::from_str(
                    "EBFT has reached its normal absence limit during Rochdale term time.",
                ),
                false,
            ),
        );
    }
    match employee.ebft_role {
        Some(EbftRole::Jac) => Some(
            (
                RuleResult::Allowed,
                String::from_str("The employee may be absent outside Rochdale term time."),
                false,
            ),
        ),
        Some(EbftRole::Steve) | Some(EbftRole::Travis) => {
            let jac_off = is_role_absent(bookings, employees, new_booking.date, EbftRole::Jac);
            if jac_off {
                return Some(
                    (
                        RuleResult::Allowed,
                        String::from_str("The employee may be absent because Jac is also absent."),
                        false,
                    ),
                );
            }
            let other_role = match employee.ebft_role {
                Some(EbftRole::Steve) => EbftRole::Travis,
                Some(EbftRole::Travis) => EbftRole::Steve,
                _ => {
                    return None;
                },
            };
            let other_is_off = is_role_absent(bookings, employees, new_booking.date, other_role);
            if other_is_off {
                return Some(
                    (
                        RuleResult::Allowed,
                        String::from_str(
                            "Steve and Travis are both absent outside term time. Head Trustee approval is required.",
                        ),
                        true,
                    ),
                );
            }
            Some(
                (
                    RuleResult::Allowed,
                    String::from_str(
                        "The employee may be absent individually outside Rochdale term time.",
                    ),
                    false,
                ),
            )
        },
        Some(EbftRole::Other) | None => Some(
            (
                RuleResult::Allowed,
                String::from_str("The EBFT request is allowed outside Rochdale term time."),
                false,
            ),
        ),
    }
}

/// The verdict of the holiday allowance: none unless the booking is a
/// holiday; allowed while the employee has booked fewer holidays than their
/// allowance, and breaking the rule once it is used up.
pub open spec fn holiday_allowance_outcome(
    bookings: Seq<Booking>,
    employee: EmployeeInfo,
    new_booking: Booking,
) -> Option<Finding> {
    if !(new_booking.booking_type is Holiday) {
        None
    } else {
        let used = holidays_used_count(bookings, employee.id) as u32;
        if used < employee.holiday_allowance {
            Some(
                (
                    RuleResult::Allowed,
                    "Employee has "@ + decimal((employee.holiday_allowance - used) as nat)
                        + " holiday days remaining before this request."@,
                ),
            )
        } else {
            Some((RuleResult::RuleBreaker, "The employee has no holiday allowance remaining."@))
        }
    }
}

fn check_holiday_allowance(bookings: &[Booking], employee: &EmployeeInfo, new_booking: &Booking) -> (r:
    Option<(RuleResult, String)>)
    ensures
        outcome_view(r) == holiday_allowance_outcome(bookings@, *employee, *new_booking),
{
    if let BookingType::Holiday = new_booking.booking_type {
    } else {
        return None;
    }
    let used = holidays_used(bookings, employee.id);
    if used < employee.holiday_allowance {
        let remaining = employee.holiday_allowance - used;
        let mut reason = String::from_str("Employee has ");
        let remaining_text = decimal_string(remaining);
        reason.append(remaining_text.as_str());
        reason.append(" holiday days remaining before this request.");
        return Some((RuleResult::Allowed, reason));
    }
    Some((RuleResult::RuleBreaker, String::from_str("The employee has no holiday allowance remaining.")))
}


// ---------------------------------------------------------------------------
// Combining the rules
// ---------------------------------------------------------------------------

/// How serious a verdict is: allowed, a yellow exception, a broken rule.
pub open spec fn severity(r: RuleResult) -> int {
    match r {
        RuleResult::Allowed => 0,
        RuleResult::ExceptionalRuleBreaker => 1,
        RuleResult::RuleBreaker => 2,
    }
}

/// The more serious of two verdicts.
pub open spec fn merged(current: RuleResult, incoming: RuleResult) -> RuleResult {
    if severity(incoming) > severity(current) {
        incoming
    } else {
        current
    }
}

fn merge_rule_result(current: &mut RuleResult, incoming: RuleResult)
    ensures
        *final(current) == merged(*old(current), incoming),
{
    match incoming {
        RuleResult::RuleBreaker => {
            *current = RuleResult::RuleBreaker;
        },
        RuleResult::ExceptionalRuleBreaker => {
            if *current != RuleResult::RuleBreaker {
                *current = RuleResult::ExceptionalRuleBreaker;
            }
        },
        RuleResult::Allowed => {},
    }
}

/// The verdict over a list of findings: the most serious of them, and
/// allowed when there are none.
pub open spec fn combined_result(findings: Seq<Finding>) -> RuleResult
    decreases findings.len(),
{
    if findings.len() == 0 {
        RuleResult::Allowed
    } else {
        merged(combined_result(findings.drop_last()), findings.last().0)
    }
}

/// A rule's optional verdict as a list of findings.
pub open spec fn optional_finding(o: Option<Finding>) -> Seq<Finding> {
    match o {
        Some(f) => seq![f],
        None => seq![],
    }
}

/// The reason given for short notice.
pub open spec fn short_notice_reason() -> Seq<char> {
    "This request was made with less than 14 days notice."@
}

/// The findings on a request, in the order they are reported: short notice;
/// the holiday allowance; the main department's rule (EBFT's cover rules for
/// EBFT, otherwise its absence limit when the employee belongs to it); and a
/// second department's rule when the employee belongs to it (the Directors'
/// limit for the Directors).
pub open spec fn booking_findings(
    bookings: Seq<Booking>,
    employees: Seq<EmployeeInfo>,
    context: BookingContext,
    new_booking: Booking,
    days_until_request: i64,
) -> Seq<Finding> {
    notice_findings(new_booking, days_until_request) + optional_finding(
        holiday_allowance_outcome(bookings, context.employee, new_booking),
    ) + main_department_findings(bookings, employees, context, new_booking)
        + second_department_findings(bookings, employees, context, new_booking)
}

/// The short-notice finding: a broken rule unless the request is for an
/// exceptional circumstance or made at least 14 days ahead.
pub open spec fn notice_findings(new_booking: Booking, days_until_request: i64) -> Seq<Finding> {
    if new_booking.booking_type is ExceptionalCircumstance || days_until_request >= 14 {
        seq![]
    } else {
        seq![(RuleResult::RuleBreaker, short_notice_reason())]
    }
}

/// The main department's finding: EBFT's cover rules for EBFT, otherwise its
/// absence limit when the employee belongs to it.
pub open spec fn main_department_findings(
    bookings: Seq<Booking>,
    employees: Seq<EmployeeInfo>,
    context: BookingContext,
    new_booking: Booking,
) -> Seq<Finding> {
    if context.department_rule.department == Department::EBFT {
        match ebft_rule_outcome(bookings, employees, new_booking, context.department_rule) {
            Some(o) => seq![(o.0, o.1)],
            None => seq![],
        }
    } else if has_department(context.employee, context.department_rule.department) {
        seq![department_rule_outcome(bookings, employees, new_booking, context.department_rule)]
    } else {
        seq![]
    }
}

/// The second department's finding, when the employee belongs to it: the
/// Directors' limit for the Directors, otherwise its absence limit.
pub open spec fn second_department_findings(
    bookings: Seq<Booking>,
    employees: Seq<EmployeeInfo>,
    context: BookingContext,
    new_booking: Booking,
) -> Seq<Finding> {
    match context.secondary_department_rule {
        Some(rule) => if has_department(context.employee, rule.department) {
            if rule.department == Department::Directors {
                optional_finding(director_rule_outcome(bookings, employees, new_booking, rule))
            } else {
                seq![department_rule_outcome(bookings, employees, new_booking, rule)]
            }
        } else {
            seq![]
        },
        None => seq![],
    }
}

/// Head Trustee approval is needed: the main department is EBFT and its cover
/// rules ask for it.
pub open spec fn needs_head_trustee(
    bookings: Seq<Booking>,
    employees: Seq<EmployeeInfo>,
    context: BookingContext,
    new_booking: Booking,
) -> bool {
    context.department_rule.department == Department::EBFT && match ebft_rule_outcome(
        bookings,
        employees,
        new_booking,
        context.department_rule,
    ) {
        Some(o) => o.2,
        None => false,
    }
}

/// The texts of a list of strings.
pub open spec fn texts(v: Seq<String>) -> Seq<Seq<char>> {
    v.map_values(|s: String| s@)
}

/// The reasons of a list of findings.
pub open spec fn finding_reasons(findings: Seq<Finding>) -> Seq<Seq<char>> {
    findings.map_values(|f: Finding| f.1)
}

proof fn lemma_push_finding(findings: Seq<Finding>, f: Finding)
    ensures
        combined_result(findings.push(f)) == merged(combined_result(findings), f.0),
        finding_reasons(findings.push(f)) == finding_reasons(findings).push(f.1),
{
    assert(findings.push(f).drop_last() =~= findings);
    assert(finding_reasons(findings.push(f)) =~= finding_reasons(findings).push(f.1));
}

/// Evaluates a booking request against all the rules that apply to it.
#[verifier::rlimit(30)]
#[verifier::spinoff_prover]
pub fn evaluate_booking(
    bookings: &[Booking],
    employees: &[EmployeeInfo],
    context: &BookingContext,
    new_booking: &Booking,
    days_until_request: i64,
) -> (evaluation: BookingEvaluation)
    requires
        new_booking.booking_type is Holiday ==> (holidays_used_count(bookings@, context.employee.id) as u32)
            < u32::MAX,
    ensures
        ({
            let findings = booking_findings(
                bookings@,
                employees@,
                *context,
                *new_booking,
                days_until_request,
            );
            &&& evaluation.result == combined_result(findings)
            &&& texts(evaluation.reasons@) == finding_reasons(findings)
        }),
        evaluation.approver_id == context.employee.manager_id,
        evaluation.requires_approval,
        evaluation.is_exceptional == (new_booking.booking_type is ExceptionalCircumstance),
        evaluation.holiday_days_remaining == if new_booking.booking_type is Holiday {
            Some(
                {
                    let used = (holidays_used_count(bookings@, context.employee.id) as u32) + 1;
                    if used <= context.employee.holiday_allowance {
                        (context.employee.holiday_allowance - used) as u32
                    } else {
                        0u32
                    }
                },
            )
        } else {
            None
        },
        evaluation.requires_head_trustee_approval == needs_head_trustee(
            bookings@,
            employees@,
            *context,
            *new_booking,
        ),
{
    let employee = &context.employee;
    let mut reasons = Vec::<String>::new();
    let mut final_result = RuleResult::Allowed;
    let mut requires_head_trustee_approval = false;
    let ghost mut findings: Seq<Finding> = seq![];
    let ghost all = booking_findings(bookings@, employees@, *context, *new_booking, days_until_request);

    if !meets_notice_requirement(days_until_request, &new_booking.booking_type) {
        reasons.push(String::from_str("This request was made with less than 14 days notice."));
        proof {
            lemma_push_finding(findings, (RuleResult::RuleBreaker, short_notice_reason()));
            findings = findings.push((RuleResult::RuleBreaker, short_notice_reason()));
        }
        final_result = RuleResult::RuleBreaker;
    }
    assert(texts(reasons@) =~= finding_reasons(findings));

    if let Some((result, reason)) = check_holiday_allowance(bookings, employee, new_booking) {
        proof {
            lemma_push_finding(findings, (result, reason@));
            findings = findings.push((result, reason@));
        }
        reasons.push(reason);
        merge_rule_result(&mut final_result, result);
    }
    assert(texts(reasons@) =~= finding_reasons(findings));

    if context.department_rule.department == Department::EBFT {
        if let Some((result, reason, trustee_required)) = check_ebft_rule(
            bookings,
            employees,
            new_booking,
            &context.department_rule,
        ) {
            proof {
                lemma_push_finding(findings, (result, reason@));
                findings = findings.push((result, reason@));
            }
            reasons.push(reason);
            if trustee_required {
                requires_head_trustee_approval = true;
            }
            merge_rule_result(&mut final_result, result);
        }
    } else {
        let employee_belongs_to_department = employee_has_department(
            employee,
            context.department_rule.department,
        );
        if employee_belongs_to_department {
            if let Some((result, reason)) = check_department_rule(
                bookings,
                employees,
                new_booking,
                &context.department_rule,
            ) {
                proof {
                    lemma_push_finding(findings, (result, reason@));
                    findings = findings.push((result, reason@));
                }
                reasons.push(reason);
                merge_rule_result(&mut final_result, result);
            }
        }
    }
    assert(texts(reasons@) =~= finding_reasons(findings));

    if let Some(secondary_rule) = &context.secondary_department_rule {
        if employee_has_department(employee, secondary_rule.department) {
            if secondary_rule.department == Department::Directors {
                if let Some((result, reason)) = check_director_rule(
                    bookings,
                    employees,
                    new_booking,
                    secondary_rule,
                ) {
                    proof {
                        lemma_push_finding(findings, (result, reason@));
                        findings = findings.push((result, reason@));
                    }
                    reasons.push(reason);
                    merge_rule_result(&mut final_result, result);
                }
            } else {
                if let Some((result, reason)) = check_department_rule(
                    bookings,
                    employees,
                    new_booking,
                    secondary_rule,
                ) {
                    proof {
                        lemma_push_finding(findings, (result, reason@));
                        findings = findings.push((result, reason@));
                    }
                    reasons.push(reason);
                    merge_rule_result(&mut final_result, result);
                }
            }
        }
    }
    assert(texts(reasons@) =~= finding_reasons(findings));
    assert(findings =~= all);

    let holiday_days_remaining = if let BookingType::Holiday = new_booking.booking_type {
        Some(employee.holiday_allowance.saturating_sub(holidays_used(bookings, employee.id) + 1))
    } else {
        None
    };
    let is_exceptional = if let BookingType::ExceptionalCircumstance = new_booking.booking_type {
        true
    } else {
        false
    };

    BookingEvaluation {
        result: final_result,
        reasons,
        approver_id: employee.manager_id,
        requires_approval: true,
        is_exceptional,
        holiday_days_remaining,
        requires_head_trustee_approval,
    }
}

/// The overall verdict on a booking request.
pub fn evaluate_booking_result(
    bookings: &[Booking],
    employees: &[EmployeeInfo],
    context: &BookingContext,
    new_booking: &Booking,
    days_until_request: i64,
) -> (r: RuleResult)
    requires
        new_booking.booking_type is Holiday ==> (holidays_used_count(bookings@, context.employee.id) as u32)
            < u32::MAX,
    ensures
        r == combined_result(
            booking_findings(bookings@, employees@, *context, *new_booking, days_until_request),
        ),
{
    evaluate_booking(bookings, employees, context, new_booking, days_until_request).result
}


// ---------------------------------------------------------------------------
// Laws
// ---------------------------------------------------------------------------

/// Merging verdicts does not depend on their order.
pub proof fn law_merge_commutative(a: RuleResult, b: RuleResult)
    ensures
        merged(a, b) == merged(b, a),
{
}

/// Merging verdicts is associative.
pub proof fn law_merge_associative(a: RuleResult, b: RuleResult, c: RuleResult)
    ensures
        merged(merged(a, b), c) == merged(a, merged(b, c)),
{
}

/// Merging a verdict with itself changes nothing, an allowed verdict changes
/// nothing, and a broken rule always wins.
pub proof fn law_merge_identity_and_absorption(a: RuleResult)
    ensures
        merged(a, a) == a,
        merged(a, RuleResult::Allowed) == a,
        merged(RuleResult::Allowed, a) == a,
        merged(a, RuleResult::RuleBreaker) == RuleResult::RuleBreaker,
        merged(RuleResult::RuleBreaker, a) == RuleResult::RuleBreaker,
{
}

/// The overall verdict is a broken rule exactly when some finding is one, and
/// allowed exactly when every finding allows.
pub proof fn law_combined_is_most_severe(findings: Seq<Finding>)
    ensures
        combined_result(findings) == RuleResult::RuleBreaker <==> exists|i: int|
            0 <= i < findings.len() && (#[trigger] findings[i]).0 == RuleResult::RuleBreaker,
        combined_result(findings) == RuleResult::Allowed <==> forall|i: int|
            0 <= i < findings.len() ==> (#[trigger] findings[i]).0 == RuleResult::Allowed,
        combined_result(findings) == RuleResult::ExceptionalRuleBreaker ==> exists|i: int|
            0 <= i < findings.len() && (#[trigger] findings[i]).0 == RuleResult::ExceptionalRuleBreaker,
    decreases findings.len(),
{
    if findings.len() > 0 {
        let rest = findings.drop_last();
        law_combined_is_most_severe(rest);
        assert forall|i: int| 0 <= i < rest.len() implies #[trigger] rest[i] == findings[i] by {}
        if exists|i: int| 0 <= i < rest.len() && (#[trigger] rest[i]).0 == RuleResult::RuleBreaker {
            let i = choose|i: int| 0 <= i < rest.len() && (#[trigger] rest[i]).0 == RuleResult::RuleBreaker;
            assert(findings[i].0 == RuleResult::RuleBreaker);
        }
        if exists|i: int| 0 <= i < rest.len() && (#[trigger] rest[i]).0 == RuleResult::ExceptionalRuleBreaker {
            let i = choose|i: int|
                0 <= i < rest.len() && (#[trigger] rest[i]).0 == RuleResult::ExceptionalRuleBreaker;
            assert(findings[i].0 == RuleResult::ExceptionalRuleBreaker);
        }
        if exists|i: int| 0 <= i < findings.len() && (#[trigger] findings[i]).0 == RuleResult::RuleBreaker {
            let i = choose|i: int|
                0 <= i < findings.len() && (#[trigger] findings[i]).0 == RuleResult::RuleBreaker;
            if i < rest.len() {
                assert(rest[i].0 == RuleResult::RuleBreaker);
            }
        }
        if forall|i: int| 0 <= i < findings.len() ==> (#[trigger] findings[i]).0 == RuleResult::Allowed {
            assert forall|i: int| 0 <= i < rest.len() implies (#[trigger] rest[i]).0
                == RuleResult::Allowed by {
                assert(findings[i].0 == RuleResult::Allowed);
            }
            assert(findings[findings.len() - 1].0 == RuleResult::Allowed);
        }
        if !(forall|i: int| 0 <= i < findings.len() ==> (#[trigger] findings[i]).0 == RuleResult::Allowed) {
            let i = choose|i: int| 0 <= i < findings.len() && (#[trigger] findings[i]).0 != RuleResult::Allowed;
            if i < rest.len() {
                assert(rest[i].0 != RuleResult::Allowed);
            }
        }
    }
}

/// A request made with less than 14 days notice, other than for an
/// exceptional circumstance, breaks the rules whatever else holds.
pub proof fn law_short_notice_breaks_rules(
    bookings: Seq<Booking>,
    employees: Seq<EmployeeInfo>,
    context: BookingContext,
    new_booking: Booking,
    days_until_request: i64,
)
    requires
        !(new_booking.booking_type is ExceptionalCircumstance),
        days_until_request < 14,
    ensures
        combined_result(
            booking_findings(bookings, employees, context, new_booking, days_until_request),
        ) == RuleResult::RuleBreaker,
{
    let findings = booking_findings(bookings, employees, context, new_booking, days_until_request);
    assert(findings[0].0 == RuleResult::RuleBreaker);
    law_combined_is_most_severe(findings);
}

/// Only a request for an exceptional circumstance can come out as a yellow
/// exception.
pub proof fn law_yellow_only_for_exceptional_requests(
    bookings: Seq<Booking>,
    employees: Seq<EmployeeInfo>,
    context: BookingContext,
    new_booking: Booking,
    days_until_request: i64,
)
    requires
        !(new_booking.booking_type is ExceptionalCircumstance),
    ensures
        combined_result(
            booking_findings(bookings, employees, context, new_booking, days_until_request),
        ) != RuleResult::ExceptionalRuleBreaker,
{
    let findings = booking_findings(bookings, employees, context, new_booking, days_until_request);
    law_combined_is_most_severe(findings);
    assert forall|i: int| 0 <= i < findings.len() implies (#[trigger] findings[i]).0
        != RuleResult::ExceptionalRuleBreaker by {}
}

/// Head Trustee approval is only ever asked for an EBFT request outside
/// Rochdale term time, by Steve or Travis.
pub proof fn law_head_trustee_only_outside_term_time(
    bookings: Seq<Booking>,
    employees: Seq<EmployeeInfo>,
    context: BookingContext,
    new_booking: Booking,
)
    requires
        needs_head_trustee(bookings, employees, context, new_booking),
    ensures
        context.department_rule.department == Department::EBFT,
        !is_term_time(new_booking.date@),
        find_employee(employees, new_booking.employee_id) matches Some(e) && (e.ebft_role == Some(
            EbftRole::Steve,
        ) || e.ebft_role == Some(EbftRole::Travis)),
{
}


/// Merging two verdicts into a running one gives the same result in either
/// order, and merging the same verdict twice changes nothing more.
pub proof fn law_merge_order_irrelevant(current: RuleResult, a: RuleResult, b: RuleResult)
    ensures
        merged(merged(current, a), b) == merged(merged(current, b), a),
        merged(merged(current, a), a) == merged(current, a),
{
}

/// `later` has as many findings as `earlier`, each at least as serious.
pub open spec fn at_least_as_severe(earlier: Seq<Finding>, later: Seq<Finding>) -> bool {
    &&& earlier.len() == later.len()
    &&& forall|i: int|
        0 <= i < earlier.len() ==> severity(#[trigger] later[i].0) >= severity(earlier[i].0)
}

proof fn lemma_combined_monotone(earlier: Seq<Finding>, later: Seq<Finding>)
    requires
        at_least_as_severe(earlier, later),
    ensures
        severity(combined_result(later)) >= severity(combined_result(earlier)),
    decreases earlier.len(),
{
    if earlier.len() > 0 {
        let n = earlier.len() - 1;
        assert(severity(later[n as int].0) >= severity(earlier[n as int].0));
        assert(at_least_as_severe(earlier.drop_last(), later.drop_last())) by {
            assert forall|i: int| 0 <= i < earlier.drop_last().len() implies severity(
                #[trigger] later.drop_last()[i].0,
            ) >= severity(earlier.drop_last()[i].0) by {
                assert(severity(later[i].0) >= severity(earlier[i].0));
            }
        }
        lemma_combined_monotone(earlier.drop_last(), later.drop_last());
    }
}

proof fn lemma_at_least_as_severe_concat(e1: Seq<Finding>, l1: Seq<Finding>, e2: Seq<Finding>, l2: Seq<Finding>)
    requires
        at_least_as_severe(e1, l1),
        at_least_as_severe(e2, l2),
    ensures
        at_least_as_severe(e1 + e2, l1 + l2),
{
    assert forall|i: int| 0 <= i < (e1 + e2).len() implies severity(#[trigger] (l1 + l2)[i].0)
        >= severity((e1 + e2)[i].0) by {
        if i < e1.len() {
            assert(severity(l1[i].0) >= severity(e1[i].0));
        } else {
            assert(severity(l2[i - e1.len()].0) >= severity(e2[i - e1.len()].0));
        }
    }
}

proof fn lemma_count_where_push(s: Seq<Booking>, p: spec_fn(Booking) -> bool, extra: Booking)
    ensures
        count_where(s, p) <= s.len(),
        count_where(s, p) <= count_where(s.push(extra), p) <= count_where(s, p) + 1,
    decreases s.len(),
{
    assert(s.push(extra).drop_last() =~= s);
    if s.len() > 0 {
        lemma_count_where_push(s.drop_last(), p, s.last());
    }
}

proof fn lemma_optional_at_least_as_severe(earlier: Option<Finding>, later: Option<Finding>)
    requires
        earlier is Some <==> later is Some,
        earlier is Some ==> severity((later->0).0) >= severity((earlier->0).0),
    ensures
        at_least_as_severe(optional_finding(earlier), optional_finding(later)),
{
}

proof fn lemma_absences_grow(
    bookings: Seq<Booking>,
    extra: Booking,
    employees: Seq<EmployeeInfo>,
    department: Department,
    date: Date,
)
    requires
        bookings.len() + 1 < u32::MAX,
    ensures
        department_absences(bookings, employees, department, date) <= department_absences(
            bookings.push(extra),
            employees,
            department,
            date,
        ) < u32::MAX,
{
    lemma_count_where_push(
        bookings,
        |b: Booking| is_department_absence(b, employees, department, date),
        extra,
    );
    lemma_count_where_push(
        bookings.push(extra),
        |b: Booking| is_department_absence(b, employees, department, date),
        extra,
    );
}

proof fn lemma_department_outcome_grows(
    bookings: Seq<Booking>,
    extra: Booking,
    employees: Seq<EmployeeInfo>,
    new_booking: Booking,
    rule: DepartmentRule,
)
    requires
        bookings.len() + 1 < u32::MAX,
    ensures
        severity(department_rule_outcome(bookings.push(extra), employees, new_booking, rule).0)
            >= severity(department_rule_outcome(bookings, employees, new_booking, rule).0),
{
    lemma_absences_grow(bookings, extra, employees, rule.department, new_booking.date);
}

proof fn lemma_director_outcome_grows(
    bookings: Seq<Booking>,
    extra: Booking,
    employees: Seq<EmployeeInfo>,
    new_booking: Booking,
    rule: DepartmentRule,
)
    requires
        bookings.len() + 1 < u32::MAX,
    ensures
        at_least_as_severe(
            optional_finding(director_rule_outcome(bookings, employees, new_booking, rule)),
            optional_finding(director_rule_outcome(bookings.push(extra), employees, new_booking, rule)),
        ),
{
    lemma_absences_grow(bookings, extra, employees, Department::Directors, new_booking.date);
    lemma_optional_at_least_as_severe(
        director_rule_outcome(bookings, employees, new_booking, rule),
        director_rule_outcome(bookings.push(extra), employees, new_booking, rule),
    );
}

proof fn lemma_holiday_outcome_grows(
    bookings: Seq<Booking>,
    extra: Booking,
    employee: EmployeeInfo,
    new_booking: Booking,
)
    requires
        bookings.len() + 1 < u32::MAX,
    ensures
        at_least_as_severe(
            optional_finding(holiday_allowance_outcome(bookings, employee, new_booking)),
            optional_finding(holiday_allowance_outcome(bookings.push(extra), employee, new_booking)),
        ),
{
    let p = |b: Booking| b.employee_id == employee.id && b.booking_type is Holiday;
    lemma_count_where_push(bookings, p, extra);
    lemma_count_where_push(bookings.push(extra), p, extra);
    lemma_optional_at_least_as_severe(
        holiday_allowance_outcome(bookings, employee, new_booking),
        holiday_allowance_outcome(bookings.push(extra), employee, new_booking),
    );
}

proof fn lemma_main_findings_grow(
    bookings: Seq<Booking>,
    extra: Booking,
    employees: Seq<EmployeeInfo>,
    context: BookingContext,
    new_booking: Booking,
)
    requires
        bookings.len() + 1 < u32::MAX,
    ensures
        at_least_as_severe(
            main_department_findings(bookings, employees, context, new_booking),
            main_department_findings(bookings.push(extra), employees, context, new_booking),
        ),
{
    lemma_absences_grow(bookings, extra, employees, Department::EBFT, new_booking.date);
    lemma_department_outcome_grows(bookings, extra, employees, new_booking, context.department_rule);
}

proof fn lemma_second_findings_grow(
    bookings: Seq<Booking>,
    extra: Booking,
    employees: Seq<EmployeeInfo>,
    context: BookingContext,
    new_booking: Booking,
)
    requires
        bookings.len() + 1 < u32::MAX,
    ensures
        at_least_as_severe(
            second_department_findings(bookings, employees, context, new_booking),
            second_department_findings(bookings.push(extra), employees, context, new_booking),
        ),
{
    if let Some(rule) = context.secondary_department_rule {
        lemma_department_outcome_grows(bookings, extra, employees, new_booking, rule);
        lemma_director_outcome_grows(bookings, extra, employees, new_booking, rule);
    }
}

/// One more existing booking never makes a request's verdict less serious:
/// the counts of absences and of holidays used can only grow, and nothing
/// else the rules read depends on the other bookings' number.
pub proof fn law_more_bookings_never_lower_severity(
    bookings: Seq<Booking>,
    extra: Booking,
    employees: Seq<EmployeeInfo>,
    context: BookingContext,
    new_booking: Booking,
    days_until_request: i64,
)
    requires
        bookings.len() + 1 < u32::MAX,
    ensures
        severity(
            combined_result(
                booking_findings(
                    bookings.push(extra),
                    employees,
                    context,
                    new_booking,
                    days_until_request,
                ),
            ),
        ) >= severity(
            combined_result(
                booking_findings(bookings, employees, context, new_booking, days_until_request),
            ),
        ),
{
    let more = bookings.push(extra);
    let notice = notice_findings(new_booking, days_until_request);
    let h1 = optional_finding(holiday_allowance_outcome(bookings, context.employee, new_booking));
    let h2 = optional_finding(holiday_allowance_outcome(more, context.employee, new_booking));
    let m1 = main_department_findings(bookings, employees, context, new_booking);
    let m2 = main_department_findings(more, employees, context, new_booking);
    let s1 = second_department_findings(bookings, employees, context, new_booking);
    let s2 = second_department_findings(more, employees, context, new_booking);
    assert(at_least_as_severe(notice, notice));
    lemma_holiday_outcome_grows(bookings, extra, context.employee, new_booking);
    lemma_main_findings_grow(bookings, extra, employees, context, new_booking);
    lemma_second_findings_grow(bookings, extra, employees, context, new_booking);
    lemma_at_least_as_severe_concat(notice, notice, h1, h2);
    lemma_at_least_as_severe_concat(notice + h1, notice + h2, m1, m2);
    lemma_at_least_as_severe_concat(notice + h1 + m1, notice + h2 + m2, s1, s2);
    lemma_combined_monotone(
        booking_findings(bookings, employees, context, new_booking, days_until_request),
        booking_findings(more, employees, context, new_booking, days_until_request),
    );
}


/// A finding that breaks a rule makes the whole request break the rules, and
/// its reason is among the reasons given.
proof fn lemma_finding_decides(findings: Seq<Finding>, k: int)
    requires
        0 <= k < findings.len(),
        findings[k].0 == RuleResult::RuleBreaker,
    ensures
        combined_result(findings) == RuleResult::RuleBreaker,
        finding_reasons(findings).contains(findings[k].1),
{
    law_combined_is_most_severe(findings);
    assert(finding_reasons(findings)[k] == findings[k].1);
}

/// When the main department (other than EBFT) has already reached its
/// absence limit on the day, the employee belongs to it and the request is
/// not for an exceptional circumstance, the request breaks the rules, and the
/// reasons say that the department's limit has been reached.
pub proof fn law_main_department_limit_applies(
    bookings: Seq<Booking>,
    employees: Seq<EmployeeInfo>,
    context: BookingContext,
    new_booking: Booking,
    days_until_request: i64,
)
    requires
        context.department_rule.department != Department::EBFT,
        has_department(context.employee, context.department_rule.department),
        department_absences(bookings, employees, context.department_rule.department, new_booking.date)
            as u32 >= context.department_rule.normal_absence_limit,
        !(new_booking.booking_type is ExceptionalCircumstance),
    ensures
        ({
            let findings = booking_findings(
                bookings,
                employees,
                context,
                new_booking,
                days_until_request,
            );
            &&& combined_result(findings) == RuleResult::RuleBreaker
            &&& finding_reasons(findings).contains(
                "The normal absence limit for this department has been reached."@,
            )
        }),
{
    let findings = booking_findings(bookings, employees, context, new_booking, days_until_request);
    let k = notice_findings(new_booking, days_until_request).len() + optional_finding(
        holiday_allowance_outcome(bookings, context.employee, new_booking),
    ).len();
    assert(findings[k as int] == department_rule_outcome(
        bookings,
        employees,
        new_booking,
        context.department_rule,
    ));
    lemma_finding_decides(findings, k as int);
}

/// When a second department other than the Directors has a rule, the
/// employee belongs to it, it has already reached its absence limit on the
/// day and the request is not for an exceptional circumstance, the request
/// breaks the rules, and the reasons say that the department's limit has
/// been reached: the second department's limit is checked as the main one is.
pub proof fn law_second_department_limit_applies(
    bookings: Seq<Booking>,
    employees: Seq<EmployeeInfo>,
    context: BookingContext,
    new_booking: Booking,
    days_until_request: i64,
    rule: DepartmentRule,
)
    requires
        context.secondary_department_rule == Some(rule),
        rule.department != Department::Directors,
        has_department(context.employee, rule.department),
        department_absences(bookings, employees, rule.department, new_booking.date) as u32
            >= rule.normal_absence_limit,
        !(new_booking.booking_type is ExceptionalCircumstance),
    ensures
        ({
            let findings = booking_findings(
                bookings,
                employees,
                context,
                new_booking,
                days_until_request,
            );
            &&& combined_result(findings) == RuleResult::RuleBreaker
            &&& finding_reasons(findings).contains(
                "The normal absence limit for this department has been reached."@,
            )
        }),
{
    let findings = booking_findings(bookings, employees, context, new_booking, days_until_request);
    let k = findings.len() - 1;
    assert(findings[k] == department_rule_outcome(bookings, employees, new_booking, rule));
    lemma_finding_decides(findings, k);
}

/// When the second department is the Directors, the requester is found among
/// the employees as a director, the employee of the context belongs to the
/// Directors, their limit is already reached on the day and the request is
/// not for an exceptional circumstance, the request breaks the rules.
pub proof fn law_directors_limit_applies(
    bookings: Seq<Booking>,
    employees: Seq<EmployeeInfo>,
    context: BookingContext,
    new_booking: Booking,
    days_until_request: i64,
    rule: DepartmentRule,
    requester: EmployeeInfo,
)
    requires
        context.secondary_department_rule == Some(rule),
        rule.department == Department::Directors,
        has_department(context.employee, Department::Directors),
        find_employee(employees, new_booking.employee_id) == Some(requester),
        has_department(requester, Department::Directors),
        department_absences(bookings, employees, Department::Directors, new_booking.date) as u32
            >= rule.normal_absence_limit,
        !(new_booking.booking_type is ExceptionalCircumstance),
    ensures
        ({
            let findings = booking_findings(
                bookings,
                employees,
                context,
                new_booking,
                days_until_request,
            );
            &&& combined_result(findings) == RuleResult::RuleBreaker
            &&& finding_reasons(findings).contains("The Directors' absence limit has been reached."@)
        }),
{
    let findings = booking_findings(bookings, employees, context, new_booking, days_until_request);
    let k = findings.len() - 1;
    assert(findings[k].0 == RuleResult::RuleBreaker);
    lemma_finding_decides(findings, k);
}

/// When the main department is EBFT, the requester is on record, the date is
/// in Rochdale term time, EBFT has already reached its limit that day and the
/// request is not for an exceptional circumstance, the request breaks the
/// rules.
pub proof fn law_ebft_term_time_limit_applies(
    bookings: Seq<Booking>,
    employees: Seq<EmployeeInfo>,
    context: BookingContext,
    new_booking: Booking,
    days_until_request: i64,
)
    requires
        context.department_rule.department == Department::EBFT,
        find_employee(employees, new_booking.employee_id) is Some,
        is_term_time(new_booking.date@),
        department_absences(bookings, employees, Department::EBFT, new_booking.date) as u32
            >= context.department_rule.normal_absence_limit,
        !(new_booking.booking_type is ExceptionalCircumstance),
    ensures
        combined_result(
            booking_findings(bookings, employees, context, new_booking, days_until_request),
        ) == RuleResult::RuleBreaker,
{
    let findings = booking_findings(bookings, employees, context, new_booking, days_until_request);
    let k = notice_findings(new_booking, days_until_request).len() + optional_finding(
        holiday_allowance_outcome(bookings, context.employee, new_booking),
    ).len();
    assert(findings[k as int].0 == RuleResult::RuleBreaker);
    lemma_finding_decides(findings, k as int);
}

/// A holiday request from an employee who has already booked as many
/// holidays as their allowance breaks the rules.
pub proof fn law_holiday_allowance_applies(
    bookings: Seq<Booking>,
    employees: Seq<EmployeeInfo>,
    context: BookingContext,
    new_booking: Booking,
    days_until_request: i64,
)
    requires
        new_booking.booking_type is Holiday,
        holidays_used_count(bookings, context.employee.id) as u32 >= context.employee.holiday_allowance,
    ensures
        ({
            let findings = booking_findings(
                bookings,
                employees,
                context,
                new_booking,
                days_until_request,
            );
            &&& combined_result(findings) == RuleResult::RuleBreaker
            &&& finding_reasons(findings).contains("The employee has no holiday allowance remaining."@)
        }),
{
    let findings = booking_findings(bookings, employees, context, new_booking, days_until_request);
    let k = notice_findings(new_booking, days_until_request).len();
    assert(findings[k as int].0 == RuleResult::RuleBreaker);
    lemma_finding_decides(findings, k as int);
}

/// Only holidays of the employee count as holidays used: one more booking
/// adds one exactly when it is a holiday booked by that employee, and leaves
/// the count as it was otherwise (work leave, sickness and the rest, or
/// another employee's holiday).
pub proof fn law_only_own_holidays_are_used(bookings: Seq<Booking>, extra: Booking, employee_id: u32)
    ensures
        holidays_used_count(bookings.push(extra), employee_id) == holidays_used_count(
            bookings,
            employee_id,
        ) + if extra.employee_id == employee_id && extra.booking_type is Holiday {
            1int
        } else {
            0int
        },
        holidays_used_count(seq![], employee_id) == 0,
{
    assert(bookings.push(extra).drop_last() =~= bookings);
}

/// Only holidays and work leave on the day, by an employee of the department,
/// count against a department's limit: one more booking adds one exactly
/// when it is such a booking, and leaves the count as it was otherwise.
pub proof fn law_what_counts_against_a_limit(
    bookings: Seq<Booking>,
    extra: Booking,
    employees: Seq<EmployeeInfo>,
    department: Department,
    date: Date,
)
    ensures
        department_absences(bookings.push(extra), employees, department, date) == department_absences(
            bookings,
            employees,
            department,
            date,
        ) + if extra.date == date && (extra.booking_type is Holiday || extra.booking_type is WorkLeave)
            && (find_employee(employees, extra.employee_id) matches Some(e) && (e.department
            == department || e.additional_departments@.contains(department))) {
            1int
        } else {
            0int
        },
        department_absences(seq![], employees, department, date) == 0,
{
    assert(bookings.push(extra).drop_last() =~= bookings);
}


/// An employee is looked up by id as the first one in the list with that id,
/// and nobody is found exactly when no one has it.
pub proof fn law_employee_lookup_finds_the_first_match(employees: Seq<EmployeeInfo>, id: u32)
    ensures
        find_employee(employees, id) is None <==> forall|i: int|
            0 <= i < employees.len() ==> (#[trigger] employees[i]).id != id,
        find_employee(employees, id) matches Some(e) ==> exists|i: int|
            0 <= i < employees.len() && #[trigger] employees[i] == e && e.id == id && forall|j: int|
                0 <= j < i ==> (#[trigger] employees[j]).id != id,
    decreases employees.len(),
{
    if employees.len() > 0 {
        let rest = employees.drop_first();
        law_employee_lookup_finds_the_first_match(rest, id);
        if employees[0].id == id {
            assert(employees[0] == employees[0]);
        } else {
            assert forall|i: int| 0 < i < employees.len() implies #[trigger] employees[i] == rest[i - 1] by {}
            if find_employee(rest, id) is None {
                assert forall|i: int| 0 <= i < employees.len() implies (#[trigger] employees[i]).id != id by {
                    if i > 0 {
                        assert(rest[i - 1].id != id);
                    }
                }
            } else {
                let e = find_employee(rest, id)->0;
                let i = choose|i: int|
                    0 <= i < rest.len() && #[trigger] rest[i] == e && e.id == id && forall|j: int|
                        0 <= j < i ==> (#[trigger] rest[j]).id != id;
                assert(employees[i + 1] == e);
                assert forall|j: int| 0 <= j < i + 1 implies (#[trigger] employees[j]).id != id by {
                    if j > 0 {
                        assert(employees[j] == rest[j - 1]);
                    }
                }
                assert(rest[i].id == id);
            }
        }
    }
}

/// Outside Rochdale term time, when Steve (or Travis) asks, Jac is not
/// absent and the other of the two is, the EBFT cover rules allow the request
/// and ask for Head Trustee approval.
pub proof fn law_steve_and_travis_together_need_head_trustee(
    bookings: Seq<Booking>,
    employees: Seq<EmployeeInfo>,
    context: BookingContext,
    new_booking: Booking,
    requester: EmployeeInfo,
    other: EbftRole,
)
    requires
        context.department_rule.department == Department::EBFT,
        find_employee(employees, new_booking.employee_id) == Some(requester),
        !is_term_time(new_booking.date@),
        (requester.ebft_role == Some(EbftRole::Steve) && other == EbftRole::Travis) || (
        requester.ebft_role == Some(EbftRole::Travis) && other == EbftRole::Steve),
        !role_absent(bookings, employees, new_booking.date, EbftRole::Jac),
        role_absent(bookings, employees, new_booking.date, other),
    ensures
        needs_head_trustee(bookings, employees, context, new_booking),
        main_department_findings(bookings, employees, context, new_booking)[0].0 == RuleResult::Allowed,
{
}


/// A request with enough notice (or for an exceptional circumstance) that is
/// not a holiday, whose employee belongs to neither department with a rule,
/// and whose main department is not EBFT, meets no rule at all: it is allowed,
/// with no reasons.
pub proof fn law_request_without_applicable_rules_is_allowed(
    bookings: Seq<Booking>,
    employees: Seq<EmployeeInfo>,
    context: BookingContext,
    new_booking: Booking,
    days_until_request: i64,
)
    requires
        new_booking.booking_type is ExceptionalCircumstance || days_until_request >= 14,
        !(new_booking.booking_type is Holiday),
        context.department_rule.department != Department::EBFT,
        !has_department(context.employee, context.department_rule.department),
        context.secondary_department_rule matches Some(rule) ==> !has_department(
            context.employee,
            rule.department,
        ),
    ensures
        booking_findings(bookings, employees, context, new_booking, days_until_request).len() == 0,
        combined_result(booking_findings(bookings, employees, context, new_booking, days_until_request))
            == RuleResult::Allowed,
{
    assert(booking_findings(bookings, employees, context, new_booking, days_until_request) =~= seq![]);
}

/// Outside Rochdale term time the EBFT cover rules allow every request they
/// judge; they ask for Head Trustee approval only when Jac is not absent.
pub proof fn law_ebft_outside_term_time_allows(
    bookings: Seq<Booking>,
    employees: Seq<EmployeeInfo>,
    new_booking: Booking,
    rule: DepartmentRule,
)
    requires
        !is_term_time(new_booking.date@),
    ensures
        ebft_rule_outcome(bookings, employees, new_booking, rule) matches Some(o) ==> o.0
            == RuleResult::Allowed,
        ebft_rule_outcome(bookings, employees, new_booking, rule) matches Some(o) && o.2 ==> !role_absent(
            bookings,
            employees,
            new_booking.date,
            EbftRole::Jac,
        ),
{
}

} // verus!
