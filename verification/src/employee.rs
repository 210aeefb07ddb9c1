//! Employee records as they are kept for holiday allowances.

use vstd::prelude::*;

verus! {

/// An employee: id, name, yearly holiday allowance and department id.
#[derive(Debug, Clone)]
pub struct EmployeeInfo {
    pub id: u32,
    pub name: String,
    pub holiday_allowance: u32,
    pub department_id: u32,
}

impl EmployeeInfo {
    /// A record with the given fields.
    pub fn new(id: u32, name: String, holiday_allowance: u32, department_id: u32) -> (r: Self)
        ensures
            r.id == id,
            r.name == name,
            r.holiday_allowance == holiday_allowance,
            r.department_id == department_id,
    {
        Self { id, name, holiday_allowance, department_id }
    }
}

} // verus!
