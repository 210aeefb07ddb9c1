//! Holiday and absence booking rules: bank holidays and term times for
//! England and Wales, department absence limits, holiday allowances and the
//! manager approval workflow.

pub mod booking;
pub mod calendar;
pub mod date;
pub mod employee;
pub mod managing;
pub mod text;
