# booking_system

A verified library for holiday and absence bookings: bank holidays and Rochdale
term times for England and Wales, department absence limits, holiday
allowances, the EBFT cover rules, and the manager approval workflow.

- `src/date.rs`: calendar dates and the calls into `chrono` (building a date,
  its weekday, moving it by days).
- `src/calendar.rs`: term time, month calendars, Easter and the bank holidays
  with their substitute days.
- `src/booking.rs`: booking types and the rules that evaluate a request.
- `src/managing.rs`: manager permissions and recorded decisions.
- `src/employee.rs`: employee records.
- `src/text.rs`: decimal numerals and blank text.

Every function carries a contract. Verus proves the contracts of all of them
except the six `#[verifier::external_body]` wrappers, which make the calls into
`chrono` and `std` (`from_ymd_opt`, `weekday`, `add_days`, `today`,
`decimal_string`, `trim_str`): their contracts are trusted, and each one's doc
comment says what it claims of the call. `tests/` runs the library, with those
calls, on concrete cases.
