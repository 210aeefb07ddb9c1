use booking_system::calendar::{
    generate_month, is_bank_holiday, is_rochdale_term_time, is_weekend, retention_cutoff, today,
    uk_bank_holidays, BankHoliday,
};
use booking_system::date::Date;

fn date(year: i32, month: u32, day: u32) -> Date {
    Date { year, month, day }
}

fn listed(holidays: &[BankHoliday]) -> Vec<(Date, String)> {
    holidays.iter().map(|h| (h.date, h.name.clone())).collect()
}

#[test]
fn term_time_boundaries() {
    assert!(is_rochdale_term_time(date(2024, 1, 5)));
    assert!(!is_rochdale_term_time(date(2024, 1, 4)));
    assert!(is_rochdale_term_time(date(2024, 2, 13)));
    assert!(!is_rochdale_term_time(date(2024, 2, 14)));
    assert!(!is_rochdale_term_time(date(2024, 2, 22)));
    assert!(is_rochdale_term_time(date(2024, 2, 23)));
    assert!(is_rochdale_term_time(date(2024, 3, 27)));
    assert!(!is_rochdale_term_time(date(2024, 4, 1)));
    assert!(is_rochdale_term_time(date(2024, 5, 22)));
    assert!(!is_rochdale_term_time(date(2024, 5, 29)));
    assert!(is_rochdale_term_time(date(2024, 7, 21)));
    assert!(!is_rochdale_term_time(date(2024, 8, 1)));
    assert!(is_rochdale_term_time(date(2024, 9, 2)));
    assert!(!is_rochdale_term_time(date(2024, 10, 30)));
    assert!(is_rochdale_term_time(date(2024, 11, 3)));
    assert!(is_rochdale_term_time(date(2024, 12, 19)));
    assert!(!is_rochdale_term_time(date(2024, 12, 20)));
}

#[test]
fn term_time_needs_a_supported_year() {
    assert!(!is_rochdale_term_time(date(300000, 1, 10)));
}

#[test]
fn months_have_their_days_in_order() {
    let feb_leap = generate_month(2024, 2);
    assert_eq!(feb_leap.len(), 29);
    for (i, d) in feb_leap.iter().enumerate() {
        assert_eq!(*d, date(2024, 2, i as u32 + 1));
    }
    assert_eq!(generate_month(2023, 2).len(), 28);
    assert_eq!(generate_month(1900, 2).len(), 28);
    assert_eq!(generate_month(2000, 2).len(), 29);
    assert_eq!(generate_month(2024, 4).len(), 30);
    let december = generate_month(2024, 12);
    assert_eq!(december.len(), 31);
    assert_eq!(december[30], date(2024, 12, 31));
}

#[test]
fn weekends() {
    assert!(is_weekend(date(2024, 6, 1)));
    assert!(is_weekend(date(2024, 6, 2)));
    assert!(!is_weekend(date(2024, 6, 3)));
    assert!(!is_weekend(date(2024, 6, 7)));
}

#[test]
fn retention_cutoff_is_five_years_of_days_back() {
    assert_eq!(retention_cutoff(date(2024, 3, 1)), date(2019, 3, 3));
    assert_eq!(retention_cutoff(date(2025, 1, 1)), date(2020, 1, 3));
}

#[test]
fn today_is_a_plausible_date() {
    let d = today();
    assert!(d.year >= 2000);
    assert!((1..=12).contains(&d.month));
    assert!((1..=31).contains(&d.day));
}

#[test]
fn bank_holidays_2024_have_no_substitutes() {
    let holidays = uk_bank_holidays(2024);
    let expected = vec![
        (date(2024, 1, 1), "New Year's Day".to_string()),
        (date(2024, 3, 29), "Good Friday".to_string()),
        (date(2024, 4, 1), "Easter Monday".to_string()),
        (date(2024, 5, 6), "Early May Bank Holiday".to_string()),
        (date(2024, 5, 27), "Spring Bank Holiday".to_string()),
        (date(2024, 8, 26), "Summer Bank Holiday".to_string()),
        (date(2024, 12, 25), "Christmas Day".to_string()),
        (date(2024, 12, 26), "Boxing Day".to_string()),
    ];
    assert_eq!(listed(&holidays), expected);
}

#[test]
fn weekend_christmas_moves_to_monday_and_tuesday() {
    let holidays = uk_bank_holidays(2021);
    let expected = vec![
        (date(2021, 1, 1), "New Year's Day".to_string()),
        (date(2021, 4, 2), "Good Friday".to_string()),
        (date(2021, 4, 5), "Easter Monday".to_string()),
        (date(2021, 5, 3), "Early May Bank Holiday".to_string()),
        (date(2021, 5, 31), "Spring Bank Holiday".to_string()),
        (date(2021, 8, 30), "Summer Bank Holiday".to_string()),
        (date(2021, 12, 25), "Christmas Day".to_string()),
        (date(2021, 12, 26), "Boxing Day".to_string()),
        (date(2021, 12, 27), "Christmas Day (substitute)".to_string()),
        (date(2021, 12, 28), "Boxing Day (substitute)".to_string()),
    ];
    assert_eq!(listed(&holidays), expected);
}

#[test]
fn saturday_new_year_and_sunday_christmas() {
    let holidays = uk_bank_holidays(2022);
    let expected = vec![
        (date(2022, 1, 1), "New Year's Day".to_string()),
        (date(2022, 4, 15), "Good Friday".to_string()),
        (date(2022, 4, 18), "Easter Monday".to_string()),
        (date(2022, 5, 2), "Early May Bank Holiday".to_string()),
        (date(2022, 5, 30), "Spring Bank Holiday".to_string()),
        (date(2022, 8, 29), "Summer Bank Holiday".to_string()),
        (date(2022, 12, 25), "Christmas Day".to_string()),
        (date(2022, 12, 26), "Boxing Day".to_string()),
        (date(2022, 1, 3), "New Year's Day (substitute)".to_string()),
        (date(2022, 12, 27), "Christmas Day (substitute)".to_string()),
    ];
    assert_eq!(listed(&holidays), expected);
}

#[test]
fn sunday_new_year_and_monday_may_day() {
    let holidays = uk_bank_holidays(2023);
    let expected = vec![
        (date(2023, 1, 1), "New Year's Day".to_string()),
        (date(2023, 4, 7), "Good Friday".to_string()),
        (date(2023, 4, 10), "Easter Monday".to_string()),
        (date(2023, 5, 1), "Early May Bank Holiday".to_string()),
        (date(2023, 5, 29), "Spring Bank Holiday".to_string()),
        (date(2023, 8, 28), "Summer Bank Holiday".to_string()),
        (date(2023, 12, 25), "Christmas Day".to_string()),
        (date(2023, 12, 26), "Boxing Day".to_string()),
        (date(2023, 1, 2), "New Year's Day (substitute)".to_string()),
    ];
    assert_eq!(listed(&holidays), expected);
}

#[test]
fn easter_in_other_centuries() {
    assert_eq!(uk_bank_holidays(2000)[1].date, date(2000, 4, 21));
    assert_eq!(uk_bank_holidays(1818)[2].date, date(1818, 3, 23));
    assert_eq!(uk_bank_holidays(2038)[2].date, date(2038, 4, 26));
}

#[test]
fn bank_holiday_lookup() {
    let holidays = uk_bank_holidays(2024);
    assert!(is_bank_holiday(date(2024, 12, 25), &holidays));
    assert!(is_bank_holiday(date(2024, 5, 27), &holidays));
    assert!(!is_bank_holiday(date(2024, 12, 24), &holidays));
    assert!(!is_bank_holiday(date(2024, 1, 1), &[]));
}

#[test]
fn months_at_the_ends_of_the_supported_range() {
    let last = generate_month(262142, 11);
    assert_eq!(last.len(), 30);
    assert_eq!(last[29], date(262142, 11, 30));
    let first = generate_month(-262143, 1);
    assert_eq!(first.len(), 31);
    assert_eq!(first[0], date(-262143, 1, 1));
}

#[test]
fn bank_holidays_before_the_common_era() {
    let holidays = uk_bank_holidays(-1);
    assert_eq!(holidays[0].date, date(-1, 1, 1));
    assert!(holidays.iter().all(|h| h.date.year == -1));
}

fn day_number(year: i64, month: i64, day: i64) -> i64 {
    let leap = year.rem_euclid(4) == 0 && (year.rem_euclid(100) != 0 || year.rem_euclid(400) == 0);
    let before = [0, 31, 59, 90, 120, 151, 181, 212, 243, 273, 304, 334][(month - 1) as usize]
        + if month > 2 && leap { 1 } else { 0 };
    let y = year - 1;
    365 * y + y.div_euclid(4) - y.div_euclid(100) + y.div_euclid(400) + before + day
}

#[test]
fn weekends_follow_the_day_count_across_the_calendar() {
    for year in [-262143, -4000, -309, -1, 0, 1, 4, 100, 1582, 1900, 2000, 2024, 2100, 9999, 262142] {
        for month in 1..=12u32 {
            if year == 262142 && month == 12 {
                continue;
            }
            for d in generate_month(year, month) {
                let weekday = (day_number(year as i64, month as i64, d.day as i64) - 1).rem_euclid(7);
                assert_eq!(is_weekend(d), weekday >= 5, "{:?}", d);
            }
        }
    }
}

#[test]
fn bank_holidays_fall_on_distinct_dates() {
    for year in (0..3000).step_by(7) {
        let holidays = uk_bank_holidays(year);
        let good_friday = holidays[1].date;
        let easter_monday = holidays[2].date;
        assert!(!is_weekend(good_friday));
        assert!(!is_weekend(easter_monday));
        let mut dates: Vec<Date> = holidays.iter().map(|h| h.date).collect();
        dates.sort_by_key(|d| (d.year, d.month, d.day));
        dates.dedup();
        assert_eq!(dates.len(), holidays.len(), "year {}", year);
    }
}
