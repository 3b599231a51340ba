use wtf_english::clock::{clock_timestamp, format_offset_timestamp, session_base_name, SessionTime};
use wtf_english::title::format_session_title;
use chrono::{Datelike, NaiveDate, Timelike};

fn t(year: i32, month: u32, day: u32, hour: u32, minute: u32, second: u32) -> SessionTime {
    SessionTime { year, month, day, hour, minute, second }
}

#[test]
fn base_name_follows_the_file_name_pattern() {
    assert_eq!(session_base_name(&t(2025, 1, 20, 14, 30, 45)), "2025-01-20_14-30-45");
    assert_eq!(session_base_name(&t(987, 12, 3, 0, 5, 9)), "0987-12-03_00-05-09");
    assert_eq!(session_base_name(&t(12345, 6, 7, 8, 9, 10)), "+12345-06-07_08-09-10");
    assert_eq!(session_base_name(&t(-5, 6, 7, 8, 9, 10)), "-0005-06-07_08-09-10");
}

#[test]
fn base_name_matches_chrono_formatting() {
    let dt = NaiveDate::from_ymd_opt(2024, 2, 29).unwrap().and_hms_opt(23, 59, 1).unwrap();
    let st = t(dt.year(), dt.month(), dt.day(), dt.hour(), dt.minute(), dt.second());
    assert_eq!(session_base_name(&st), dt.format("%Y-%m-%d_%H-%M-%S").to_string());
}

#[test]
fn session_title_reads_the_time_from_the_file_name() {
    assert_eq!(format_session_title("2025-01-20_14-30-45.md"), "Jan 20, 2:30 PM");
    assert_eq!(format_session_title("2025-12-05_00-07-00.md"), "Dec 5, 12:07 AM");
    assert_eq!(format_session_title("2025-06-01_12-00-00.md"), "Jun 1, 12:00 PM");
    assert_eq!(format_session_title("2025-06-01_11-59-00.md"), "Jun 1, 11:59 AM");
}

#[test]
fn session_title_falls_back_to_the_file_name() {
    for name in [
        "notes.md",
        "2025-13-20_14-30-45.md",
        "2025-00-20_14-30-45.md",
        "2025-01-20_14-30-45.txt",
        "2025-01-20_14-30.md",
        "2025-01-20_14-30-45_x.md",
        "2025-01-xx_14-30-45.md",
        "",
    ] {
        assert_eq!(format_session_title(name), name);
    }
}

#[test]
fn saved_report_is_listed_under_its_time() {
    let st = t(2025, 1, 20, 14, 30, 45);
    let name = format!("{}.md", session_base_name(&st));
    assert_eq!(format_session_title(&name), "Jan 20, 2:30 PM");
}

#[test]
fn negative_year_report_keeps_its_file_name_as_title() {
    let st = t(-1, 1, 20, 14, 30, 45);
    let name = format!("{}.md", session_base_name(&st));
    assert_eq!(format_session_title(&name), name);
}

#[test]
fn live_and_upload_stamps() {
    assert_eq!(clock_timestamp(&t(2025, 1, 1, 9, 5, 3)), "09:05:03");
    assert_eq!(format_offset_timestamp(0), "00:00");
    assert_eq!(format_offset_timestamp(75), "01:15");
    assert_eq!(format_offset_timestamp(6005), "100:05");
}
