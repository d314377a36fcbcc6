use shaktool::category::{Category, Region};
use shaktool::error::Error;
use shaktool::record::Record;
use shaktool::runner::Runner;
use shaktool::text::{chars_of, fold_ascii, nat_text, parse_digits, parse_i32, str_eq, str_eq_nocase};

fn record_with_times(realtime: i32, gametime: i32) -> Record {
    let runner = Runner::new(String::from("r"), String::new(), String::new(), 1);
    Record::new(
        0,
        String::new(),
        &runner,
        Category::AnyPercent,
        Region::NTSC,
        realtime,
        gametime,
        String::new(),
        String::new(),
        1,
    )
}

#[test]
fn str_eq_compares_all_characters() {
    assert!(str_eq("", ""));
    assert!(str_eq("any%", "any%"));
    assert!(!str_eq("any%", "any"));
    assert!(!str_eq("any", "any%"));
    assert!(!str_eq("any%", "Any%"));
    assert!(!str_eq("abc", "abd"));
    assert!(str_eq("héllo", "héllo"));
    assert!(!str_eq("héllo", "hello"));
}

#[test]
fn chars_of_keeps_order() {
    assert_eq!(chars_of(""), Vec::<char>::new());
    assert_eq!(chars_of("a:é"), vec!['a', ':', 'é']);
}

#[test]
fn fold_ascii_folds_only_ascii_capitals() {
    assert_eq!(fold_ascii('A'), 'a');
    assert_eq!(fold_ascii('Z'), 'z');
    assert_eq!(fold_ascii('a'), 'a');
    assert_eq!(fold_ascii('@'), '@');
    assert_eq!(fold_ascii('['), '[');
    assert_eq!(fold_ascii('0'), '0');
    assert_eq!(fold_ascii('É'), 'É');
}

#[test]
fn str_eq_nocase_ignores_ascii_case_only() {
    assert!(str_eq_nocase("Total", "total"));
    assert!(str_eq_nocase("TOTAL", "tOtAl"));
    assert!(str_eq_nocase("", ""));
    assert!(str_eq_nocase("a1_b", "A1_B"));
    assert!(!str_eq_nocase("total", "totals"));
    assert!(!str_eq_nocase("total", "totol"));
    assert!(!str_eq_nocase("É", "é"));
    assert!(str_eq_nocase("é", "é"));
    assert!(!str_eq_nocase("@", "`"));
    assert!(!str_eq_nocase("[", "{"));
}

#[test]
fn parse_i32_reads_signed_decimals() {
    assert_eq!(parse_i32("0"), Some(0));
    assert_eq!(parse_i32("42"), Some(42));
    assert_eq!(parse_i32("007"), Some(7));
    assert_eq!(parse_i32("-5"), Some(-5));
    assert_eq!(parse_i32("+5"), Some(5));
    assert_eq!(parse_i32("-0"), Some(0));
    assert_eq!(parse_i32("2147483647"), Some(i32::MAX));
    assert_eq!(parse_i32("-2147483648"), Some(i32::MIN));
    assert_eq!(parse_i32("0000000000000000000001"), Some(1));
}

#[test]
fn parse_i32_refuses_everything_else() {
    for text in ["", "-", "+", "--1", "+-1", "1a", "a1", " 1", "1 ", "1.0", "2147483648", "-2147483649", "99999999999999999999", "١"] {
        assert_eq!(parse_i32(text), None, "{:?}", text);
    }
}

#[test]
fn parse_i32_agrees_with_std() {
    for text in ["12", "-12", "+12", "", "x", "2147483647", "2147483648", "-2147483648", "-2147483649", "00", "-00012"] {
        assert_eq!(parse_i32(text), text.parse::<i32>().ok(), "{:?}", text);
    }
}

#[test]
fn parse_digits_reads_from_a_position_up_to_a_limit() {
    let chars: Vec<char> = "ab123".chars().collect();
    assert_eq!(parse_digits(&chars, 2, 1000), Some(123));
    assert_eq!(parse_digits(&chars, 2, 123), Some(123));
    assert_eq!(parse_digits(&chars, 2, 122), None);
    assert_eq!(parse_digits(&chars, 1, 1000), None);
    assert_eq!(parse_digits(&chars, 5, 1000), None);
    assert_eq!(parse_digits(&chars, 4, 1000), Some(3));
}

#[test]
fn nat_text_writes_decimals() {
    assert_eq!(nat_text(0), "0");
    assert_eq!(nat_text(9), "9");
    assert_eq!(nat_text(10), "10");
    assert_eq!(nat_text(1905), "1905");
    assert_eq!(nat_text(u32::MAX), "4294967295");
}

#[test]
fn nat_text_and_parse_i32_round_trip() {
    for n in [0u32, 1, 9, 10, 99, 100, 12345, 2147483647] {
        assert_eq!(parse_i32(&nat_text(n)), Some(n as i32));
    }
}

#[test]
fn convert_dt_time_minutes_and_seconds() {
    assert_eq!(Record::convert_dt_time(&Some(String::from("59:59"))), Ok(3599));
    assert_eq!(Record::convert_dt_time(&Some(String::from("00:00"))), Ok(0));
    assert_eq!(Record::convert_dt_time(&Some(String::from("1:5"))), Ok(65));
    assert_eq!(Record::convert_dt_time(&Some(String::from("41:22"))), Ok(41 * 60 + 22));
    assert_eq!(Record::convert_dt_time(&Some(String::from("90:75"))), Ok(90 * 60 + 75));
}

#[test]
fn convert_dt_time_hours_minutes_and_seconds() {
    assert_eq!(Record::convert_dt_time(&Some(String::from("1:00:00"))), Ok(3600));
    assert_eq!(Record::convert_dt_time(&Some(String::from("1:23:45"))), Ok(3600 + 23 * 60 + 45));
    assert_eq!(Record::convert_dt_time(&Some(String::from("0:00:01"))), Ok(1));
    assert_eq!(Record::convert_dt_time(&Some(String::from("10:00:00"))), Ok(36000));
}

#[test]
fn convert_dt_time_without_a_string_is_zero() {
    assert_eq!(Record::convert_dt_time(&None), Ok(0));
}

#[test]
fn convert_dt_time_refuses_what_is_no_time() {
    for text in ["", "1", "59", ":", "::", "1:", ":1", "1::2", "1:2:3:4", "a:b", "1:0x", "-1:00", "+1:00", "1:00 ", " 1:00", "1.5:00", "1:2:"] {
        assert_eq!(
            Record::convert_dt_time(&Some(String::from(text))),
            Err(Error::InvalidData),
            "{:?}",
            text
        );
    }
}

#[test]
fn convert_dt_time_refuses_what_does_not_fit() {
    assert_eq!(Record::convert_dt_time(&Some(String::from("35791394:07"))), Ok(i32::MAX));
    assert_eq!(
        Record::convert_dt_time(&Some(String::from("35791394:08"))),
        Err(Error::InvalidData)
    );
    assert_eq!(Record::convert_dt_time(&Some(String::from("0:2147483647"))), Ok(i32::MAX));
    assert_eq!(
        Record::convert_dt_time(&Some(String::from("0:2147483648"))),
        Err(Error::InvalidData)
    );
    assert_eq!(
        Record::convert_dt_time(&Some(String::from("596523:14:08"))),
        Err(Error::InvalidData)
    );
    assert_eq!(Record::convert_dt_time(&Some(String::from("596523:14:07"))), Ok(i32::MAX));
    assert_eq!(
        Record::convert_dt_time(&Some(String::from("99999999999999999999:00"))),
        Err(Error::InvalidData)
    );
}

#[test]
fn times_below_an_hour_show_minutes_and_seconds() {
    assert_eq!(record_with_times(0, 0).realtime_str(), "00:00");
    assert_eq!(record_with_times(59, 0).realtime_str(), "00:59");
    assert_eq!(record_with_times(60, 0).realtime_str(), "01:00");
    assert_eq!(record_with_times(3599, 0).realtime_str(), "59:59");
    assert_eq!(record_with_times(41 * 60 + 22, 0).realtime_str(), "41:22");
}

#[test]
fn times_from_an_hour_on_show_hours_without_padding() {
    assert_eq!(record_with_times(3600, 0).realtime_str(), "1:00:00");
    assert_eq!(record_with_times(3600 + 23 * 60 + 45, 0).realtime_str(), "1:23:45");
    assert_eq!(record_with_times(36000, 0).realtime_str(), "10:00:00");
    assert_eq!(record_with_times(86399, 0).realtime_str(), "23:59:59");
}

#[test]
fn gametime_str_shows_the_game_time() {
    let record = record_with_times(3600, 35 * 60);
    assert_eq!(record.gametime_str(), "35:00");
    assert_eq!(record.realtime_str(), "1:00:00");
    assert_eq!(record_with_times(0, 2 * 3600 + 60).gametime_str(), "2:01:00");
}

#[test]
fn times_of_a_day_or_more_start_again_as_on_a_clock() {
    assert_eq!(record_with_times(86400, 0).realtime_str(), "0:00:00");
    assert_eq!(record_with_times(90000, 0).realtime_str(), "1:00:00");
    assert_eq!(record_with_times(86400 + 13 * 3600 + 62, 0).realtime_str(), "13:01:02");
    assert_eq!(record_with_times(i32::MAX, 0).realtime_str(), "3:14:07");
}

#[test]
fn shown_times_agree_with_plain_arithmetic() {
    for seconds in [0, 1, 59, 60, 61, 599, 600, 3599, 3600, 3601, 35999, 36000, 86399, 86400, 123456] {
        let (h, m, s) = ((seconds / 3600) % 24, (seconds / 60) % 60, seconds % 60);
        let expected = if seconds >= 3600 {
            format!("{}:{:02}:{:02}", h, m, s)
        } else {
            format!("{:02}:{:02}", m, s)
        };
        assert_eq!(record_with_times(seconds, seconds).realtime_str(), expected);
        assert_eq!(record_with_times(seconds, seconds).gametime_str(), expected);
    }
}
