use aerodl::settings::{
    concurrency_limit, cookie_args, daily_update_due, day_number, day_text, parse_day, recorded_day,
    Settings,
};

#[test]
fn defaults() {
    let s = Settings::default();
    assert_eq!(s.max_concurrent, 3);
    assert_eq!(s.cookies_mode, "none");
    assert_eq!(s.cookies_file, "");
    assert_eq!(s.cookies_browser, "edge");
    assert!(!s.use_aria2c);
    assert_eq!(s.aria2c_connections, 16);
}

#[test]
fn concurrency_is_clamped() {
    let mut s = Settings::default();
    assert_eq!(concurrency_limit(&s), 3);
    s.max_concurrent = 0;
    assert_eq!(concurrency_limit(&s), 1);
    s.max_concurrent = 99;
    assert_eq!(concurrency_limit(&s), 10);
}

#[test]
fn cookies() {
    let mut s = Settings::default();
    assert!(cookie_args(&s, None).is_empty());
    s.cookies_mode = "file".to_string();
    s.cookies_file = " C:\\c.txt ".to_string();
    assert_eq!(cookie_args(&s, None), vec!["--cookies", "C:\\c.txt"]);
    s.cookies_file = "  ".to_string();
    assert!(cookie_args(&s, None).is_empty());
    s.cookies_mode = "browser".to_string();
    assert_eq!(cookie_args(&s, None), vec!["--cookies-from-browser", "edge"]);
    s.cookies_browser = "operagx".to_string();
    assert_eq!(cookie_args(&s, None), vec!["--cookies-from-browser", "opera"]);
    assert_eq!(
        cookie_args(&s, Some("C:\\Users\\u\\AppData\\Roaming".to_string())),
        vec!["--cookies-from-browser", "opera:C:\\Users\\u\\AppData\\Roaming\\Opera Software\\Opera GX Stable"]
    );
}

#[test]
fn day_is_read_back() {
    for d in [0i64, 19_000, -3, i64::MAX, i64::MIN] {
        assert_eq!(parse_day(&day_text(d)), d);
    }
    assert_eq!(day_text(20_123), "20123");
    assert_eq!(parse_day(" 42\n"), 42);
    assert_eq!(parse_day("+7"), 7);
    assert_eq!(parse_day("x"), 0);
    assert_eq!(parse_day(""), 0);
    assert_eq!(parse_day("99999999999999999999"), 0);
}

#[test]
fn day_numbers_truncate() {
    assert_eq!(day_number(0), 0);
    assert_eq!(day_number(86_399), 0);
    assert_eq!(day_number(86_400), 1);
    assert_eq!(day_number(1_700_000_000), 19_675);
    assert_eq!(day_number(-1), 0);
    assert_eq!(day_number(-86_400), -1);
    assert_eq!(day_number(-86_401), -1);
    assert_eq!(day_number(i64::MIN), i64::MIN / 86_400);
}

#[test]
fn daily_update_once_a_day() {
    let now = 1_700_000_000;
    assert!(daily_update_due(true, 0, now));
    assert!(!daily_update_due(false, 0, now));
    assert!(!daily_update_due(true, 19_675, now));
    let d = recorded_day(19_000, now, true);
    assert_eq!(d, 19_675);
    assert!(!daily_update_due(true, d, now + 60));
    assert_eq!(recorded_day(19_000, now, false), 19_000);
    assert!(daily_update_due(true, recorded_day(19_000, now, false), now + 60));
}
