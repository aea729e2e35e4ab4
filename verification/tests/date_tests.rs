use plugin_doro::date::{jd_to_ymd, today_string};

#[test]
fn epoch_julian_day() {
    assert_eq!(jd_to_ymd(2440588), (1970, 1, 1));
    assert_eq!(jd_to_ymd(2451545), (2000, 1, 1));
}

#[test]
fn dates_in_utc_plus_8() {
    assert_eq!(today_string(0), "1970-01-01");
    assert_eq!(today_string(16 * 3600 - 1), "1970-01-01");
    assert_eq!(today_string(16 * 3600), "1970-01-02");
    assert_eq!(today_string(1709136000), "2024-02-29");
    assert_eq!(today_string(1709135999), "2024-02-28");
    assert_eq!(today_string(1703980800 - 28800), "2023-12-31");
    assert_eq!(today_string(951868800 - 28800), "2000-03-01");
}

#[test]
fn same_day_same_date() {
    let start = 1709136000u64;
    assert_eq!(today_string(start), today_string(start + 86399));
    assert_ne!(today_string(start), today_string(start + 86400));
}

fn fliegel(jd: i64) -> (i64, u64, u64) {
    let l = jd + 68569;
    let n = 4 * l / 146097;
    let l = l - (146097 * n + 3) / 4;
    let i = 4000 * (l + 1) / 1461001;
    let l = l - 1461 * i / 4 + 31;
    let j = 80 * l / 2447;
    let d = l - 2447 * j / 80;
    let l = j / 11;
    let m = j + 2 - 12 * l;
    let y = 100 * (n - 49) + i + l;
    (y, m as u64, d as u64)
}

#[test]
fn negative_and_large_julian_days_follow_machine_arithmetic() {
    for jd in [-1i64, -68569, -68570, -1_000_000, -2_000_000_000_000, 0, 1721426, 1 << 40] {
        assert_eq!(jd_to_ymd(jd), fliegel(jd), "jd {}", jd);
    }
    assert_eq!(jd_to_ymd(1721426), (1, 1, 1));
}
