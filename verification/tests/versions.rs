use dsh_launcher::clock::{now_stamp, parse_rfc3339_utc_secs, LocalTime};
use dsh_launcher::numbers::{decimal, number, padded};
use dsh_launcher::order::{comes_before, sort_by_name, sort_strings};
use dsh_launcher::util::now_epoch_secs;
use dsh_launcher::version::{check_versions, cmp_ver, extract_conf_version, newer, parse_semver};
use std::cmp::Ordering::{Equal, Greater, Less};

#[test]
fn extracts_top_level_version() {
    let conf = r#"{
  "$schema": "https://schema.tauri.app/config/2",
  "productName": "DSH-Launcher",
  "version": "1.3.0",
  "identifier": "com.dsh.launcher"
}"#;
    assert_eq!(extract_conf_version(conf).as_deref(), Some("1.3.0"));
    assert_eq!(extract_conf_version("{ }"), None);
    assert_eq!(extract_conf_version(r#"{"version": 3}"#), None);
}

#[test]
fn conf_version_edges() {
    assert_eq!(extract_conf_version("\"version\""), None);
    assert_eq!(extract_conf_version("\"version\":"), None);
    assert_eq!(extract_conf_version("\"version\": \"1.0"), None);
    assert_eq!(extract_conf_version("\"version\":\"\"").as_deref(), Some(""));
    assert_eq!(
        extract_conf_version("\"version\" \n:\n \"版本\" \"version\": \"2\"").as_deref(),
        Some("版本")
    );
}

#[test]
fn versions_must_agree() {
    assert_eq!(check_versions("1.3.0", &Some("1.3.0".to_string())), Ok(()));
    assert_eq!(
        check_versions("1.3.0", &Some("1.2.0".to_string())),
        Err("版本号不一致：Cargo.toml = 1.3.0，tauri.conf.json = 1.2.0（请同步后重新构建）".to_string())
    );
    assert_eq!(
        check_versions("1.3.0", &None),
        Err("tauri.conf.json 中未找到顶层 \"version\" 字段".to_string())
    );
}

#[test]
fn compares_semver_like_frontend() {
    assert_eq!(cmp_ver("1.10.0", "1.9.9"), Greater);
    assert_eq!(cmp_ver("0.12.2", "0.12.2"), Equal);
    assert_eq!(cmp_ver("1.2.3", "1.2.4"), Less);
    assert_eq!(cmp_ver("1.0.0-rc.1", "1.0.0"), Less);
    assert_eq!(cmp_ver("1.0.0", "1.0.0-alpha"), Greater);
    assert_eq!(cmp_ver("1.0.0-2", "1.0.0-10"), Less);
    assert_eq!(cmp_ver("1.0.0-alpha", "1.0.0-beta"), Less);
    assert_eq!(cmp_ver("1.0.0-alpha.1", "1.0.0-alpha"), Greater);
    assert_eq!(cmp_ver("0.1.5-rc.1", "0.1.5-alpha.2"), Greater);
    assert_eq!(cmp_ver("1.0.0+build.1", "1.0.0+build.2"), Equal);
    assert_eq!(cmp_ver("1.0.0+build", "1.0.0"), Equal);
    assert_eq!(cmp_ver("abc", "abc"), Equal);
    assert_eq!(cmp_ver("abc", "abd"), Less);
    assert_eq!(cmp_ver("", ""), Equal);
}

#[test]
fn version_parts() {
    assert_eq!(parse_semver(" 1.2.3 "), Some(([1, 2, 3], None)));
    assert_eq!(
        parse_semver("1.2.3-rc.1+b.2"),
        Some(([1, 2, 3], Some(vec!["rc".to_string(), "1".to_string()])))
    );
    assert_eq!(parse_semver("1.2.3+b-2"), Some(([1, 2, 3], None)));
    assert_eq!(parse_semver("+1.2.3"), None);
    assert_eq!(parse_semver("1.2"), None);
    assert_eq!(parse_semver("1.2.3.4"), None);
    assert_eq!(parse_semver("1.2.x"), None);
    assert_eq!(parse_semver("1.2.3-"), None);
    assert_eq!(parse_semver("1.2.3-+b"), None);
    assert_eq!(
        parse_semver("18446744073709551615.0.0"),
        Some(([u64::MAX, 0, 0], None))
    );
    assert_eq!(parse_semver("18446744073709551616.0.0"), None);
    assert_eq!(
        parse_semver("1.0.0-a..b"),
        Some((
            [1, 0, 0],
            Some(vec!["a".to_string(), String::new(), "b".to_string()])
        ))
    );
}

#[test]
fn version_order_laws_on_values() {
    let vs = ["0.9.9", "1.0.0-1", "1.0.0-alpha", "1.0.0-alpha.1", "1.0.0-beta", "1.0.0", "1.0.1"];
    for i in 0..vs.len() {
        for j in 0..vs.len() {
            assert_eq!(cmp_ver(vs[i], vs[j]), i.cmp(&j));
            assert_eq!(newer(vs[i], vs[j]), i > j);
        }
    }
    assert_eq!(cmp_ver("1.0.0-01", "1.0.0-1"), Equal);
    assert_eq!(cmp_ver("1.0.0-99999999999999999999", "1.0.0-5"), Greater);
}

#[test]
fn parses_registry_publish_timestamps() {
    assert_eq!(parse_rfc3339_utc_secs("1970-01-01T00:00:00Z"), Some(0));
    assert_eq!(
        parse_rfc3339_utc_secs("2000-01-01T00:00:00Z"),
        Some(946_684_800)
    );
    assert_eq!(
        parse_rfc3339_utc_secs("2026-09-10T06:53:19.720Z"),
        Some(1_789_023_199)
    );
    assert_eq!(
        parse_rfc3339_utc_secs("2024-02-29T12:00:00Z"),
        Some(1_709_208_000)
    );
    assert_eq!(
        parse_rfc3339_utc_secs("2025-12-31T23:59:59Z"),
        Some(1_767_225_599)
    );
}

#[test]
fn rejects_malformed_publish_timestamps() {
    for bad in [
        "",
        "2026-09-10",
        "2026/09/10T06:53:19Z",
        "2026-09-10T06:53:19",
        "2026-09-10T06:53:19.",
        "2026-09-10T06:53:19.Z",
        "2026-09-10T06:53:19+08:00",
        "2026-13-10T06:53:19Z",
        "2026-09-10T25:53:19Z",
        "2026-09-10T06-53-19Z",
        "abcd-09-10T06:53:19Z",
    ] {
        assert!(parse_rfc3339_utc_secs(bad).is_none(), "应拒绝：{}", bad);
    }
}

#[test]
fn timestamp_edges() {
    assert_eq!(parse_rfc3339_utc_secs("1969-12-31T23:59:59Z"), Some(-1));
    assert_eq!(
        parse_rfc3339_utc_secs("0000-01-01T00:00:00Z"),
        Some(-62_167_219_200)
    );
    assert_eq!(
        parse_rfc3339_utc_secs("9999-12-31T23:59:60Z"),
        Some(253_402_300_800)
    );
    // a day that does not exist counts on into the next month
    assert_eq!(
        parse_rfc3339_utc_secs("2023-02-31T00:00:00Z"),
        parse_rfc3339_utc_secs("2023-03-03T00:00:00Z")
    );
    assert_eq!(parse_rfc3339_utc_secs("2026-00-10T06:53:19Z"), None);
    assert_eq!(parse_rfc3339_utc_secs("2026-01-00T06:53:19Z"), None);
    assert_eq!(parse_rfc3339_utc_secs("2026-01-32T06:53:19Z"), None);
    assert_eq!(parse_rfc3339_utc_secs("2026-01-10T06:60:19Z"), None);
    assert_eq!(parse_rfc3339_utc_secs("2026-01-10T06:00:61Z"), None);
    assert_eq!(parse_rfc3339_utc_secs("2026-01-10T06:00:00.1xZ"), None);
    assert_eq!(parse_rfc3339_utc_secs("2026-01-10T06:00:00ZZ"), None);
    assert_eq!(parse_rfc3339_utc_secs("二026-01-10T06:00:00Z"), None);
}

#[test]
fn time_grows_over_leap_days() {
    let days = ["2023-12-31", "2024-01-01", "2024-02-28", "2024-02-29", "2024-03-01", "2100-02-28", "2100-03-01"];
    for w in days.windows(2) {
        let a = parse_rfc3339_utc_secs(&format!("{}T23:59:59Z", w[0])).unwrap();
        let b = parse_rfc3339_utc_secs(&format!("{}T00:00:00Z", w[1])).unwrap();
        assert!(a < b);
    }
    let a = parse_rfc3339_utc_secs("2100-02-28T00:00:00Z").unwrap();
    let b = parse_rfc3339_utc_secs("2100-03-01T00:00:00Z").unwrap();
    assert_eq!(b - a, 86_400);
}

fn at(year: u16, month: u16, day: u16, hour: u16, minute: u16, second: u16) -> LocalTime {
    LocalTime {
        year,
        month,
        day,
        hour,
        minute,
        second,
    }
}

#[test]
fn stamps_are_padded_and_in_order() {
    let a = now_stamp(&at(2026, 8, 6, 1, 3, 23));
    let b = now_stamp(&at(2026, 8, 6, 1, 30, 2));
    let c = now_stamp(&at(2026, 10, 1, 0, 0, 0));
    assert_eq!(a, "2026-08-06_010323");
    assert_eq!(b, "2026-08-06_013002");
    assert_eq!(c, "2026-10-01_000000");
    assert!(comes_before(&a, &b) && comes_before(&b, &c) && !comes_before(&c, &a));
}

#[test]
fn clock_seconds() {
    assert_eq!(now_epoch_secs(Some(1_789_023_199)), 1_789_023_199);
    assert_eq!(now_epoch_secs(None), 0);
}

#[test]
fn numbers_in_decimal() {
    assert_eq!(decimal(0), "0");
    assert_eq!(decimal(18_446_744_073_709_551_615), "18446744073709551615");
    assert_eq!(padded(7, 4), "0007");
    assert_eq!(padded(12345, 4), "12345");
    assert_eq!(number("+42", 100), Some(42));
    assert_eq!(number("0042", 42), Some(42));
    assert_eq!(number("43", 42), None);
    assert_eq!(number("", 42), None);
    assert_eq!(number("+", 42), None);
    assert_eq!(number("-1", 42), None);
    assert_eq!(number("4 2", 42), None);
    for n in [0u64, 9, 10, 99, 100, 12_345_678_901] {
        assert_eq!(number(&decimal(n), u64::MAX), Some(n));
    }
}

#[test]
fn texts_in_order() {
    assert!(comes_before("a", "ab"));
    assert!(comes_before("Z", "a"));
    assert!(comes_before("\u{ffff}", "\u{10000}"));
    assert!(!comes_before("a", "a"));
    let list = vec!["b".to_string(), "a".to_string(), "b".to_string(), String::new()];
    let mut expected = list.clone();
    expected.sort();
    assert_eq!(sort_strings(list), expected);
    let named = vec![("b".to_string(), 1), ("a".to_string(), 2), ("b".to_string(), 3)];
    assert_eq!(
        sort_by_name(named),
        vec![("a".to_string(), 2), ("b".to_string(), 1), ("b".to_string(), 3)]
    );
}

#[test]
fn later_texts_have_more_seconds() {
    let secs = |s: &str| parse_rfc3339_utc_secs(s).unwrap();
    assert!(secs("2023-12-31T23:59:59Z") < secs("2024-01-01T00:00:00Z"));
    assert_eq!(
        secs("2024-02-29T12:00:00Z") - secs("2024-02-28T12:00:00Z"),
        86400
    );
    assert_eq!(
        secs("2024-03-01T12:00:00Z") - secs("2024-02-29T12:00:00Z"),
        86400
    );
    assert_eq!(
        secs("2024-01-01T06:00:00Z") - secs("2023-12-31T06:00:00Z"),
        86400
    );
    assert_eq!(
        secs("2024-02-29T12:00:00.000123Z"),
        secs("2024-02-29T12:00:00Z")
    );
}
