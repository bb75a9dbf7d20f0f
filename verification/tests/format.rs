//! Field grammar behaviour: tokens, priority, version, timestamps and
//! structured data.
use syslog_stream::error::{ErrorKind, SyslogParseError};
use syslog_stream::format::appname::appname;
use syslog_stream::format::hostname::hostname;
use syslog_stream::format::pri::{decompose_pri, pri};
use syslog_stream::format::procid::procid;
use syslog_stream::format::structured_data::structured_data;
use syslog_stream::format::timestamp::{parse_month, timestamp_3164, timestamp_3339};
use syslog_stream::format::version::version;

#[test]
fn test_appname() {
    let value = appname("syslog").unwrap();
    assert_eq!(value, ("".to_string(), Some("syslog".to_string())));
}

#[test]
fn test_hostname() {
    assert_eq!(
        hostname("198.128.24.221 ").unwrap(),
        (" ".to_string(), Some("198.128.24.221".to_string()))
    );
}

#[test]
fn mod_test_1() {
    let val = r#"1 2003-10-11T22:14:15.003Z mymachine.example.com su - ID47 - BOM'su root' failed for lonvick on /dev/pts/8"#;
    let d = version(val).unwrap();
    println!("{:?}", d);

    let d1 = version(val).unwrap();
    println!("{:?}", d1);
}

#[test]
fn parse_pri() {
    assert_eq!(pri("<165>").unwrap(), ("".to_string(), "<165>".to_string())); // 20 * 8 + 5
    assert_eq!(pri("<193>").is_err(), true); // 24 * 8 + 1
    assert_eq!(pri("<190>").unwrap(), ("".to_string(), "<190>".to_string()));
    assert_eq!(pri("<0>").unwrap(), ("".to_string(), "<0>".to_string()));
}

#[test]
fn test_procid() {
    let val = "- ID47 - BOM'su root' failed for lonvick on /dev/pts/8";
    let resp = procid(val).unwrap();
    println!("{:?}", resp);
}

#[test]
fn test_structured_data() {
    let data = r#"[exampleSDID@32473 iut="3" eventSource="Application" eventID="1011"]"#;
    let value = structured_data(data).unwrap();
    assert_eq!(data, value.1);

    let data = r#"[exampleSDID@32473 iut="3" eventSource="Application" eventID="1011"][examplePriority@32473 class="high"]"#;
    let value = structured_data(data).unwrap();
    assert_eq!(data, value.1);
}

#[test]
fn test_timestamp() {
    let resp = timestamp_3339("1985-04-12T23:20:50.52Z ").unwrap();
    assert_eq!(resp, (" ".to_string(), "1985-04-12T23:20:50.52Z".to_string()));

    let resp = timestamp_3339("1985-04-12T19:20:50.52-04:00 ").unwrap();
    assert_eq!(resp, (" ".to_string(), "1985-04-12T19:20:50.52-04:00".to_string()));

    let resp = timestamp_3339("2003-10-11T22:14:15.003Z ").unwrap();
    assert_eq!(resp, (" ".to_string(), "2003-10-11T22:14:15.003Z".to_string()));

    let resp = timestamp_3339("2003-08-24T05:14:15.000003-07:00 ").unwrap();
    assert_eq!(resp, (" ".to_string(), "2003-08-24T05:14:15.000003-07:00".to_string()));

    let resp = timestamp_3339("2003-08-24T05:14:15.000000003-07:00 ").unwrap();
    assert_eq!(
        resp,
        (" ".to_string(), "2003-08-24T05:14:15.000000003-07:00".to_string())
    );
}

#[test]
fn test_timestamp_3164() {
    let t = r#"JAN 15 20:00:32 "#;
    let resp = timestamp_3164(t).unwrap();
    assert_eq!(resp, (" ".to_string(), "JAN 15 20:00:32".to_string()));

    let t = r#"JAN 15 2023 20:00:32 "#;
    let resp = timestamp_3164(t).unwrap();
    assert_eq!(resp, (" ".to_string(), "JAN 15 2023 20:00:32".to_string()));
}

#[test]
fn test_version() {
    assert_eq!(version("1").unwrap(), ("".to_string(), "1".to_string()));
}

#[test]
fn pri_round_trip_all_values() {
    for f in 0u16..24 {
        for s in 0u16..8 {
            let text = format!("<{}>", f * 8 + s);
            let (rest, matched) = pri(&text).unwrap();
            assert_eq!(rest, "");
            assert_eq!(matched, text);
        }
    }
    for f in 24u16..32 {
        for s in 0u16..8 {
            let text = format!("<{}>", f * 8 + s);
            assert!(pri(&text).is_err());
        }
    }
}

#[test]
fn pri_malformed() {
    assert_eq!(pri("165>"), Err(SyslogParseError::ParseError(ErrorKind::Pri)));
    assert!(pri("<>").is_err());
    assert!(pri("<1a>").is_err());
    assert_eq!(pri("<0165>").unwrap(), ("".to_string(), "<0165>".to_string()));
}

#[test]
fn decompose_pri_bounds() {
    assert_eq!(decompose_pri(0), Some(0));
    assert_eq!(decompose_pri(191), Some(191));
    assert_eq!(decompose_pri(192), None);
    assert_eq!(decompose_pri(255), None);
}

#[test]
fn month_names() {
    assert_eq!(parse_month("JAN").unwrap(), "JAN");
    assert_eq!(parse_month("sep").unwrap(), "sep");
    assert_eq!(parse_month("Dec").unwrap(), "Dec");
    assert!(parse_month("xyz").is_err());
    assert!(parse_month("JANU").is_err());
}

#[test]
fn timestamp_errors() {
    assert_eq!(
        timestamp_3339("not-a-time "),
        Err(SyslogParseError::TimeParseError)
    );
    assert_eq!(
        timestamp_3339("1985-04-12T23:20:50.52Z"),
        Err(SyslogParseError::TimeParseError)
    );
    assert_eq!(
        timestamp_3164("XXX 15 20:00:32 "),
        Err(SyslogParseError::ParseError(ErrorKind::Timestamp))
    );
}

#[test]
fn timestamp_3164_trailing_colon_kept() {
    let resp = timestamp_3164("JAN 15 20:00:32: rest").unwrap();
    assert_eq!(resp, (" rest".to_string(), "JAN 15 20:00:32:".to_string()));
}

#[test]
fn structured_data_forms() {
    assert_eq!(
        structured_data("- x").unwrap(),
        (" x".to_string(), "-".to_string())
    );
    let data = "[not well formed!] tail";
    assert_eq!(
        structured_data(data).unwrap(),
        (" tail".to_string(), "[not well formed!]".to_string())
    );
    let data = r#"[id k="a\"b"]"#;
    assert_eq!(structured_data(data).unwrap(), ("".to_string(), data.to_string()));
    assert!(structured_data("plain").is_none());
}

#[test]
fn token_rules() {
    assert_eq!(
        hostname(""),
        Err(SyslogParseError::ParseError(ErrorKind::Hostname))
    );
    assert_eq!(
        hostname(" lead"),
        Err(SyslogParseError::ParseError(ErrorKind::Hostname))
    );
    assert_eq!(
        hostname("a:b c").unwrap(),
        (":b c".to_string(), Some("a".to_string()))
    );
    assert_eq!(
        appname("a:b c").unwrap(),
        (" c".to_string(), Some("a:b".to_string()))
    );
}
