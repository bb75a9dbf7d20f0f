//! Message grammar behaviour: format selection and the exact
//! header/body split.
use syslog_stream::protocol::rfc3164;
use syslog_stream::protocol::rfc5424;
use syslog_stream::protocol::{single_parse, Msg};

#[test]
fn protocol_mod_test_1() {
    let msg = "<11>1 2023-09-07T09:45:08.899092Z localhost <90>myprogram5424 42 1545121 - tcp 传输 syslog";
    let value = single_parse(msg).unwrap();
    let expected_msg = "tcp 传输 syslog";
    assert_eq!(
        value,
        Msg {
            header: "<11>1 2023-09-07T09:45:08.899092Z localhost <90>myprogram5424 42 1545121 - "
                .to_string(),
            msg: expected_msg.to_string(),
        }
    );
}

#[test]
fn rfc5424_test_1() {
    let msg = "<34>1 2003-10-11T22:14:15.003Z mymachine.example.com su - ID47 - BOM'su root' failed for lonvick on /dev/pts/8";
    let value = rfc5424::parse(msg).unwrap();
    let expected_msg = "BOM'su root' failed for lonvick on /dev/pts/8";
    assert_eq!(
        value,
        Msg {
            header: "<34>1 2003-10-11T22:14:15.003Z mymachine.example.com su - ID47 - "
                .to_string(),
            msg: expected_msg.to_string(),
        }
    );
}

#[test]
fn rfc5424_test_2() {
    let msg = "<165>1 2003-08-24T05:14:15.000003-07:00 192.0.2.1 myproc 8710 - - %% It's time to make the do-nuts";
    let value = rfc5424::parse(msg).unwrap();
    let expected_msg = "%% It's time to make the do-nuts";
    assert_eq!(
        value,
        Msg {
            header: "<165>1 2003-08-24T05:14:15.000003-07:00 192.0.2.1 myproc 8710 - - "
                .to_string(),
            msg: expected_msg.to_string(),
        }
    );
}

#[test]
fn rfc5424_test_3() {
    let msg = r#"<165>1 2003-10-11T22:14:15.003Z mymachine.example.com evntslog - ID47 [exampleSDID@32473 iut="3" eventSource="Application" eventID="1011"] BOMAn application event log entry"#;
    let value = rfc5424::parse(msg).unwrap();
    let expected_msg = "BOMAn application event log entry";
    assert_eq!(
        value,
        Msg {
            header: r#"<165>1 2003-10-11T22:14:15.003Z mymachine.example.com evntslog - ID47 [exampleSDID@32473 iut="3" eventSource="Application" eventID="1011"] "#.to_string(),
            msg: expected_msg.to_string(),
        }
    );
}

#[test]
fn rfc5424_test_4() {
    let msg = r#"<165>1 2003-10-11T22:14:15.003Z mymachine.example.com evntslog - ID47 [exampleSDID@32473 iut="3" eventSource="Application" eventID="1011"][examplePriority@32473 class="high"]"#;
    let value = rfc5424::parse(msg).unwrap();
    let expected_msg = "";
    assert_eq!(
        value,
        Msg {
            header: r#"<165>1 2003-10-11T22:14:15.003Z mymachine.example.com evntslog - ID47 [exampleSDID@32473 iut="3" eventSource="Application" eventID="1011"][examplePriority@32473 class="high"]"#.to_string(),
            msg: expected_msg.to_string(),
        }
    );
}

#[test]
fn legacy_header_keeps_separators() {
    let msg = "<34>Oct 11 22:14:15 mymachine su: 'su root' failed";
    let value = rfc3164::parse(msg).unwrap();
    assert_eq!(format!("{}{}", value.header, value.msg), msg);
    assert_eq!(value.header, "<34>Oct 11 22:14:15 mymachine su: ");
    assert_eq!(value.msg, "'su root' failed");
}

#[test]
fn header_and_body_reconstruct_input() {
    let samples = [
        "<34>1 2003-10-11T22:14:15.003Z mymachine.example.com su - ID47 - BOM'su root' failed",
        "<165>1 2003-08-24T05:14:15.000003-07:00 192.0.2.1 myproc 8710 - - %% It's time",
        r#"<165>1 2003-10-11T22:14:15.003Z host evntslog - ID47 [x@1 k="v"] body"#,
        "<34>Oct 11 22:14:15 mymachine su: 'su root' failed",
        "<13>JAN 15 2023 20:00:32 somehost sometag: - trailing text",
        "<46>1    2023-09-13T15:39:43.346956Z localhost dygen 60458 901 - hello world",
    ];
    for msg in samples {
        let m = single_parse(msg).unwrap();
        assert_eq!(format!("{}{}", m.header, m.msg), msg);
    }
}

#[test]
fn neither_format_matches() {
    assert!(single_parse("no priority here").is_none());
    assert!(single_parse("<34>not a timestamp").is_none());
    assert!(single_parse("<999>1 2003-10-11T22:14:15.003Z h a - - - x").is_none());
}
