use logger_request::config::{wrap, Command, DecodeError, Field, LoggerConfig, LoggerLevel};
use logger_request::decode::decode_payload;
use logger_request::metrics::Metrics;
use logger_request::translate::translate;

fn config(
    log_path: &str,
    level: LoggerLevel,
    show_level: bool,
    show_log_origin: bool,
    show_thread_name: bool,
) -> LoggerConfig {
    LoggerConfig {
        log_path: log_path.as_bytes().to_vec(),
        level,
        show_level,
        show_log_origin,
        show_thread_name,
    }
}

#[test]
fn test_parse_put_logger_request() {
    let mut metrics = Metrics::new();

    let mut body = r#"{
                "log_path": "log",
                "level": "Warning",
                "show_level": false,
                "show_log_origin": false,
                "show_thread_name": false
              }"#;

    let mut expected_cfg = config("log", LoggerLevel::Warning, false, false, false);
    match translate(&mut metrics, body.as_bytes()).unwrap() {
        Command::ConfigureLogger(cfg) => assert_eq!(cfg, expected_cfg),
    }

    body = r#"{
                "log_path": "log",
                "level": "DEBUG",
                "show_level": false,
                "show_log_origin": false,
                "show_thread_name": false
              }"#;

    expected_cfg = config("log", LoggerLevel::Debug, false, false, false);
    match translate(&mut metrics, body.as_bytes()).unwrap() {
        Command::ConfigureLogger(cfg) => assert_eq!(cfg, expected_cfg),
    }

    let invalid_body = r#"{
                "invalid_field": "log",
                "level": "Warning",
                "show_level": false,
                "show_log_origin": false,
                "show_thread_name": false
              }"#;

    assert!(translate(&mut metrics, invalid_body.as_bytes()).is_err());
}

#[test]
fn compact_payload_decodes_field_by_field() {
    let mut metrics = Metrics::new();
    let body =
        r#"{"log_path":"log","level":"Warning","show_level":false,"show_log_origin":false,"show_thread_name":false}"#;
    let cmd = translate(&mut metrics, body.as_bytes()).unwrap();
    let Command::ConfigureLogger(cfg) = cmd;
    assert_eq!(cfg.log_path, b"log".to_vec());
    assert_eq!(cfg.level, LoggerLevel::Warning);
    assert!(!cfg.show_level);
    assert!(!cfg.show_log_origin);
    assert!(!cfg.show_thread_name);
}

#[test]
fn level_names_match_case_insensitively() {
    for (spelling, level) in [
        ("Error", LoggerLevel::Error),
        ("ERROR", LoggerLevel::Error),
        ("error", LoggerLevel::Error),
        ("Warning", LoggerLevel::Warning),
        ("wArNiNg", LoggerLevel::Warning),
        ("Info", LoggerLevel::Info),
        ("INFO", LoggerLevel::Info),
        ("Debug", LoggerLevel::Debug),
        ("DEBUG", LoggerLevel::Debug),
    ] {
        let body = format!(
            r#"{{"log_path":"log","level":"{}","show_level":true,"show_log_origin":true,"show_thread_name":true}}"#,
            spelling
        );
        let cfg = decode_payload(body.as_bytes()).unwrap();
        assert_eq!(cfg.level, level);
    }
}

#[test]
fn unknown_field_is_rejected_with_its_name() {
    let mut metrics = Metrics::new();
    let body = r#"{"invalid_field":"log","level":"Warning","show_level":false,"show_log_origin":false,"show_thread_name":false}"#;
    let err = translate(&mut metrics, body.as_bytes()).unwrap_err();
    assert_eq!(err, DecodeError::UnknownField(b"invalid_field".to_vec()));
}

#[test]
fn unknown_field_after_valid_members_is_still_rejected() {
    let body = r#"{"log_path":"log","bogus":1,"level":"Warning","show_level":false,"show_log_origin":false,"show_thread_name":false}"#;
    assert_eq!(
        decode_payload(body.as_bytes()).unwrap_err(),
        DecodeError::UnknownField(b"bogus".to_vec())
    );
}

#[test]
fn missing_fields_are_reported_in_declaration_order() {
    let body = r#"{"level":"Warning","show_level":false,"show_log_origin":false,"show_thread_name":false}"#;
    assert_eq!(
        decode_payload(body.as_bytes()).unwrap_err(),
        DecodeError::MissingField(Field::LogPath)
    );

    let body = r#"{"log_path":"log","show_level":false,"show_log_origin":false,"show_thread_name":false}"#;
    assert_eq!(
        decode_payload(body.as_bytes()).unwrap_err(),
        DecodeError::MissingField(Field::Level)
    );

    let body = r#"{"log_path":"log","level":"Warning","show_log_origin":false,"show_thread_name":false}"#;
    assert_eq!(
        decode_payload(body.as_bytes()).unwrap_err(),
        DecodeError::MissingField(Field::ShowLevel)
    );

    assert_eq!(
        decode_payload(b"{}"),
        Err(DecodeError::MissingField(Field::LogPath))
    );
    assert_eq!(
        decode_payload(b"  { \t }  "),
        Err(DecodeError::MissingField(Field::LogPath))
    );
}

#[test]
fn wrong_value_types_are_type_mismatches() {
    let body = r#"{"log_path":true,"level":"Warning","show_level":false,"show_log_origin":false,"show_thread_name":false}"#;
    assert_eq!(
        decode_payload(body.as_bytes()).unwrap_err(),
        DecodeError::TypeMismatch(Field::LogPath)
    );

    let body = r#"{"log_path":"log","level":7,"show_level":false,"show_log_origin":false,"show_thread_name":false}"#;
    assert_eq!(
        decode_payload(body.as_bytes()).unwrap_err(),
        DecodeError::TypeMismatch(Field::Level)
    );

    let body = r#"{"log_path":"log","level":"Warning","show_level":"false","show_log_origin":false,"show_thread_name":false}"#;
    assert_eq!(
        decode_payload(body.as_bytes()).unwrap_err(),
        DecodeError::TypeMismatch(Field::ShowLevel)
    );
}

#[test]
fn out_of_domain_level_is_an_invalid_enum_value() {
    let body = r#"{"log_path":"log","level":"Verbose","show_level":false,"show_log_origin":false,"show_thread_name":false}"#;
    assert_eq!(
        decode_payload(body.as_bytes()).unwrap_err(),
        DecodeError::InvalidEnumValue(b"Verbose".to_vec())
    );
}

#[test]
fn repeated_fields_are_duplicates() {
    let body = r#"{"log_path":"a","log_path":"b","level":"Warning","show_level":false,"show_log_origin":false,"show_thread_name":false}"#;
    assert_eq!(
        decode_payload(body.as_bytes()).unwrap_err(),
        DecodeError::DuplicateField(Field::LogPath)
    );
}

#[test]
fn malformed_payloads_are_syntax_errors() {
    for body in [
        &b""[..],
        b"   ",
        b"5",
        b"[]",
        b"{",
        br#"{"log_path""#,
        br#"{"log_path" "log"}"#,
        br#"{"log_path":"log""#,
        br#"{"log_path":"log",}"#,
        br#"{"log_path":@}"#,
        br#"{"log_path":"a\qb"}"#,
        b"{\"log_path\":\"a\x01b\"}",
        br#"{"log_path":"log","level":"Warning","show_level":false,"show_log_origin":false,"show_thread_name":false} x"#,
        br#"{"log_path":"log","level":"Warning","show_level":false,"show_log_origin":false,"show_thread_name":false}}"#,
    ] {
        assert_eq!(decode_payload(body), Err(DecodeError::Syntax));
    }
}

#[test]
fn string_escapes_decode_to_their_bytes() {
    let body = br#"{"log_path":"a\"b\\c\/d\be\ff\ng\rh\ti","level":"Info","show_level":true,"show_log_origin":false,"show_thread_name":true}"#;
    let cfg = decode_payload(body).unwrap();
    assert_eq!(
        cfg.log_path,
        b"a\"b\\c/d\x08e\x0cf\ng\rh\ti".to_vec()
    );
    assert_eq!(cfg.level, LoggerLevel::Info);
    assert!(cfg.show_level);
    assert!(!cfg.show_log_origin);
    assert!(cfg.show_thread_name);
}

#[test]
fn whitespace_around_tokens_is_ignored() {
    let body = " \t\r\n{ \"log_path\" : \"log\" ,\n\"level\"\t:\t\"Error\" , \"show_level\" : true , \"show_log_origin\" : false , \"show_thread_name\" : true } \n ";
    let cfg = decode_payload(body.as_bytes()).unwrap();
    assert_eq!(cfg, config("log", LoggerLevel::Error, true, false, true));
}

#[test]
fn fields_may_come_in_any_order() {
    let body = r#"{"show_thread_name":true,"level":"Debug","show_log_origin":true,"log_path":"p","show_level":false}"#;
    let cfg = decode_payload(body.as_bytes()).unwrap();
    assert_eq!(cfg, config("p", LoggerLevel::Debug, false, true, true));
}

#[test]
fn counters_fire_exactly_once_per_request() {
    let mut metrics = Metrics::new();
    let good =
        r#"{"log_path":"log","level":"Info","show_level":true,"show_log_origin":true,"show_thread_name":true}"#;
    let bad = r#"{"log_path":false}"#;

    assert!(translate(&mut metrics, good.as_bytes()).is_ok());
    assert_eq!(metrics.seen, 1);
    assert_eq!(metrics.failed, 0);

    assert!(translate(&mut metrics, bad.as_bytes()).is_err());
    assert_eq!(metrics.seen, 2);
    assert_eq!(metrics.failed, 1);

    assert!(translate(&mut metrics, bad.as_bytes()).is_err());
    assert_eq!(metrics.seen, 3);
    assert_eq!(metrics.failed, 2);

    assert!(translate(&mut metrics, good.as_bytes()).is_ok());
    assert_eq!(metrics.seen, 4);
    assert_eq!(metrics.failed, 2);
}

#[test]
fn identical_payloads_translate_identically() {
    let body =
        r#"{"log_path":"log","level":"Debug","show_level":true,"show_log_origin":false,"show_thread_name":false}"#;
    let mut first = Metrics::new();
    let mut second = Metrics::new();
    let a = translate(&mut first, body.as_bytes());
    let b = translate(&mut second, body.as_bytes());
    assert_eq!(a, b);

    let bad = r#"{"level":"nope"}"#;
    let c = translate(&mut first, bad.as_bytes());
    let d = translate(&mut second, bad.as_bytes());
    assert_eq!(c, d);
}

#[test]
fn wrap_tags_a_configuration_unchanged() {
    let cfg = config("log", LoggerLevel::Error, true, true, false);
    let Command::ConfigureLogger(inner) = wrap(cfg.clone());
    assert_eq!(inner, cfg);
}
