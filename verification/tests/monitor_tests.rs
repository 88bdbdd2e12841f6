use process_monitor::args::{process_command_line_args, scan_args, ArgsError, CommandLineArgs};
use process_monitor::clock::LocalTimeParts;
use process_monitor::codec::to_json_pretty;
use process_monitor::model::{Monitor, MonitorData, MonitorResult};
use process_monitor::parse::parse_monitor_data;
use process_monitor::snapshot::build_filename;
use process_monitor::supervisor::{Phase, Supervisor, LIFETIME_SECONDS};

fn record(name: &str, code: &str) -> Monitor {
    Monitor {
        name: name.to_string(),
        monitor_id: None,
        script: None,
        result: None,
        code: code.to_string(),
        monitor_type: None,
    }
}

fn full_record() -> Monitor {
    Monitor {
        name: "cpu \"load\"".to_string(),
        monitor_id: Some(7),
        script: Some("check\\all".to_string()),
        result: Some(MonitorResult { value: -42, processed_at: 1700000000 }),
        code: "c1\nline2".to_string(),
        monitor_type: Some("gauge".to_string()),
    }
}

#[test]
fn set_results_overwrites_every_record() {
    let mut data = MonitorData { monitors: vec![record("a", "x"), full_record()] };
    data.set_results(&vec![5, 7], 100);
    assert_eq!(data.monitors.len(), 2);
    assert_eq!(data.monitors[0].result, Some(MonitorResult { value: 5, processed_at: 100 }));
    assert_eq!(data.monitors[1].result, Some(MonitorResult { value: 7, processed_at: 100 }));
    assert_eq!(data.monitors[0].name, "a");
    assert_eq!(data.monitors[1].name, "cpu \"load\"");
    assert_eq!(data.monitors[1].monitor_id, Some(7));
    assert_eq!(data.monitors[1].script, Some("check\\all".to_string()));
    assert_eq!(data.monitors[1].code, "c1\nline2");
    assert_eq!(data.monitors[1].monitor_type, Some("gauge".to_string()));
}

#[test]
fn with_random_results_sets_every_record_with_one_timestamp() {
    let data = MonitorData { monitors: vec![record("a", "x"), record("b", "y"), full_record()] };
    let refreshed = data.with_random_results();
    assert_eq!(refreshed.monitors.len(), 3);
    let first_stamp = refreshed.monitors[0].result.as_ref().unwrap().processed_at;
    for m in &refreshed.monitors {
        let r = m.result.as_ref().unwrap();
        assert_eq!(r.processed_at, first_stamp);
    }
    assert_eq!(refreshed.monitors[0].name, "a");
    assert_eq!(refreshed.monitors[2].code, "c1\nline2");
}

#[test]
fn with_random_results_on_empty_set() {
    let data = MonitorData { monitors: vec![] };
    let refreshed = data.with_random_results();
    assert_eq!(refreshed.monitors.len(), 0);
}

#[test]
fn refresh_monotonic_across_cycles() {
    let mut data = MonitorData { monitors: vec![record("a", "x"), record("b", "y")] };
    data.set_results(&vec![1, 2], 50);
    let before: Vec<i64> = data
        .monitors
        .iter()
        .map(|m| m.result.as_ref().unwrap().processed_at)
        .collect();
    data.set_results(&vec![3, 4], 60);
    for (m, old) in data.monitors.iter().zip(before.iter()) {
        assert!(m.result.as_ref().unwrap().processed_at >= *old);
    }
}

#[test]
fn refresh_in_place_keeps_length_and_sets_results() {
    let mut data = MonitorData { monitors: vec![record("a", "x"), record("b", "y")] };
    process_monitor::model::refresh_in_place(&mut data);
    assert_eq!(data.monitors.len(), 2);
    assert!(data.monitors.iter().all(|m| m.result.is_some()));
}

#[test]
fn round_trip_empty_set() {
    let data = MonitorData { monitors: vec![] };
    let text = to_json_pretty(&data);
    let back = parse_monitor_data(&text).expect("round trip of the empty set");
    assert_eq!(back, data);
}

#[test]
fn round_trip_one_bare_record() {
    let data = MonitorData { monitors: vec![record("a", "x")] };
    let text = to_json_pretty(&data);
    let back = parse_monitor_data(&text).expect("round trip of one record");
    assert_eq!(back, data);
}

#[test]
fn round_trip_many_records_with_escapes_and_negatives() {
    let data = MonitorData {
        monitors: vec![
            record("a", "x"),
            full_record(),
            Monitor {
                name: "tab\there".to_string(),
                monitor_id: Some(u32::MAX),
                script: None,
                result: Some(MonitorResult { value: i32::MIN, processed_at: i64::MIN }),
                code: "cr\rend".to_string(),
                monitor_type: None,
            },
            Monitor {
                name: String::new(),
                monitor_id: Some(0),
                script: Some(String::new()),
                result: Some(MonitorResult { value: i32::MAX, processed_at: i64::MAX }),
                code: "k".to_string(),
                monitor_type: Some("t".to_string()),
            },
        ],
    };
    let text = to_json_pretty(&data);
    let back = parse_monitor_data(&text).expect("round trip of a mixed set");
    assert_eq!(back, data);
}

#[test]
fn serializer_exact_text_of_one_record() {
    let data = MonitorData {
        monitors: vec![Monitor {
            name: "a".to_string(),
            monitor_id: Some(3),
            script: None,
            result: Some(MonitorResult { value: -5, processed_at: 99 }),
            code: "b".to_string(),
            monitor_type: None,
        }],
    };
    let expected = "{\n  \"monitors\": [\n    {\n      \"name\": \"a\",\n      \"monitor_id\": 3,\n      \"script\": null,\n      \"result\": {\n        \"value\": -5,\n        \"processed_at\": 99\n      },\n      \"code\": \"b\",\n      \"type\": null\n    }\n  ]\n}";
    assert_eq!(to_json_pretty(&data), expected);
}

#[test]
fn serializer_exact_text_of_empty_set() {
    let data = MonitorData { monitors: vec![] };
    assert_eq!(to_json_pretty(&data), "{\n  \"monitors\": []\n}");
}

#[test]
fn parser_accepts_absent_optional_fields_and_any_order() {
    let text = "{ \"monitors\": [ { \"code\": \"x\", \"name\": \"a\" } ] }";
    let data = parse_monitor_data(text).expect("minimal record");
    assert_eq!(data.monitors.len(), 1);
    assert_eq!(data.monitors[0].name, "a");
    assert_eq!(data.monitors[0].code, "x");
    assert_eq!(data.monitors[0].monitor_id, None);
    assert_eq!(data.monitors[0].script, None);
    assert_eq!(data.monitors[0].result, None);
    assert_eq!(data.monitors[0].monitor_type, None);
}

#[test]
fn parser_rejects_garbage() {
    assert!(parse_monitor_data("not json at all").is_none());
    assert!(parse_monitor_data("").is_none());
    assert!(parse_monitor_data("{}").is_none());
    assert!(parse_monitor_data("{\"monitors\": }").is_none());
    assert!(parse_monitor_data("[1, 2, 3]").is_none());
}

#[test]
fn parser_rejects_missing_required_fields() {
    assert!(parse_monitor_data("{\"monitors\": [{\"name\": \"a\"}]}").is_none());
    assert!(parse_monitor_data("{\"monitors\": [{\"code\": \"x\"}]}").is_none());
    assert!(parse_monitor_data("{\"monitors\": [{}]}").is_none());
}

#[test]
fn parser_ignores_unknown_fields() {
    let data = parse_monitor_data(
        "{\"monitors\": [{\"name\": \"a\", \"code\": \"x\", \"other\": 1}]}",
    )
    .expect("unknown record field is ignored");
    assert_eq!(data.monitors[0].name, "a");
    assert_eq!(data.monitors[0].code, "x");
    let top = parse_monitor_data(
        "{\"extra\": {\"deep\": [1, \"s\", true, false, null, {}]}, \"monitors\": [], \"more\": [-3]}",
    )
    .expect("unknown top-level fields are ignored");
    assert_eq!(top.monitors.len(), 0);
    let res = parse_monitor_data(
        "{\"monitors\": [{\"name\": \"a\", \"code\": \"x\", \"result\": {\"note\": \"y\", \"value\": 4, \"processed_at\": 9}}]}",
    )
    .expect("unknown result field is ignored");
    assert_eq!(
        res.monitors[0].result,
        Some(MonitorResult { value: 4, processed_at: 9 })
    );
}

#[test]
fn parser_rejects_trailing_text_and_bad_unknown_values() {
    assert!(parse_monitor_data("{\"monitors\": []} trailing").is_none());
    assert!(parse_monitor_data("{\"monitors\": [], \"bad\": }").is_none());
    assert!(parse_monitor_data("{\"bad\": [1,}").is_none());
}

#[test]
fn parser_handles_standard_escapes() {
    let data = parse_monitor_data(
        "{\"monitors\": [{\"name\": \"A\\u0041\\/\\b\\f\\u00e9\", \"code\": \"\\ud83d\\ude00\"}]}",
    )
    .expect("standard escapes accepted");
    assert_eq!(data.monitors[0].name, "AA/\u{0008}\u{000C}\u{00e9}");
    assert_eq!(data.monitors[0].code, "\u{1F600}");
    assert!(parse_monitor_data("{\"monitors\": [{\"name\": \"\\ud83d\", \"code\": \"x\"}]}").is_none());
    assert!(parse_monitor_data("{\"monitors\": [{\"name\": \"\\u12g4\", \"code\": \"x\"}]}").is_none());
}

#[test]
fn serializer_escapes_control_characters() {
    let data = MonitorData {
        monitors: vec![Monitor {
            name: "a\u{0001}b\u{0008}c\u{000C}d\u{001F}".to_string(),
            monitor_id: None,
            script: None,
            result: None,
            code: "x".to_string(),
            monitor_type: None,
        }],
    };
    let text = to_json_pretty(&data);
    assert!(text.contains("a\\u0001b\\bc\\fd\\u001f"));
    let back = parse_monitor_data(&text).expect("control characters round trip");
    assert_eq!(back, data);
}

#[test]
fn parser_number_edges() {
    let ok = parse_monitor_data(
        "{\"monitors\": [{\"name\": \"a\", \"code\": \"x\", \"monitor_id\": 4294967295}]}",
    )
    .expect("largest id");
    assert_eq!(ok.monitors[0].monitor_id, Some(u32::MAX));
    assert!(parse_monitor_data(
        "{\"monitors\": [{\"name\": \"a\", \"code\": \"x\", \"monitor_id\": 4294967296}]}"
    )
    .is_none());
    let min = parse_monitor_data(
        "{\"monitors\": [{\"name\": \"a\", \"code\": \"x\", \"result\": {\"value\": -2147483648, \"processed_at\": -9223372036854775808}}]}",
    )
    .expect("smallest result");
    assert_eq!(min.monitors[0].result, Some(MonitorResult { value: i32::MIN, processed_at: i64::MIN }));
    assert!(parse_monitor_data(
        "{\"monitors\": [{\"name\": \"a\", \"code\": \"x\", \"result\": {\"value\": 2147483648, \"processed_at\": 0}}]}"
    )
    .is_none());
    assert!(parse_monitor_data(
        "{\"monitors\": [{\"name\": \"a\", \"code\": \"x\", \"monitor_id\": 12345678901234567890123}]}"
    )
    .is_none());
}

#[test]
fn parser_null_leaves_optional_fields_absent() {
    let data = parse_monitor_data(
        "{\"monitors\": [{\"name\": \"a\", \"monitor_id\": null, \"script\": null, \"result\": null, \"code\": \"x\", \"type\": null}]}",
    )
    .expect("nulls");
    let m = &data.monitors[0];
    assert_eq!(m.monitor_id, None);
    assert_eq!(m.script, None);
    assert_eq!(m.result, None);
    assert_eq!(m.monitor_type, None);
}

#[test]
fn snapshot_parses_with_results_after_refresh() {
    let mut data = MonitorData { monitors: vec![record("a", "x"), record("b", "y")] };
    process_monitor::model::refresh_in_place(&mut data);
    let snap = process_monitor::snapshot::prepare_snapshot(&data).expect("current year fits");
    let back = parse_monitor_data(&snap.contents).expect("snapshot parses");
    assert_eq!(back.monitors.len(), 2);
    assert!(back.monitors.iter().all(|m| m.result.is_some()));
    assert!(snap.filename.ends_with("_monitors.json"));
    assert_eq!(
        process_monitor::snapshot::build_filename(snap.taken_at).unwrap(),
        snap.filename
    );
}

#[test]
fn filename_exact_value() {
    let parts = LocalTimeParts { day: 7, month: 3, year: 2024, pm: false, hour12: 9, minute: 5 };
    assert_eq!(build_filename(parts).unwrap(), "07_03_2024_9-05am_monitors.json");
    let parts_pm = LocalTimeParts { day: 31, month: 12, year: 999, pm: true, hour12: 12, minute: 59 };
    assert_eq!(build_filename(parts_pm).unwrap(), "31_12_0999_12-59pm_monitors.json");
}

#[test]
fn filename_rejects_out_of_range_parts() {
    let parts = LocalTimeParts { day: 7, month: 3, year: 10000, pm: false, hour12: 9, minute: 5 };
    assert!(build_filename(parts).is_none());
    let parts0 = LocalTimeParts { day: 0, month: 3, year: 2024, pm: false, hour12: 9, minute: 5 };
    assert!(build_filename(parts0).is_none());
}

#[test]
fn filenames_one_period_apart_differ() {
    let a = LocalTimeParts { day: 7, month: 3, year: 2024, pm: false, hour12: 9, minute: 5 };
    let b = LocalTimeParts { day: 7, month: 3, year: 2024, pm: false, hour12: 9, minute: 6 };
    assert_ne!(build_filename(a).unwrap(), build_filename(b).unwrap());
}

#[test]
fn unknown_flag_falls_back_to_usage_path() {
    let args: Vec<String> = vec!["prog".to_string(), "-badFlag".to_string(), "x".to_string()];
    let parsed = process_command_line_args(&args);
    assert_eq!(parsed.monitor_file_path, None);
    assert_eq!(
        scan_args(&args),
        Err(ArgsError::UnknownOption("-badFlag".to_string()))
    );
}

#[test]
fn flag_missing_value_falls_back_to_usage_path() {
    let args: Vec<String> = vec!["prog".to_string(), "-monitorFile".to_string()];
    assert_eq!(process_command_line_args(&args).monitor_file_path, None);
    assert_eq!(scan_args(&args), Err(ArgsError::MissingValue));
}

#[test]
fn valid_flag_parses_path() {
    let args: Vec<String> = vec![
        "prog".to_string(),
        "-monitorFile".to_string(),
        "/tmp/m.json".to_string(),
    ];
    let parsed = process_command_line_args(&args);
    assert_eq!(parsed.monitor_file_path, Some("/tmp/m.json".to_string()));
}

#[test]
fn no_args_gives_empty_configuration() {
    let args: Vec<String> = vec!["prog".to_string()];
    assert_eq!(process_command_line_args(&args), CommandLineArgs::new());
}

#[test]
fn unparseable_input_starts_no_tasks() {
    let sup = Supervisor::new();
    assert_eq!(sup.phase, Phase::Idle);
    assert!(!sup.should_stop());
    assert!(parse_monitor_data("{broken").is_none());
}

#[test]
fn supervisor_lifecycle() {
    let mut sup = Supervisor::new();
    assert_eq!(sup.phase, Phase::Idle);
    sup.start(1000);
    assert_eq!(sup.phase, Phase::Running);
    assert!(!sup.should_stop());
    assert!(!sup.poll(1000 + LIFETIME_SECONDS - 1));
    assert_eq!(sup.phase, Phase::Running);
    assert!(sup.poll(1000 + LIFETIME_SECONDS));
    assert_eq!(sup.phase, Phase::Stopping);
    assert!(sup.should_stop());
    sup.tasks_joined();
    assert_eq!(sup.phase, Phase::Stopped);
    assert!(sup.should_stop());
}
