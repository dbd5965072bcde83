use rarch::config::{Config, Rule};
use rarch::engine::Engine;
use rarch::facts::{FileFacts, Timestamp};
use rarch::oracle::{match_reply, name_from_reply, value_from_reply};

#[test]
fn match_reply_reads_yes_in_any_case() {
    assert!(match_reply("YES"));
    assert!(match_reply("  yes, it is an invoice \n"));
    assert!(match_reply("Yes."));
    assert!(!match_reply("NO"));
    assert!(!match_reply(""));
    assert!(!match_reply("  nope "));
}

#[test]
fn name_from_reply_cleans_suggestion() {
    assert_eq!(name_from_reply("  annual report 2024.pdf \n", "scan.pdf"), "annual_report_2024");
    assert_eq!(name_from_reply("\"q3.summary.final.txt\"", "x.txt"), "q3_summary_final");
    assert_eq!(name_from_reply("**invoice-42**", "x.txt"), "invoice-42");
    assert_eq!(name_from_reply("发票_2024", "x.txt"), "发票_2024");
}

#[test]
fn name_from_reply_falls_back_to_stem() {
    assert_eq!(name_from_reply("   ", "scan_01.jpg"), "scan_01");
    assert_eq!(name_from_reply("'!?'", "notes.md"), "notes");
    assert_eq!(name_from_reply("'...'", "notes.md"), "__");
    assert_eq!(name_from_reply(".pdf", "README"), "README");
}

#[test]
fn value_from_reply_reads_extracted_value() {
    assert_eq!(value_from_reply("  ACME Corp \n"), Some("ACME Corp".to_string()));
    assert_eq!(value_from_reply("line one\nline two"), Some("line one line two".to_string()));
    assert_eq!(value_from_reply("UNKNOWN"), None);
    assert_eq!(value_from_reply("  UNKNOWN \n"), None);
    assert_eq!(value_from_reply("   "), None);
}

#[test]
fn dated_file_fills_year_and_month() {
    let engine = Engine::new(Config::default(), ".".to_string());
    let f = FileFacts {
        path: "test.txt".to_string(),
        file_name: "test.txt".to_string(),
        size: 0,
        prefix: None,
        modified: Some(Timestamp { secs: 1_700_000_000, nanos: 0 }),
    };
    let rule = Rule { target: "${year}-${month}".to_string(), ..Default::default() };
    let resolved = engine.resolve_placeholders(&rule, &f, None);
    assert_eq!(resolved, "2023-11");
    let rule = Rule { target: "archive/${year}".to_string(), ..Default::default() };
    assert_eq!(engine.resolve_target_path(&rule, &f, None), "./archive/2023/test.txt");
    let far = FileFacts { modified: Some(Timestamp { secs: i64::MAX, nanos: 0 }), ..f };
    let rule = Rule { target: "${year}-${month}".to_string(), ..Default::default() };
    assert_eq!(engine.resolve_placeholders(&rule, &far, None), "${year}-${month}");
}

#[test]
fn ai_name_wanted_only_with_oracle_and_placeholder() {
    let rule = Rule { name: "r".into(), target: "named/${ai_name}.${ext}".into(), ..Default::default() };
    let plain = Rule { name: "p".into(), target: "named/${name}".into(), ..Default::default() };
    let f = FileFacts {
        path: "/d/scan.pdf".to_string(),
        file_name: "scan.pdf".to_string(),
        size: 1,
        prefix: None,
        modified: None,
    };
    let with_oracle = Engine::new(
        Config { rules: vec![], ai_api_base: "http://localhost:1".into(), ai_model: "m".into() },
        "/d".to_string(),
    );
    assert!(with_oracle.wants_ai_name(&rule, &f));
    assert!(!with_oracle.wants_ai_name(&plain, &f));
    let without = Engine::new(Config::default(), "/d".to_string());
    assert!(!without.wants_ai_name(&rule, &f));
    assert_eq!(with_oracle.resolve_target_path(&rule, &f, Some("invoice".into())), "/d/named/invoice.pdf");
}
