use rarch::classify::{parse_age, RuleMatch};
use rarch::config::{Config, ConflictStrategy, Rule};
use rarch::engine::Engine;
use rarch::facts::{FileFacts, LocalDate, Timestamp};
use rarch::template::fill_placeholders;

fn file(dir: &str, name: &str, content: &[u8]) -> FileFacts {
    let n = content.len().min(128);
    FileFacts {
        path: format!("{}/{}", dir, name),
        file_name: name.to_string(),
        size: content.len() as u64,
        prefix: Some(content[..n].to_vec()),
        modified: None,
    }
}

fn engine_with(rules: Vec<Rule>) -> Engine {
    let config = Config { rules, ..Default::default() };
    Engine::new(config, "/data".to_string())
}

fn now() -> Timestamp {
    Timestamp { secs: 1_700_000_000, nanos: 0 }
}

#[test]
fn test_resolve_placeholders() {
    let config = Config::default();
    let engine = Engine::new(config, ".".to_string());
    let path = FileFacts {
        path: "test.txt".to_string(),
        file_name: "test.txt".to_string(),
        size: 0,
        prefix: None,
        modified: None,
    };

    let rule = Rule { target: "${ext}/${name}_copy".to_string(), ..Default::default() };
    let resolved = engine.resolve_placeholders(&rule, &path, None);
    assert_eq!(resolved, "txt/test_copy");

    let rule2 = Rule { target: "${year}-${month}".to_string(), ..Default::default() };
    let resolved = engine.resolve_placeholders(&rule2, &path, None);
    assert!(resolved.contains("${year}") || resolved.len() == 7);

    let rule3 = Rule { target: "backup/${filename}".to_string(), ..Default::default() };
    let resolved = engine.resolve_placeholders(&rule3, &path, None);
    assert_eq!(resolved, "backup/test.txt");
}

#[test]
fn test_match_rule_by_extension() {
    let rule = Rule {
        name: "test".into(),
        extensions: Some(vec!["rs".into()]),
        target: "src/".into(),
        ..Default::default()
    };
    let engine = engine_with(vec![rule]);

    let main_rs = file("/data", "main.rs", b"fn main() {}");
    let matched = engine.match_rule(&main_rs, now(), &vec![]);
    assert!(matches!(matched, RuleMatch::Matched(_)));
    if let RuleMatch::Matched(i) = matched {
        assert_eq!(engine.config.rules[i].name, "test");
    }

    let cargo = file("/data", "Cargo.toml", b"[package]");
    let no_match = engine.match_rule(&cargo, now(), &vec![]);
    assert!(no_match == RuleMatch::NoMatch);
}

#[test]
fn test_match_rule_by_mime() {
    let rule = Rule {
        name: "image_rule".into(),
        mime: Some("image/png".into()),
        target: "images/".into(),
        ..Default::default()
    };
    let engine = engine_with(vec![rule]);
    let png = file("/data", "test_image.png", &[0x89, 0x50, 0x4e, 0x47, 0x0d, 0x0a, 0x1a, 0x0a]);
    let matched = engine.match_rule(&png, now(), &vec![]);
    assert!(matches!(matched, RuleMatch::Matched(_)));
    if let RuleMatch::Matched(i) = matched {
        assert_eq!(engine.config.rules[i].name, "image_rule");
    }
}

#[test]
fn test_match_rule_by_type() {
    let rule = Rule {
        name: "doc_rule".into(),
        file_type: Some("document".into()),
        target: "docs/".into(),
        ..Default::default()
    };
    let engine = engine_with(vec![rule]);
    let pdf = file("/data", "test_doc.pdf", &[0x25, 0x50, 0x44, 0x46]);
    let matched = engine.match_rule(&pdf, now(), &vec![]);
    assert!(matches!(matched, RuleMatch::Matched(_)));
    if let RuleMatch::Matched(i) = matched {
        assert_eq!(engine.config.rules[i].name, "doc_rule");
    }
}

#[test]
fn listed_extension_selects_rule_when_size_suffices() {
    let rule = Rule {
        name: "texts".into(),
        extensions: Some(vec!["TXT".into()]),
        min_size: Some(5),
        target: "texts".into(),
        ..Default::default()
    };
    let engine = engine_with(vec![rule]);
    let big = file("/data", "notes.Txt", b"hello world");
    assert!(engine.match_rule(&big, now(), &vec![]) == RuleMatch::Matched(0));
    let small = file("/data", "tiny.txt", b"hi");
    assert!(engine.match_rule(&small, now(), &vec![]) == RuleMatch::NoMatch);
}

#[test]
fn too_small_for_first_rule_falls_through_to_second() {
    let big_only = Rule {
        name: "big".into(),
        extensions: Some(vec!["txt".into()]),
        min_size: Some(1000),
        ..Default::default()
    };
    let any = Rule { name: "any".into(), extensions: Some(vec!["txt".into()]), ..Default::default() };
    let engine = engine_with(vec![big_only, any]);
    let f = file("/data", "a.txt", b"short");
    assert!(engine.match_rule(&f, now(), &vec![]) == RuleMatch::Matched(1));
}

#[test]
fn earlier_rule_wins_over_later_match() {
    let by_ext = Rule { name: "ext".into(), extensions: Some(vec!["png".into()]), ..Default::default() };
    let by_mime = Rule { name: "mime".into(), mime: Some("image/*".into()), ..Default::default() };
    let png_bytes = [0x89, 0x50, 0x4e, 0x47, 0x0d, 0x0a, 0x1a, 0x0a];
    let f = file("/data", "pic.png", &png_bytes);

    let engine = engine_with(vec![by_ext, by_mime]);
    assert!(engine.match_rule(&f, now(), &vec![]) == RuleMatch::Matched(0));

    let by_ext = Rule { name: "ext".into(), extensions: Some(vec!["png".into()]), ..Default::default() };
    let by_mime = Rule { name: "mime".into(), mime: Some("image/*".into()), ..Default::default() };
    let engine = engine_with(vec![by_mime, by_ext]);
    assert!(engine.match_rule(&f, now(), &vec![]) == RuleMatch::Matched(0));
    assert_eq!(engine.config.rules[0].name, "mime");
}

#[test]
fn sniffed_extension_matches_despite_misleading_name() {
    let rule = Rule { name: "png".into(), extensions: Some(vec!["png".into()]), ..Default::default() };
    let engine = engine_with(vec![rule]);
    let f = file("/data", "picture.dat", &[0x89, 0x50, 0x4e, 0x47, 0x0d, 0x0a, 0x1a, 0x0a]);
    assert!(engine.match_rule(&f, now(), &vec![]) == RuleMatch::Matched(0));
}

#[test]
fn regex_rule_matches_file_name() {
    let rule = Rule { name: "inv".into(), regex: Some("^invoice_[0-9]+".into()), ..Default::default() };
    let bad = Rule { name: "bad".into(), regex: Some("([".into()), ..Default::default() };
    let engine = engine_with(vec![bad, rule]);
    let f = file("/data", "invoice_42.csv", b"a,b");
    assert!(engine.match_rule(&f, now(), &vec![]) == RuleMatch::Matched(1));
    let g = file("/data", "receipt.csv", b"a,b");
    assert!(engine.match_rule(&g, now(), &vec![]) == RuleMatch::NoMatch);
}

#[test]
fn oracle_rule_asks_then_uses_answer() {
    let ai = Rule { name: "ai".into(), ai_prompt: Some("invoices".into()), ..Default::default() };
    let fallback = Rule { name: "all".into(), extensions: Some(vec!["csv".into()]), ..Default::default() };
    let config = Config { rules: vec![ai, fallback], ai_api_base: "http://x".into(), ai_model: "m".into() };
    let engine = Engine::new(config, "/data".to_string());
    assert!(engine.oracle_enabled);
    let f = file("/data", "a.csv", b"x");
    assert!(engine.match_rule(&f, now(), &vec![]) == RuleMatch::AskOracle(0));
    assert!(engine.match_rule(&f, now(), &vec![Some(true)]) == RuleMatch::Matched(0));
    assert!(engine.match_rule(&f, now(), &vec![Some(false)]) == RuleMatch::Matched(1));
}

#[test]
fn oracle_rule_is_skipped_without_endpoint() {
    let ai = Rule { name: "ai".into(), ai_prompt: Some("invoices".into()), ..Default::default() };
    let engine = engine_with(vec![ai]);
    assert!(!engine.oracle_enabled);
    let f = file("/data", "a.csv", b"x");
    assert!(engine.match_rule(&f, now(), &vec![]) == RuleMatch::NoMatch);
}

#[test]
fn age_filter_rejects_recent_files() {
    let rule = Rule {
        name: "old".into(),
        extensions: Some(vec!["log".into()]),
        max_age: Some("2d".into()),
        ..Default::default()
    };
    let engine = engine_with(vec![rule]);
    let mut f = file("/data", "x.log", b"...");
    f.modified = Some(Timestamp { secs: now().secs - 3600, nanos: 0 });
    assert!(engine.match_rule(&f, now(), &vec![]) == RuleMatch::NoMatch);
    f.modified = Some(Timestamp { secs: now().secs - 3 * 86400, nanos: 0 });
    assert!(engine.match_rule(&f, now(), &vec![]) == RuleMatch::Matched(0));
}

#[test]
fn parse_age_units() {
    assert_eq!(parse_age("7d"), Some(7 * 86400));
    assert_eq!(parse_age("2w"), Some(2 * 604800));
    assert_eq!(parse_age("3M"), Some(3 * 30 * 86400));
    assert_eq!(parse_age("1y"), Some(365 * 86400));
    assert_eq!(parse_age("12h"), Some(12 * 3600));
    assert_eq!(parse_age("-2h"), Some(-7200));
    assert_eq!(parse_age(""), None);
    assert_eq!(parse_age("d"), None);
    assert_eq!(parse_age("5x"), None);
    assert_eq!(parse_age("1.5d"), None);
}

#[test]
fn dated_template_gives_year_and_month() {
    let d = Some(LocalDate { year: 2024, month: 5, day: 7 });
    let t = "${year}-${month}".to_string();
    let r = fill_placeholders(&t, &"a.txt".to_string(), &None, d);
    assert_eq!(r, "2024-05");
    assert_eq!(r.len(), 7);
    let t = "${year}/${month}/${day}/${filename}".to_string();
    let r = fill_placeholders(&t, &"a.txt".to_string(), &None, Some(LocalDate { year: 987, month: 12, day: 31 }));
    assert_eq!(r, "0987/12/31/a.txt");
    let t = "${year}".to_string();
    let r = fill_placeholders(&t, &"a".to_string(), &None, Some(LocalDate { year: 12345, month: 1, day: 1 }));
    assert_eq!(r, "+12345");
    let r = fill_placeholders(&t, &"a".to_string(), &None, Some(LocalDate { year: -5, month: 1, day: 1 }));
    assert_eq!(r, "-0005");
}

#[test]
fn ai_name_placeholder_uses_suggestion_or_stem() {
    let t = "renamed/${ai_name}.${ext}".to_string();
    let name = "scan.pdf".to_string();
    assert_eq!(fill_placeholders(&t, &name, &Some("invoice_2024".to_string()), None), "renamed/invoice_2024.pdf");
    assert_eq!(fill_placeholders(&t, &name, &None, None), "renamed/scan.pdf");
}

#[test]
fn extension_placeholder_stays_without_extension() {
    let t = "${ext}/${name}".to_string();
    assert_eq!(fill_placeholders(&t, &"Makefile".to_string(), &None, None), "${ext}/Makefile");
    assert_eq!(fill_placeholders(&t, &".bashrc".to_string(), &None, None), "${ext}/.bashrc");
    assert_eq!(fill_placeholders(&t, &"a.tar.gz".to_string(), &None, None), "gz/a.tar");
}

#[test]
fn target_path_folder_or_file_shape() {
    let engine = engine_with(vec![]);
    let f = file("/data", "main.rs", b"fn main() {}");
    let folder = Rule { target: "src/".into(), ..Default::default() };
    assert_eq!(engine.resolve_target_path(&folder, &f, None), "/data/src/main.rs");
    let folder2 = Rule { target: "code".into(), ..Default::default() };
    assert_eq!(engine.resolve_target_path(&folder2, &f, None), "/data/code/main.rs");
    let shaped = Rule { target: "by_ext/${ext}/${name}.bak".into(), ..Default::default() };
    assert_eq!(engine.resolve_target_path(&shaped, &f, None), "/data/by_ext/rs/main.bak");
    let absolute = Rule { target: "/srv/archive".into(), ..Default::default() };
    assert_eq!(engine.resolve_target_path(&absolute, &f, None), "/srv/archive/main.rs");
}

#[test]
fn single_file_in_place_is_not_moved() {
    let rule = Rule { name: "rs".into(), extensions: Some(vec!["rs".into()]), target: ".".into(), ..Default::default() };
    let engine = Engine::new(Config { rules: vec![rule], ..Default::default() }, "/data".to_string());
    let f = FileFacts {
        path: "/data/./main.rs".to_string(),
        file_name: "main.rs".to_string(),
        size: 3,
        prefix: None,
        modified: None,
    };
    let d = engine.match_rule(&f, now(), &vec![]);
    assert!(engine.process_single_file(&f, d, None).is_none());

    let rule = Rule { name: "rs".into(), extensions: Some(vec!["rs".into()]), target: "src".into(), ..Default::default() };
    let engine = Engine::new(Config { rules: vec![rule], ..Default::default() }, "/data".to_string());
    let d = engine.match_rule(&f, now(), &vec![]);
    let op = engine.process_single_file(&f, d, None).unwrap();
    assert_eq!(op.from, "/data/./main.rs");
    assert_eq!(op.to, "/data/src/main.rs");
    assert_eq!(op.rule_name, Some("rs".to_string()));
    assert_eq!(op.rule_index, Some(0));
    let dated = FileFacts {
        path: f.path.clone(),
        file_name: f.file_name.clone(),
        size: f.size,
        prefix: None,
        modified: Some(Timestamp { secs: 1_700_000_000, nanos: 0 }),
    };
    let d = engine.match_rule(&dated, now(), &vec![]);
    let op = engine.process_single_file(&dated, d, None).unwrap();
    assert_eq!(op.to, "/data/src/main.rs");
    let dated_rule = Rule { name: "y".into(), extensions: Some(vec!["rs".into()]), target: "by/${year}".into(), ..Default::default() };
    let engine = Engine::new(Config { rules: vec![dated_rule], ..Default::default() }, "/data".to_string());
    let op = engine.process_single_file(&dated, RuleMatch::Matched(0), None).unwrap();
    assert_eq!(op.to, "/data/by/2023/main.rs");
    assert!(engine.process_single_file(&f, RuleMatch::NoMatch, None).is_none());
    assert!(engine.process_single_file(&f, RuleMatch::Matched(9), None).is_none());
}

#[test]
fn default_rule_policy_is_rename() {
    let r = Rule::default();
    assert!(r.conflict_policy() == ConflictStrategy::Rename);
    let r = Rule { conflict: Some(ConflictStrategy::Skip), ..Default::default() };
    assert!(r.conflict_policy() == ConflictStrategy::Skip);
    assert!(ConflictStrategy::default() == ConflictStrategy::Rename);
}

#[test]
fn default_oracle_settings() {
    assert_eq!(rarch::config::default_api_base(), "http://localhost:11434/v1");
    assert_eq!(rarch::config::default_model(), "qwen2:0.5b");
}
