use rarch::conflict::{resolve_conflict, ConflictError};
use rarch::config::{Config, ConflictStrategy, Rule};
use rarch::dedup::{calculate_hash, plan_batch, DigestTable, PlanItem};
use rarch::engine::Engine;
use rarch::journal::{ExecutionReport, JournalEntry, OpOutcome, OpType, Operation};

fn item(from: &str, to: &str, digest: Option<&str>) -> PlanItem {
    PlanItem {
        from: from.to_string(),
        to: to.to_string(),
        rule_name: Some("r".to_string()),
        rule_index: Some(0),
        digest: digest.map(|d| d.to_string()),
    }
}

fn op(from: &str, to: &str, rule: Option<&str>) -> Operation {
    Operation {
        from: from.to_string(),
        to: to.to_string(),
        op_type: OpType::Move,
        rule_name: rule.map(|r| r.to_string()),
        rule_index: rule.map(|_| 0),
    }
}

fn op_by(index: Option<usize>) -> Operation {
    Operation {
        from: "/x".to_string(),
        to: "/y".to_string(),
        op_type: OpType::Move,
        rule_name: Some("same".to_string()),
        rule_index: index,
    }
}

#[test]
fn content_digest_is_sha256_hex() {
    assert_eq!(calculate_hash(b"abc"), "ba7816bf8f01cfea414140de5dae2223b00361a396177a9cb410ff61f20015ad");
    assert_eq!(calculate_hash(b""), "e3b0c44298fc1c149afbf4c8996fb92427ae41e4649b934ca495991b7852b855");
}

#[test]
fn identical_files_become_one_move_and_one_link() {
    let d = calculate_hash(b"same bytes");
    let items = vec![item("/in/a.txt", "/out/a.txt", Some(&d)), item("/in/b.txt", "/out/b.txt", Some(&d))];
    let ops = plan_batch(items);
    assert_eq!(ops.len(), 2);
    assert!(matches!(ops[0].op_type, OpType::Move));
    match &ops[1].op_type {
        OpType::HardLink(p) => assert_eq!(p, "/out/a.txt"),
        OpType::Move => panic!("second copy should link"),
    }

    let items = vec![item("/in/b.txt", "/out/b.txt", Some(&d)), item("/in/a.txt", "/out/a.txt", Some(&d))];
    let ops = plan_batch(items);
    assert!(matches!(ops[0].op_type, OpType::Move));
    match &ops[1].op_type {
        OpType::HardLink(p) => assert_eq!(p, "/out/b.txt"),
        OpType::Move => panic!("second copy should link"),
    }
}

#[test]
fn distinct_or_unknown_digests_all_move() {
    let items = vec![
        item("/in/a", "/out/a", Some("d1")),
        item("/in/b", "/out/b", Some("d2")),
        item("/in/c", "/out/c", None),
        item("/in/d", "/out/d", None),
    ];
    let ops = plan_batch(items);
    assert_eq!(ops.len(), 4);
    assert!(ops.iter().all(|o| matches!(o.op_type, OpType::Move)));
}

#[test]
fn items_already_in_place_are_dropped() {
    let items = vec![item("/out/a", "/out/a", Some("d")), item("/in/b", "/out/b", Some("d"))];
    let ops = plan_batch(items);
    assert_eq!(ops.len(), 1);
    assert_eq!(ops[0].from, "/in/b");
    assert!(matches!(ops[0].op_type, OpType::Move));
}

#[test]
fn digest_table_keeps_first_claim() {
    let mut t = DigestTable::new();
    assert_eq!(t.claim(&"h".to_string(), &"/x".to_string()), None);
    assert_eq!(t.claim(&"h".to_string(), &"/y".to_string()), Some("/x".to_string()));
    assert_eq!(t.claim(&"g".to_string(), &"/y".to_string()), None);
    assert_eq!(t.claim(&"h".to_string(), &"/z".to_string()), Some("/x".to_string()));
}

#[test]
fn free_destination_is_kept() {
    let existing = vec!["other.txt".to_string()];
    for p in [ConflictStrategy::Rename, ConflictStrategy::Skip, ConflictStrategy::Overwrite] {
        assert_eq!(resolve_conflict(p, &"/out/a.txt".to_string(), &existing), Ok(Some("/out/a.txt".to_string())));
    }
}

#[test]
fn rename_picks_first_free_numbered_name() {
    let existing = vec!["a.txt".to_string(), "a (1).txt".to_string()];
    let r = resolve_conflict(ConflictStrategy::Rename, &"/out/a.txt".to_string(), &existing);
    assert_eq!(r, Ok(Some("/out/a (2).txt".to_string())));
    let existing = vec!["README".to_string()];
    let r = resolve_conflict(ConflictStrategy::Rename, &"docs/README".to_string(), &existing);
    assert_eq!(r, Ok(Some("docs/README (1)".to_string())));
    let existing = vec!["x.txt".to_string()];
    let r = resolve_conflict(ConflictStrategy::Rename, &"x.txt".to_string(), &existing);
    assert_eq!(r, Ok(Some("x (1).txt".to_string())));
}

#[test]
fn rename_fails_when_all_numbers_taken() {
    let mut existing = vec!["a.txt".to_string()];
    for i in 1..999 {
        existing.push(format!("a ({}).txt", i));
    }
    let r = resolve_conflict(ConflictStrategy::Rename, &"/out/a.txt".to_string(), &existing);
    assert_eq!(r, Err(ConflictError::TooManyConflicts));
    existing.pop();
    let r = resolve_conflict(ConflictStrategy::Rename, &"/out/a.txt".to_string(), &existing);
    assert_eq!(r, Ok(Some("/out/a (998).txt".to_string())));
}

#[test]
fn skip_and_overwrite_policies() {
    let existing = vec!["a.txt".to_string()];
    assert_eq!(resolve_conflict(ConflictStrategy::Skip, &"/out/a.txt".to_string(), &existing), Ok(None));
    assert_eq!(
        resolve_conflict(ConflictStrategy::Overwrite, &"/out/a.txt".to_string(), &existing),
        Ok(Some("/out/a.txt".to_string()))
    );
}

#[test]
fn skipped_operation_leaves_no_journal_entry() {
    let skip = Rule { name: "keep".into(), conflict: Some(ConflictStrategy::Skip), ..Default::default() };
    let engine = Engine::new(Config { rules: vec![skip], ..Default::default() }, "/in".to_string());
    let o = op("/in/a.txt", "/out/a.txt", Some("keep"));
    let decision = engine.handle_conflict(&o, &vec!["a.txt".to_string()]);
    assert_eq!(decision, Ok(None));
    let mut report = ExecutionReport::new("2024-01-01T00:00:00+00:00".to_string());
    report.record(o, OpOutcome::Skipped);
    assert_eq!(report.succeeded(), 0);
    assert_eq!(report.skipped, 1);
    assert!(report.journal.operations.is_empty());
}

#[test]
fn conflict_policy_follows_planning_rule() {
    let a = Rule { name: "same".into(), conflict: Some(ConflictStrategy::Overwrite), ..Default::default() };
    let b = Rule { name: "same".into(), conflict: Some(ConflictStrategy::Skip), ..Default::default() };
    let c = Rule { name: "same".into(), ..Default::default() };
    let engine = Engine::new(Config { rules: vec![a, b, c], ..Default::default() }, "/in".to_string());
    assert!(engine.policy_for(&op_by(Some(1))) == ConflictStrategy::Skip);
    assert!(engine.policy_for(&op_by(Some(0))) == ConflictStrategy::Overwrite);
    assert!(engine.policy_for(&op_by(Some(2))) == ConflictStrategy::Rename);
    assert!(engine.policy_for(&op_by(Some(7))) == ConflictStrategy::Rename);
    assert!(engine.policy_for(&op_by(None)) == ConflictStrategy::Rename);
}

#[test]
fn trailing_separator_names_the_last_component() {
    let existing = vec!["notes".to_string()];
    let r = resolve_conflict(ConflictStrategy::Rename, &"/out/notes/".to_string(), &existing);
    assert_eq!(r, Ok(Some("/out/notes (1)".to_string())));
    let r = resolve_conflict(ConflictStrategy::Skip, &"/out/notes//".to_string(), &existing);
    assert_eq!(r, Ok(None));
    let r = resolve_conflict(ConflictStrategy::Skip, &"/out/other/".to_string(), &existing);
    assert_eq!(r, Ok(Some("/out/other/".to_string())));
}

#[test]
fn planned_operations_keep_rule_index() {
    let mut it = item("/in/a", "/out/a", None);
    it.rule_index = Some(3);
    let ops = plan_batch(vec![it]);
    assert_eq!(ops[0].rule_index, Some(3));
}

#[test]
fn completed_operation_is_journaled_with_final_destination() {
    let mut report = ExecutionReport::new("t".to_string());
    report.record(op("/in/a.txt", "/out/a.txt", Some("r")), OpOutcome::Done("/out/a (1).txt".to_string()));
    report.record(op("/in/b.txt", "/out/b.txt", Some("r")), OpOutcome::Failed);
    assert_eq!(report.succeeded(), 1);
    assert_eq!(report.failed, 1);
    assert_eq!(report.journal.operations[0].to, "/out/a (1).txt");
    assert_eq!(report.journal.operations[0].from, "/in/a.txt");
}

#[test]
fn undo_plan_reverses_journal() {
    let mut j = JournalEntry::new("t".to_string());
    assert!(j.operations.is_empty());
    j.operations.push(op("/in/a", "/out/a", None));
    j.operations.push(op("/in/b", "/out/b", None));
    j.operations.push(op("/out/b", "/out/c", None));
    let plan = j.undo_plan();
    assert_eq!(plan.len(), 3);
    assert_eq!((plan[0].from.as_str(), plan[0].to.as_str()), ("/out/c", "/out/b"));
    assert_eq!((plan[1].from.as_str(), plan[1].to.as_str()), ("/out/b", "/in/b"));
    assert_eq!((plan[2].from.as_str(), plan[2].to.as_str()), ("/out/a", "/in/a"));
}
