use batch_rename::executor::{BatchExecution, FileProbe, RenameOperation, RenameOperationResult};
use batch_rename::history::{HistoryStore, RenameHistory};
use batch_rename::preview::{preview_names, preview_rename};
use batch_rename::rules::RenameRule;
use batch_rename::undo::{check_operation_id, UndoRun};

fn strings(items: &[&str]) -> Vec<String> {
    items.iter().map(|s| s.to_string()).collect()
}

fn ok_probe() -> FileProbe {
    FileProbe { exists: true, is_file: true, read_only: false }
}

fn op(old_path: &str, new_name: &str) -> RenameOperation {
    RenameOperation { old_path: old_path.to_string(), new_name: new_name.to_string() }
}

#[test]
fn preview_replace_scenario() {
    let rule = RenameRule::Replace {
        find: "IMG_".to_string(),
        replace: "Photo_".to_string(),
        regex: false,
        case_sensitive: true,
    };
    let previews = preview_rename(&strings(&["IMG_001.jpg", "IMG_002.jpg"]), &rule).unwrap();
    assert_eq!(previews.len(), 2);
    assert_eq!(previews[0].new_name, "Photo_001.jpg");
    assert_eq!(previews[1].new_name, "Photo_002.jpg");
    for p in previews.iter() {
        assert!(!p.has_conflict);
        assert!(!p.has_invalid_chars);
        assert!(p.error_message.is_none());
    }
}

#[test]
fn preview_same_name_conflict_scenario() {
    let rule = RenameRule::Case { mode: "upper".to_string() };
    let previews = preview_rename(&strings(&["/one/a.txt", "/two/a.txt"]), &rule).unwrap();
    assert_eq!(previews[0].original_name, "a.txt");
    assert_eq!(previews[1].original_name, "a.txt");
    assert_eq!(previews[0].new_name, "A.txt");
    assert_eq!(previews[1].new_name, "A.txt");
    assert!(previews[0].has_conflict);
    assert!(previews[1].has_conflict);
}

#[test]
fn preview_sequence_scenario() {
    let rule = RenameRule::Sequence { start: 1, step: 1, width: 3, order: "current".to_string() };
    let files = strings(&["photo.jpg", "photo.jpg", "photo.jpg", "photo.jpg", "photo.jpg"]);
    let previews = preview_rename(&files, &rule).unwrap();
    assert_eq!(previews[0].new_name, "photo_001.jpg");
    assert_eq!(previews[4].new_name, "photo_005.jpg");
    assert!(previews.iter().all(|p| !p.has_conflict));
}

#[test]
fn preview_rejects_invalid_rule() {
    let rule = RenameRule::Sequence { start: 0, step: -1, width: 2, order: "current".to_string() };
    assert_eq!(
        preview_rename(&strings(&["a.txt"]), &rule).unwrap_err(),
        "step must be greater than zero"
    );
}

#[test]
fn preview_failed_entry_falls_back_and_conflicts() {
    let rule = RenameRule::Slice { start: 3, end: Some(-1), replacement: "x".to_string() };
    let names = strings(&["ab.txt", "ab.TXT", "abcdef.txt"]);
    let previews = preview_names(&names, &rule).unwrap();
    assert_eq!(previews[0].new_name, "ab.txt");
    assert_eq!(previews[0].error_message.as_deref(), Some("slice start lies after its end"));
    assert!(!previews[0].has_invalid_chars);
    assert_eq!(previews[1].new_name, "ab.TXT");
    assert!(previews[0].has_conflict);
    assert!(previews[1].has_conflict);
    assert_eq!(previews[2].new_name, "abcxf.txt");
    assert!(!previews[2].has_conflict);
}

#[test]
fn preview_flags_invalid_characters() {
    let rule = RenameRule::Replace {
        find: "_".to_string(),
        replace: ":".to_string(),
        regex: false,
        case_sensitive: true,
    };
    let previews = preview_rename(&strings(&["/d/a_b.txt", "/d/ab.txt"]), &rule).unwrap();
    assert_eq!(previews[0].new_name, "a:b.txt");
    assert!(previews[0].has_invalid_chars);
    assert!(!previews[1].has_invalid_chars);
}

#[test]
fn preview_empty_batch() {
    let rule = RenameRule::Case { mode: "lower".to_string() };
    assert!(preview_rename(&Vec::new(), &rule).unwrap().is_empty());
}

#[test]
fn preconditions_reject_first_bad_file() {
    let ops = vec![op("/d/a.txt", "b.txt"), op("/d/c.txt", "d.txt"), op("/d/e.txt", "f.txt")];
    let probes = vec![
        ok_probe(),
        FileProbe { exists: true, is_file: true, read_only: true },
        FileProbe { exists: false, is_file: false, read_only: false },
    ];
    let err = BatchExecution::begin(&ops, &probes, "id".to_string()).err().unwrap();
    assert_eq!(err, "file is read-only and cannot be renamed: /d/c.txt");
    let probes = vec![ok_probe(), FileProbe { exists: true, is_file: false, read_only: false }, ok_probe()];
    let err = BatchExecution::begin(&ops, &probes, "id".to_string()).err().unwrap();
    assert_eq!(err, "path is not a file: /d/c.txt");
    let probes = vec![FileProbe { exists: false, is_file: false, read_only: false }, ok_probe(), ok_probe()];
    let err = BatchExecution::begin(&ops, &probes, "id".to_string()).err().unwrap();
    assert_eq!(err, "file does not exist: /d/a.txt");
}

#[test]
fn plan_uses_temporary_then_target() {
    let ops = vec![op("/d/a.txt", "b.txt")];
    let mut ex = BatchExecution::begin(&ops, &vec![ok_probe()], "abc".to_string()).ok().unwrap();
    assert_eq!(
        ex.next_move(0),
        Some(("/d/a.txt".to_string(), "/d/.__temp_abc_a.txt".to_string()))
    );
    ex.record(0, Ok(()));
    assert_eq!(
        ex.next_move(0),
        Some(("/d/.__temp_abc_a.txt".to_string(), "/d/b.txt".to_string()))
    );
    ex.record(0, Ok(()));
    assert_eq!(ex.next_move(0), None);
    assert!(ex.is_settled());
    let mut history = HistoryStore::new();
    let result = ex.finish(&mut history);
    assert_eq!(result.success_count, 1);
    assert_eq!(result.failed_count, 0);
    assert_eq!(result.operation_id, "abc");
    assert_eq!(result.operations[0].old_path, "/d/a.txt");
    assert_eq!(result.operations[0].new_path, "/d/b.txt");
    assert!(result.operations[0].success);
    assert_eq!(history.undo_depth(), 1);
}

#[test]
fn second_phase_waits_for_first() {
    let ops = vec![op("/d/a", "b"), op("/d/b", "a")];
    let mut ex = BatchExecution::begin(&ops, &vec![ok_probe(), ok_probe()], "t".to_string()).ok().unwrap();
    ex.record(0, Ok(()));
    assert_eq!(ex.next_move(0), None);
    assert!(!ex.first_phase_complete());
    ex.record(1, Ok(()));
    assert!(ex.first_phase_complete());
    assert_eq!(ex.next_move(0), Some(("/d/.__temp_t_a".to_string(), "/d/b".to_string())));
}

#[test]
fn failed_moves_never_lose_files() {
    let ops = vec![op("/d/a.txt", "x.txt"), op("/d/b.txt", "y.txt"), op("/d/c.txt", "z.txt")];
    let probes = vec![ok_probe(), ok_probe(), ok_probe()];
    let mut ex = BatchExecution::begin(&ops, &probes, "id".to_string()).ok().unwrap();
    ex.record(0, Err("denied".to_string()));
    ex.record(1, Ok(()));
    ex.record(2, Ok(()));
    assert_eq!(ex.next_move(0), None);
    ex.record(1, Err("exists".to_string()));
    assert_eq!(ex.next_move(1), Some(("/d/.__temp_id_b.txt".to_string(), "/d/b.txt".to_string())));
    ex.record(1, Ok(()));
    ex.record(2, Err("exists".to_string()));
    assert_eq!(ex.next_move(2), Some(("/d/.__temp_id_c.txt".to_string(), "/d/c.txt".to_string())));
    ex.record(2, Err("busy".to_string()));
    assert!(ex.is_settled());
    let mut history = HistoryStore::new();
    let result = ex.finish(&mut history);
    assert_eq!(result.success_count, 0);
    assert_eq!(result.failed_count, 3);
    assert_eq!(history.undo_depth(), 0);
    let r = &result.operations;
    assert!(!r[0].success && !r[0].rollback_failed);
    assert_eq!(r[0].error_message.as_deref(), Some("rename to the temporary name failed: denied"));
    assert!(!r[1].success && !r[1].rollback_failed);
    assert_eq!(r[1].error_message.as_deref(), Some("rename to the target name failed: exists"));
    assert!(!r[2].success && r[2].rollback_failed);
    assert_eq!(
        r[2].error_message.as_deref(),
        Some("rename to the target name failed: exists; moving it back failed too, the file is left at /d/.__temp_id_c.txt: busy")
    );
}

#[test]
fn record_ignores_operations_that_owe_nothing() {
    let ops = vec![op("/d/a", "b")];
    let mut ex = BatchExecution::begin(&ops, &vec![ok_probe()], "id".to_string()).ok().unwrap();
    ex.record(5, Ok(()));
    ex.record(0, Err("no".to_string()));
    ex.record(0, Ok(()));
    assert!(ex.is_settled());
    let result = ex.finish(&mut HistoryStore::new());
    assert!(!result.operations[0].success);
}

#[test]
fn start_names_the_batch_by_a_uuid() {
    let ops = vec![op("/d/a", "b")];
    let ex = BatchExecution::start(&ops, &vec![ok_probe()], [0u8; 16]).ok().unwrap();
    assert_eq!(ex.operation_id(), "00000000-0000-4000-8000-000000000000");
    let bytes: [u8; 16] = [0xff, 0xee, 0xdd, 0xcc, 0xbb, 0xaa, 0x99, 0x88, 0x77, 0x66, 0x55, 0x44, 0x33, 0x22, 0x11, 0x00];
    let ex = BatchExecution::start(&ops, &vec![ok_probe()], bytes).ok().unwrap();
    let id = ex.operation_id();
    assert_eq!(id, "ffeeddcc-bbaa-4988-b766-554433221100");
    assert_eq!(ex.next_move(0), Some(("/d/a".to_string(), format!("/d/.__temp_{}_a", id))));
    for (k, c) in id.chars().enumerate() {
        if [8, 13, 18, 23].contains(&k) {
            assert_eq!(c, '-');
        } else {
            assert!(c.is_ascii_digit() || ('a'..='f').contains(&c));
        }
    }
    let err = BatchExecution::start(&ops, &vec![FileProbe { exists: false, is_file: false, read_only: false }], bytes);
    assert_eq!(err.err().unwrap(), "file does not exist: /d/a");
}

#[test]
fn empty_batch_records_nothing() {
    let ex = BatchExecution::begin(&Vec::new(), &Vec::new(), "id".to_string()).ok().unwrap();
    assert!(ex.is_settled());
    let mut history = HistoryStore::new();
    let result = ex.finish(&mut history);
    assert_eq!(result.success_count, 0);
    assert_eq!(result.failed_count, 0);
    assert!(result.operations.is_empty());
    assert_eq!(history.undo_depth(), 0);
}

#[test]
fn undo_scenario_restores_both_files() {
    let ops = vec![op("/d/a.txt", "x.txt"), op("/d/b.txt", "y.txt")];
    let mut ex = BatchExecution::begin(&ops, &vec![ok_probe(), ok_probe()], "id".to_string()).ok().unwrap();
    for phase in 0..2 {
        for i in 0..2 {
            assert!(ex.next_move(i).is_some(), "phase {}", phase);
            ex.record(i, Ok(()));
        }
    }
    let mut history = HistoryStore::new();
    let result = ex.finish(&mut history);
    assert_eq!(result.success_count, 2);

    let moves = history.undo_last().unwrap();
    assert_eq!(
        moves,
        vec![
            ("/d/x.txt".to_string(), "/d/a.txt".to_string()),
            ("/d/y.txt".to_string(), "/d/b.txt".to_string()),
        ]
    );
    assert_eq!(history.undo_depth(), 0);
    assert_eq!(history.redo_depth(), 1);

    let mut run = UndoRun::over_moves(moves);
    while let Some(_) = run.current() {
        if run.check(true, false) {
            run.record_rename(Ok(()));
        }
    }
    let undone = run.finish();
    assert!(undone.success);
    assert_eq!(undone.restored_count, 2);
    assert!(undone.error_message.is_none());

    let redo = history.redo_last().unwrap();
    assert_eq!(redo[0], ("/d/a.txt".to_string(), "/d/x.txt".to_string()));
    assert_eq!(history.undo_depth(), 1);
    assert_eq!(history.redo_depth(), 0);
}

#[test]
fn commit_clears_redo() {
    let mut history = HistoryStore::new();
    assert!(history.undo_last().is_none());
    assert!(history.redo_last().is_none());
    history.commit(RenameHistory { operations: vec![("a".to_string(), "b".to_string())] });
    history.undo_last().unwrap();
    assert_eq!(history.redo_depth(), 1);
    history.commit(RenameHistory { operations: vec![("c".to_string(), "d".to_string())] });
    assert_eq!(history.redo_depth(), 0);
    assert_eq!(history.undo_depth(), 1);
}

#[test]
fn undo_records_skips_failures_and_reports_problems() {
    let rec = |old: &str, new: &str, success: bool| RenameOperationResult {
        old_path: old.to_string(),
        new_path: new.to_string(),
        success,
        error_message: None,
        rollback_failed: false,
    };
    let records = vec![
        rec("/d/a", "/d/x", true),
        rec("/d/b", "/d/y", false),
        rec("/d/c", "/d/z", true),
        rec("/d/e", "/d/w", true),
        rec("/d/f", "/d/v", true),
    ];
    let mut run = UndoRun::for_records(&records);
    let mut seen = Vec::new();
    let mut step = 0;
    while let Some((from, to)) = run.current() {
        seen.push((from.clone(), to.clone()));
        let (source_exists, target_exists) = match step {
            0 => (true, false),
            1 => (false, false),
            2 => (true, true),
            _ => (true, false),
        };
        if run.check(source_exists, target_exists) {
            run.record_rename(if step == 3 { Err("busy".to_string()) } else { Ok(()) });
        }
        step += 1;
    }
    assert_eq!(seen.len(), 4);
    assert_eq!(seen[0], ("/d/x".to_string(), "/d/a".to_string()));
    assert_eq!(seen[1], ("/d/z".to_string(), "/d/c".to_string()));
    let result = run.finish();
    assert_eq!(result.restored_count, 1);
    assert!(result.success);
    assert_eq!(result.error_message.as_deref(), Some("undo failed: busy"));
}

#[test]
fn undo_reports_missing_and_taken_paths() {
    let mut run = UndoRun::over_moves(vec![("/d/x".to_string(), "/d/a".to_string())]);
    assert!(!run.check(false, false));
    let r = run.finish();
    assert!(!r.success);
    assert_eq!(r.error_message.as_deref(), Some("file does not exist: /d/x"));
    let mut run = UndoRun::over_moves(vec![("/d/x".to_string(), "/d/a".to_string())]);
    assert!(!run.check(true, true));
    assert_eq!(run.finish().error_message.as_deref(), Some("target file already exists: /d/a"));
}

#[test]
fn empty_operation_id_is_rejected() {
    assert_eq!(check_operation_id(""), Err("operation id must not be empty".to_string()));
    assert_eq!(check_operation_id("x"), Ok(()));
}

#[test]
fn taken_destination_fails_the_move() {
    let ops = vec![op("/d/a.txt", "x.txt"), op("/d/b.txt", "y.txt")];
    let mut ex = BatchExecution::begin(&ops, &vec![ok_probe(), ok_probe()], "id".to_string()).ok().unwrap();
    assert!(!ex.check_destination(0, true));
    assert_eq!(ex.next_move(0), None);
    assert!(ex.check_destination(1, false));
    ex.record(1, Ok(()));
    assert!(!ex.check_destination(1, true));
    assert_eq!(ex.next_move(1), Some(("/d/.__temp_id_b.txt".to_string(), "/d/b.txt".to_string())));
    assert!(ex.check_destination(1, false));
    ex.record(1, Ok(()));
    assert!(!ex.check_destination(1, false));
    let result = ex.finish(&mut HistoryStore::new());
    assert_eq!(result.success_count, 0);
    assert_eq!(
        result.operations[0].error_message.as_deref(),
        Some("rename to the temporary name failed: destination already exists: /d/.__temp_id_a.txt")
    );
    assert_eq!(
        result.operations[1].error_message.as_deref(),
        Some("rename to the target name failed: destination already exists: /d/y.txt")
    );
    assert!(!result.operations[1].rollback_failed);
}

#[test]
fn owed_moves_have_distinct_destinations() {
    let ops = vec![op("/d/a", "same"), op("/d/b", "same"), op("/d/c", "other")];
    let probes = vec![ok_probe(), ok_probe(), ok_probe()];
    let mut ex = BatchExecution::begin(&ops, &probes, "t".to_string()).ok().unwrap();
    let first = ex.owed_moves();
    assert_eq!(first.len(), 3);
    for (i, _, _) in first {
        ex.record(i, Ok(()));
    }
    let second = ex.owed_moves();
    assert_eq!(
        second,
        vec![
            (0, "/d/.__temp_t_a".to_string(), "/d/same".to_string()),
            (2, "/d/.__temp_t_c".to_string(), "/d/other".to_string()),
        ]
    );
    ex.record(0, Ok(()));
    ex.record(2, Ok(()));
    let third = ex.owed_moves();
    assert_eq!(third, vec![(1, "/d/.__temp_t_b".to_string(), "/d/same".to_string())]);
    assert!(!ex.check_destination(1, true));
    assert_eq!(ex.owed_moves(), vec![(1, "/d/.__temp_t_b".to_string(), "/d/b".to_string())]);
    ex.record(1, Ok(()));
    assert!(ex.owed_moves().is_empty());
    let result = ex.finish(&mut HistoryStore::new());
    assert_eq!(result.success_count, 2);
    assert!(!result.operations[1].success);
}
