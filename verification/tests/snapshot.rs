use porta::snapshot::{after_run, changes, describe, latest_snapshot, wt_rollback, Changes};

fn strings(items: &[&str]) -> Vec<String> {
    items.iter().map(|s| s.to_string()).collect()
}

fn sample() -> Changes {
    changes(&strings(&["a", "b", "c"]), &strings(&["a", "c", "d"]), &[false, true, true])
}

#[test]
fn added_changed_and_removed_are_told_apart() {
    let c = sample();
    assert_eq!(c.added, strings(&["d"]));
    assert_eq!(c.changed, strings(&["c"]));
    assert_eq!(c.removed, strings(&["b"]));
    assert_eq!(c.count(), 3);
}

#[test]
fn each_mount_is_described_in_words() {
    let text = describe("1-2", &[("/m".to_string(), sample())]);
    assert_eq!(text, "[porta] snapshot 1-2: 3 change(s) in /m\n  + d\n  ~ c\n  - b\n");
}

#[test]
fn a_long_list_shows_twenty_and_counts_the_rest() {
    let now: Vec<String> = (0..22).map(|i| format!("f{i:02}")).collect();
    let flags = vec![false; 22];
    let c = changes(&[], &now, &flags);
    let text = describe("9", &[("/w".to_string(), c)]);
    assert!(text.starts_with("[porta] snapshot 9: 22 change(s) in /w\n  + f00\n"));
    assert!(text.contains("  + f19\n"));
    assert!(!text.contains("f20"));
    assert!(text.ends_with("  + … and 2 more\n"));
}

#[test]
fn after_a_run_the_undo_is_named() {
    assert_eq!(after_run("id", &None), "");
    assert_eq!(
        after_run("id", &Some(vec![("/m".to_string(), sample())])),
        "[porta] snapshot id: 3 change(s) in /m\n  + d\n  ~ c\n  - b\n[porta] `porta rollback id` shows these again; add --yes to put them back\n"
    );
}

#[test]
fn rollback_shows_applies_or_says_where_it_stopped() {
    let shown = "[porta] snapshot 1-2: 3 change(s) in /m\n  + d\n  ~ c\n  - b\n";
    assert_eq!(
        wt_rollback(&Err("there is no snapshot; run with --snapshot first".to_string()), false, &None),
        "Error: there is no snapshot; run with --snapshot first"
    );
    let opened = Ok(("1-2".to_string(), vec![("/m".to_string(), sample())]));
    assert_eq!(wt_rollback(&opened, false, &None), format!("{shown}run `porta rollback 1-2 --yes` to put these back"));
    let opened = Ok(("1-2".to_string(), vec![("/m".to_string(), sample())]));
    assert_eq!(wt_rollback(&opened, true, &None), format!("{shown}[porta] put back as snapshot 1-2 held them"));
    let opened = Ok(("1-2".to_string(), vec![("/m".to_string(), sample())]));
    assert_eq!(
        wt_rollback(&opened, true, &Some(("/m".to_string(), "denied".to_string()))),
        format!("{shown}Error: restoring /m stopped part way: denied")
    );
}

#[test]
fn the_latest_snapshot_is_the_last_of_the_latest_second() {
    assert_eq!(latest_snapshot(&strings(&["100-5", "300-1", "200-9", "300-2"])).unwrap(), "300-2");
    assert_eq!(latest_snapshot(&strings(&["x", "y"])).unwrap(), "y");
    assert_eq!(latest_snapshot(&strings(&["5-1", "x"])).unwrap(), "5-1");
    assert_eq!(latest_snapshot(&[]).err().unwrap(), "there is no snapshot; run with --snapshot first");
}
