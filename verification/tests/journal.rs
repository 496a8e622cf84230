use porta::journal::{
    append_fits, check_link, file_fits, link_for, source_fits, Begun, Entry, Journal, Replay,
};

fn record(kind: &str) -> Entry {
    Entry {
        kind: Some(kind.to_string()),
        version_one: false,
        task: None,
        fingerprint: None,
        index: None,
        request: None,
        response: None,
        fuel: None,
        elapsed_ms: None,
        output: None,
    }
}

fn header() -> Entry {
    Entry { version_one: true, task: Some("task".into()), fingerprint: Some("fp".into()), ..record("header") }
}

fn intent(index: u64, request: &str) -> Entry {
    Entry { index: Some(index), request: Some(request.into()), ..record("intent") }
}

fn result(index: u64, response: &str, fuel: u64, elapsed: u64) -> Entry {
    Entry { index: Some(index), response: Some(response.into()), fuel: Some(fuel), elapsed_ms: Some(elapsed), ..record("result") }
}

fn complete(output: &str, elapsed: u64) -> Entry {
    Entry { output: Some(output.into()), elapsed_ms: Some(elapsed), ..record("complete") }
}

fn replay_of(entries: Vec<Entry>) -> Result<Replay, String> {
    let mut replay = Replay::new();
    for e in entries {
        replay.apply(e)?;
    }
    Ok(replay)
}

#[test]
fn a_live_run_writes_intent_result_checkpoint_and_completion() {
    let (mut journal, head) = Journal::create("fp", "task");
    assert_eq!(head.kind.as_deref(), Some("header"));
    assert!(head.version_one);
    assert_eq!(journal.task(), "task");
    assert_eq!(journal.fingerprint(), "fp");
    let written = match journal.begin("ask").unwrap() {
        Begun::Write { intent } => intent,
        Begun::Recorded { .. } => panic!("nothing was recorded"),
    };
    assert_eq!(written.index, Some(0));
    assert_eq!(written.request.as_deref(), Some("ask"));
    journal.intent_written(written);
    assert_eq!(journal.status(), "uncertain");
    assert_eq!(journal.checkpoint(1).err().unwrap(), "cannot checkpoint a pending or completed journal");
    let settled = journal.commit("answer", 7, 10).unwrap();
    assert_eq!(settled.response.as_deref(), Some("answer"));
    assert_eq!(settled.fuel, Some(7));
    journal.result_written(settled);
    assert_eq!(journal.completed_operations(), 1);
    assert_eq!(journal.commit("again", 1, 11).err().unwrap(), "journal result has no pending operation");
    let mark = journal.checkpoint(20).unwrap();
    journal.checkpoint_written(mark);
    assert_eq!(journal.status(), "checkpoint");
    let done = journal.finish("out", 30).unwrap().unwrap();
    assert_eq!(done.output.as_deref(), Some("out"));
    journal.finish_written(done);
    assert_eq!(journal.status(), "complete");
}

#[test]
fn a_resumed_run_is_answered_from_the_journal() {
    let replay = replay_of(vec![header(), intent(0, "ask"), result(0, "answer", 7, 10)]).unwrap();
    let mut journal = Journal::load(replay, false, false).unwrap();
    assert!(!journal.is_replay_only());
    assert!(journal.next_matches("ask"));
    match journal.begin("ask").unwrap() {
        Begun::Recorded { response, fuel } => assert_eq!((response.as_str(), fuel), ("answer", 7)),
        Begun::Write { .. } => panic!("the operation was recorded"),
    }
    assert!(journal.continuing_live());
    assert!(matches!(journal.begin("next").unwrap(), Begun::Write { .. }));
}

#[test]
fn a_diverging_replay_is_stopped() {
    let replay = replay_of(vec![header(), intent(0, "ask"), result(0, "answer", 7, 10)]).unwrap();
    let mut journal = Journal::load(replay, false, false).unwrap();
    assert_eq!(journal.cached("other").err().unwrap(), "agent replay diverged at operation 0");
    assert_eq!(
        journal.finish("x", 40).err().unwrap(),
        "agent replay ended before consuming the recorded operations"
    );
}

#[test]
fn a_completed_run_replays_without_writing() {
    let entries = vec![header(), intent(0, "ask"), result(0, "answer", 7, 10), complete("out", 12)];
    let mut journal = Journal::load(replay_of(entries).unwrap(), true, false).unwrap();
    assert!(journal.is_replay_only());
    assert_eq!(journal.cached("ask").unwrap(), Some(("answer".to_string(), 7)));
    assert_eq!(journal.cached("more").err().unwrap(), "agent replay requested an unrecorded operation");
    assert_eq!(journal.finish("out", 50).unwrap().is_none(), true);
    assert_eq!(journal.finish("else", 50).err().unwrap(), "agent replay final output diverged");
}

#[test]
fn an_uncertain_or_unfinished_journal_is_refused() {
    let uncertain = replay_of(vec![header(), intent(0, "ask")]).unwrap();
    assert_eq!(
        Journal::load(uncertain, false, false).err().unwrap(),
        "journal has an intent without a result; operation outcome is uncertain and will not be repeated"
    );
    let inspected = replay_of(vec![header(), intent(0, "ask")]).unwrap();
    assert_eq!(Journal::load(inspected, true, true).ok().unwrap().status(), "uncertain");
    assert_eq!(Journal::load(Replay::new(), false, false).err().unwrap(), "empty journal");
    let unfinished = replay_of(vec![header()]).unwrap();
    assert_eq!(
        Journal::load(unfinished, true, false).err().unwrap(),
        "replay requires a completed journal; use agent-resume for a checkpoint"
    );
}

#[test]
fn records_out_of_order_are_refused() {
    assert_eq!(replay_of(vec![intent(0, "a")]).err().unwrap(), "unsupported journal header");
    assert_eq!(replay_of(vec![header(), intent(1, "a")]).err().unwrap(), "invalid journal intent ordering");
    assert_eq!(replay_of(vec![header(), result(0, "r", 1, 1)]).err().unwrap(), "journal result has no intent");
    assert_eq!(
        replay_of(vec![header(), intent(0, "a"), result(0, "r", 1, 5), intent(1, "b"), result(1, "s", 1, 4)])
            .err()
            .unwrap(),
        "journal elapsed time moved backwards"
    );
    assert_eq!(
        replay_of(vec![header(), complete("o", 1), record("checkpoint")]).err().unwrap(),
        "journal contains records after completion"
    );
    assert_eq!(replay_of(vec![header(), record("other")]).err().unwrap(), "unknown journal record kind");
    assert_eq!(
        replay_of(vec![header(), intent(0, "a"), complete("o", 1)]).err().unwrap(),
        "journal completed with an uncertain operation"
    );
}

#[test]
fn a_diverging_request_is_refused_by_begin_too() {
    let replay = replay_of(vec![header(), intent(0, "ask"), result(0, "answer", 7, 10)]).unwrap();
    let mut journal = Journal::load(replay, false, false).unwrap();
    assert_eq!(journal.begin("other").err().unwrap(), "agent replay diverged at operation 0");
    assert!(journal.next_matches("ask"));
}

#[test]
fn the_chain_links_each_record_to_the_one_before() {
    let first = link_for("", r#"{"kind":"header"}"#);
    assert_eq!(first.len(), 64);
    assert_eq!(check_link("", "", &first, r#"{"kind":"header"}"#), Ok(first.clone()));
    assert_eq!(check_link("", "", &first, r#"{"kind":"headr"}"#).unwrap_err(), "journal hash chain mismatch");
    assert_eq!(check_link("x", "", &first, r#"{"kind":"header"}"#).unwrap_err(), "journal hash chain mismatch");
    let second = link_for(&first, r#"{"kind":"intent"}"#);
    assert_ne!(second, first);
    assert_eq!(check_link(&first, &first, &second, r#"{"kind":"intent"}"#), Ok(second.clone()));
}

#[test]
fn an_oversized_or_cut_journal_is_refused() {
    assert!(file_fits(64 * 1024 * 1024).is_ok());
    assert_eq!(file_fits(64 * 1024 * 1024 + 1).unwrap_err(), "journal exceeds 64 MiB");
    assert!(source_fits(10, true).is_ok());
    let cut = "journal is truncated or oversized; refusing to repeat uncertain operations";
    assert_eq!(source_fits(10, false).unwrap_err(), cut);
    assert_eq!(source_fits(64 * 1024 * 1024 + 1, true).unwrap_err(), cut);
    assert!(append_fits(100, 64 * 1024 * 1024 - 101).is_ok());
    assert_eq!(append_fits(100, 64 * 1024 * 1024 - 100).unwrap_err(), "journal exceeds 64 MiB");
}

#[test]
fn the_metadata_report_counts_operations_by_kind_and_actor() {
    let a = r#"{"actor":"root","kind":"model","request":{}}"#;
    let b = r#"{"actor":"child","kind":"tool","request":{"name":"add"}}"#;
    let c = r#"{"kind":"tool"}"#;
    let replay = replay_of(vec![
        header(),
        intent(0, a),
        result(0, "1", 1, 5),
        intent(1, b),
        result(1, "2", 1, 9),
        intent(2, c),
        result(2, "3", 1, 12),
        intent(3, b),
    ])
    .unwrap();
    let journal = Journal::load(replay, true, true).unwrap();
    assert_eq!(
        journal.report(321),
        r#"{"bytes":321,"completed_operations":3,"fingerprint":"fp","hash_chain_verified":true,"operations_by_actor":{"child":1,"root":1,"unknown":1},"operations_by_kind":{"model":1,"tool":2},"pending_operation":{"actor":"child","index":3,"kind":"tool","name":"add"},"recorded_elapsed_ms":12,"replay_verified":false,"status":"uncertain"}"#
    );
}
