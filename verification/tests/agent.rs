use porta::agent::{
    agent_check, agent_checkpoint, agent_close, agent_journal_inspect, agent_open, agent_open_record,
    agent_open_resume, agent_step, fail, fingerprint_of, same_team, Runs,
};

#[test]
fn a_failure_is_an_error_object() {
    assert_eq!(fail("no"), r#"{"error":"no"}"#);
    assert_eq!(fail("a\"b\\c\n\u{1}"), r#"{"error":"a\"b\\c\n\u0001"}"#);
}

#[test]
fn runs_get_fresh_handles_and_are_gone_once_closed() {
    let mut runs: Runs<&str> = Runs::new();
    assert_eq!(agent_open(&mut runs, Ok("first")), r#"{"handle":1}"#);
    assert_eq!(agent_open_record(&mut runs, Ok("second")), r#"{"handle":2}"#);
    assert_eq!(agent_open_resume(&mut runs, Err("bad journal".to_string())), r#"{"error":"bad journal"}"#);
    assert_eq!(agent_open_resume(&mut runs, Ok("third")), r#"{"handle":3}"#);
    let (at, journaled) = agent_step(&runs, 2).unwrap();
    assert!(journaled);
    assert_eq!(*runs.run_at(at), "second");
    assert_eq!(agent_step(&runs, 9).unwrap_err(), r#"{"error":"unknown agent run"}"#);
    assert_eq!(agent_checkpoint(&runs, 1).unwrap_err(), r#"{"error":"checkpoint requires --record"}"#);
    assert_eq!(*runs.run_at(agent_checkpoint(&runs, 3).unwrap()), "third");
    assert_eq!(agent_close(&mut runs, 1), 0);
    assert_eq!(agent_close(&mut runs, 1), -1);
    assert_eq!(agent_step(&runs, 1).unwrap_err(), r#"{"error":"unknown agent run"}"#);
    assert_eq!(agent_close(&mut runs, -1), -1);
    assert_eq!(agent_close(&mut runs, 0), -1);
    assert_eq!(agent_step(&runs, 0).unwrap_err(), r#"{"error":"unknown agent run"}"#);
}

#[test]
fn an_inspection_is_the_report_or_the_error() {
    assert_eq!(agent_journal_inspect(Ok("{\"status\":\"complete\"}".into())), "{\"status\":\"complete\"}");
    assert_eq!(agent_journal_inspect(Err("gone".into())), r#"{"error":"gone"}"#);
}

#[test]
fn a_journal_resumes_only_the_team_that_wrote_it() {
    let abc = "ba7816bf8f01cfea414140de5dae2223b00361a396177a9cb410ff61f20015ad";
    assert_eq!(fingerprint_of("abc"), abc);
    assert!(same_team("abc", abc).is_ok());
    assert_eq!(
        same_team("abd", abc).unwrap_err(),
        "journal fingerprint mismatch: configuration, WASM artifacts or mount bindings changed"
    );
    assert_eq!(
        agent_check(&Ok(("abc".into(), "{\"agents\":1}".into()))),
        format!("{{\"fingerprint\":\"{abc}\",\"team\":{{\"agents\":1}},\"valid\":true}}")
    );
    assert_eq!(agent_check(&Err("bad".into())), r#"{"error":"bad"}"#);
}

#[test]
fn handle_zero_is_never_given_out() {
    let mut runs: Runs<u8> = Runs::new();
    assert_eq!(agent_close(&mut runs, 0), -1);
    for k in 1..=5u8 {
        assert_eq!(agent_open(&mut runs, Ok(k)), format!("{{\"handle\":{k}}}"));
    }
    assert_eq!(agent_close(&mut runs, 0), -1);
}

#[test]
fn a_string_is_quoted_as_serde_json_quotes_it() {
    let mut every: String = (0u32..0x90).filter_map(char::from_u32).collect();
    every.push_str("é☃😀\u{2028}");
    for text in ["", "plain", "q\"b\\s/", every.as_str()] {
        assert_eq!(porta::agent::json_string(text), serde_json::to_string(text).unwrap());
    }
}
