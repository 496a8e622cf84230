use porta::runtime::{
    admit_check, admit_model_call, admit_step, charge_fuel, check_delegation, check_guest_input, check_model_response,
    check_names, claim_name, digest, fuel_used, is_identifier, judge_verdict, route_tool, validate_endpoint,
    validate_settings, verified_digest, Budget, Counters, Limits, Route,
};
use porta::runtime::{
    check_guest, check_history, check_tool_schema, tool_arguments_violations, check_move, count_delegation, count_step, count_tool_call, guest_failure, tick_move, GuestAction, TickEvent, TickMove, TickState,
    schema_violations, tool_step, CheckMove, ToolStep,
};

const REFUSED: &str = "model endpoint must use HTTPS (HTTP only on loopback), without credentials, query or fragment";

fn fresh() -> Counters {
    Counters { steps: 0, model_calls: 0, tool_calls: 0, fuel: 0, done: false }
}

#[test]
fn an_endpoint_is_https_or_loopback_http_and_bare() {
    assert!(validate_endpoint("https://api.example.com/v1").is_ok());
    assert!(validate_endpoint("http://localhost:8080/v1").is_ok());
    assert!(validate_endpoint("http://127.0.0.1/v1").is_ok());
    assert!(validate_endpoint("http://[::1]:9/v1").is_ok());
    assert_eq!(validate_endpoint("http://example.com/v1").unwrap_err(), REFUSED);
    assert_eq!(validate_endpoint("https://user@example.com/").unwrap_err(), REFUSED);
    assert_eq!(validate_endpoint("https://u:p@example.com/").unwrap_err(), REFUSED);
    assert_eq!(validate_endpoint("https://example.com/?q=1").unwrap_err(), REFUSED);
    assert_eq!(validate_endpoint("https://example.com/#f").unwrap_err(), REFUSED);
    assert_eq!(validate_endpoint("not a url").unwrap_err(), "invalid model endpoint");
}

#[test]
fn settings_are_checked_in_order() {
    let ok = Limits::standard();
    assert_eq!(ok.max_steps, 64);
    assert_eq!(ok.memory_pages, 1024);
    assert!(validate_settings(1, &ok, 10, true, "m", "https://a.example").is_ok());
    assert_eq!(
        validate_settings(2, &ok, 10, true, "m", "https://a.example").unwrap_err(),
        "unsupported agent config version (expected 1)"
    );
    let mut big = ok;
    big.memory_pages = 65537;
    assert_eq!(
        validate_settings(1, &big, 10, true, "m", "https://a.example").unwrap_err(),
        "agent budgets must be positive; memory <= 65536 pages and timeout <= 86400 seconds"
    );
    assert_eq!(
        validate_settings(1, &ok, 0, true, "m", "https://a.example").unwrap_err(),
        "task must be nonempty and at most 512 KiB"
    );
    assert_eq!(
        validate_settings(1, &ok, 524289, true, "m", "https://a.example").unwrap_err(),
        "task must be nonempty and at most 512 KiB"
    );
    assert!(validate_settings(1, &ok, 524288, true, "m", "https://a.example").is_ok());
    assert_eq!(
        validate_settings(1, &ok, 1, false, "m", "https://a.example").unwrap_err(),
        "model.temperature must be finite and between 0 and 2"
    );
    assert_eq!(validate_settings(1, &ok, 1, true, "  ", "https://a.example").unwrap_err(), "model.name is required");
    assert_eq!(validate_settings(1, &ok, 1, true, "m", "ftp://a.example").unwrap_err(), REFUSED);
}

#[test]
fn names_are_unique_identifiers() {
    assert!(is_identifier("a-b_C9"));
    assert!(!is_identifier(""));
    assert!(!is_identifier("a b"));
    assert!(!is_identifier("é"));
    let mut names = vec![];
    assert!(claim_name(&mut names, "grep", "tool").is_ok());
    assert_eq!(
        claim_name(&mut names, "grep", "tool").unwrap_err(),
        "tool names must be unique, nonempty ASCII letters, numbers, underscores or hyphens"
    );
    assert_eq!(
        claim_name(&mut names, "a.b", "agent").unwrap_err(),
        "agent names must be unique, nonempty ASCII letters, numbers, underscores or hyphens"
    );
    assert_eq!(names, vec!["grep".to_string()]);
    assert!(check_names(&vec!["a".into(), "b".into()], "completion").is_ok());
    assert_eq!(
        check_names(&vec!["a".into(), "a".into()], "completion").unwrap_err(),
        "completion check names must be unique nonempty ASCII identifiers"
    );
    let many: Vec<String> = (0..17).map(|i| format!("c{i}")).collect();
    assert_eq!(check_names(&many, "completion").unwrap_err(), "at most 16 completion checks are supported");
}

#[test]
fn a_pin_must_match_the_sha256_of_the_bytes() {
    let abc = "ba7816bf8f01cfea414140de5dae2223b00361a396177a9cb410ff61f20015ad";
    assert_eq!(digest(b"abc"), abc);
    assert_eq!(verified_digest(b"abc", Some(abc), true, "tool x").unwrap(), abc);
    assert_eq!(verified_digest(b"abc", None, false, "tool x").unwrap(), abc);
    assert_eq!(verified_digest(b"abc", None, true, "tool x").unwrap_err(), "sha256 is required for tool x");
    assert_eq!(
        verified_digest(b"abc", Some("ABC"), false, "tool x").unwrap_err(),
        "sha256 for tool x must be 64 lowercase hexadecimal characters"
    );
    let other = "0000000000000000000000000000000000000000000000000000000000000000";
    assert_eq!(verified_digest(b"abc", Some(other), false, "tool x").unwrap_err(), "sha256 mismatch for tool x");
}

#[test]
fn steps_are_charged_to_the_run_and_the_team() {
    let mut limits = Limits::standard();
    limits.max_steps = 1;
    let mut team = Budget::for_limits(&limits);
    let run = fresh();
    assert!(admit_step(&run, &limits, &mut team).is_ok());
    assert_eq!(team.steps, 1);
    assert_eq!(admit_step(&run, &limits, &mut team).unwrap_err(), "team step budget exceeded");
    let done = Counters { done: true, ..fresh() };
    assert_eq!(admit_step(&done, &limits, &mut team).unwrap_err(), "agent run already completed");
    let spent = Counters { steps: 1, ..fresh() };
    assert_eq!(admit_step(&spent, &limits, &mut team).unwrap_err(), "agent step budget exceeded");

    let mut run = fresh();
    let mut team = Budget::for_limits(&limits);
    assert!(admit_check(&mut run, &limits, &mut team).is_ok());
    assert_eq!((run.steps, team.steps, team.verification_calls), (1, 1, 1));
    assert_eq!(
        admit_check(&mut run, &limits, &mut team).unwrap_err(),
        "agent step budget exceeded during verification"
    );
    let mut other = fresh();
    assert_eq!(
        admit_check(&mut other, &limits, &mut team).unwrap_err(),
        "team step budget exceeded during verification"
    );
}

#[test]
fn model_calls_are_refused_in_order() {
    let mut limits = Limits::standard();
    limits.max_model_calls = 1;
    let mut team = Budget::for_limits(&limits);
    let mut run = fresh();
    assert_eq!(
        admit_model_call(&mut run, &limits, false, 10, &mut team).unwrap_err(),
        "model messages must be a nonempty list of messages with roles"
    );
    assert_eq!(
        admit_model_call(&mut run, &limits, true, 1048577, &mut team).unwrap_err(),
        "model request exceeds 1 MiB"
    );
    assert!(admit_model_call(&mut run, &limits, true, 1048576, &mut team).is_ok());
    assert_eq!((run.model_calls, team.model_calls), (1, 1));
    assert_eq!(admit_model_call(&mut run, &limits, true, 1, &mut team).unwrap_err(), "model call budget exceeded");
    let mut other = fresh();
    assert_eq!(
        admit_model_call(&mut other, &limits, true, 1, &mut team).unwrap_err(),
        "team model call budget exceeded"
    );
    assert!(check_model_response(200, 5).is_ok());
    assert_eq!(check_model_response(404, 5).unwrap_err(), "model returned HTTP 404");
    assert_eq!(check_model_response(299, 1048577).unwrap_err(), "model response exceeds 1 MiB");
}

#[test]
fn fuel_is_what_was_given_less_what_was_left() {
    assert_eq!(fuel_used(100, 30), 70);
    let mut run = fresh();
    let mut team = Budget::for_limits(&Limits::standard());
    charge_fuel(&mut run, &mut team, 70);
    charge_fuel(&mut run, &mut team, u64::MAX);
    assert_eq!((run.fuel, team.fuel), (u64::MAX, u64::MAX));
}

#[test]
fn a_tool_call_goes_to_a_delegate_then_remote_then_local() {
    let d = vec!["x".to_string()];
    let r = vec!["x".to_string(), "y".to_string()];
    let l = vec!["y".to_string(), "z".to_string()];
    assert_eq!(route_tool("x", &d, &r, &l).unwrap(), Route::Delegate);
    assert_eq!(route_tool("y", &d, &r, &l).unwrap(), Route::Remote);
    assert_eq!(route_tool("z", &d, &r, &l).unwrap(), Route::Local);
    assert_eq!(route_tool("w", &d, &r, &l).unwrap_err(), "tool not granted: w");
}

#[test]
fn a_delegation_carries_only_a_task() {
    assert!(check_delegation(Some(3), 1).is_ok());
    assert_eq!(check_delegation(None, 1).unwrap_err(), "delegation requires a nonempty task of at most 512 KiB");
    assert_eq!(check_delegation(Some(0), 1).unwrap_err(), "delegation requires a nonempty task of at most 512 KiB");
    assert_eq!(
        check_delegation(Some(524289), 1).unwrap_err(),
        "delegation requires a nonempty task of at most 512 KiB"
    );
    assert_eq!(check_delegation(Some(3), 2).unwrap_err(), "delegation accepts only the task field");
}

#[test]
fn a_failed_check_must_say_what_to_correct() {
    let mut team = Budget::for_limits(&Limits::standard());
    assert_eq!(judge_verdict(true, "", &mut team).unwrap(), true);
    assert_eq!(
        judge_verdict(false, " \n", &mut team).unwrap_err(),
        "failed completion check must explain what needs correction"
    );
    assert_eq!(team.verification_failures, 0);
    assert_eq!(judge_verdict(false, "add tests", &mut team).unwrap(), false);
    assert_eq!(team.verification_failures, 1);
    assert!(check_guest_input(1048576, "tool output").is_ok());
    assert_eq!(check_guest_input(1048577, "tool output").unwrap_err(), "tool output exceeds 1 MiB");
}

#[test]
fn a_tool_call_is_checked_before_it_runs() {
    let d = vec!["helper".to_string()];
    let r: Vec<String> = vec![];
    let l = vec!["grep".to_string()];
    assert_eq!(tool_step("grep", false, None, &d, &r, &l).unwrap_err(), "tool arguments must be an object");
    assert_eq!(tool_step("nope", true, Some(false), &d, &r, &l).unwrap(), ToolStep::InvalidArguments);
    assert_eq!(tool_step("grep", true, Some(true), &d, &r, &l).unwrap(), ToolStep::Go(Route::Local));
    assert_eq!(tool_step("helper", true, None, &d, &r, &l).unwrap(), ToolStep::Go(Route::Delegate));
    assert_eq!(tool_step("nope", true, None, &d, &r, &l).unwrap_err(), "tool not granted: nope");
    assert!(check_history(524288).is_ok());
    assert_eq!(check_history(524289).unwrap_err(), "verification tool history exceeds 512 KiB");
    assert_eq!(guest_failure("stuck"), "agent failed: stuck");
}

#[test]
fn schema_violations_name_where_and_stop_at_five() {
    let mut errors: Vec<(String, String)> = Vec::new();
    errors.push((String::new(), "\"n\" is a required property".to_string()));
    errors.push(("/a".to_string(), "\"x\" is not of type \"integer\"".to_string()));
    for k in 0..5 {
        errors.push((format!("/extra{k}"), "unexpected".to_string()));
    }
    let lines = schema_violations(&errors);
    assert_eq!(lines.len(), 5);
    assert_eq!(lines[0], "arguments: \"n\" is a required property");
    assert_eq!(lines[1], "/a: \"x\" is not of type \"integer\"");
    assert_eq!(lines[4], "/extra2: unexpected");
    assert!(schema_violations(&Vec::new()).is_empty());
}

#[test]
fn a_long_violation_is_cut_on_a_character_boundary() {
    let errors = vec![("/é".to_string(), "é".repeat(150))];
    let lines = schema_violations(&errors);
    assert_eq!(lines.len(), 1);
    let line = &lines[0];
    assert!(line.ends_with('…'));
    let kept = &line[..line.len() - '…'.len_utf8()];
    assert_eq!(kept, format!("/é: {}", "é".repeat(97)));
    assert_eq!(kept.len(), 199);
}

#[test]
fn a_guest_imports_from_wasi_preview_one_only() {
    let wasi = ("wasi_snapshot_preview1".to_string(), "fd_write".to_string());
    let env = ("env".to_string(), "secret".to_string());
    assert_eq!(check_guest(&vec![wasi.clone()], true, "agent.wasm"), Ok(()));
    assert_eq!(check_guest(&Vec::new(), true, "agent.wasm"), Ok(()));
    assert_eq!(
        check_guest(&vec![wasi.clone(), env.clone()], false, "agent.wasm").unwrap_err(),
        "unsupported host import: env.secret"
    );
    assert_eq!(
        check_guest(&vec![wasi], false, "agent.wasm").unwrap_err(),
        "WASM agent.wasm must export _start with no parameters or results"
    );
}

#[test]
fn checks_run_in_order_and_the_first_failure_is_the_answer() {
    assert_eq!(check_move(&vec![], 3, false), CheckMove::Run(0));
    assert_eq!(check_move(&vec![true], 3, false), CheckMove::Run(1));
    assert_eq!(check_move(&vec![true, false], 3, false), CheckMove::Fail(1));
    assert_eq!(check_move(&vec![true, true, true], 3, false), CheckMove::Pass);
    assert_eq!(check_move(&vec![true, true, true], 3, true), CheckMove::Recheck);
    assert_eq!(check_move(&vec![], 0, false), CheckMove::Pass);
}

#[test]
fn a_run_finishes_only_when_every_check_passed() {
    let mut run = fresh();
    let done = TickEvent::Action(GuestAction::Done);
    assert_eq!(tick_move(TickState::Deciding, done, &mut run), (TickState::Checking, TickMove::RunChecks));
    assert!(!run.done);
    assert_eq!(
        tick_move(TickState::Checking, TickEvent::ChecksFailed, &mut run),
        (TickState::Deciding, TickMove::VerificationFailed)
    );
    assert!(!run.done);
    assert_eq!(tick_move(TickState::Deciding, TickEvent::ChecksPassed, &mut run), (TickState::Deciding, TickMove::Failed));
    assert!(!run.done);
    assert_eq!(tick_move(TickState::Checking, TickEvent::ChecksPassed, &mut run), (TickState::Deciding, TickMove::Finish));
    assert!(run.done);
}

#[test]
fn a_tool_runs_only_after_routing_and_its_checks() {
    let mut run = fresh();
    let tool = TickEvent::Action(GuestAction::Tool);
    assert_eq!(tick_move(TickState::Deciding, tool, &mut run), (TickState::Routing, TickMove::RouteTool));
    assert_eq!(tick_move(TickState::Routing, TickEvent::ToolRouted(false), &mut run), (TickState::Deciding, TickMove::RejectTool));
    assert_eq!(
        tick_move(TickState::Routing, TickEvent::ToolRouted(true), &mut run),
        (TickState::ToolChecking, TickMove::RunToolChecks)
    );
    assert_eq!(tick_move(TickState::ToolChecking, TickEvent::ChecksFailed, &mut run), (TickState::Deciding, TickMove::RejectTool));
    assert_eq!(tick_move(TickState::ToolChecking, TickEvent::ChecksPassed, &mut run), (TickState::Deciding, TickMove::CallTool));
    assert_eq!(
        tick_move(TickState::Deciding, TickEvent::Action(GuestAction::Model), &mut run),
        (TickState::Deciding, TickMove::CallModel)
    );
    assert_eq!(tick_move(TickState::Deciding, TickEvent::Action(GuestAction::Fail), &mut run), (TickState::Deciding, TickMove::Failed));
    assert!(!run.done);
}

#[test]
fn counting_only_raises_the_counters() {
    let limits = Limits::standard();
    let mut run = fresh();
    let mut team = Budget::for_limits(&limits);
    count_step(&mut run, &limits);
    count_tool_call(&mut run, &mut team);
    count_delegation(&mut team);
    assert_eq!((run.steps, run.tool_calls, team.tool_calls, team.delegations), (1, 1, 1, 1));
    assert_eq!(team.steps, 0);
}

#[test]
fn a_tool_schema_must_build_and_arguments_are_checked_against_it() {
    let schema = r#"{"type":"object","properties":{"n":{"type":"integer"}},"required":["n"]}"#;
    assert_eq!(check_tool_schema("add", schema, true), Ok(()));
    assert_eq!(check_tool_schema("add", "[]", false).unwrap_err(), "tool add input_schema must be an object");
    assert_eq!(
        check_tool_schema("add", r#"{"type":"nope"}"#, true).unwrap_err(),
        "tool add has an invalid or unresolved input_schema"
    );
    assert_eq!(tool_arguments_violations(schema, r#"{"n":3}"#), Some(Vec::new()));
    let missing = tool_arguments_violations(schema, "{}").unwrap();
    assert_eq!(missing.len(), 1);
    assert!(missing[0].starts_with("arguments: "), "{missing:?}");
    let wrong = tool_arguments_violations(schema, r#"{"n":"x"}"#).unwrap();
    assert_eq!(wrong.len(), 1);
    assert!(wrong[0].starts_with("/n: "), "{wrong:?}");
    assert_eq!(tool_arguments_violations(schema, "not json"), None);
}

#[test]
fn the_nearer_deadline_counts_and_none_left_is_refused() {
    assert_eq!(porta::runtime::remaining_time(100, 10, 20, 50, 5), Ok(45));
    assert_eq!(porta::runtime::remaining_time(100, 10, 20, 500, 5), Ok(70));
    assert_eq!(porta::runtime::remaining_time(100, 60, 40, 500, 5).unwrap_err(), "agent deadline exceeded");
    assert_eq!(porta::runtime::remaining_time(100, 0, 0, 50, 60).unwrap_err(), "agent deadline exceeded");
}
