use porta::ceilings::{
    ceiling_passed, exit_code, hard_limit, memory_bytes, must_poll, poll_outcome, unsettable_ceiling, Ceiling, MIB,
};
use porta::host_process::{command_args, wt_exec_command, wt_home_dir, wt_kill, wt_spawn, Ran};
use porta::memory_ceiling::unavailable;

fn cpu(value: u64) -> Ceiling {
    Ceiling { resource: 0, cpu: true, value, flag: "--max-cpu".into() }
}

fn files(value: u64) -> Ceiling {
    Ceiling { resource: 7, cpu: false, value, flag: "--max-files".into() }
}

#[test]
fn a_cpu_ceiling_is_killed_a_second_after_its_signal() {
    assert_eq!(hard_limit(&cpu(10)), 11);
    assert_eq!(hard_limit(&files(10)), 10);
}

#[test]
fn a_ceiling_above_the_users_hard_limit_is_refused_with_the_numbers() {
    let ceilings = vec![files(100), cpu(10)];
    assert_eq!(unsettable_ceiling(&ceilings, &vec![Ok(None), Ok(Some(11))]), None);
    assert_eq!(
        unsettable_ceiling(&ceilings, &vec![Ok(Some(100)), Ok(Some(10))]).unwrap(),
        "--max-cpu asks for 10 but this user's hard limit is 10; an unprivileged process can only lower it"
    );
    assert_eq!(
        unsettable_ceiling(&ceilings, &vec![Err("EPERM".into()), Ok(Some(1))]).unwrap(),
        "--max-files cannot be applied: EPERM"
    );
}

#[test]
fn an_exit_code_is_the_code_or_128_and_the_signal() {
    assert_eq!(exit_code(Some(3), None), 3);
    assert_eq!(exit_code(None, Some(9)), 137);
    assert_eq!(exit_code(None, None), 128);
}

#[test]
fn cpu_is_checked_before_memory() {
    assert_eq!(ceiling_passed(2_000_000_000, 10, 2, 5), Some(152));
    assert_eq!(ceiling_passed(1_999_999_999, 10, 2, 5), Some(137));
    assert_eq!(ceiling_passed(1_999_999_999, 4, 2, 5), None);
    assert_eq!(ceiling_passed(u128::MAX, u64::MAX, 0, 0), None);
}

#[test]
fn a_look_at_a_running_group_decides_in_order() {
    assert!(must_poll(1, false, 0, 0));
    assert!(!must_poll(0, false, 5, 5));
    assert!(must_poll(0, true, 0, 5));
    assert!(!must_poll(0, true, 0, 0));
    assert_eq!(poll_outcome(Some(0), true, Some(152)), Some((0, false)));
    assert_eq!(poll_outcome(None, true, Some(152)), Some((124, true)));
    assert_eq!(poll_outcome(None, false, Some(152)), Some((152, true)));
    assert_eq!(poll_outcome(None, false, None), None);
}

#[test]
fn a_memory_ceiling_is_mib_and_saturates() {
    assert_eq!(memory_bytes(3), 3 * MIB);
    assert_eq!(memory_bytes(u64::MAX), u64::MAX);
    assert_eq!(memory_bytes(u64::MAX / MIB), (u64::MAX / MIB) * MIB);
}

#[test]
fn a_memory_ceiling_needs_the_user_manager() {
    assert_eq!(unavailable(true, "/run/user/1/bus", true), None);
    assert_eq!(
        unavailable(false, "/run/user/1/bus", true).unwrap(),
        "a memory ceiling is a cgroup v2 limit set through the systemd user manager, and busctl is not installed"
    );
    assert_eq!(
        unavailable(true, "/run/user/1/bus", false).unwrap(),
        "a memory ceiling is a cgroup v2 limit set through the systemd user manager, and its bus /run/user/1/bus is not there; log in through systemd-logind, or run `loginctl enable-linger $USER` once, so a user manager runs for you"
    );
}

#[test]
fn command_arguments_are_a_json_list_of_strings() {
    assert_eq!(command_args("").unwrap(), Vec::<String>::new());
    assert_eq!(command_args("[]").unwrap(), Vec::<String>::new());
    assert_eq!(command_args("[\"-l\", \"/tmp\"]").unwrap(), vec!["-l".to_string(), "/tmp".to_string()]);
    assert!(command_args("[1]").is_err());
    assert_eq!(command_args("x").unwrap_err(), "expected value at line 1 column 1");
}

#[test]
fn a_command_run_is_reported_as_json() {
    let args = Ok(vec!["ls".to_string()]);
    let ran = Ran::Finished { code: Some(2), stdout: "a\"b\\\n".into(), stderr: "\t\r".into() };
    assert_eq!(wt_exec_command(&args, &ran), r#"{"exit_code":2,"stdout":"a\"b\\\n","stderr":"\t\r"}"#);
    let killed = Ran::Finished { code: None, stdout: String::new(), stderr: String::new() };
    assert_eq!(wt_exec_command(&args, &killed), r#"{"exit_code":-1,"stdout":"","stderr":""}"#);
    assert_eq!(wt_exec_command(&args, &Ran::Failed("no such file".into())), r#"{"error":"exec failed: no such file"}"#);
    assert_eq!(wt_exec_command(&Err("bad".into()), &killed), r#"{"error":"invalid args: bad"}"#);
    assert_eq!(wt_spawn(&args, Some(42)), 42);
    assert_eq!(wt_spawn(&args, None), -1);
    assert_eq!(wt_spawn(&Err("bad".into()), Some(42)), -1);
    assert_eq!(wt_kill(0), 0);
    assert_eq!(wt_kill(-1), -1);
    assert_eq!(wt_home_dir(Some("/home/u".into())), "/home/u");
    assert_eq!(wt_home_dir(None), "/tmp");
}

#[test]
fn a_command_reply_escapes_every_embedded_text() {
    let bad: Result<Vec<String>, String> = Err("expected \"[\"".to_string());
    assert_eq!(wt_exec_command(&bad, &Ran::Failed(String::new())), r#"{"error":"invalid args: expected \"[\""}"#);
    let args: Result<Vec<String>, String> = Ok(Vec::new());
    let ran = Ran::Finished { code: Some(0), stdout: "\u{1b}[0m".into(), stderr: String::new() };
    assert_eq!(wt_exec_command(&args, &ran), r#"{"exit_code":0,"stdout":"\u001b[0m","stderr":""}"#);
    assert_eq!(wt_exec_command(&args, &Ran::Failed("no \"sh\"".into())), r#"{"error":"exec failed: no \"sh\""}"#);
}
