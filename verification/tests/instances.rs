use porta::instances::{
    consumed, is_component, tool_command, wt_create, wt_destroy, wt_get_exit_code, wt_get_fuel_consumed,
    wt_get_stderr, wt_get_stdout, wt_preopen_dir, wt_set_args, wt_set_entry, wt_set_env, wt_set_max_memory,
    wt_set_stdin, wt_set_tool_stdin, Instances,
};

#[test]
fn an_instance_is_created_with_the_defaults() {
    let mut instances: Instances<&str> = Instances::new();
    assert_eq!(wt_create(&mut instances, None, 10), -1);
    assert_eq!(wt_create(&mut instances, Some("a"), 10), 0);
    assert_eq!(wt_create(&mut instances, Some("b"), -5), 1);
    let a = instances.get(0).unwrap();
    assert_eq!((a.code, a.fuel, a.max_memory_bytes), ("a", 10, 0));
    assert_eq!(a.entry_point, "_start");
    assert!(a.stdin_data.is_empty() && a.wasi_args.is_empty() && a.env_vars.is_empty());
    assert_eq!(instances.get(1).unwrap().fuel, 0);
    assert!(instances.get(2).is_none());
    assert!(instances.get(-1).is_none());
}

#[test]
fn settings_change_only_the_named_instance() {
    let mut instances: Instances<u8> = Instances::new();
    wt_create(&mut instances, Some(1), 0);
    wt_create(&mut instances, Some(2), 0);
    assert_eq!(wt_set_stdin(&mut instances, 1, "hé"), 0);
    assert_eq!(instances.get(1).unwrap().stdin_data, "hé".as_bytes().to_vec());
    assert!(instances.get(0).unwrap().stdin_data.is_empty());
    assert_eq!(wt_set_args(&mut instances, 0, "[\"a\",\"b\"]"), 0);
    assert_eq!(instances.get(0).unwrap().wasi_args, vec!["a".to_string(), "b".to_string()]);
    assert_eq!(wt_set_args(&mut instances, 0, "[1]"), -1);
    assert_eq!(wt_set_args(&mut instances, 7, "[]"), -1);
    assert_eq!(wt_set_env(&mut instances, 0, "K", "V"), 0);
    assert_eq!(wt_set_env(&mut instances, 0, "L", "W"), 0);
    assert_eq!(
        instances.get(0).unwrap().env_vars,
        vec![("K".to_string(), "V".to_string()), ("L".to_string(), "W".to_string())]
    );
    assert_eq!(wt_set_max_memory(&mut instances, 0, 2), 0);
    assert_eq!(instances.get(0).unwrap().max_memory_bytes, 131072);
    assert_eq!(wt_set_max_memory(&mut instances, 0, -1), 0);
    assert_eq!(instances.get(0).unwrap().max_memory_bytes, 0);
    assert_eq!(wt_set_entry(&mut instances, 0, "main"), 0);
    assert_eq!(instances.get(0).unwrap().entry_point, "main");
    assert_eq!(wt_preopen_dir(&mut instances, 0, "/host", "/guest"), 0);
    assert_eq!(instances.get(0).unwrap().preopen_dirs, vec![("/host".to_string(), "/guest".to_string())]);
    assert_eq!(wt_set_entry(&mut instances, 5, "main"), -1);
    assert!(instances.get(1).unwrap().wasi_args.is_empty());
}

#[test]
fn a_tool_command_is_framed_by_its_length() {
    let frame = tool_command("grep", "{\"q\":1}");
    let body = b"{\"tool\":\"grep\",\"arguments\":{\"q\":1}}";
    assert_eq!(&frame[..4], &(body.len() as u32).to_le_bytes());
    assert_eq!(&frame[4..], body);
    let mut instances: Instances<u8> = Instances::new();
    wt_create(&mut instances, Some(0), 0);
    assert_eq!(wt_set_tool_stdin(&mut instances, 0, "grep", "{\"q\":1}"), 0);
    assert_eq!(instances.get(0).unwrap().stdin_data, frame);
}

#[test]
fn a_runs_results_are_read_back_and_the_instance_destroyed() {
    let mut instances: Instances<u8> = Instances::new();
    wt_create(&mut instances, Some(0), 100);
    assert!(instances.record(0, "out".into(), "err".into(), 3, 40));
    assert!(!instances.record(4, "x".into(), "y".into(), 1, 1));
    assert_eq!(wt_get_stdout(&instances, 0), "out");
    assert_eq!(wt_get_stderr(&instances, 0), "err");
    assert_eq!(wt_get_exit_code(&instances, 0), 3);
    assert_eq!(wt_get_fuel_consumed(&instances, 0), 40);
    assert_eq!(wt_get_stdout(&instances, 1), "");
    assert_eq!(wt_get_exit_code(&instances, 1), -1);
    assert_eq!(wt_get_fuel_consumed(&instances, 1), 0);
    let (code, gone) = wt_destroy(&mut instances, 0);
    assert_eq!(code, 0);
    assert_eq!(gone.unwrap().code, 0);
    assert_eq!(wt_get_exit_code(&instances, 0), -1);
    assert_eq!(wt_destroy(&mut instances, 0).0, 0);
    assert_eq!(wt_destroy(&mut instances, 1).0, -1);
}

#[test]
fn a_component_is_told_by_its_header() {
    assert!(is_component(&[0, 0x61, 0x73, 0x6d, 0x0d, 0, 1, 0, 9]));
    assert!(!is_component(&[0, 0x61, 0x73, 0x6d, 1, 0, 0, 0]));
    assert!(!is_component(&[0, 0x61, 0x73]));
}

#[test]
fn fuel_consumed_is_what_was_given_less_what_is_left() {
    assert_eq!(consumed(100, 30, 9), 70);
    assert_eq!(consumed(100, 130, 9), 0);
    assert_eq!(consumed(0, 30, 9), 9);
}
