use porta::recipes::{wt_recipe, wt_recipe_names};
use porta::sandbox_check::{linux_report, macos_report, other_report, wt_sandbox_check, wt_sandbox_check_json, Report};

#[test]
fn a_full_linux_host_enforces_everything() {
    let report = linux_report("6.8.0", 6, true);
    assert_eq!(report.platform, "Linux 6.8.0, Landlock ABI 6");
    let text = wt_sandbox_check(&report);
    assert!(text.starts_with("porta on Linux 6.8.0, Landlock ABI 6\n\nok Landlock filesystem rules (ABI 1)"));
    assert!(text.contains(
        "ok seccomp filter                               ptrace, process_vm_*, mounts, namespaces, io_uring, raw/packet sockets, MPTCP\n"
    ));
    assert!(text.ends_with("\nEvery rule porta can express is enforced on this host.\n"));
    let json = wt_sandbox_check_json(&report);
    assert!(json.starts_with("{\"platform\":\"Linux 6.8.0, Landlock ABI 6\",\"all_enforced\":true,\"missing\":0,\"primitives\":[{\"name\":\"Landlock filesystem rules (ABI 1)\""));
    assert!(json.ends_with("\"present\":true,\"otherwise\":\"porta will refuse every run: the baseline filter is part of the policy\"}]}"));
}

#[test]
fn a_missing_primitive_says_what_is_refused() {
    let report = linux_report("5.15", 3, false);
    let text = wt_sandbox_check(&report);
    assert!(text.contains("-- TCP port rules (ABI 4)                       --allow-net, --allow-bind, proxy mode\n   --allow-net and --proxy-allow are refused here\n"));
    assert!(text.ends_with("\nA rule this host cannot enforce refuses the run rather than running with less.\n"));
    assert!(wt_sandbox_check_json(&report).contains("\"all_enforced\":false,\"missing\":3,"));
}

#[test]
fn other_hosts_are_reported_exactly() {
    let mac = macos_report("14.5", true, false);
    assert_eq!(
        wt_sandbox_check(&mac),
        "porta on macOS 14.5\n\nok sandbox-exec (Seatbelt)                      writes, reads, TCP ports, Unix sockets, mach services, process info\n-- denial log (unified log)                     after a failed run, which flag each refusal would have needed\n   runs are enforced but refusals are not explained\n\nA rule this host cannot enforce refuses the run rather than running with less.\n"
    );
    let other: Report = other_report("windows");
    assert_eq!(
        wt_sandbox_check_json(&other),
        "{\"platform\":\"windows\",\"all_enforced\":false,\"missing\":1,\"primitives\":[{\"name\":\"native sandbox\",\"covers\":\"everything\",\"present\":false,\"otherwise\":\"porta has no enforcement backend on this platform and refuses every native run\"}]}"
    );
}

#[test]
fn recipes_are_found_by_name_and_listed() {
    let recipes = [("alpha", "runtime = 1\n"), ("beta", "runtime = 2\n")];
    assert_eq!(wt_recipe_names(&recipes), "alpha beta");
    assert_eq!(wt_recipe("beta", &recipes), "runtime = 2\n");
    assert_eq!(wt_recipe("nope", &recipes), "");
    assert_eq!(wt_recipe_names(&[]), "");
}
